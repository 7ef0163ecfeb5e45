use tici::identity::{identity, is_valid_session_name};
use tici::model::SessionError;

#[test]
fn identity_composes_save_path_with_hash() {
    let id = identity("/h/proj", "/h").unwrap();
    assert_eq!(id.canonical_dir, "/h/proj");
    assert_eq!(id.session_name, "proj");
    assert_eq!(id.save_path, "/h/.tmux/tici/session_7b04a95ed64784a2_proj.tmux");
}

#[test]
fn identity_hash_depends_on_whole_path() {
    let id = identity("/home/user/work", "/home/user").unwrap();
    assert_eq!(id.session_name, "work");
    assert_eq!(
        id.save_path,
        "/home/user/.tmux/tici/session_ba58499e4e376a4b_work.tmux"
    );
}

#[test]
fn identity_is_deterministic() {
    let a = identity("/h/proj", "/h").unwrap();
    let b = identity("/h/proj", "/h").unwrap();
    assert_eq!(a, b);
}

#[test]
fn save_file_name_has_sixteen_hex_between_markers() {
    let id = identity("/h/proj", "/h").unwrap();
    let file_name = id.save_path.rsplit('/').next().unwrap();
    let rest = file_name.strip_prefix("session_").unwrap();
    let hash: String = rest.chars().take_while(|c| *c != '_').collect();
    assert_eq!(hash.len(), 16);
    assert!(hash.chars().all(|c| c.is_ascii_hexdigit() && !c.is_ascii_uppercase()));
}

#[test]
fn identity_rejects_basename_with_dot() {
    assert_eq!(identity("/h/proj.v2", "/h"), Err(SessionError::InvalidSessionName));
}

#[test]
fn identity_rejects_basename_with_colon() {
    assert_eq!(identity("/h/a:b", "/h"), Err(SessionError::InvalidSessionName));
}

#[test]
fn identity_rejects_root_directory() {
    assert_eq!(identity("/", "/h"), Err(SessionError::InvalidSessionName));
}

#[test]
fn session_name_validity() {
    assert!(is_valid_session_name("proj"));
    assert!(!is_valid_session_name(""));
    assert!(!is_valid_session_name("a.b"));
    assert!(!is_valid_session_name("a:b"));
}
