//! Session identity: from a canonical working directory and the home
//! directory to the save-file path and the session name.
//!
//! The session name is the directory's basename; the save-file name embeds
//! the first sixteen hex characters of the directory's SHA-256 so that two
//! directories with the same basename get distinct files.

use vstd::prelude::*;

use sha2::{Digest, Sha256};

use crate::model::{SessionError, SessionErrorView, SessionIdentity, SessionIdentityView};
use crate::strutil::{contains_char, free_of, split_seq, split_str, views_of};

verus! {

/// The SHA-256 digest of a string's bytes.  The digest is a pure function of
/// the input, so it carries a name here; nothing else is assumed of it
/// beyond its length, stated where the digest is taken.
pub uninterp spec fn sha256_of(s: Seq<char>) -> Seq<u8>;

/// Relies on `sha2::Sha256` through `digest::Digest::digest`: the SHA-256
/// digest of the input bytes, always 32 bytes long, a function of the input
/// alone.
#[verifier::external_body]
fn sha256_digest(s: &str) -> (r: Vec<u8>)
    ensures
        r@ == sha256_of(s@),
        r@.len() == 32,
{
    Sha256::digest(s.as_bytes()).to_vec()
}

/// A lowercase hexadecimal digit character.
pub open spec fn is_lower_hex(c: char) -> bool {
    ('0' <= c && c <= '9') || ('a' <= c && c <= 'f')
}

/// The lowercase hex character for a value below sixteen.
pub open spec fn hex_char(d: nat) -> char {
    if d == 0 {
        '0'
    } else if d == 1 {
        '1'
    } else if d == 2 {
        '2'
    } else if d == 3 {
        '3'
    } else if d == 4 {
        '4'
    } else if d == 5 {
        '5'
    } else if d == 6 {
        '6'
    } else if d == 7 {
        '7'
    } else if d == 8 {
        '8'
    } else if d == 9 {
        '9'
    } else if d == 10 {
        'a'
    } else if d == 11 {
        'b'
    } else if d == 12 {
        'c'
    } else if d == 13 {
        'd'
    } else if d == 14 {
        'e'
    } else {
        'f'
    }
}

/// Two lowercase hex characters for one byte, high nibble first.
pub open spec fn hex_pair(b: u8) -> Seq<char> {
    seq![hex_char((b / 16) as nat), hex_char((b % 16) as nat)]
}

/// Lowercase hex encoding of a byte sequence.
pub open spec fn hex_of_bytes(bs: Seq<u8>) -> Seq<char>
    decreases bs.len(),
{
    if bs.len() == 0 {
        Seq::<char>::empty()
    } else {
        hex_pair(bs[0]) + hex_of_bytes(bs.drop_first())
    }
}

/// Hex encodings are twice as long as their input and all lowercase hex.
pub proof fn lemma_hex_of_bytes_props(bs: Seq<u8>)
    ensures
        hex_of_bytes(bs).len() == 2 * bs.len(),
        forall|i: int| 0 <= i < hex_of_bytes(bs).len() ==> is_lower_hex(#[trigger] hex_of_bytes(bs)[i]),
    decreases bs.len(),
{
    if bs.len() > 0 {
        lemma_hex_of_bytes_props(bs.drop_first());
        assert(is_lower_hex(hex_pair(bs[0])[0]));
        assert(is_lower_hex(hex_pair(bs[0])[1]));
    }
}

/// The hex character for one nibble.
fn hex_digit_str(d: u8) -> (r: &'static str)
    requires
        d < 16,
    ensures
        r@ =~= seq![hex_char(d as nat)],
{
    proof {
        reveal_strlit("0");
        reveal_strlit("1");
        reveal_strlit("2");
        reveal_strlit("3");
        reveal_strlit("4");
        reveal_strlit("5");
        reveal_strlit("6");
        reveal_strlit("7");
        reveal_strlit("8");
        reveal_strlit("9");
        reveal_strlit("a");
        reveal_strlit("b");
        reveal_strlit("c");
        reveal_strlit("d");
        reveal_strlit("e");
        reveal_strlit("f");
    }
    if d == 0 {
        "0"
    } else if d == 1 {
        "1"
    } else if d == 2 {
        "2"
    } else if d == 3 {
        "3"
    } else if d == 4 {
        "4"
    } else if d == 5 {
        "5"
    } else if d == 6 {
        "6"
    } else if d == 7 {
        "7"
    } else if d == 8 {
        "8"
    } else if d == 9 {
        "9"
    } else if d == 10 {
        "a"
    } else if d == 11 {
        "b"
    } else if d == 12 {
        "c"
    } else if d == 13 {
        "d"
    } else if d == 14 {
        "e"
    } else {
        "f"
    }
}

/// Hex-encodes the first `k` bytes of `bytes`.
fn hex_prefix(bytes: &Vec<u8>, k: usize) -> (r: String)
    requires
        k <= bytes@.len(),
    ensures
        r@ == hex_of_bytes(bytes@.subrange(0, k as int)),
{
    let ghost target = bytes@.subrange(0, k as int);
    let mut out = String::new();
    let mut i: usize = 0;
    proof {
        assert(target.skip(0) =~= target);
    }
    while i < k
        invariant
            target == bytes@.subrange(0, k as int),
            k <= bytes@.len(),
            0 <= i <= k,
            out@ + hex_of_bytes(target.skip(i as int)) =~= hex_of_bytes(target),
        decreases k - i,
    {
        let b = bytes[i];
        out.append(hex_digit_str(b / 16));
        out.append(hex_digit_str(b % 16));
        proof {
            let tail = target.skip(i as int);
            assert(tail[0] == b);
            assert(tail.drop_first() =~= target.skip(i + 1));
            assert(hex_pair(b) =~= seq![hex_char((b / 16) as nat)] + seq![
                hex_char((b % 16) as nat),
            ]);
            assert(out@ + hex_of_bytes(target.skip(i + 1)) =~= hex_of_bytes(target));
        }
        i = i + 1;
    }
    proof {
        assert(target.skip(k as int) =~= Seq::<u8>::empty());
        assert(out@ =~= hex_of_bytes(target));
    }
    out
}

/// The basename of a path: what follows its last separator.
pub open spec fn basename_of(dir: Seq<char>) -> Seq<char> {
    split_seq(dir, '/').last()
}

/// A usable session name: non-empty and free of the multiplexer's target
/// separators.
pub open spec fn valid_session_name(s: Seq<char>) -> bool {
    s.len() > 0 && free_of(s, ':') && free_of(s, '.')
}

/// Session-name validity test.
pub fn is_valid_session_name(s: &str) -> (r: bool)
    ensures
        r == valid_session_name(s@),
{
    s.unicode_len() > 0 && !contains_char(s, ':') && !contains_char(s, '.')
}

/// The save-file name for a canonical directory: `session_`, sixteen hex
/// characters of the directory's SHA-256, `_`, the basename, `.tmux`.
pub open spec fn spec_save_file_name(dir: Seq<char>) -> Seq<char> {
    "session_"@ + hex_of_bytes(sha256_of(dir).subrange(0, 8)) + "_"@ + basename_of(dir) + ".tmux"@
}

/// The save-file path: the save directory under home, then the file name.
pub open spec fn spec_save_path(home: Seq<char>, dir: Seq<char>) -> Seq<char> {
    home + "/.tmux/tici/"@ + spec_save_file_name(dir)
}

/// The identity triple that belongs to a canonical directory and a home
/// directory.
pub open spec fn identity_matches(dir: Seq<char>, home: Seq<char>, idv: SessionIdentityView) -> bool {
    &&& idv.canonical_dir == dir
    &&& idv.session_name == basename_of(dir)
    &&& idv.save_path == spec_save_path(home, dir)
}

/// Derives the session identity of a canonical working directory.  Fails
/// exactly when the directory's basename is empty or holds a target
/// separator; otherwise the triple is the one `identity_matches` describes,
/// and the save-file name carries the sixteen-hex-character hash prefix.
pub fn identity(canonical_dir: &str, home: &str) -> (r: Result<SessionIdentity, SessionError>)
    ensures
        (r is Ok) == valid_session_name(basename_of(canonical_dir@)),
        r matches Ok(id) ==> identity_matches(canonical_dir@, home@, id@),
        r matches Ok(id) ==> hash_prefix_shape(spec_save_file_name(canonical_dir@)),
        r matches Err(e) ==> e@ == SessionErrorView::InvalidSessionName,
{
    let parts = split_str(canonical_dir, '/');
    let base: String = parts[parts.len() - 1].clone();
    proof {
        assert(views_of(parts@).last() == base@);
    }
    if !is_valid_session_name(base.as_str()) {
        return Err(SessionError::InvalidSessionName);
    }
    let digest = sha256_digest(canonical_dir);
    let hash16 = hex_prefix(&digest, 8);
    let mut save_path = home.to_owned();
    save_path.append("/.tmux/tici/");
    save_path.append("session_");
    save_path.append(hash16.as_str());
    save_path.append("_");
    save_path.append(base.as_str());
    save_path.append(".tmux");
    proof {
        assert(save_path@ =~= spec_save_path(home@, canonical_dir@));
        lemma_save_file_name_hash_prefix(canonical_dir@);
    }
    Ok(
        SessionIdentity {
            canonical_dir: canonical_dir.to_owned(),
            save_path,
            session_name: base,
        },
    )
}

/// The shape of a save-file name around its hash: `session_` first, then
/// sixteen lowercase hex characters none of which is an underscore, then the
/// underscore separating hash from basename.
pub open spec fn hash_prefix_shape(name: Seq<char>) -> bool {
    &&& name.len() >= 25
    &&& name.subrange(0, 8) == "session_"@
    &&& forall|i: int| 8 <= i < 24 ==> is_lower_hex(#[trigger] name[i]) && name[i] != '_'
    &&& name[24] == '_'
}

/// Law of the save-file name: between `session_` and the next underscore
/// stand exactly sixteen lowercase hex characters.  The hypothesis on the
/// digest's length holds of every SHA-256 digest, whose 32 bytes the hashing
/// wrapper states.
pub proof fn lemma_save_file_name_hash_prefix(dir: Seq<char>)
    requires
        sha256_of(dir).len() >= 8,
    ensures
        hash_prefix_shape(spec_save_file_name(dir)),
{
    reveal_strlit("session_");
    reveal_strlit("_");
    reveal_strlit(".tmux");
    let hash = hex_of_bytes(sha256_of(dir).subrange(0, 8));
    lemma_hex_of_bytes_props(sha256_of(dir).subrange(0, 8));
    assert(hash.len() == 16);
    let name = spec_save_file_name(dir);
    assert(name.subrange(0, 8) =~= "session_"@);
    assert forall|i: int| 8 <= i < 24 implies is_lower_hex(#[trigger] name[i]) && name[i] != '_' by {
        assert(name[i] == hash[i - 8]);
        assert(is_lower_hex(hash[i - 8]));
    }
    assert(name[24] == "_"@[0]);
}

/// Law of identity derivation: the triple is a function of the canonical
/// directory and the home directory alone, so repeated derivations agree.
pub proof fn lemma_identity_deterministic(
    dir: Seq<char>,
    home: Seq<char>,
    a: SessionIdentityView,
    b: SessionIdentityView,
)
    requires
        identity_matches(dir, home, a),
        identity_matches(dir, home, b),
    ensures
        a == b,
{
}

} // verus!
