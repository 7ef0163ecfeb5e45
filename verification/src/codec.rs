//! The textual save-file codec.
//!
//! A save file is line oriented: each window record is a `# Window: ` line
//! with five `|`-separated fields (session, index, name, active flag,
//! layout), followed by one `# Pane: ` line per pane with six fields (index,
//! active flag, title, path, command, pid).  Fields are not escaped, so the
//! serializer refuses values holding the separator; the parser skips
//! unrecognized lines and ignores extra trailing fields.

use vstd::prelude::*;

use crate::model::{Pane, PaneView, SessionError, SessionErrorView, Window, WindowView};
use crate::strutil::{
    all_dec_digits, contains_char, dec_digits, dec_val, free_of, has_prefix, parse_u32,
    split_seq, split_str, starts_with_str, str_eq, u32_to_string, views_of,
};

verus! {

/// Tag opening a window record line.
pub open spec fn window_tag() -> Seq<char> {
    "# Window: "@
}

/// Tag opening a pane record line.
pub open spec fn pane_tag() -> Seq<char> {
    "# Pane: "@
}

/// Serialized form of an active flag: `1` or `0`.
pub open spec fn flag_seq(b: bool) -> Seq<char> {
    if b {
        seq!['1']
    } else {
        seq!['0']
    }
}

/// The window record line for `w`, without the trailing line feed.
pub open spec fn spec_window_line(w: WindowView) -> Seq<char> {
    window_tag() + w.session_name + seq!['|'] + dec_digits(w.index as nat) + seq!['|'] + w.name
        + seq!['|'] + flag_seq(w.active) + seq!['|'] + w.layout
}

/// The pane record line for `p`, without the trailing line feed.
pub open spec fn spec_pane_line(p: PaneView) -> Seq<char> {
    pane_tag() + dec_digits(p.index as nat) + seq!['|'] + flag_seq(p.active) + seq!['|'] + p.title
        + seq!['|'] + p.current_path + seq!['|'] + p.current_command + seq!['|'] + dec_digits(
        p.pid as nat,
    )
}

/// Serialization of a run of pane records, each on its own line.
pub open spec fn spec_serialize_panes(ps: Seq<PaneView>) -> Seq<char>
    decreases ps.len(),
{
    if ps.len() == 0 {
        Seq::<char>::empty()
    } else {
        spec_pane_line(ps[0]) + seq!['\n'] + spec_serialize_panes(ps.drop_first())
    }
}

/// The serialized block of one window: its record line and its pane lines.
pub open spec fn spec_window_block(w: WindowView) -> Seq<char> {
    spec_window_line(w) + seq!['\n'] + spec_serialize_panes(w.panes)
}

/// Serialization of a whole session, window blocks in order.
pub open spec fn spec_serialize_windows(ws: Seq<WindowView>) -> Seq<char>
    decreases ws.len(),
{
    if ws.len() == 0 {
        Seq::<char>::empty()
    } else {
        spec_window_block(ws[0]) + spec_serialize_windows(ws.drop_first())
    }
}

/// A pane's textual fields hold no separator.
pub open spec fn pane_serializable(p: PaneView) -> bool {
    free_of(p.title, '|') && free_of(p.current_path, '|') && free_of(p.current_command, '|')
}

/// A window's textual fields, and those of its panes, hold no separator.
pub open spec fn window_serializable(w: WindowView) -> bool {
    free_of(w.session_name, '|') && free_of(w.name, '|') && free_of(w.layout, '|')
        && forall|i: int| 0 <= i < w.panes.len() ==> pane_serializable(#[trigger] w.panes[i])
}

/// Every window of the session can be persisted.
pub open spec fn session_serializable(ws: Seq<WindowView>) -> bool {
    forall|i: int| 0 <= i < ws.len() ==> window_serializable(#[trigger] ws[i])
}

/// The flag string for an active flag.
fn flag_str(b: bool) -> (r: &'static str)
    ensures
        r@ == flag_seq(b),
{
    proof {
        reveal_strlit("1");
        reveal_strlit("0");
    }
    if b {
        "1"
    } else {
        "0"
    }
}

/// Renders one pane record line, including the trailing line feed.
fn render_pane_line(p: &Pane) -> (r: String)
    ensures
        r@ == spec_pane_line(p@) + seq!['\n'],
{
    let mut out = String::new();
    out.append("# Pane: ");
    let pidx = u32_to_string(p.index);
    out.append(pidx.as_str());
    out.append("|");
    out.append(flag_str(p.active));
    out.append("|");
    out.append(p.title.as_str());
    out.append("|");
    out.append(p.current_path.as_str());
    out.append("|");
    out.append(p.current_command.as_str());
    out.append("|");
    let ppid = u32_to_string(p.pid);
    out.append(ppid.as_str());
    out.append("\n");
    proof {
        reveal_strlit("|");
        reveal_strlit("\n");
        assert(out@ =~= spec_pane_line(p@) + seq!['\n']);
    }
    out
}

/// Renders one window block, refusing fields that hold the separator.
fn render_window(w: &Window) -> (r: Result<String, SessionError>)
    ensures
        window_serializable(w@) ==> (r matches Ok(s) && s@ == spec_window_block(w@)),
        !window_serializable(w@) ==> (r matches Err(e) && e@ == SessionErrorView::UnserializableField),
{
    if contains_char(w.session_name.as_str(), '|') || contains_char(w.name.as_str(), '|')
        || contains_char(w.layout.as_str(), '|') {
        return Err(SessionError::UnserializableField);
    }
    let mut out = String::new();
    out.append("# Window: ");
    out.append(w.session_name.as_str());
    out.append("|");
    let idx = u32_to_string(w.index);
    out.append(idx.as_str());
    out.append("|");
    out.append(w.name.as_str());
    out.append("|");
    out.append(flag_str(w.active));
    out.append("|");
    out.append(w.layout.as_str());
    out.append("\n");
    proof {
        reveal_strlit("|");
        reveal_strlit("\n");
        assert(out@ =~= spec_window_line(w@) + seq!['\n']);
    }
    let ghost panes_view = w@.panes;
    let mut pi: usize = 0;
    proof {
        assert(panes_view.skip(0) =~= panes_view);
    }
    while pi < w.panes.len()
        invariant
            panes_view == w@.panes,
            panes_view.len() == w.panes.len(),
            forall|j: int| 0 <= j < panes_view.len() ==> panes_view[j] == #[trigger] w.panes[j]@,
            0 <= pi <= panes_view.len(),
            free_of(w@.session_name, '|'),
            free_of(w@.name, '|'),
            free_of(w@.layout, '|'),
            forall|j: int| 0 <= j < pi ==> pane_serializable(#[trigger] panes_view[j]),
            out@ + spec_serialize_panes(panes_view.skip(pi as int)) =~= spec_window_block(w@),
        decreases panes_view.len() - pi,
    {
        let p = &w.panes[pi];
        if contains_char(p.title.as_str(), '|') || contains_char(p.current_path.as_str(), '|')
            || contains_char(p.current_command.as_str(), '|') {
            assert(!pane_serializable(panes_view[pi as int]));
            return Err(SessionError::UnserializableField);
        }
        let line = render_pane_line(p);
        out.append(line.as_str());
        proof {
            let tail = panes_view.skip(pi as int);
            assert(tail[0] == panes_view[pi as int]);
            assert(tail.drop_first() =~= panes_view.skip(pi + 1));
            assert(spec_serialize_panes(tail) == spec_pane_line(panes_view[pi as int])
                + seq!['\n'] + spec_serialize_panes(panes_view.skip(pi + 1)));
            assert(out@ + spec_serialize_panes(panes_view.skip(pi + 1)) =~= spec_window_block(w@));
        }
        pi = pi + 1;
    }
    proof {
        assert(panes_view.skip(panes_view.len() as int) =~= Seq::<PaneView>::empty());
        assert(out@ =~= spec_window_block(w@));
    }
    Ok(out)
}

/// Serializes a session to the save-file text.  Succeeds exactly when no
/// field holds the separator; the text is the concatenation of the windows'
/// blocks in order.
pub fn serialize_session(windows: &Vec<Window>) -> (r: Result<String, SessionError>)
    ensures
        session_serializable(crate::model::window_views(windows@)) ==> (r matches Ok(s) && s@
            == spec_serialize_windows(crate::model::window_views(windows@))),
        !session_serializable(crate::model::window_views(windows@)) ==> (r matches Err(e) && e@
            == SessionErrorView::UnserializableField),
{
    let ghost ws = crate::model::window_views(windows@);
    let mut out = String::new();
    let mut i: usize = 0;
    proof {
        assert(ws.skip(0) =~= ws);
    }
    while i < windows.len()
        invariant
            ws == crate::model::window_views(windows@),
            ws.len() == windows.len(),
            forall|j: int| 0 <= j < ws.len() ==> ws[j] == #[trigger] windows[j]@,
            0 <= i <= ws.len(),
            forall|j: int| 0 <= j < i ==> window_serializable(#[trigger] ws[j]),
            out@ + spec_serialize_windows(ws.skip(i as int)) =~= spec_serialize_windows(ws),
        decreases ws.len() - i,
    {
        match render_window(&windows[i]) {
            Ok(block) => {
                out.append(block.as_str());
                proof {
                    let tail = ws.skip(i as int);
                    assert(tail[0] == ws[i as int]);
                    assert(tail.drop_first() =~= ws.skip(i + 1));
                }
                i = i + 1;
            },
            Err(e) => {
                assert(!window_serializable(ws[i as int]));
                return Err(e);
            },
        }
    }
    proof {
        assert(ws.skip(ws.len() as int) =~= Seq::<WindowView>::empty());
        assert(out@ =~= spec_serialize_windows(ws));
    }
    Ok(out)
}

/// A line carrying a window record tag.
pub open spec fn is_window_line(l: Seq<char>) -> bool {
    has_prefix(l, window_tag())
}

/// A line carrying a pane record tag.
pub open spec fn is_pane_line(l: Seq<char>) -> bool {
    has_prefix(l, pane_tag())
}

/// The record body of a line: the text after its tag, or the whole line when
/// the tag is absent.
pub open spec fn line_body(l: Seq<char>, tag: Seq<char>) -> Seq<char> {
    if has_prefix(l, tag) {
        l.subrange(tag.len() as int, l.len() as int)
    } else {
        l
    }
}

/// A numeric field: `Some` exactly on non-empty all-digit fields whose value
/// fits in a `u32`.
pub open spec fn spec_parse_u32_field(f: Seq<char>) -> Option<u32> {
    if f.len() > 0 && all_dec_digits(f) && dec_val(f) <= u32::MAX {
        Some(dec_val(f) as u32)
    } else {
        None
    }
}

/// Parsing one window record line.  `None` stands for a malformed record:
/// fewer than five fields, or an unusable index.
pub open spec fn spec_parse_window_line(l: Seq<char>) -> Option<WindowView> {
    let fields = split_seq(line_body(l, window_tag()), '|');
    if fields.len() < 5 {
        None
    } else {
        match spec_parse_u32_field(fields[1]) {
            Some(idx) => Some(
                WindowView {
                    session_name: fields[0],
                    index: idx,
                    name: fields[2],
                    active: fields[3] == seq!['1'],
                    layout: fields[4],
                    panes: Seq::<PaneView>::empty(),
                },
            ),
            None => None,
        }
    }
}

/// Parsing one pane record line.  `None` stands for a malformed record:
/// fewer than six fields, or an unusable index.  A bad pid defaults to zero.
pub open spec fn spec_parse_pane_line(l: Seq<char>) -> Option<PaneView> {
    let fields = split_seq(line_body(l, pane_tag()), '|');
    if fields.len() < 6 {
        None
    } else {
        match spec_parse_u32_field(fields[0]) {
            Some(idx) => Some(
                PaneView {
                    index: idx,
                    active: fields[1] == seq!['1'],
                    title: fields[2],
                    current_path: fields[3],
                    current_command: fields[4],
                    pid: match spec_parse_u32_field(fields[5]) {
                        Some(v) => v,
                        None => 0,
                    },
                },
            ),
            None => None,
        }
    }
}

/// `w` with one more pane at the end.
pub open spec fn with_pane(w: WindowView, p: PaneView) -> WindowView {
    WindowView { panes: w.panes.push(p), ..w }
}

/// Parsing a run of lines, window by window.  Pane records join the window
/// opened last; pane records before any window, and unrecognized lines, are
/// skipped; a malformed record aborts with the offending line; an input that
/// opens no window at all is an empty session.
pub open spec fn spec_parse_lines(lines: Seq<Seq<char>>, acc: Seq<WindowView>) -> Result<
    Seq<WindowView>,
    SessionErrorView,
>
    decreases lines.len(),
{
    if lines.len() == 0 {
        if acc.len() == 0 {
            Err(SessionErrorView::EmptySession)
        } else {
            Ok(acc)
        }
    } else {
        let l = lines[0];
        if is_window_line(l) {
            match spec_parse_window_line(l) {
                Some(w) => spec_parse_lines(lines.drop_first(), acc.push(w)),
                None => Err(SessionErrorView::MalformedRecord(l)),
            }
        } else if is_pane_line(l) {
            if acc.len() == 0 {
                spec_parse_lines(lines.drop_first(), acc)
            } else {
                match spec_parse_pane_line(l) {
                    Some(p) => spec_parse_lines(
                        lines.drop_first(),
                        acc.update(acc.len() - 1, with_pane(acc.last(), p)),
                    ),
                    None => Err(SessionErrorView::MalformedRecord(l)),
                }
            }
        } else {
            spec_parse_lines(lines.drop_first(), acc)
        }
    }
}

/// Parsing a whole save file: its lines, split at line feeds.
pub open spec fn spec_parse_session(content: Seq<char>) -> Result<
    Seq<WindowView>,
    SessionErrorView,
> {
    spec_parse_lines(split_seq(content, '\n'), Seq::<WindowView>::empty())
}

impl Window {
    /// Parses a window record line.
    pub fn from_line(line: &str) -> (r: Result<Window, SessionError>)
        ensures
            match spec_parse_window_line(line@) {
                Some(wv) => r matches Ok(w) && w@ == wv,
                None => r matches Err(e) && e@ == SessionErrorView::MalformedRecord(line@),
            },
    {
        let body: String = if starts_with_str(line, "# Window: ") {
            let n = line.unicode_len();
            proof {
                reveal_strlit("# Window: ");
            }
            line.substring_char(10, n).to_owned()
        } else {
            line.to_owned()
        };
        proof {
            assert(body@ == line_body(line@, window_tag()));
        }
        let fields = split_str(body.as_str(), '|');
        if fields.len() < 5 {
            return Err(SessionError::MalformedRecord(line.to_owned()));
        }
        let index = match parse_u32(fields[1].as_str()) {
            Some(v) => v,
            None => {
                return Err(SessionError::MalformedRecord(line.to_owned()));
            },
        };
        let active = str_eq(fields[3].as_str(), "1");
        proof {
            reveal_strlit("1");
            assert("1"@ =~= seq!['1']);
        }
        let w = Window {
            session_name: fields[0].clone(),
            index,
            name: fields[2].clone(),
            active,
            layout: fields[4].clone(),
            panes: Vec::new(),
        };
        proof {
            assert(w@.panes =~= Seq::<PaneView>::empty());
        }
        Ok(w)
    }
}

impl Pane {
    /// Parses a pane record line.
    pub fn from_line(line: &str) -> (r: Result<Pane, SessionError>)
        ensures
            match spec_parse_pane_line(line@) {
                Some(pv) => r matches Ok(p) && p@ == pv,
                None => r matches Err(e) && e@ == SessionErrorView::MalformedRecord(line@),
            },
    {
        let body: String = if starts_with_str(line, "# Pane: ") {
            let n = line.unicode_len();
            proof {
                reveal_strlit("# Pane: ");
            }
            line.substring_char(8, n).to_owned()
        } else {
            line.to_owned()
        };
        proof {
            assert(body@ == line_body(line@, pane_tag()));
        }
        let fields = split_str(body.as_str(), '|');
        if fields.len() < 6 {
            return Err(SessionError::MalformedRecord(line.to_owned()));
        }
        let index = match parse_u32(fields[0].as_str()) {
            Some(v) => v,
            None => {
                return Err(SessionError::MalformedRecord(line.to_owned()));
            },
        };
        let pid = match parse_u32(fields[5].as_str()) {
            Some(v) => v,
            None => 0,
        };
        let active = str_eq(fields[1].as_str(), "1");
        proof {
            reveal_strlit("1");
            assert("1"@ =~= seq!['1']);
        }
        Ok(
            Pane {
                index,
                title: fields[2].clone(),
                current_path: fields[3].clone(),
                active,
                current_command: fields[4].clone(),
                pid,
            },
        )
    }
}

/// Parses a whole save file.
pub fn parse_session(content: &str) -> (r: Result<Vec<Window>, SessionError>)
    ensures
        match spec_parse_session(content@) {
            Ok(ws) => r matches Ok(v) && crate::model::window_views(v@) == ws,
            Err(e) => r matches Err(err) && err@ == e,
        },
{
    let lines = split_str(content, '\n');
    let ghost line_views = views_of(lines@);
    let mut windows: Vec<Window> = Vec::new();
    let mut li: usize = 0;
    proof {
        assert(line_views.skip(0) =~= line_views);
        assert(crate::model::window_views(windows@) =~= Seq::<WindowView>::empty());
    }
    while li < lines.len()
        invariant
            line_views == views_of(lines@),
            line_views.len() == lines.len(),
            forall|j: int| 0 <= j < line_views.len() ==> line_views[j] == #[trigger] lines[j]@,
            0 <= li <= lines.len(),
            spec_parse_session(content@) == spec_parse_lines(
                line_views.skip(li as int),
                crate::model::window_views(windows@),
            ),
        decreases lines.len() - li,
    {
        let ghost tail = line_views.skip(li as int);
        let ghost acc = crate::model::window_views(windows@);
        proof {
            assert(tail[0] == line_views[li as int]);
            assert(tail.drop_first() =~= line_views.skip(li + 1));
        }
        let line = &lines[li];
        if starts_with_str(line.as_str(), "# Window: ") {
            match Window::from_line(line.as_str()) {
                Ok(w) => {
                    windows.push(w);
                    proof {
                        assert(crate::model::window_views(windows@) =~= acc.push(w@));
                    }
                },
                Err(e) => {
                    return Err(e);
                },
            }
        } else if starts_with_str(line.as_str(), "# Pane: ") {
            if windows.len() > 0 {
                match Pane::from_line(line.as_str()) {
                    Ok(p) => {
                        let ghost n = acc.len() - 1;
                        let mut w = windows.pop().unwrap();
                        proof {
                            assert(w@ == acc.last());
                        }
                        w.panes.push(p);
                        proof {
                            assert(w@ == with_pane(acc.last(), p@)) by {
                                assert(w@.panes =~= acc.last().panes.push(p@));
                            }
                        }
                        windows.push(w);
                        proof {
                            assert(crate::model::window_views(windows@) =~= acc.update(
                                n,
                                with_pane(acc.last(), p@),
                            ));
                        }
                    },
                    Err(e) => {
                        return Err(e);
                    },
                }
            }
        }
        li = li + 1;
    }
    proof {
        assert(line_views.skip(line_views.len() as int) =~= Seq::<Seq<char>>::empty());
    }
    if windows.len() == 0 {
        proof {
            assert(crate::model::window_views(windows@) =~= Seq::<WindowView>::empty());
        }
        return Err(SessionError::EmptySession);
    }
    Ok(windows)
}

} // verus!
