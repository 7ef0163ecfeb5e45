//! Parsers for the multiplexer's listing output.
//!
//! The snapshotter asks the multiplexer for one tab-separated record per
//! window and per pane.  Fields that may be empty or start with whitespace
//! are requested with a leading `:` sentinel, and exactly one `:` is
//! stripped here.  A record with fewer fields than requested is malformed
//! output.

use vstd::prelude::*;

use crate::model::{Pane, PaneView, SessionError, SessionErrorView, Window, WindowView};
use crate::strutil::{split_seq, split_str, u32_to_string, views_of};

verus! {

/// One leading `:` sentinel removed.
pub open spec fn strip_one_colon(s: Seq<char>) -> Seq<char> {
    if s.len() > 0 && s[0] == ':' {
        s.drop_first()
    } else {
        s
    }
}

/// Removes one leading `:` sentinel.
fn strip_colon(s: &str) -> (r: String)
    ensures
        r@ == strip_one_colon(s@),
{
    let n = s.unicode_len();
    if n > 0 && s.get_char(0) == ':' {
        let r = s.substring_char(1, n).to_owned();
        proof {
            assert(r@ =~= s@.drop_first());
        }
        r
    } else {
        s.to_owned()
    }
}

/// A numeric listing field that defaults to zero when unusable.
pub open spec fn u32_field_or_zero(f: Seq<char>) -> u32 {
    match crate::codec::spec_parse_u32_field(f) {
        Some(v) => v,
        None => 0,
    }
}

/// Parsing one window listing record: tab-separated, with the session name,
/// index, sentinel-prefixed name, active flag and layout in the fields after
/// the leading record marker.  `None` stands for malformed output.
pub open spec fn spec_parse_window_listing(l: Seq<char>) -> Option<WindowView> {
    let fields = split_seq(l, '\t');
    if fields.len() < 6 {
        None
    } else {
        match crate::codec::spec_parse_u32_field(fields[2]) {
            Some(idx) => Some(
                WindowView {
                    session_name: fields[1],
                    index: idx,
                    name: strip_one_colon(fields[3]),
                    active: fields[4] == seq!['1'],
                    layout: fields[5],
                    panes: Seq::<PaneView>::empty(),
                },
            ),
            None => None,
        }
    }
}

/// Parsing one pane listing record; the pane fields follow the shared window
/// fields.  An unusable index or pid defaults to zero.
pub open spec fn spec_parse_pane_listing(l: Seq<char>) -> Option<PaneView> {
    let fields = split_seq(l, '\t');
    if fields.len() < 11 {
        None
    } else {
        Some(
            PaneView {
                index: u32_field_or_zero(fields[5]),
                title: fields[6],
                current_path: strip_one_colon(fields[7]),
                active: fields[8] == seq!['1'],
                current_command: fields[9],
                pid: u32_field_or_zero(fields[10]),
            },
        )
    }
}

impl Window {
    /// Parses one window record of the multiplexer's listing output.
    pub fn from_format_str(format_str: &str) -> (r: Option<Window>)
        ensures
            match spec_parse_window_listing(format_str@) {
                Some(wv) => r matches Some(w) && w@ == wv,
                None => r is None,
            },
    {
        let fields = split_str(format_str, '\t');
        if fields.len() < 6 {
            return None;
        }
        let index = match crate::strutil::parse_u32(fields[2].as_str()) {
            Some(v) => v,
            None => {
                return None;
            },
        };
        let active = crate::strutil::str_eq(fields[4].as_str(), "1");
        proof {
            reveal_strlit("1");
            assert("1"@ =~= seq!['1']);
        }
        let w = Window {
            session_name: fields[1].clone(),
            index,
            name: strip_colon(fields[3].as_str()),
            active,
            layout: fields[5].clone(),
            panes: Vec::new(),
        };
        proof {
            assert(w@.panes =~= Seq::<PaneView>::empty());
        }
        Some(w)
    }
}

impl Pane {
    /// Parses one pane record of the multiplexer's listing output.
    pub fn from_format_str(format_str: &str) -> (r: Option<Pane>)
        ensures
            match spec_parse_pane_listing(format_str@) {
                Some(pv) => r matches Some(p) && p@ == pv,
                None => r is None,
            },
    {
        let fields = split_str(format_str, '\t');
        if fields.len() < 11 {
            return None;
        }
        let index = match crate::strutil::parse_u32(fields[5].as_str()) {
            Some(v) => v,
            None => 0,
        };
        let pid = match crate::strutil::parse_u32(fields[10].as_str()) {
            Some(v) => v,
            None => 0,
        };
        let active = crate::strutil::str_eq(fields[8].as_str(), "1");
        proof {
            reveal_strlit("1");
            assert("1"@ =~= seq!['1']);
        }
        Some(
            Pane {
                index,
                title: fields[6].clone(),
                current_path: strip_colon(fields[7].as_str()),
                active,
                current_command: fields[9].clone(),
                pid,
            },
        )
    }
}

/// Parsing a whole window listing: every non-empty line must be a window
/// record; a malformed line aborts with that line.
pub open spec fn spec_windows_from_listing(lines: Seq<Seq<char>>, acc: Seq<WindowView>) -> Result<
    Seq<WindowView>,
    SessionErrorView,
>
    decreases lines.len(),
{
    if lines.len() == 0 {
        Ok(acc)
    } else if lines[0].len() == 0 {
        spec_windows_from_listing(lines.drop_first(), acc)
    } else {
        match spec_parse_window_listing(lines[0]) {
            Some(w) => spec_windows_from_listing(lines.drop_first(), acc.push(w)),
            None => Err(SessionErrorView::MalformedRecord(lines[0])),
        }
    }
}

/// Parsing a whole pane listing, one pane per non-empty line.
pub open spec fn spec_panes_from_listing(lines: Seq<Seq<char>>, acc: Seq<PaneView>) -> Result<
    Seq<PaneView>,
    SessionErrorView,
>
    decreases lines.len(),
{
    if lines.len() == 0 {
        Ok(acc)
    } else if lines[0].len() == 0 {
        spec_panes_from_listing(lines.drop_first(), acc)
    } else {
        match spec_parse_pane_listing(lines[0]) {
            Some(p) => spec_panes_from_listing(lines.drop_first(), acc.push(p)),
            None => Err(SessionErrorView::MalformedRecord(lines[0])),
        }
    }
}

/// Parses the multiplexer's window listing output into windows without
/// panes yet.
pub fn windows_from_listing(output: &str) -> (r: Result<Vec<Window>, SessionError>)
    ensures
        match spec_windows_from_listing(
            split_seq(output@, '\n'),
            Seq::<WindowView>::empty(),
        ) {
            Ok(ws) => r matches Ok(v) && crate::model::window_views(v@) == ws,
            Err(e) => r matches Err(err) && err@ == e,
        },
{
    let lines = split_str(output, '\n');
    let ghost line_views = views_of(lines@);
    let mut windows: Vec<Window> = Vec::new();
    let mut li: usize = 0;
    proof {
        assert(line_views.skip(0) =~= line_views);
        assert(crate::model::window_views(windows@) =~= Seq::<WindowView>::empty());
    }
    while li < lines.len()
        invariant
            line_views == views_of(lines@),
            line_views == split_seq(output@, '\n'),
            line_views.len() == lines.len(),
            forall|j: int| 0 <= j < line_views.len() ==> line_views[j] == #[trigger] lines[j]@,
            0 <= li <= lines.len(),
            spec_windows_from_listing(line_views, Seq::<WindowView>::empty())
                == spec_windows_from_listing(
                line_views.skip(li as int),
                crate::model::window_views(windows@),
            ),
        decreases lines.len() - li,
    {
        let ghost acc = crate::model::window_views(windows@);
        proof {
            let tail = line_views.skip(li as int);
            assert(tail[0] == line_views[li as int]);
            assert(tail.drop_first() =~= line_views.skip(li + 1));
        }
        let line = &lines[li];
        if line.as_str().unicode_len() > 0 {
            match Window::from_format_str(line.as_str()) {
                Some(w) => {
                    windows.push(w);
                    proof {
                        assert(crate::model::window_views(windows@) =~= acc.push(w@));
                    }
                },
                None => {
                    return Err(SessionError::MalformedRecord(line.clone()));
                },
            }
        }
        li = li + 1;
    }
    proof {
        assert(line_views.skip(line_views.len() as int) =~= Seq::<Seq<char>>::empty());
    }
    Ok(windows)
}

/// Parses the multiplexer's pane listing output for one window.
pub fn panes_from_listing(output: &str) -> (r: Result<Vec<Pane>, SessionError>)
    ensures
        match spec_panes_from_listing(split_seq(output@, '\n'), Seq::<PaneView>::empty()) {
            Ok(ps) => r matches Ok(v) && v@.map_values(|p: Pane| p@) == ps,
            Err(e) => r matches Err(err) && err@ == e,
        },
{
    let lines = split_str(output, '\n');
    let ghost line_views = views_of(lines@);
    let mut panes: Vec<Pane> = Vec::new();
    let mut li: usize = 0;
    proof {
        assert(line_views.skip(0) =~= line_views);
        assert(panes@.map_values(|p: Pane| p@) =~= Seq::<PaneView>::empty());
    }
    while li < lines.len()
        invariant
            line_views == views_of(lines@),
            line_views == split_seq(output@, '\n'),
            line_views.len() == lines.len(),
            forall|j: int| 0 <= j < line_views.len() ==> line_views[j] == #[trigger] lines[j]@,
            0 <= li <= lines.len(),
            spec_panes_from_listing(line_views, Seq::<PaneView>::empty())
                == spec_panes_from_listing(
                line_views.skip(li as int),
                panes@.map_values(|p: Pane| p@),
            ),
        decreases lines.len() - li,
    {
        let ghost acc = panes@.map_values(|p: Pane| p@);
        proof {
            let tail = line_views.skip(li as int);
            assert(tail[0] == line_views[li as int]);
            assert(tail.drop_first() =~= line_views.skip(li + 1));
        }
        let line = &lines[li];
        if line.as_str().unicode_len() > 0 {
            match Pane::from_format_str(line.as_str()) {
                Some(p) => {
                    panes.push(p);
                    proof {
                        assert(panes@.map_values(|q: Pane| q@) =~= acc.push(p@));
                    }
                },
                None => {
                    return Err(SessionError::MalformedRecord(line.clone()));
                },
            }
        }
        li = li + 1;
    }
    proof {
        assert(line_views.skip(line_views.len() as int) =~= Seq::<Seq<char>>::empty());
    }
    Ok(panes)
}

/// The multiplexer target for a window: `session:index`.
pub open spec fn spec_window_target(session: Seq<char>, index: u32) -> Seq<char> {
    session + seq![':'] + crate::strutil::dec_digits(index as nat)
}

/// The multiplexer target for a pane: `session:window.pane`.
pub open spec fn spec_pane_target(session: Seq<char>, index: u32, pane: u32) -> Seq<char> {
    spec_window_target(session, index) + seq!['.'] + crate::strutil::dec_digits(pane as nat)
}

/// Forms a window target.  The session name must be free of the target
/// separators, as every identity-derived name is.
pub fn window_target(session: &str, index: u32) -> (r: String)
    requires
        crate::identity::valid_session_name(session@),
    ensures
        r@ == spec_window_target(session@, index),
{
    let mut out = session.to_owned();
    out.append(":");
    let digits = u32_to_string(index);
    out.append(digits.as_str());
    proof {
        reveal_strlit(":");
        assert(out@ =~= spec_window_target(session@, index));
    }
    out
}

/// Forms a pane target.
pub fn pane_target(session: &str, index: u32, pane: u32) -> (r: String)
    requires
        crate::identity::valid_session_name(session@),
    ensures
        r@ == spec_pane_target(session@, index, pane),
{
    let mut out = window_target(session, index);
    out.append(".");
    let digits = u32_to_string(pane);
    out.append(digits.as_str());
    proof {
        reveal_strlit(".");
        assert(out@ =~= spec_pane_target(session@, index, pane));
    }
    out
}

} // verus!
