//! Laws of the save-file codec: serializing a session and parsing the text
//! back recovers the session, and parsing is insensitive to unrecognized
//! lines and to extra trailing fields.

use vstd::prelude::*;

use crate::codec::{
    flag_seq, is_pane_line, is_window_line, line_body, pane_tag, spec_pane_line,
    spec_parse_lines, spec_parse_pane_line, spec_parse_session, spec_parse_u32_field,
    spec_parse_window_line, spec_serialize_panes, spec_serialize_windows, spec_window_line,
    window_tag, with_pane,
};
use crate::model::{PaneView, SessionErrorView, WindowView};
use crate::strutil::{
    dec_digits, free_of, lemma_dec_digits_are_digits, lemma_dec_digits_roundtrip,
    lemma_split_seq_concat, lemma_split_seq_len, lemma_split_seq_no_sep, split_seq,
};

verus! {

/// A field that survives the line-oriented codec: it holds neither the field
/// separator nor a line feed.
pub open spec fn clean_field(s: Seq<char>) -> bool {
    free_of(s, '|') && free_of(s, '\n')
}

/// All of a pane's textual fields are clean.
pub open spec fn pane_clean(p: PaneView) -> bool {
    clean_field(p.title) && clean_field(p.current_path) && clean_field(p.current_command)
}

/// All of a window's textual fields, and its panes', are clean.
pub open spec fn window_clean(w: WindowView) -> bool {
    clean_field(w.session_name) && clean_field(w.name) && clean_field(w.layout) && forall|i: int|
        0 <= i < w.panes.len() ==> pane_clean(#[trigger] w.panes[i])
}

/// All of a session's fields are clean.
pub open spec fn session_clean(ws: Seq<WindowView>) -> bool {
    forall|i: int| 0 <= i < ws.len() ==> window_clean(#[trigger] ws[i])
}

/// `w` shorn of its panes, as a window record line alone describes it.
pub open spec fn window_head(w: WindowView) -> WindowView {
    WindowView { panes: Seq::<PaneView>::empty(), ..w }
}

/// `w` with the panes `ps` appended.
pub open spec fn with_panes(w: WindowView, ps: Seq<PaneView>) -> WindowView {
    WindowView { panes: w.panes + ps, ..w }
}

proof fn lemma_free_of_concat(a: Seq<char>, b: Seq<char>, c: char)
    requires
        free_of(a, c),
        free_of(b, c),
    ensures
        free_of(a + b, c),
{
    assert forall|i: int| 0 <= i < (a + b).len() implies #[trigger] (a + b)[i] != c by {
        if i < a.len() {
            assert((a + b)[i] == a[i]);
        } else {
            assert((a + b)[i] == b[i - a.len()]);
        }
    }
}

proof fn lemma_digits_clean(n: nat)
    ensures
        free_of(dec_digits(n), '|'),
        free_of(dec_digits(n), '\n'),
        clean_field(dec_digits(n)),
{
    lemma_dec_digits_are_digits(n);
}

proof fn lemma_flag_clean(b: bool)
    ensures
        clean_field(flag_seq(b)),
{
}

proof fn lemma_tags_clean()
    ensures
        clean_field(window_tag()),
        clean_field(pane_tag()),
        window_tag().len() == 10,
        pane_tag().len() == 8,
    {
    reveal_strlit("# Window: ");
    reveal_strlit("# Pane: ");
}

/// The window record line of a clean window is clean except for its
/// separators: it holds no line feed.
proof fn lemma_window_line_no_newline(w: WindowView)
    requires
        window_clean(w),
    ensures
        free_of(spec_window_line(w), '\n'),
{
    lemma_tags_clean();
    lemma_digits_clean(w.index as nat);
    lemma_flag_clean(w.active);
    let bar = seq!['|'];
    assert(free_of(bar, '\n'));
    lemma_free_of_concat(window_tag(), w.session_name, '\n');
    lemma_free_of_concat(window_tag() + w.session_name, bar, '\n');
    lemma_free_of_concat(window_tag() + w.session_name + bar, dec_digits(w.index as nat), '\n');
    lemma_free_of_concat(
        window_tag() + w.session_name + bar + dec_digits(w.index as nat),
        bar,
        '\n',
    );
    lemma_free_of_concat(
        window_tag() + w.session_name + bar + dec_digits(w.index as nat) + bar,
        w.name,
        '\n',
    );
    lemma_free_of_concat(
        window_tag() + w.session_name + bar + dec_digits(w.index as nat) + bar + w.name,
        bar,
        '\n',
    );
    lemma_free_of_concat(
        window_tag() + w.session_name + bar + dec_digits(w.index as nat) + bar + w.name + bar,
        flag_seq(w.active),
        '\n',
    );
    lemma_free_of_concat(
        window_tag() + w.session_name + bar + dec_digits(w.index as nat) + bar + w.name + bar
            + flag_seq(w.active),
        bar,
        '\n',
    );
    lemma_free_of_concat(
        window_tag() + w.session_name + bar + dec_digits(w.index as nat) + bar + w.name + bar
            + flag_seq(w.active) + bar,
        w.layout,
        '\n',
    );
}

/// The pane record line of a clean pane holds no line feed.
proof fn lemma_pane_line_no_newline(p: PaneView)
    requires
        pane_clean(p),
    ensures
        free_of(spec_pane_line(p), '\n'),
{
    lemma_tags_clean();
    lemma_digits_clean(p.index as nat);
    lemma_digits_clean(p.pid as nat);
    lemma_flag_clean(p.active);
    let bar = seq!['|'];
    assert(free_of(bar, '\n'));
    lemma_free_of_concat(pane_tag(), dec_digits(p.index as nat), '\n');
    lemma_free_of_concat(pane_tag() + dec_digits(p.index as nat), bar, '\n');
    lemma_free_of_concat(pane_tag() + dec_digits(p.index as nat) + bar, flag_seq(p.active), '\n');
    lemma_free_of_concat(
        pane_tag() + dec_digits(p.index as nat) + bar + flag_seq(p.active),
        bar,
        '\n',
    );
    lemma_free_of_concat(
        pane_tag() + dec_digits(p.index as nat) + bar + flag_seq(p.active) + bar,
        p.title,
        '\n',
    );
    lemma_free_of_concat(
        pane_tag() + dec_digits(p.index as nat) + bar + flag_seq(p.active) + bar + p.title,
        bar,
        '\n',
    );
    lemma_free_of_concat(
        pane_tag() + dec_digits(p.index as nat) + bar + flag_seq(p.active) + bar + p.title + bar,
        p.current_path,
        '\n',
    );
    lemma_free_of_concat(
        pane_tag() + dec_digits(p.index as nat) + bar + flag_seq(p.active) + bar + p.title + bar
            + p.current_path,
        bar,
        '\n',
    );
    lemma_free_of_concat(
        pane_tag() + dec_digits(p.index as nat) + bar + flag_seq(p.active) + bar + p.title + bar
            + p.current_path + bar,
        p.current_command,
        '\n',
    );
    lemma_free_of_concat(
        pane_tag() + dec_digits(p.index as nat) + bar + flag_seq(p.active) + bar + p.title + bar
            + p.current_path + bar + p.current_command,
        bar,
        '\n',
    );
    lemma_free_of_concat(
        pane_tag() + dec_digits(p.index as nat) + bar + flag_seq(p.active) + bar + p.title + bar
            + p.current_path + bar + p.current_command + bar,
        dec_digits(p.pid as nat),
        '\n',
    );
}

proof fn lemma_flag_decodes(b: bool)
    ensures
        (flag_seq(b) == seq!['1']) == b,
{
    if !b {
        assert(flag_seq(b)[0] == '0');
        assert(seq!['1'][0] == '1');
        if flag_seq(b) == seq!['1'] {
            assert(flag_seq(b)[0] == seq!['1'][0]);
        }
    }
}

/// A serialized window record line parses back to the window without its
/// panes.
proof fn lemma_window_line_inverts(w: WindowView)
    requires
        window_clean(w),
    ensures
        is_window_line(spec_window_line(w)),
        spec_parse_window_line(spec_window_line(w)) == Some(window_head(w)),
{
    lemma_tags_clean();
    lemma_digits_clean(w.index as nat);
    lemma_flag_clean(w.active);
    let bar = seq!['|'];
    let tag = window_tag();
    let l = spec_window_line(w);
    let dig = dec_digits(w.index as nat);
    let flag = flag_seq(w.active);
    let r3 = flag + bar + w.layout;
    let r2 = w.name + bar + r3;
    let r1 = dig + bar + r2;
    let rest = w.session_name + bar + r1;
    assert(l =~= tag + rest);
    assert(l.subrange(0, tag.len() as int) =~= tag);
    assert(is_window_line(l));
    assert(line_body(l, tag) =~= rest);
    assert(rest =~= w.session_name + seq!['|'] + r1);
    lemma_split_seq_concat(w.session_name, r1, '|');
    lemma_split_seq_no_sep(w.session_name, '|');
    assert(r1 =~= dig + seq!['|'] + r2);
    lemma_split_seq_concat(dig, r2, '|');
    lemma_split_seq_no_sep(dig, '|');
    assert(r2 =~= w.name + seq!['|'] + r3);
    lemma_split_seq_concat(w.name, r3, '|');
    lemma_split_seq_no_sep(w.name, '|');
    assert(r3 =~= flag + seq!['|'] + w.layout);
    lemma_split_seq_concat(flag, w.layout, '|');
    assert(free_of(flag, '|'));
    lemma_split_seq_no_sep(flag, '|');
    lemma_split_seq_no_sep(w.layout, '|');
    let fields = split_seq(line_body(l, tag), '|');
    assert(fields =~= seq![w.session_name, dig, w.name, flag, w.layout]);
    assert(fields.len() == 5);
    assert(fields[0] == w.session_name);
    assert(fields[1] == dig);
    assert(fields[2] == w.name);
    assert(fields[3] == flag);
    assert(fields[4] == w.layout);
    lemma_dec_digits_are_digits(w.index as nat);
    lemma_dec_digits_roundtrip(w.index as nat);
    assert(spec_parse_u32_field(dig) == Some(w.index));
    lemma_flag_decodes(w.active);
    let parsed = spec_parse_window_line(l).unwrap();
    assert(parsed.panes =~= window_head(w).panes);
    assert(parsed == window_head(w));
}

/// A serialized pane record line parses back to the pane, and is not taken
/// for a window record.
proof fn lemma_pane_line_inverts(p: PaneView)
    requires
        pane_clean(p),
    ensures
        is_pane_line(spec_pane_line(p)),
        !is_window_line(spec_pane_line(p)),
        spec_parse_pane_line(spec_pane_line(p)) == Some(p),
{
    lemma_tags_clean();
    lemma_digits_clean(p.index as nat);
    lemma_digits_clean(p.pid as nat);
    lemma_flag_clean(p.active);
    let bar = seq!['|'];
    let tag = pane_tag();
    let l = spec_pane_line(p);
    let dig = dec_digits(p.index as nat);
    let pidd = dec_digits(p.pid as nat);
    let flag = flag_seq(p.active);
    let r4 = p.current_command + bar + pidd;
    let r3 = p.current_path + bar + r4;
    let r2 = p.title + bar + r3;
    let r1 = flag + bar + r2;
    let rest = dig + bar + r1;
    assert(l =~= tag + rest);
    assert(l.subrange(0, tag.len() as int) =~= tag);
    assert(is_pane_line(l));
    if is_window_line(l) {
        reveal_strlit("# Window: ");
        reveal_strlit("# Pane: ");
        assert(l.subrange(0, window_tag().len() as int)[2] == l[2]);
        assert(l[2] == tag[2]);
        assert(false);
    }
    assert(line_body(l, tag) =~= rest);
    assert(rest =~= dig + seq!['|'] + r1);
    lemma_split_seq_concat(dig, r1, '|');
    lemma_split_seq_no_sep(dig, '|');
    assert(r1 =~= flag + seq!['|'] + r2);
    lemma_split_seq_concat(flag, r2, '|');
    assert(free_of(flag, '|'));
    lemma_split_seq_no_sep(flag, '|');
    assert(r2 =~= p.title + seq!['|'] + r3);
    lemma_split_seq_concat(p.title, r3, '|');
    lemma_split_seq_no_sep(p.title, '|');
    assert(r3 =~= p.current_path + seq!['|'] + r4);
    lemma_split_seq_concat(p.current_path, r4, '|');
    lemma_split_seq_no_sep(p.current_path, '|');
    assert(r4 =~= p.current_command + seq!['|'] + pidd);
    lemma_split_seq_concat(p.current_command, pidd, '|');
    lemma_split_seq_no_sep(p.current_command, '|');
    lemma_split_seq_no_sep(pidd, '|');
    let fields = split_seq(line_body(l, tag), '|');
    assert(fields =~= seq![dig, flag, p.title, p.current_path, p.current_command, pidd]);
    assert(fields.len() == 6);
    lemma_dec_digits_are_digits(p.index as nat);
    lemma_dec_digits_roundtrip(p.index as nat);
    assert(spec_parse_u32_field(dig) == Some(p.index));
    lemma_dec_digits_are_digits(p.pid as nat);
    lemma_dec_digits_roundtrip(p.pid as nat);
    assert(spec_parse_u32_field(pidd) == Some(p.pid));
    lemma_flag_decodes(p.active);
    assert(spec_parse_pane_line(l) == Some(p));
}

/// The pane record lines of a run of panes, in order.
pub open spec fn pane_lines(ps: Seq<PaneView>) -> Seq<Seq<char>>
    decreases ps.len(),
{
    if ps.len() == 0 {
        Seq::<Seq<char>>::empty()
    } else {
        seq![spec_pane_line(ps[0])] + pane_lines(ps.drop_first())
    }
}

/// The record lines of a serialized session, followed by the one empty line
/// that the trailing line feed leaves behind.
pub open spec fn session_lines(ws: Seq<WindowView>) -> Seq<Seq<char>>
    decreases ws.len(),
{
    if ws.len() == 0 {
        seq![Seq::<char>::empty()]
    } else {
        seq![spec_window_line(ws[0])] + pane_lines(ws[0].panes) + session_lines(ws.drop_first())
    }
}

proof fn lemma_split_pane_blob(ps: Seq<PaneView>, tail: Seq<char>)
    requires
        forall|i: int| 0 <= i < ps.len() ==> pane_clean(#[trigger] ps[i]),
    ensures
        split_seq(spec_serialize_panes(ps) + tail, '\n') == pane_lines(ps) + split_seq(
            tail,
            '\n',
        ),
    decreases ps.len(),
{
    if ps.len() == 0 {
        assert(spec_serialize_panes(ps) + tail =~= tail);
        assert(pane_lines(ps) + split_seq(tail, '\n') =~= split_seq(tail, '\n'));
    } else {
        let p0 = ps[0];
        let rest = ps.drop_first();
        let line = spec_pane_line(p0);
        assert(forall|i: int| 0 <= i < rest.len() ==> pane_clean(#[trigger] rest[i])) by {
            assert(forall|i: int| 0 <= i < rest.len() ==> rest[i] == ps[i + 1]);
        }
        assert(spec_serialize_panes(ps) + tail =~= line + seq!['\n'] + (spec_serialize_panes(rest)
            + tail));
        lemma_pane_line_no_newline(p0);
        lemma_split_seq_concat(line, spec_serialize_panes(rest) + tail, '\n');
        lemma_split_seq_no_sep(line, '\n');
        lemma_split_pane_blob(rest, tail);
        assert(split_seq(spec_serialize_panes(ps) + tail, '\n') =~= pane_lines(ps) + split_seq(
            tail,
            '\n',
        ));
    }
}

proof fn lemma_split_serialized(ws: Seq<WindowView>)
    requires
        session_clean(ws),
    ensures
        split_seq(spec_serialize_windows(ws), '\n') == session_lines(ws),
    decreases ws.len(),
{
    if ws.len() == 0 {
        assert(split_seq(spec_serialize_windows(ws), '\n') =~= session_lines(ws));
    } else {
        let w0 = ws[0];
        let rest = ws.drop_first();
        let line = spec_window_line(w0);
        assert(session_clean(rest)) by {
            assert(forall|i: int| 0 <= i < rest.len() ==> rest[i] == ws[i + 1]);
        }
        assert(spec_serialize_windows(ws) =~= line + seq!['\n'] + (spec_serialize_panes(w0.panes)
            + spec_serialize_windows(rest)));
        lemma_window_line_no_newline(w0);
        lemma_split_seq_concat(line, spec_serialize_panes(w0.panes) + spec_serialize_windows(rest), '\n');
        lemma_split_seq_no_sep(line, '\n');
        lemma_split_pane_blob(w0.panes, spec_serialize_windows(rest));
        lemma_split_serialized(rest);
        assert(split_seq(spec_serialize_windows(ws), '\n') =~= session_lines(ws));
    }
}

proof fn lemma_parse_pane_lines(ps: Seq<PaneView>, rest: Seq<Seq<char>>, acc: Seq<WindowView>)
    requires
        acc.len() > 0,
        forall|i: int| 0 <= i < ps.len() ==> pane_clean(#[trigger] ps[i]),
    ensures
        spec_parse_lines(pane_lines(ps) + rest, acc) == spec_parse_lines(
            rest,
            acc.update(acc.len() - 1, with_panes(acc.last(), ps)),
        ),
    decreases ps.len(),
{
    let n = acc.len() - 1;
    if ps.len() == 0 {
        assert(pane_lines(ps) + rest =~= rest);
        assert(with_panes(acc.last(), ps) == acc.last()) by {
            assert(acc.last().panes + ps =~= acc.last().panes);
        }
        assert(acc.update(n, acc.last()) =~= acc);
    } else {
        let p0 = ps[0];
        let tail_ps = ps.drop_first();
        assert(forall|i: int| 0 <= i < tail_ps.len() ==> pane_clean(#[trigger] tail_ps[i])) by {
            assert(forall|i: int| 0 <= i < tail_ps.len() ==> tail_ps[i] == ps[i + 1]);
        }
        let lines = pane_lines(ps) + rest;
        assert(lines[0] == spec_pane_line(p0));
        lemma_pane_line_inverts(p0);
        let acc2 = acc.update(n, with_pane(acc.last(), p0));
        assert(lines.drop_first() =~= pane_lines(tail_ps) + rest);
        assert(spec_parse_lines(lines, acc) == spec_parse_lines(pane_lines(tail_ps) + rest, acc2));
        lemma_parse_pane_lines(tail_ps, rest, acc2);
        assert(acc2.last() == with_pane(acc.last(), p0));
        assert(with_panes(acc2.last(), tail_ps) == with_panes(acc.last(), ps)) by {
            assert(acc.last().panes.push(p0) + tail_ps =~= acc.last().panes + ps) by {
                assert(ps =~= seq![p0] + tail_ps);
            }
        }
        assert(acc2.update(n, with_panes(acc2.last(), tail_ps)) =~= acc.update(
            n,
            with_panes(acc.last(), ps),
        ));
    }
}

proof fn lemma_parse_session_lines(ws: Seq<WindowView>, acc: Seq<WindowView>)
    requires
        session_clean(ws),
    ensures
        spec_parse_lines(session_lines(ws), acc) == (if acc.len() + ws.len() == 0 {
            Err::<Seq<WindowView>, SessionErrorView>(SessionErrorView::EmptySession)
        } else {
            Ok::<Seq<WindowView>, SessionErrorView>(acc + ws)
        }),
    decreases ws.len(),
{
    lemma_tags_clean();
    if ws.len() == 0 {
        let lines = session_lines(ws);
        assert(lines[0] =~= Seq::<char>::empty());
        assert(!is_window_line(lines[0]));
        assert(!is_pane_line(lines[0]));
        assert(lines.drop_first() =~= Seq::<Seq<char>>::empty());
        assert(spec_parse_lines(lines, acc) == spec_parse_lines(lines.drop_first(), acc));
        assert(spec_parse_lines(Seq::<Seq<char>>::empty(), acc) == (if acc.len() == 0 {
            Err::<Seq<WindowView>, SessionErrorView>(SessionErrorView::EmptySession)
        } else {
            Ok::<Seq<WindowView>, SessionErrorView>(acc)
        }));
        if acc.len() > 0 {
            assert(acc + ws =~= acc);
        }
    } else {
        let w0 = ws[0];
        let rest_ws = ws.drop_first();
        assert(session_clean(rest_ws)) by {
            assert(forall|i: int| 0 <= i < rest_ws.len() ==> rest_ws[i] == ws[i + 1]);
        }
        assert(window_clean(w0));
        let lines = session_lines(ws);
        assert(lines[0] == spec_window_line(w0));
        lemma_window_line_inverts(w0);
        let acc2 = acc.push(window_head(w0));
        assert(lines.drop_first() =~= pane_lines(w0.panes) + session_lines(rest_ws));
        assert(spec_parse_lines(lines, acc) == spec_parse_lines(
            pane_lines(w0.panes) + session_lines(rest_ws),
            acc2,
        ));
        lemma_parse_pane_lines(w0.panes, session_lines(rest_ws), acc2);
        assert(acc2.last() == window_head(w0));
        assert(with_panes(window_head(w0), w0.panes) == w0) by {
            assert(window_head(w0).panes + w0.panes =~= w0.panes);
        }
        assert(acc2.update(acc2.len() - 1, with_panes(acc2.last(), w0.panes)) =~= acc.push(w0));
        lemma_parse_session_lines(rest_ws, acc.push(w0));
        assert(acc.push(w0) + rest_ws =~= acc + ws);
    }
}

/// Round trip of the codec: serializing a non-empty session whose fields
/// hold neither the separator nor a line feed, then parsing the text back,
/// recovers exactly the serialized windows.
pub proof fn lemma_codec_round_trip(ws: Seq<WindowView>)
    requires
        ws.len() > 0,
        session_clean(ws),
    ensures
        spec_parse_session(spec_serialize_windows(ws)) == Ok::<
            Seq<WindowView>,
            SessionErrorView,
        >(ws),
{
    lemma_split_serialized(ws);
    lemma_parse_session_lines(ws, Seq::<WindowView>::empty());
    assert(Seq::<WindowView>::empty() + ws =~= ws);
}

/// A line the parser recognizes: a window or pane record line.
pub open spec fn is_record_line(l: Seq<char>) -> bool {
    is_window_line(l) || is_pane_line(l)
}

/// The record lines of `ls`, in order, with blank and unknown lines removed.
pub open spec fn keep_records(ls: Seq<Seq<char>>) -> Seq<Seq<char>>
    decreases ls.len(),
{
    if ls.len() == 0 {
        Seq::<Seq<char>>::empty()
    } else if is_record_line(ls[0]) {
        seq![ls[0]] + keep_records(ls.drop_first())
    } else {
        keep_records(ls.drop_first())
    }
}

/// Robustness against noise: parsing a run of lines gives the same result as
/// parsing only its record lines, so blank and unknown lines never change the
/// parsed session.
pub proof fn lemma_parse_skips_unrecognized(ls: Seq<Seq<char>>, acc: Seq<WindowView>)
    ensures
        spec_parse_lines(ls, acc) == spec_parse_lines(keep_records(ls), acc),
    decreases ls.len(),
{
    if ls.len() > 0 {
        let l = ls[0];
        let rest = ls.drop_first();
        if is_record_line(l) {
            let kept = keep_records(ls);
            assert(kept[0] == l);
            assert(kept.drop_first() =~= keep_records(rest));
            if is_window_line(l) {
                match spec_parse_window_line(l) {
                    Some(w) => {
                        lemma_parse_skips_unrecognized(rest, acc.push(w));
                    },
                    None => {},
                }
            } else {
                if acc.len() == 0 {
                    lemma_parse_skips_unrecognized(rest, acc);
                } else {
                    match spec_parse_pane_line(l) {
                        Some(p) => {
                            lemma_parse_skips_unrecognized(
                                rest,
                                acc.update(acc.len() - 1, with_pane(acc.last(), p)),
                            );
                        },
                        None => {},
                    }
                }
            }
        } else {
            lemma_parse_skips_unrecognized(rest, acc);
        }
    }
}

/// Robustness against extra fields: appending further `|`-separated text to
/// a well-formed window record line leaves the parsed window unchanged.
pub proof fn lemma_window_line_extra_fields(l: Seq<char>, extra: Seq<char>)
    requires
        is_window_line(l),
        spec_parse_window_line(l) is Some,
    ensures
        is_window_line(l + seq!['|'] + extra),
        spec_parse_window_line(l + seq!['|'] + extra) == spec_parse_window_line(l),
{
    let tag = window_tag();
    let l2 = l + seq!['|'] + extra;
    assert(l2.subrange(0, tag.len() as int) =~= l.subrange(0, tag.len() as int));
    assert(is_window_line(l2));
    assert(line_body(l2, tag) =~= line_body(l, tag) + seq!['|'] + extra);
    lemma_split_seq_concat(line_body(l, tag), extra, '|');
    let fields = split_seq(line_body(l, tag), '|');
    let fields2 = split_seq(line_body(l2, tag), '|');
    assert(fields2 == fields + split_seq(extra, '|'));
    lemma_split_seq_len(extra, '|');
    assert(fields2.len() >= fields.len() + 1);
    assert(fields2[0] == fields[0]);
    assert(fields2[1] == fields[1]);
    assert(fields2[2] == fields[2]);
    assert(fields2[3] == fields[3]);
    assert(fields2[4] == fields[4]);
}

/// Robustness against extra fields, for pane record lines.
pub proof fn lemma_pane_line_extra_fields(l: Seq<char>, extra: Seq<char>)
    requires
        is_pane_line(l),
        !is_window_line(l),
        spec_parse_pane_line(l) is Some,
    ensures
        is_pane_line(l + seq!['|'] + extra),
        !is_window_line(l + seq!['|'] + extra),
        spec_parse_pane_line(l + seq!['|'] + extra) == spec_parse_pane_line(l),
{
    let tag = pane_tag();
    let l2 = l + seq!['|'] + extra;
    assert(l2.subrange(0, tag.len() as int) =~= l.subrange(0, tag.len() as int));
    assert(is_pane_line(l2));
    assert(!is_window_line(l2)) by {
        lemma_tags_clean();
        reveal_strlit("# Window: ");
        reveal_strlit("# Pane: ");
        assert(l.subrange(0, tag.len() as int)[2] == l[2]);
        assert(l[2] == 'P');
        assert(l2[2] == 'P');
        if is_window_line(l2) {
            assert(l2.subrange(0, window_tag().len() as int)[2] == l2[2]);
        }
    }
    assert(line_body(l2, tag) =~= line_body(l, tag) + seq!['|'] + extra);
    lemma_split_seq_concat(line_body(l, tag), extra, '|');
    let fields = split_seq(line_body(l, tag), '|');
    let fields2 = split_seq(line_body(l2, tag), '|');
    assert(fields2 == fields + split_seq(extra, '|'));
    lemma_split_seq_len(extra, '|');
    assert(fields2.len() >= fields.len() + 1);
    assert(fields2[0] == fields[0]);
    assert(fields2[1] == fields[1]);
    assert(fields2[2] == fields[2]);
    assert(fields2[3] == fields[3]);
    assert(fields2[4] == fields[4]);
    assert(fields2[5] == fields[5]);
}

/// A clean session is also serializable: no field holds the separator.
pub proof fn lemma_clean_is_serializable(ws: Seq<WindowView>)
    requires
        session_clean(ws),
    ensures
        crate::codec::session_serializable(ws),
{
    assert forall|i: int| 0 <= i < ws.len() implies crate::codec::window_serializable(
        #[trigger] ws[i],
    ) by {
        assert(window_clean(ws[i]));
    }
}


/// `l2` is `l1` with further `|`-separated text appended.
pub open spec fn is_extension_of(l2: Seq<char>, l1: Seq<char>) -> bool {
    exists|extra: Seq<char>| l2 == #[trigger] (l1 + seq!['|'] + extra)
}

/// An acceptable per-line difference for `lemma_parse_ignores_extra_fields`:
/// the line is unchanged, or it gained trailing fields and, if it is a
/// record line, it was well formed to begin with.
pub open spec fn line_extension_ok(l1: Seq<char>, l2: Seq<char>) -> bool {
    l2 == l1 || (is_extension_of(l2, l1) && (is_window_line(l1)
        ==> spec_parse_window_line(l1) is Some) && (is_pane_line(l1) && !is_window_line(l1)
        ==> spec_parse_pane_line(l1) is Some))
}

proof fn lemma_extension_keeps_tags(l1: Seq<char>, l2: Seq<char>)
    requires
        is_extension_of(l2, l1),
    ensures
        is_window_line(l2) <==> is_window_line(l1),
        is_pane_line(l2) <==> is_pane_line(l1),
{
    lemma_tags_clean();
    let extra = choose|extra: Seq<char>| l2 == l1 + seq!['|'] + extra;
    if is_window_line(l1) {
        assert(l2.subrange(0, window_tag().len() as int) =~= l1.subrange(
            0,
            window_tag().len() as int,
        ));
    }
    if is_window_line(l2) && !is_window_line(l1) {
        let tag = window_tag();
        if l1.len() >= tag.len() {
            assert(l1.subrange(0, tag.len() as int) =~= l2.subrange(0, tag.len() as int));
        } else {
            assert(l2.subrange(0, tag.len() as int)[l1.len() as int] == l2[l1.len() as int]);
            assert(l2[l1.len() as int] == '|');
            assert(tag[l1.len() as int] == '|');
            assert(free_of(tag, '|'));
        }
    }
    if is_pane_line(l1) {
        assert(l2.subrange(0, pane_tag().len() as int) =~= l1.subrange(
            0,
            pane_tag().len() as int,
        ));
    }
    if is_pane_line(l2) && !is_pane_line(l1) {
        let tag = pane_tag();
        if l1.len() >= tag.len() {
            assert(l1.subrange(0, tag.len() as int) =~= l2.subrange(0, tag.len() as int));
        } else {
            assert(l2.subrange(0, tag.len() as int)[l1.len() as int] == l2[l1.len() as int]);
            assert(l2[l1.len() as int] == '|');
            assert(tag[l1.len() as int] == '|');
            assert(free_of(tag, '|'));
        }
    }
}

/// Robustness against extra fields, over a whole file: a run of lines that
/// differs from another only by trailing extra fields on well-formed record
/// lines parses to the same session.
pub proof fn lemma_parse_ignores_extra_fields(
    ls1: Seq<Seq<char>>,
    ls2: Seq<Seq<char>>,
    acc: Seq<WindowView>,
)
    requires
        ls1.len() == ls2.len(),
        forall|i: int| 0 <= i < ls1.len() ==> line_extension_ok(#[trigger] ls1[i], ls2[i]),
    ensures
        spec_parse_lines(ls2, acc) == spec_parse_lines(ls1, acc),
    decreases ls1.len(),
{
    if ls1.len() > 0 {
        let l1 = ls1[0];
        let l2 = ls2[0];
        let r1 = ls1.drop_first();
        let r2 = ls2.drop_first();
        assert(forall|i: int| 0 <= i < r1.len() ==> r1[i] == ls1[i + 1]);
        assert(forall|i: int| 0 <= i < r2.len() ==> r2[i] == ls2[i + 1]);
        assert(line_extension_ok(l1, l2));
        assert forall|i: int| 0 <= i < r1.len() implies line_extension_ok(
            #[trigger] r1[i],
            r2[i],
        ) by {
            assert(line_extension_ok(ls1[i + 1], ls2[i + 1]));
        }
        if l2 == l1 {
            if is_window_line(l1) {
                match spec_parse_window_line(l1) {
                    Some(w) => {
                        lemma_parse_ignores_extra_fields(r1, r2, acc.push(w));
                    },
                    None => {},
                }
            } else if is_pane_line(l1) {
                if acc.len() == 0 {
                    lemma_parse_ignores_extra_fields(r1, r2, acc);
                } else {
                    match spec_parse_pane_line(l1) {
                        Some(p) => {
                            lemma_parse_ignores_extra_fields(
                                r1,
                                r2,
                                acc.update(acc.len() - 1, with_pane(acc.last(), p)),
                            );
                        },
                        None => {},
                    }
                }
            } else {
                lemma_parse_ignores_extra_fields(r1, r2, acc);
            }
        } else {
            lemma_extension_keeps_tags(l1, l2);
            let extra = choose|extra: Seq<char>| l2 == #[trigger] (l1 + seq!['|'] + extra);
            if is_window_line(l1) {
                lemma_window_line_extra_fields(l1, extra);
                let w = spec_parse_window_line(l1).unwrap();
                assert(spec_parse_window_line(l2) == Some(w));
                lemma_parse_ignores_extra_fields(r1, r2, acc.push(w));
            } else if is_pane_line(l1) {
                if acc.len() == 0 {
                    lemma_parse_ignores_extra_fields(r1, r2, acc);
                } else {
                    lemma_pane_line_extra_fields(l1, extra);
                    let p = spec_parse_pane_line(l1).unwrap();
                    assert(spec_parse_pane_line(l2) == Some(p));
                    lemma_parse_ignores_extra_fields(
                        r1,
                        r2,
                        acc.update(acc.len() - 1, with_pane(acc.last(), p)),
                    );
                }
            } else {
                lemma_parse_ignores_extra_fields(r1, r2, acc);
            }
        }
    }
}

} // verus!
