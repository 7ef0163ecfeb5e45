//! Laws of the restore planner: the purge never touches window zero, at
//! most one window is selected and only an active one, and running the plan
//! against a model of the multiplexer establishes — and, on a matching
//! session, preserves — the described structure.

use vstd::prelude::*;

use crate::model::{PaneView, WindowView};
use crate::restore::{
    create_commands, first_active_pane, first_active_window, focus_commands, insert_by_index,
    kill_commands, rest_panes, select_window_commands, sort_by_index, spec_restore_plan,
    split_commands, window_commands, windows_commands, TmuxCommandView,
};

verus! {

/// A kill of window zero.
pub open spec fn kills_zero(c: TmuxCommandView) -> bool {
    match c {
        TmuxCommandView::KillWindow { session: _, index } => index == 0,
        _ => false,
    }
}

/// Any kill command.
pub open spec fn is_kill(c: TmuxCommandView) -> bool {
    c is KillWindow
}

/// A session-level window selection.
pub open spec fn is_select_window(c: TmuxCommandView) -> bool {
    c is SelectWindow
}

proof fn lemma_kill_part_never_zero(session: Seq<char>, existing: Seq<u32>)
    ensures
        forall|k: int|
            0 <= k < kill_commands(session, existing).len() ==> !kills_zero(
                #[trigger] kill_commands(session, existing)[k],
            ),
    decreases existing.len(),
{
    if existing.len() > 0 {
        lemma_kill_part_never_zero(session, existing.drop_first());
        let head = if existing[0] == 0 {
            Seq::<TmuxCommandView>::empty()
        } else {
            seq![TmuxCommandView::KillWindow { session, index: existing[0] }]
        };
        let rest = kill_commands(session, existing.drop_first());
        assert forall|k: int| 0 <= k < kill_commands(session, existing).len() implies !kills_zero(
            #[trigger] kill_commands(session, existing)[k],
        ) by {
            if k < head.len() {
                assert(kill_commands(session, existing)[k] == head[k]);
            } else {
                assert(kill_commands(session, existing)[k] == rest[k - head.len()]);
            }
        }
    }
}

proof fn lemma_window_commands_shape(session: Seq<char>, w: WindowView)
    ensures
        forall|k: int|
            0 <= k < window_commands(session, w).len() ==> !is_kill(
                #[trigger] window_commands(session, w)[k],
            ) && !is_select_window(window_commands(session, w)[k]),
{
    let create = create_commands(session, w);
    let splits = split_commands(session, w);
    let layoutc = seq![
        TmuxCommandView::SelectLayout { session, index: w.index, layout: w.layout },
    ];
    let focus = focus_commands(session, w);
    assert forall|k: int| 0 <= k < window_commands(session, w).len() implies !is_kill(
        #[trigger] window_commands(session, w)[k],
    ) && !is_select_window(window_commands(session, w)[k]) by {
        let c = window_commands(session, w)[k];
        if k < create.len() {
            assert(c == create[k]);
        } else if k < create.len() + splits.len() {
            assert(c == splits[k - create.len()]);
            assert(splits[k - create.len()] == rest_panes(w).map_values(
                |p: PaneView| TmuxCommandView::SplitWindow {
                    session,
                    index: w.index,
                    cwd: p.current_path,
                },
            )[k - create.len()]);
        } else if k < create.len() + splits.len() + 1 {
            assert(c == layoutc[0]);
        } else {
            assert(c == focus[k - create.len() - splits.len() - 1]);
        }
    }
}

proof fn lemma_windows_part_shape(session: Seq<char>, ws: Seq<WindowView>)
    ensures
        forall|k: int|
            0 <= k < windows_commands(session, ws).len() ==> !is_kill(
                #[trigger] windows_commands(session, ws)[k],
            ) && !is_select_window(windows_commands(session, ws)[k]),
    decreases ws.len(),
{
    if ws.len() > 0 {
        lemma_window_commands_shape(session, ws[0]);
        lemma_windows_part_shape(session, ws.drop_first());
        let head = window_commands(session, ws[0]);
        let rest = windows_commands(session, ws.drop_first());
        assert forall|k: int| 0 <= k < windows_commands(session, ws).len() implies !is_kill(
            #[trigger] windows_commands(session, ws)[k],
        ) && !is_select_window(windows_commands(session, ws)[k]) by {
            if k < head.len() {
                assert(windows_commands(session, ws)[k] == head[k]);
            } else {
                assert(windows_commands(session, ws)[k] == rest[k - head.len()]);
            }
        }
    }
}

/// Law of the purge: no restore plan ever kills window zero.
pub proof fn lemma_restore_never_kills_window_zero(
    session: Seq<char>,
    existing: Seq<u32>,
    ws: Seq<WindowView>,
)
    ensures
        forall|k: int|
            0 <= k < spec_restore_plan(session, existing, ws).len() ==> !kills_zero(
                #[trigger] spec_restore_plan(session, existing, ws)[k],
            ),
{
    let plan = spec_restore_plan(session, existing, ws);
    let kills = kill_commands(session, existing);
    let mids = windows_commands(session, sort_by_index(ws));
    let sels = select_window_commands(session, ws);
    lemma_kill_part_never_zero(session, existing);
    lemma_windows_part_shape(session, sort_by_index(ws));
    assert forall|k: int| 0 <= k < plan.len() implies !kills_zero(#[trigger] plan[k]) by {
        if k < kills.len() {
            assert(plan[k] == kills[k]);
        } else if k < kills.len() + mids.len() {
            assert(plan[k] == mids[k - kills.len()]);
        } else {
            assert(plan[k] == sels[k - kills.len() - mids.len()]);
            assert(sels.len() == 1);
            match first_active_window(ws) {
                Some(i) => {
                    assert(plan[k] == TmuxCommandView::SelectWindow { session, index: i });
                },
                None => {},
            }
        }
    }
}

proof fn lemma_first_active_window_witness(ws: Seq<WindowView>)
    ensures
        match first_active_window(ws) {
            Some(x) => exists|i: int|
                0 <= i < ws.len() && (#[trigger] ws[i]).active && ws[i].index == x,
            None => true,
        },
    decreases ws.len(),
{
    if ws.len() > 0 {
        if ws[0].active {
        } else {
            lemma_first_active_window_witness(ws.drop_first());
            match first_active_window(ws.drop_first()) {
                Some(x) => {
                    let i = choose|i: int|
                        0 <= i < ws.drop_first().len() && (#[trigger] ws.drop_first()[i]).active
                            && ws.drop_first()[i].index == x;
                    assert(ws[i + 1] == ws.drop_first()[i]);
                },
                None => {},
            }
        }
    }
}

/// Law of active selection: a restore plan holds at most one window
/// selection, and only for a window the save file marks active.
pub proof fn lemma_restore_selects_active_only(
    session: Seq<char>,
    existing: Seq<u32>,
    ws: Seq<WindowView>,
)
    ensures
        forall|k1: int, k2: int|
            0 <= k1 < k2 < spec_restore_plan(session, existing, ws).len() ==> !(is_select_window(
                #[trigger] spec_restore_plan(session, existing, ws)[k1],
            ) && is_select_window(#[trigger] spec_restore_plan(session, existing, ws)[k2])),
        forall|k: int|
            0 <= k < spec_restore_plan(session, existing, ws).len() && is_select_window(
                #[trigger] spec_restore_plan(session, existing, ws)[k],
            ) ==> (exists|i: int|
                0 <= i < ws.len() && (#[trigger] ws[i]).active && spec_restore_plan(
                    session,
                    existing,
                    ws,
                )[k] == (TmuxCommandView::SelectWindow { session, index: ws[i].index })),
{
    let plan = spec_restore_plan(session, existing, ws);
    let kills = kill_commands(session, existing);
    let mids = windows_commands(session, sort_by_index(ws));
    let sels = select_window_commands(session, ws);
    lemma_kill_part_never_zero(session, existing);
    lemma_windows_part_shape(session, sort_by_index(ws));
    lemma_first_active_window_witness(ws);
    assert forall|k: int|
        0 <= k < plan.len() && is_select_window(#[trigger] plan[k]) implies k >= kills.len()
        + mids.len() by {
        if k < kills.len() {
            assert(plan[k] == kills[k]);
            assert(!kills_zero(kills[k]));
            assert(!is_select_window(kills[k])) by {
                lemma_kill_elements(session, existing, k);
            }
        } else if k < kills.len() + mids.len() {
            assert(plan[k] == mids[k - kills.len()]);
        }
    }
    assert forall|k1: int, k2: int| 0 <= k1 < k2 < plan.len() implies !(is_select_window(
        #[trigger] plan[k1],
    ) && is_select_window(#[trigger] plan[k2])) by {
        if is_select_window(plan[k1]) && is_select_window(plan[k2]) {
            assert(k1 >= kills.len() + mids.len());
            assert(k2 >= kills.len() + mids.len());
            assert(plan.len() == kills.len() + mids.len() + sels.len());
            assert(sels.len() <= 1);
        }
    }
    assert forall|k: int|
        0 <= k < plan.len() && is_select_window(#[trigger] plan[k]) implies (exists|i: int|
        0 <= i < ws.len() && (#[trigger] ws[i]).active && plan[k]
            == (TmuxCommandView::SelectWindow { session, index: ws[i].index })) by {
        assert(k >= kills.len() + mids.len());
        assert(plan[k] == sels[k - kills.len() - mids.len()]);
        match first_active_window(ws) {
            Some(x) => {
                assert(plan[k] == TmuxCommandView::SelectWindow { session, index: x });
                let i = choose|i: int|
                    0 <= i < ws.len() && (#[trigger] ws[i]).active && ws[i].index == x;
                assert(0 <= i < ws.len() && ws[i].active && plan[k]
                    == TmuxCommandView::SelectWindow { session, index: ws[i].index });
            },
            None => {
                assert(sels.len() == 0);
                assert(false);
            },
        }
    }
}

proof fn lemma_kill_elements(session: Seq<char>, existing: Seq<u32>, k: int)
    requires
        0 <= k < kill_commands(session, existing).len(),
    ensures
        is_kill(kill_commands(session, existing)[k]),
    decreases existing.len(),
{
    if existing.len() > 0 {
        let head = if existing[0] == 0 {
            Seq::<TmuxCommandView>::empty()
        } else {
            seq![TmuxCommandView::KillWindow { session, index: existing[0] }]
        };
        if k >= head.len() {
            lemma_kill_elements(session, existing.drop_first(), k - head.len());
        }
    }
}


/// Model of one window's structure as the multiplexer holds it: its name,
/// its layout, and its panes' working directories in creation order.
pub struct MuxWindow {
    pub name: Seq<char>,
    pub layout: Seq<char>,
    pub pane_cwds: Seq<Seq<char>>,
}

/// Model of a session's structure: windows by index.
pub struct MuxState {
    pub windows: Map<u32, MuxWindow>,
}

/// What one command does to the modelled structure.  A split or layout
/// change on an absent window changes nothing, and the focus commands do not
/// touch structure.
pub open spec fn apply_command(s: MuxState, c: TmuxCommandView) -> MuxState {
    match c {
        TmuxCommandView::KillWindow { session: _, index } => MuxState {
            windows: s.windows.remove(index),
        },
        TmuxCommandView::NewWindow { session: _, index, name, cwd } => MuxState {
            windows: s.windows.insert(
                index,
                MuxWindow {
                    name,
                    layout: Seq::<char>::empty(),
                    pane_cwds: seq![
                        match cwd {
                            Some(p) => p,
                            None => Seq::<char>::empty(),
                        },
                    ],
                },
            ),
        },
        TmuxCommandView::SplitWindow { session: _, index, cwd } => if s.windows.contains_key(
            index,
        ) {
            MuxState {
                windows: s.windows.insert(
                    index,
                    MuxWindow { pane_cwds: s.windows[index].pane_cwds.push(cwd), ..s.windows[index] },
                ),
            }
        } else {
            s
        },
        TmuxCommandView::SelectLayout { session: _, index, layout } => if s.windows.contains_key(
            index,
        ) {
            MuxState {
                windows: s.windows.insert(index, MuxWindow { layout, ..s.windows[index] }),
            }
        } else {
            s
        },
        TmuxCommandView::SelectPane { session: _, index: _, pane: _ } => s,
        TmuxCommandView::SelectWindow { session: _, index: _ } => s,
    }
}

/// Running a command list, in order.
pub open spec fn apply_plan(s: MuxState, cs: Seq<TmuxCommandView>) -> MuxState
    decreases cs.len(),
{
    if cs.len() == 0 {
        s
    } else {
        apply_plan(apply_command(s, cs[0]), cs.drop_first())
    }
}

proof fn lemma_apply_plan_concat(s: MuxState, a: Seq<TmuxCommandView>, b: Seq<TmuxCommandView>)
    ensures
        apply_plan(s, a + b) == apply_plan(apply_plan(s, a), b),
    decreases a.len(),
{
    if a.len() == 0 {
        assert(a + b =~= b);
    } else {
        assert((a + b)[0] == a[0]);
        assert((a + b).drop_first() =~= a.drop_first() + b);
        lemma_apply_plan_concat(apply_command(s, a[0]), a.drop_first(), b);
    }
}

/// The modelled structure a parsed window describes.
pub open spec fn mux_window_of(w: WindowView) -> MuxWindow {
    MuxWindow {
        name: w.name,
        layout: w.layout,
        pane_cwds: w.panes.map_values(|p: PaneView| p.current_path),
    }
}

/// Some window of `ws` carries index `x`.
pub open spec fn has_index(ws: Seq<WindowView>, x: u32) -> bool {
    exists|i: int| 0 <= i < ws.len() && (#[trigger] ws[i]).index == x
}

/// The window of `ws` carrying index `x`; meaningful under `has_index` and
/// unique indices.
pub open spec fn window_with_index(ws: Seq<WindowView>, x: u32) -> WindowView {
    ws[choose|i: int| 0 <= i < ws.len() && (#[trigger] ws[i]).index == x]
}

/// No two windows share an index.
pub open spec fn unique_indices(ws: Seq<WindowView>) -> bool {
    forall|i: int, j: int|
        0 <= i < j < ws.len() ==> (#[trigger] ws[i]).index != (#[trigger] ws[j]).index
}

/// Every window has at least one pane, as every snapshot does.
pub open spec fn all_have_panes(ws: Seq<WindowView>) -> bool {
    forall|i: int| 0 <= i < ws.len() ==> (#[trigger] ws[i]).panes.len() >= 1
}

/// The structure a whole parsed session describes, keyed by window index.
pub open spec fn described_windows(ws: Seq<WindowView>) -> Map<u32, MuxWindow>
    decreases ws.len(),
{
    if ws.len() == 0 {
        Map::<u32, MuxWindow>::empty()
    } else {
        described_windows(ws.drop_first()).insert(ws[0].index, mux_window_of(ws[0]))
    }
}

proof fn lemma_window_with_index_is(ws: Seq<WindowView>, x: u32, i: int)
    requires
        unique_indices(ws),
        0 <= i < ws.len(),
        ws[i].index == x,
    ensures
        window_with_index(ws, x) == ws[i],
{
    assert(has_index(ws, x));
    let j = choose|j: int| 0 <= j < ws.len() && (#[trigger] ws[j]).index == x;
    if i < j {
        assert(ws[i].index != ws[j].index);
    } else if j < i {
        assert(ws[j].index != ws[i].index);
    }
}

proof fn lemma_has_index_shift(ws: Seq<WindowView>, x: u32)
    requires
        ws.len() > 0,
    ensures
        has_index(ws, x) <==> (ws[0].index == x || has_index(ws.drop_first(), x)),
{
    let rest = ws.drop_first();
    if has_index(ws, x) {
        let i = choose|i: int| 0 <= i < ws.len() && (#[trigger] ws[i]).index == x;
        if i > 0 {
            assert(rest[i - 1] == ws[i]);
            assert(has_index(rest, x));
        }
    }
    if has_index(rest, x) {
        let i = choose|i: int| 0 <= i < rest.len() && (#[trigger] rest[i]).index == x;
        assert(ws[i + 1] == rest[i]);
        assert(has_index(ws, x));
    }
}

proof fn lemma_described_characterized(ws: Seq<WindowView>)
    requires
        unique_indices(ws),
    ensures
        forall|x: u32| described_windows(ws).contains_key(x) <==> has_index(ws, x),
        forall|x: u32|
            has_index(ws, x) ==> described_windows(ws)[x] == mux_window_of(
                window_with_index(ws, x),
            ),
    decreases ws.len(),
{
    if ws.len() == 0 {
        assert forall|x: u32| !has_index(ws, x) by {
            if has_index(ws, x) {
                let i = choose|i: int| 0 <= i < ws.len() && (#[trigger] ws[i]).index == x;
            }
        }
    } else {
        let rest = ws.drop_first();
        assert(unique_indices(rest)) by {
            assert(forall|i: int| 0 <= i < rest.len() ==> rest[i] == ws[i + 1]);
        }
        lemma_described_characterized(rest);
        assert forall|x: u32| described_windows(ws).contains_key(x) <==> has_index(ws, x) by {
            lemma_has_index_shift(ws, x);
        }
        assert forall|x: u32| has_index(ws, x) implies described_windows(ws)[x]
            == mux_window_of(window_with_index(ws, x)) by {
            lemma_has_index_shift(ws, x);
            if x == ws[0].index {
                lemma_window_with_index_is(ws, x, 0);
            } else {
                assert(has_index(rest, x));
                let i = choose|i: int| 0 <= i < rest.len() && (#[trigger] rest[i]).index == x;
                lemma_window_with_index_is(rest, x, i);
                assert(ws[i + 1] == rest[i]);
                lemma_window_with_index_is(ws, x, i + 1);
            }
        }
    }
}

proof fn lemma_seq_contains_shift(s: Seq<u32>, x: u32)
    requires
        s.len() > 0,
    ensures
        s.contains(x) <==> (s[0] == x || s.drop_first().contains(x)),
{
    let rest = s.drop_first();
    if s.contains(x) {
        let i = choose|i: int| 0 <= i < s.len() && s[i] == x;
        if i > 0 {
            assert(rest[i - 1] == s[i]);
            assert(rest.contains(x));
        }
    }
    if rest.contains(x) {
        let i = choose|i: int| 0 <= i < rest.len() && rest[i] == x;
        assert(s[i + 1] == rest[i]);
        assert(s.contains(x));
    }
}

proof fn lemma_apply_kills(s: MuxState, session: Seq<char>, existing: Seq<u32>)
    ensures
        ({
            let f = apply_plan(s, kill_commands(session, existing));
            &&& forall|x: u32|
                (#[trigger] f.windows.contains_key(x)) <==> (s.windows.contains_key(x) && (x == 0
                    || !existing.contains(x)))
            &&& forall|x: u32|
                (#[trigger] f.windows.contains_key(x)) ==> f.windows[x] == s.windows[x]
        }),
    decreases existing.len(),
{
    let f = apply_plan(s, kill_commands(session, existing));
    if existing.len() == 0 {
        assert(f == s);
        assert forall|x: u32|
            (#[trigger] f.windows.contains_key(x)) <==> (s.windows.contains_key(x) && (x == 0
                || !existing.contains(x))) by {
            if existing.contains(x) {
                let i = choose|i: int| 0 <= i < existing.len() && existing[i] == x;
            }
        }
    } else {
        let e0 = existing[0];
        let rest = existing.drop_first();
        let cmds = kill_commands(session, existing);
        if e0 == 0 {
            assert(cmds =~= kill_commands(session, rest));
            lemma_apply_kills(s, session, rest);
            let g = apply_plan(s, kill_commands(session, rest));
            assert(f == g);
            assert forall|x: u32|
                (#[trigger] f.windows.contains_key(x)) <==> (s.windows.contains_key(x) && (x == 0
                    || !existing.contains(x))) by {
                lemma_seq_contains_shift(existing, x);
                assert(g.windows.contains_key(x) <==> (s.windows.contains_key(x) && (x == 0
                    || !rest.contains(x))));
            }
            assert forall|x: u32| #[trigger]
                f.windows.contains_key(x) implies f.windows[x] == s.windows[x] by {
                if f.windows.contains_key(x) {
                    assert(g.windows.contains_key(x));
                    assert(g.windows[x] == s.windows[x]);
                }
            }
        } else {
            let c = TmuxCommandView::KillWindow { session, index: e0 };
            assert(cmds =~= seq![c] + kill_commands(session, rest));
            assert(cmds[0] == c);
            assert(cmds.drop_first() =~= kill_commands(session, rest));
            let s1 = apply_command(s, c);
            assert(s1.windows == s.windows.remove(e0));
            lemma_apply_kills(s1, session, rest);
            let g = apply_plan(s1, kill_commands(session, rest));
            assert(f == g);
            assert forall|x: u32|
                (#[trigger] f.windows.contains_key(x)) <==> (s.windows.contains_key(x) && (x == 0
                    || !existing.contains(x))) by {
                lemma_seq_contains_shift(existing, x);
                assert(g.windows.contains_key(x) <==> (s1.windows.contains_key(x) && (x == 0
                    || !rest.contains(x))));
                assert(s1.windows.contains_key(x) <==> (s.windows.contains_key(x) && x != e0));
            }
            assert forall|x: u32| #[trigger]
                f.windows.contains_key(x) implies f.windows[x] == s.windows[x] by {
                if f.windows.contains_key(x) {
                    assert(g.windows.contains_key(x));
                    assert(g.windows[x] == s1.windows[x]);
                    assert(s1.windows.contains_key(x) <==> (s.windows.contains_key(x) && x
                        != e0));
                    assert(s1.windows.contains_key(x));
                    assert(s1.windows[x] == s.windows[x]);
                }
            }
        }
    }
}


proof fn lemma_apply_splits(s: MuxState, session: Seq<char>, index: u32, ps: Seq<PaneView>)
    requires
        s.windows.contains_key(index),
    ensures
        apply_plan(s, crate::restore::split_cmds_of(session, index, ps)).windows
            == s.windows.insert(
            index,
            MuxWindow {
                name: s.windows[index].name,
                layout: s.windows[index].layout,
                pane_cwds: s.windows[index].pane_cwds + ps.map_values(
                    |p: PaneView| p.current_path,
                ),
            },
        ),
    decreases ps.len(),
{
    let cmds = crate::restore::split_cmds_of(session, index, ps);
    if ps.len() == 0 {
        assert(cmds =~= Seq::<TmuxCommandView>::empty());
        assert(s.windows[index].pane_cwds + ps.map_values(|p: PaneView| p.current_path)
            =~= s.windows[index].pane_cwds);
        assert(s.windows.insert(
            index,
            MuxWindow {
                name: s.windows[index].name,
                layout: s.windows[index].layout,
                pane_cwds: s.windows[index].pane_cwds + ps.map_values(
                    |p: PaneView| p.current_path,
                ),
            },
        ) =~= s.windows);
    } else {
        let p0 = ps[0];
        let rest = ps.drop_first();
        let c = TmuxCommandView::SplitWindow { session, index, cwd: p0.current_path };
        assert(cmds[0] == c);
        assert(cmds.drop_first() =~= crate::restore::split_cmds_of(session, index, rest));
        let s1 = apply_command(s, c);
        assert(s1.windows == s.windows.insert(
            index,
            MuxWindow {
                name: s.windows[index].name,
                layout: s.windows[index].layout,
                pane_cwds: s.windows[index].pane_cwds.push(p0.current_path),
            },
        ));
        lemma_apply_splits(s1, session, index, rest);
        assert(s1.windows[index].pane_cwds + rest.map_values(|p: PaneView| p.current_path)
            =~= s.windows[index].pane_cwds + ps.map_values(|p: PaneView| p.current_path));
        assert(apply_plan(s, cmds).windows =~= s.windows.insert(
            index,
            MuxWindow {
                name: s.windows[index].name,
                layout: s.windows[index].layout,
                pane_cwds: s.windows[index].pane_cwds + ps.map_values(
                    |p: PaneView| p.current_path,
                ),
            },
        ));
    }
}

proof fn lemma_apply_one_window(s: MuxState, session: Seq<char>, w: WindowView)
    requires
        w.panes.len() >= 1,
        w.index == 0 ==> s.windows.contains_key(0) && s.windows[0].name == w.name
            && s.windows[0].pane_cwds == seq![w.panes[0].current_path],
    ensures
        apply_plan(s, window_commands(session, w)).windows == s.windows.insert(
            w.index,
            mux_window_of(w),
        ),
{
    let create = create_commands(session, w);
    let splits = split_commands(session, w);
    let layoutc = seq![
        TmuxCommandView::SelectLayout { session, index: w.index, layout: w.layout },
    ];
    let focus = focus_commands(session, w);
    let cmds = window_commands(session, w);
    assert(cmds == create + splits + layoutc + focus);
    lemma_apply_plan_concat(s, create + splits + layoutc, focus);
    lemma_apply_plan_concat(s, create + splits, layoutc);
    lemma_apply_plan_concat(s, create, splits);
    let s1 = apply_plan(s, create);
    assert((w.index > 0 ==> s1.windows == s.windows.insert(
        w.index,
        MuxWindow {
            name: w.name,
            layout: Seq::<char>::empty(),
            pane_cwds: seq![w.panes[0].current_path],
        },
    )) && (w.index == 0 ==> s1 == s)) by {
        if w.index > 0 {
            let c = create[0];
            assert(create.drop_first() =~= Seq::<TmuxCommandView>::empty());
            assert(apply_plan(apply_command(s, c), Seq::<TmuxCommandView>::empty())
                == apply_command(s, c));
            assert(s1 == apply_command(s, c));
        } else {
            assert(create =~= Seq::<TmuxCommandView>::empty());
            assert(s1 == s);
        }
    }
    assert(s1.windows.contains_key(w.index));
    assert(s1.windows[w.index].name == w.name);
    assert(s1.windows[w.index].pane_cwds == seq![w.panes[0].current_path]);
    assert(splits == crate::restore::split_cmds_of(session, w.index, rest_panes(w)));
    lemma_apply_splits(s1, session, w.index, rest_panes(w));
    let s2 = apply_plan(s1, splits);
    assert(s2.windows == s1.windows.insert(
        w.index,
        MuxWindow {
            name: s1.windows[w.index].name,
            layout: s1.windows[w.index].layout,
            pane_cwds: s1.windows[w.index].pane_cwds + rest_panes(w).map_values(
                |p: PaneView| p.current_path,
            ),
        },
    ));
    assert(s2.windows[w.index].pane_cwds =~= w.panes.map_values(|p: PaneView| p.current_path))
        by {
        assert(rest_panes(w) == w.panes.drop_first());
        assert(seq![w.panes[0].current_path] + w.panes.drop_first().map_values(
            |p: PaneView| p.current_path,
        ) =~= w.panes.map_values(|p: PaneView| p.current_path));
    }
    let s3 = apply_plan(s2, layoutc);
    assert(s3 == apply_command(s2, layoutc[0])) by {
        assert(layoutc.drop_first() =~= Seq::<TmuxCommandView>::empty());
        assert(apply_plan(apply_command(s2, layoutc[0]), Seq::<TmuxCommandView>::empty())
            == apply_command(s2, layoutc[0]));
    }
    assert(s2.windows.contains_key(w.index));
    assert(s3.windows == s2.windows.insert(
        w.index,
        MuxWindow {
            name: s2.windows[w.index].name,
            layout: w.layout,
            pane_cwds: s2.windows[w.index].pane_cwds,
        },
    ));
    let s4 = apply_plan(s3, focus);
    assert(s4 == s3) by {
        match first_active_pane(w.panes) {
            Some(pi) => {
                assert(focus[0] == (TmuxCommandView::SelectPane {
                    session,
                    index: w.index,
                    pane: pi,
                }));
                assert(focus.drop_first() =~= Seq::<TmuxCommandView>::empty());
                assert(apply_plan(apply_command(s3, focus[0]), Seq::<TmuxCommandView>::empty())
                    == apply_command(s3, focus[0]));
            },
            None => {
                assert(focus =~= Seq::<TmuxCommandView>::empty());
            },
        }
    }
    assert(s2.windows[w.index].name == w.name);
    assert(s2.windows[w.index].pane_cwds == w.panes.map_values(|p: PaneView| p.current_path));
    assert(s3.windows[w.index] == mux_window_of(w));
    assert forall|x: u32| #[trigger]
        s3.windows.contains_key(x) && x != w.index implies s3.windows[x] == s.windows[x] by {
        assert(s3.windows[x] == s2.windows[x]);
        assert(s2.windows[x] == s1.windows[x]);
    }
    assert(s4.windows =~= s.windows.insert(w.index, mux_window_of(w)));
}


proof fn lemma_apply_windows_list(s: MuxState, session: Seq<char>, ws: Seq<WindowView>)
    requires
        unique_indices(ws),
        all_have_panes(ws),
        forall|i: int|
            0 <= i < ws.len() && (#[trigger] ws[i]).index == 0 ==> s.windows.contains_key(0)
                && s.windows[0].name == ws[i].name && s.windows[0].pane_cwds == seq![
                ws[i].panes[0].current_path,
            ],
    ensures
        ({
            let f = apply_plan(s, windows_commands(session, ws));
            &&& forall|x: u32|
                (#[trigger] f.windows.contains_key(x)) <==> (s.windows.contains_key(x)
                    || has_index(ws, x))
            &&& forall|i: int|
                0 <= i < ws.len() ==> f.windows[(#[trigger] ws[i]).index] == mux_window_of(ws[i])
            &&& forall|x: u32|
                !has_index(ws, x) && s.windows.contains_key(x) ==> f.windows[x] == s.windows[x]
        }),
    decreases ws.len(),
{
    let f = apply_plan(s, windows_commands(session, ws));
    if ws.len() == 0 {
        assert(windows_commands(session, ws) =~= Seq::<TmuxCommandView>::empty());
        assert(f == s);
        assert forall|x: u32| !has_index(ws, x) by {
            if has_index(ws, x) {
                let i = choose|i: int| 0 <= i < ws.len() && (#[trigger] ws[i]).index == x;
            }
        }
    } else {
        let w0 = ws[0];
        let rest = ws.drop_first();
        assert(forall|i: int| 0 <= i < rest.len() ==> rest[i] == ws[i + 1]);
        assert(unique_indices(rest));
        assert(all_have_panes(rest));
        assert(w0.panes.len() >= 1);
        lemma_apply_plan_concat(s, window_commands(session, w0), windows_commands(session, rest));
        assert(windows_commands(session, ws) == window_commands(session, w0) + windows_commands(
            session,
            rest,
        ));
        lemma_apply_one_window(s, session, w0);
        let s1 = apply_plan(s, window_commands(session, w0));
        assert(s1.windows == s.windows.insert(w0.index, mux_window_of(w0)));
        assert forall|i: int|
            0 <= i < rest.len() && (#[trigger] rest[i]).index == 0 implies s1.windows.contains_key(
            0,
        ) && s1.windows[0].name == rest[i].name && s1.windows[0].pane_cwds == seq![
            rest[i].panes[0].current_path,
        ] by {
            assert(rest[i] == ws[i + 1]);
            assert(ws[i + 1].index == 0);
            assert(w0.index != ws[i + 1].index);
            assert(s1.windows[0] == s.windows[0]);
        }
        lemma_apply_windows_list(s1, session, rest);
        let g = apply_plan(s1, windows_commands(session, rest));
        assert(f == g);
        assert forall|x: u32|
            (#[trigger] f.windows.contains_key(x)) <==> (s.windows.contains_key(x) || has_index(
                ws,
                x,
            )) by {
            lemma_has_index_shift(ws, x);
            assert(g.windows.contains_key(x) <==> (s1.windows.contains_key(x) || has_index(
                rest,
                x,
            )));
        }
        assert forall|i: int|
            0 <= i < ws.len() implies f.windows[(#[trigger] ws[i]).index] == mux_window_of(
            ws[i],
        ) by {
            if i == 0 {
                assert(!has_index(rest, w0.index)) by {
                    if has_index(rest, w0.index) {
                        let j = choose|j: int|
                            0 <= j < rest.len() && (#[trigger] rest[j]).index == w0.index;
                        assert(rest[j] == ws[j + 1]);
                    }
                }
                assert(s1.windows.contains_key(w0.index));
                assert(g.windows[w0.index] == s1.windows[w0.index]);
                assert(s1.windows[w0.index] == mux_window_of(w0));
            } else {
                assert(rest[i - 1] == ws[i]);
                assert(g.windows[rest[i - 1].index] == mux_window_of(rest[i - 1]));
            }
        }
        assert forall|x: u32|
            !has_index(ws, x) && s.windows.contains_key(x) implies f.windows[x]
            == s.windows[x] by {
            lemma_has_index_shift(ws, x);
            assert(!has_index(rest, x));
            assert(x != w0.index);
            assert(s1.windows.contains_key(x));
            assert(s1.windows[x] == s.windows[x]);
            assert(g.windows[x] == s1.windows[x]);
        }
    }
}

proof fn lemma_apply_select_noop(s: MuxState, session: Seq<char>, ws: Seq<WindowView>)
    ensures
        apply_plan(s, select_window_commands(session, ws)) == s,
{
    let sels = select_window_commands(session, ws);
    match first_active_window(ws) {
        Some(i) => {
            assert(sels[0] == (TmuxCommandView::SelectWindow { session, index: i }));
            assert(sels.drop_first() =~= Seq::<TmuxCommandView>::empty());
            assert(apply_command(s, sels[0]) == s);
            assert(apply_plan(apply_command(s, sels[0]), Seq::<TmuxCommandView>::empty())
                == apply_command(s, sels[0]));
        },
        None => {
            assert(sels =~= Seq::<TmuxCommandView>::empty());
        },
    }
}

proof fn lemma_insert_elements(w: WindowView, ws: Seq<WindowView>)
    ensures
        insert_by_index(w, ws).len() == ws.len() + 1,
        forall|i: int|
            0 <= i < insert_by_index(w, ws).len() ==> (#[trigger] insert_by_index(w, ws)[i] == w
                || ws.contains(insert_by_index(w, ws)[i])),
        forall|y: WindowView| ws.contains(y) ==> insert_by_index(w, ws).contains(y),
        insert_by_index(w, ws).contains(w),
    decreases ws.len(),
{
    let ins = insert_by_index(w, ws);
    if ws.len() == 0 {
        assert(ins[0] == w);
    } else if w.index <= ws[0].index {
        assert(ins == seq![w] + ws);
        assert(ins[0] == w);
        assert forall|y: WindowView| ws.contains(y) implies ins.contains(y) by {
            let i = choose|i: int| 0 <= i < ws.len() && ws[i] == y;
            assert(ins[i + 1] == y);
        }
        assert(forall|i: int| 0 < i < ins.len() ==> ins[i] == ws[i - 1]);
        assert forall|i: int|
            0 <= i < ins.len() implies (#[trigger] ins[i] == w || ws.contains(ins[i])) by {
            if i > 0 {
                assert(ins[i] == ws[i - 1]);
            }
        }
    } else {
        let rest = ws.drop_first();
        lemma_insert_elements(w, rest);
        let sub = insert_by_index(w, rest);
        assert(ins == seq![ws[0]] + sub);
        assert(forall|i: int| 0 < i < ins.len() ==> ins[i] == sub[i - 1]);
        assert forall|i: int|
            0 <= i < ins.len() implies (#[trigger] ins[i] == w || ws.contains(ins[i])) by {
            if i == 0 {
                assert(ws[0] == ws[0]);
                assert(ws.contains(ws[0]));
            } else {
                assert(ins[i] == sub[i - 1]);
                if sub[i - 1] == w {
                } else {
                    assert(rest.contains(sub[i - 1]));
                    let j = choose|j: int| 0 <= j < rest.len() && rest[j] == sub[i - 1];
                    assert(ws[j + 1] == rest[j]);
                    assert(ws.contains(sub[i - 1]));
                }
            }
        }
        assert forall|y: WindowView| ws.contains(y) implies ins.contains(y) by {
            let i = choose|i: int| 0 <= i < ws.len() && ws[i] == y;
            if i == 0 {
                assert(ins[0] == y);
            } else {
                assert(rest[i - 1] == y);
                assert(rest.contains(y));
                assert(sub.contains(y));
                let j = choose|j: int| 0 <= j < sub.len() && sub[j] == y;
                assert(ins[j + 1] == y);
            }
        }
        assert(sub.contains(w));
        let j = choose|j: int| 0 <= j < sub.len() && sub[j] == w;
        assert(ins[j + 1] == w);
        assert(ins.contains(w));
    }
}

proof fn lemma_insert_has_index(w: WindowView, ws: Seq<WindowView>, x: u32)
    ensures
        has_index(insert_by_index(w, ws), x) <==> (x == w.index || has_index(ws, x)),
    decreases ws.len(),
{
    let ins = insert_by_index(w, ws);
    lemma_insert_elements(w, ws);
    if has_index(ins, x) {
        let i = choose|i: int| 0 <= i < ins.len() && (#[trigger] ins[i]).index == x;
        if ins[i] == w {
        } else {
            assert(ws.contains(ins[i]));
            let j = choose|j: int| 0 <= j < ws.len() && ws[j] == ins[i];
            assert(has_index(ws, x));
        }
    }
    if x == w.index {
        let i = choose|i: int| 0 <= i < ins.len() && ins[i] == w;
        assert(has_index(ins, x));
    }
    if has_index(ws, x) {
        let i = choose|i: int| 0 <= i < ws.len() && (#[trigger] ws[i]).index == x;
        assert(ws.contains(ws[i]));
        assert(ins.contains(ws[i]));
        let j = choose|j: int| 0 <= j < ins.len() && ins[j] == ws[i];
        assert(has_index(ins, x));
    }
}

proof fn lemma_insert_unique(w: WindowView, ws: Seq<WindowView>)
    requires
        unique_indices(ws),
        !has_index(ws, w.index),
    ensures
        unique_indices(insert_by_index(w, ws)),
    decreases ws.len(),
{
    let ins = insert_by_index(w, ws);
    if ws.len() == 0 {
    } else if w.index <= ws[0].index {
        assert(ins == seq![w] + ws);
        assert forall|i: int, j: int|
            0 <= i < j < ins.len() implies (#[trigger] ins[i]).index != (
            #[trigger] ins[j]).index by {
            if i == 0 {
                assert(ins[j] == ws[j - 1]);
                if ins[j].index == w.index {
                    assert(has_index(ws, w.index));
                }
            } else {
                assert(ins[i] == ws[i - 1]);
                assert(ins[j] == ws[j - 1]);
            }
        }
    } else {
        let rest = ws.drop_first();
        assert(forall|i: int| 0 <= i < rest.len() ==> rest[i] == ws[i + 1]);
        assert(unique_indices(rest));
        assert(!has_index(rest, w.index)) by {
            if has_index(rest, w.index) {
                let i = choose|i: int| 0 <= i < rest.len() && (#[trigger] rest[i]).index == w.index;
                assert(ws[i + 1].index == w.index);
                assert(has_index(ws, w.index));
            }
        }
        lemma_insert_unique(w, rest);
        let sub = insert_by_index(w, rest);
        lemma_insert_elements(w, rest);
        assert(ins == seq![ws[0]] + sub);
        assert forall|i: int, j: int|
            0 <= i < j < ins.len() implies (#[trigger] ins[i]).index != (
            #[trigger] ins[j]).index by {
            if i == 0 {
                assert(ins[j] == sub[j - 1]);
                if sub[j - 1] == w {
                    assert(ws[0].index < w.index);
                } else {
                    assert(rest.contains(sub[j - 1]));
                    let k = choose|k: int| 0 <= k < rest.len() && rest[k] == sub[j - 1];
                    assert(ws[k + 1] == rest[k]);
                    assert(ws[0].index != ws[k + 1].index);
                }
            } else {
                assert(ins[i] == sub[i - 1]);
                assert(ins[j] == sub[j - 1]);
            }
        }
    }
}

proof fn lemma_sort_preserves(ws: Seq<WindowView>)
    requires
        unique_indices(ws),
    ensures
        sort_by_index(ws).len() == ws.len(),
        unique_indices(sort_by_index(ws)),
        forall|x: u32| has_index(sort_by_index(ws), x) <==> has_index(ws, x),
        forall|i: int|
            0 <= i < sort_by_index(ws).len() ==> ws.contains(#[trigger] sort_by_index(ws)[i]),
        all_have_panes(ws) ==> all_have_panes(sort_by_index(ws)),
    decreases ws.len(),
{
    let srt = sort_by_index(ws);
    if ws.len() == 0 {
        assert forall|x: u32| !has_index(srt, x) && !has_index(ws, x) by {
            if has_index(srt, x) {
                let i = choose|i: int| 0 <= i < srt.len() && (#[trigger] srt[i]).index == x;
            }
            if has_index(ws, x) {
                let i = choose|i: int| 0 <= i < ws.len() && (#[trigger] ws[i]).index == x;
            }
        }
    } else {
        let w0 = ws[0];
        let rest = ws.drop_first();
        assert(forall|i: int| 0 <= i < rest.len() ==> rest[i] == ws[i + 1]);
        assert(unique_indices(rest));
        lemma_sort_preserves(rest);
        let srest = sort_by_index(rest);
        assert(!has_index(srest, w0.index)) by {
            if has_index(srest, w0.index) {
                assert(has_index(rest, w0.index));
                let i = choose|i: int| 0 <= i < rest.len() && (#[trigger] rest[i]).index == w0.index;
                assert(ws[i + 1].index == w0.index);
            }
        }
        lemma_insert_unique(w0, srest);
        lemma_insert_elements(w0, srest);
        assert(srt == insert_by_index(w0, srest));
        assert forall|x: u32| has_index(srt, x) <==> has_index(ws, x) by {
            lemma_insert_has_index(w0, srest, x);
            lemma_has_index_shift(ws, x);
        }
        assert forall|i: int| 0 <= i < srt.len() implies ws.contains(#[trigger] srt[i]) by {
            if srt[i] == w0 {
                assert(ws[0] == w0);
                assert(ws.contains(w0));
            } else {
                assert(srest.contains(srt[i]));
                let j = choose|j: int| 0 <= j < srest.len() && srest[j] == srt[i];
                assert(rest.contains(srest[j]));
                let k = choose|k: int| 0 <= k < rest.len() && rest[k] == srt[i];
                assert(ws[k + 1] == rest[k]);
                assert(ws.contains(srt[i]));
            }
        }
        if all_have_panes(ws) {
            assert(all_have_panes(rest));
            assert forall|i: int|
                0 <= i < srt.len() implies (#[trigger] srt[i]).panes.len() >= 1 by {
                assert(ws.contains(srt[i]));
                let j = choose|j: int| 0 <= j < ws.len() && ws[j] == srt[i];
            }
        }
    }
}


/// Law of restore: run against a session whose window zero already matches
/// the save file's window zero head (the one window the purge must leave in
/// place), the plan rebuilds exactly the described structure — whatever
/// windows the session held before.  `existing` must list every window of
/// the session other than zero, as the multiplexer's listing does.
pub proof fn lemma_restore_establishes_structure(
    s: MuxState,
    session: Seq<char>,
    existing: Seq<u32>,
    ws: Seq<WindowView>,
)
    requires
        unique_indices(ws),
        all_have_panes(ws),
        has_index(ws, 0u32),
        forall|x: u32| s.windows.contains_key(x) && x != 0 ==> existing.contains(x),
        s.windows.contains_key(0u32),
        s.windows[0u32].name == window_with_index(ws, 0u32).name,
        s.windows[0u32].pane_cwds == seq![window_with_index(ws, 0u32).panes[0].current_path],
    ensures
        apply_plan(s, spec_restore_plan(session, existing, ws)).windows == described_windows(ws),
{
    let plan = spec_restore_plan(session, existing, ws);
    let kills = kill_commands(session, existing);
    let sorted = sort_by_index(ws);
    let mids = windows_commands(session, sorted);
    let sels = select_window_commands(session, ws);
    lemma_apply_plan_concat(s, kills + mids, sels);
    lemma_apply_plan_concat(s, kills, mids);
    lemma_apply_kills(s, session, existing);
    let s1 = apply_plan(s, kills);
    assert forall|x: u32| #[trigger] s1.windows.contains_key(x) <==> x == 0 by {
        if s1.windows.contains_key(x) && x != 0 {
            assert(s.windows.contains_key(x));
            assert(existing.contains(x));
        }
    }
    assert(s1.windows.contains_key(0u32));
    assert(s1.windows[0u32] == s.windows[0u32]);
    lemma_sort_preserves(ws);
    let w0 = window_with_index(ws, 0u32);
    assert(has_index(sorted, 0u32));
    assert forall|i: int|
        0 <= i < sorted.len() && (#[trigger] sorted[i]).index == 0 implies sorted[i] == w0 by {
        assert(ws.contains(sorted[i]));
        let j = choose|j: int| 0 <= j < ws.len() && ws[j] == sorted[i];
        lemma_window_with_index_is(ws, 0u32, j);
    }
    lemma_apply_windows_list(s1, session, sorted);
    let s2 = apply_plan(s1, mids);
    lemma_apply_select_noop(s2, session, ws);
    lemma_described_characterized(ws);
    assert forall|x: u32|
        (#[trigger] s2.windows.contains_key(x)) <==> described_windows(ws).contains_key(x) by {
        assert(s2.windows.contains_key(x) <==> (s1.windows.contains_key(x) || has_index(
            sorted,
            x,
        )));
        assert(s1.windows.contains_key(x) <==> x == 0);
        assert(has_index(sorted, x) <==> has_index(ws, x));
        assert(described_windows(ws).contains_key(x) <==> has_index(ws, x));
    }
    assert forall|x: u32|
        #[trigger] s2.windows.contains_key(x) implies s2.windows[x] == described_windows(
            ws,
        )[x] by {
        assert(has_index(ws, x));
        assert(has_index(sorted, x));
        let i = choose|i: int| 0 <= i < sorted.len() && (#[trigger] sorted[i]).index == x;
        assert(s2.windows[sorted[i].index] == mux_window_of(sorted[i]));
        assert(ws.contains(sorted[i]));
        let j = choose|j: int| 0 <= j < ws.len() && ws[j] == sorted[i];
        lemma_window_with_index_is(ws, x, j);
        assert(described_windows(ws)[x] == mux_window_of(window_with_index(ws, x)));
    }
    assert(s2.windows =~= described_windows(ws));
    assert(apply_plan(s, plan) == apply_plan(s2, sels));
}

/// Law of restore idempotence: on a session that already matches the save
/// file — so the purge finds nothing but window zero to keep, and window
/// zero holds its single described pane — the plan leaves the structure
/// exactly as it was.  A save file whose window zero has two panes is left
/// out: replaying its splits would add panes to the window the purge must
/// keep.
pub proof fn lemma_restore_idempotent(
    s: MuxState,
    session: Seq<char>,
    existing: Seq<u32>,
    ws: Seq<WindowView>,
)
    requires
        unique_indices(ws),
        all_have_panes(ws),
        has_index(ws, 0u32),
        window_with_index(ws, 0u32).panes.len() == 1,
        s.windows == described_windows(ws),
        forall|x: u32| s.windows.contains_key(x) && x != 0 ==> existing.contains(x),
    ensures
        apply_plan(s, spec_restore_plan(session, existing, ws)).windows == s.windows,
{
    lemma_described_characterized(ws);
    let w0 = window_with_index(ws, 0u32);
    assert(s.windows.contains_key(0u32));
    assert(s.windows[0u32] == mux_window_of(w0));
    assert(s.windows[0u32].pane_cwds =~= seq![w0.panes[0].current_path]);
    lemma_restore_establishes_structure(s, session, existing, ws);
}

} // verus!
