//! The restore planner: from the parsed save file and the indices of the
//! windows currently alive, the ordered list of multiplexer commands that
//! rebuilds the described session.
//!
//! Every window but index zero is purged first (the multiplexer keeps at
//! least one window per session), then each described window is created in
//! ascending index order: windows above zero are opened at their index with
//! the first pane's directory, further panes are split off, the layout is
//! applied, and the first active pane of the window is focused.  Last, the
//! first window marked active is selected.

use vstd::prelude::*;

use crate::model::{Window, WindowView};

verus! {

/// One multiplexer operation of a restore plan, addressed by session name
/// and window index.
#[derive(Debug, Clone, PartialEq, Eq)]
pub enum TmuxCommand {
    KillWindow { session: String, index: u32 },
    NewWindow { session: String, index: u32, name: String, cwd: Option<String> },
    SplitWindow { session: String, index: u32, cwd: String },
    SelectLayout { session: String, index: u32, layout: String },
    SelectPane { session: String, index: u32, pane: u32 },
    SelectWindow { session: String, index: u32 },
}

/// Mathematical image of a [`TmuxCommand`].
pub enum TmuxCommandView {
    KillWindow { session: Seq<char>, index: u32 },
    NewWindow { session: Seq<char>, index: u32, name: Seq<char>, cwd: Option<Seq<char>> },
    SplitWindow { session: Seq<char>, index: u32, cwd: Seq<char> },
    SelectLayout { session: Seq<char>, index: u32, layout: Seq<char> },
    SelectPane { session: Seq<char>, index: u32, pane: u32 },
    SelectWindow { session: Seq<char>, index: u32 },
}

impl View for TmuxCommand {
    type V = TmuxCommandView;

    open spec fn view(&self) -> TmuxCommandView {
        match self {
            TmuxCommand::KillWindow { session, index } => TmuxCommandView::KillWindow {
                session: session@,
                index: *index,
            },
            TmuxCommand::NewWindow { session, index, name, cwd } => TmuxCommandView::NewWindow {
                session: session@,
                index: *index,
                name: name@,
                cwd: match cwd {
                    Some(p) => Some(p@),
                    None => None,
                },
            },
            TmuxCommand::SplitWindow { session, index, cwd } => TmuxCommandView::SplitWindow {
                session: session@,
                index: *index,
                cwd: cwd@,
            },
            TmuxCommand::SelectLayout { session, index, layout } => TmuxCommandView::SelectLayout {
                session: session@,
                index: *index,
                layout: layout@,
            },
            TmuxCommand::SelectPane { session, index, pane } => TmuxCommandView::SelectPane {
                session: session@,
                index: *index,
                pane: *pane,
            },
            TmuxCommand::SelectWindow { session, index } => TmuxCommandView::SelectWindow {
                session: session@,
                index: *index,
            },
        }
    }
}

/// The views of a vector of commands.
pub open spec fn command_views(cs: Seq<TmuxCommand>) -> Seq<TmuxCommandView> {
    cs.map_values(|c: TmuxCommand| c@)
}

/// Purge commands: one kill for every existing window index except zero.
pub open spec fn kill_commands(session: Seq<char>, existing: Seq<u32>) -> Seq<TmuxCommandView>
    decreases existing.len(),
{
    if existing.len() == 0 {
        Seq::<TmuxCommandView>::empty()
    } else {
        let head = if existing[0] == 0 {
            Seq::<TmuxCommandView>::empty()
        } else {
            seq![TmuxCommandView::KillWindow { session, index: existing[0] }]
        };
        head + kill_commands(session, existing.drop_first())
    }
}

/// The panes split off after the window's first pane.
pub open spec fn rest_panes(w: WindowView) -> Seq<crate::model::PaneView> {
    if w.panes.len() == 0 {
        Seq::<crate::model::PaneView>::empty()
    } else {
        w.panes.drop_first()
    }
}

/// The index of the first pane marked active, if any.
pub open spec fn first_active_pane(ps: Seq<crate::model::PaneView>) -> Option<u32>
    decreases ps.len(),
{
    if ps.len() == 0 {
        None
    } else if ps[0].active {
        Some(ps[0].index)
    } else {
        first_active_pane(ps.drop_first())
    }
}

/// The index of the first window marked active, if any.
pub open spec fn first_active_window(ws: Seq<WindowView>) -> Option<u32>
    decreases ws.len(),
{
    if ws.len() == 0 {
        None
    } else if ws[0].active {
        Some(ws[0].index)
    } else {
        first_active_window(ws.drop_first())
    }
}

/// The window-creation commands of one window: one, above index zero.
pub open spec fn create_commands(session: Seq<char>, w: WindowView) -> Seq<TmuxCommandView> {
    if w.index > 0 {
        seq![
            TmuxCommandView::NewWindow {
                session,
                index: w.index,
                name: w.name,
                cwd: if w.panes.len() > 0 {
                    Some(w.panes[0].current_path)
                } else {
                    None
                },
            },
        ]
    } else {
        Seq::<TmuxCommandView>::empty()
    }
}

/// Split commands for a run of panes, all aimed at one window.
pub open spec fn split_cmds_of(
    session: Seq<char>,
    index: u32,
    ps: Seq<crate::model::PaneView>,
) -> Seq<TmuxCommandView> {
    ps.map_values(
        |p: crate::model::PaneView| TmuxCommandView::SplitWindow {
            session,
            index,
            cwd: p.current_path,
        },
    )
}

/// One split per pane after the first, at that pane's directory.
pub open spec fn split_commands(session: Seq<char>, w: WindowView) -> Seq<TmuxCommandView> {
    split_cmds_of(session, w.index, rest_panes(w))
}

/// Focus commands of one window: its first active pane, if any.
pub open spec fn focus_commands(session: Seq<char>, w: WindowView) -> Seq<TmuxCommandView> {
    match first_active_pane(w.panes) {
        Some(pi) => seq![TmuxCommandView::SelectPane { session, index: w.index, pane: pi }],
        None => Seq::<TmuxCommandView>::empty(),
    }
}

/// The commands that rebuild one window: creation above index zero, one
/// split per further pane, the layout, and focus on its first active pane.
pub open spec fn window_commands(session: Seq<char>, w: WindowView) -> Seq<TmuxCommandView> {
    create_commands(session, w) + split_commands(session, w) + seq![
        TmuxCommandView::SelectLayout { session, index: w.index, layout: w.layout },
    ] + focus_commands(session, w)
}

/// The commands that rebuild a run of windows, in the given order.
pub open spec fn windows_commands(session: Seq<char>, ws: Seq<WindowView>) -> Seq<TmuxCommandView>
    decreases ws.len(),
{
    if ws.len() == 0 {
        Seq::<TmuxCommandView>::empty()
    } else {
        window_commands(session, ws[0]) + windows_commands(session, ws.drop_first())
    }
}

/// The final focus command: the first window marked active, if any.
pub open spec fn select_window_commands(session: Seq<char>, ws: Seq<WindowView>) -> Seq<
    TmuxCommandView,
> {
    match first_active_window(ws) {
        Some(i) => seq![TmuxCommandView::SelectWindow { session, index: i }],
        None => Seq::<TmuxCommandView>::empty(),
    }
}

/// Stable insertion of a window into an index-sorted run.
pub open spec fn insert_by_index(w: WindowView, ws: Seq<WindowView>) -> Seq<WindowView>
    decreases ws.len(),
{
    if ws.len() == 0 {
        seq![w]
    } else if w.index <= ws[0].index {
        seq![w] + ws
    } else {
        seq![ws[0]] + insert_by_index(w, ws.drop_first())
    }
}

/// The windows in ascending index order, stable for equal indices.
pub open spec fn sort_by_index(ws: Seq<WindowView>) -> Seq<WindowView>
    decreases ws.len(),
{
    if ws.len() == 0 {
        Seq::<WindowView>::empty()
    } else {
        insert_by_index(ws[0], sort_by_index(ws.drop_first()))
    }
}

/// The whole restore plan: purge, rebuild in ascending index order, select
/// the active window.
pub open spec fn spec_restore_plan(
    session: Seq<char>,
    existing: Seq<u32>,
    ws: Seq<WindowView>,
) -> Seq<TmuxCommandView> {
    kill_commands(session, existing) + windows_commands(session, sort_by_index(ws))
        + select_window_commands(session, ws)
}

proof fn lemma_insert_at_position(w: WindowView, ws: Seq<WindowView>, k: int)
    requires
        0 <= k <= ws.len(),
        forall|j: int| 0 <= j < k ==> (#[trigger] ws[j]).index < w.index,
        k < ws.len() ==> w.index <= ws[k].index,
    ensures
        insert_by_index(w, ws) == ws.subrange(0, k) + seq![w] + ws.subrange(k, ws.len() as int),
    decreases k,
{
    if k == 0 {
        if ws.len() == 0 {
            assert(insert_by_index(w, ws) =~= ws.subrange(0, 0) + seq![w] + ws.subrange(
                0,
                ws.len() as int,
            ));
        } else {
            assert(insert_by_index(w, ws) =~= ws.subrange(0, 0) + seq![w] + ws.subrange(
                0,
                ws.len() as int,
            ));
        }
    } else {
        assert(ws[0].index < w.index);
        let rest = ws.drop_first();
        assert(forall|j: int| 0 <= j < k - 1 ==> (#[trigger] rest[j]).index < w.index) by {
            assert(forall|j: int| 0 <= j < rest.len() ==> rest[j] == ws[j + 1]);
        }
        lemma_insert_at_position(w, rest, k - 1);
        assert(insert_by_index(w, ws) =~= seq![ws[0]] + (rest.subrange(0, k - 1) + seq![w]
            + rest.subrange(k - 1, rest.len() as int)));
        assert(seq![ws[0]] + rest.subrange(0, k - 1) =~= ws.subrange(0, k));
        assert(rest.subrange(k - 1, rest.len() as int) =~= ws.subrange(k, ws.len() as int));
        assert(insert_by_index(w, ws) =~= ws.subrange(0, k) + seq![w] + ws.subrange(
            k,
            ws.len() as int,
        ));
    }
}

/// Inserts `w` into an index-sorted vector, keeping it sorted.
fn insert_sorted(w: Window, mut sorted: Vec<Window>) -> (r: Vec<Window>)
    ensures
        crate::model::window_views(r@) == insert_by_index(
            w@,
            crate::model::window_views(sorted@),
        ),
{
    let ghost vs = crate::model::window_views(sorted@);
    let mut k: usize = 0;
    while k < sorted.len() && sorted[k].index < w.index
        invariant
            vs == crate::model::window_views(sorted@),
            vs.len() == sorted.len(),
            forall|j: int| 0 <= j < vs.len() ==> vs[j] == #[trigger] sorted[j]@,
            0 <= k <= sorted.len(),
            forall|j: int| 0 <= j < k ==> (#[trigger] vs[j]).index < w@.index,
        decreases sorted.len() - k,
    {
        k = k + 1;
    }
    proof {
        lemma_insert_at_position(w@, vs, k as int);
    }
    sorted.insert(k, w);
    proof {
        assert(crate::model::window_views(sorted@) =~= vs.subrange(0, k as int) + seq![w@]
            + vs.subrange(k as int, vs.len() as int));
    }
    sorted
}

/// Sorts windows by ascending index, stably.
pub fn sort_windows(ws: Vec<Window>) -> (r: Vec<Window>)
    ensures
        crate::model::window_views(r@) == sort_by_index(crate::model::window_views(ws@)),
    decreases ws@.len(),
{
    if ws.len() == 0 {
        proof {
            assert(crate::model::window_views(ws@) =~= Seq::<WindowView>::empty());
        }
        return ws;
    }
    let ghost vs = crate::model::window_views(ws@);
    let mut ws = ws;
    let w0 = ws.remove(0);
    proof {
        assert(crate::model::window_views(ws@) =~= vs.drop_first());
        assert(w0@ == vs[0]);
    }
    let rest = sort_windows(ws);
    insert_sorted(w0, rest)
}

/// Computes the restore plan for a parsed session.  `existing` holds the
/// window indices currently alive in the session, as listed by the
/// multiplexer.
pub fn plan_restore(session: &str, existing: &Vec<u32>, windows: Vec<Window>) -> (r: Vec<
    TmuxCommand,
>)
    ensures
        command_views(r@) == spec_restore_plan(
            session@,
            existing@,
            crate::model::window_views(windows@),
        ),
{
    let ghost ws = crate::model::window_views(windows@);
    let mut plan: Vec<TmuxCommand> = Vec::new();
    proof {
        assert(command_views(plan@) =~= Seq::<TmuxCommandView>::empty());
        assert(existing@.skip(0) =~= existing@);
    }
    let mut i: usize = 0;
    while i < existing.len()
        invariant
            0 <= i <= existing@.len(),
            command_views(plan@) + kill_commands(session@, existing@.skip(i as int))
                =~= kill_commands(session@, existing@),
        decreases existing@.len() - i,
    {
        let ghost before = command_views(plan@);
        let ghost tail = existing@.skip(i as int);
        proof {
            assert(tail[0] == existing@[i as int]);
            assert(tail.drop_first() =~= existing@.skip(i + 1));
        }
        let idx = existing[i];
        if idx != 0 {
            plan.push(
                TmuxCommand::KillWindow { session: session.to_owned(), index: idx },
            );
            proof {
                assert(command_views(plan@) =~= before + seq![
                    TmuxCommandView::KillWindow { session: session@, index: idx },
                ]);
            }
        }
        i = i + 1;
    }
    proof {
        assert(existing@.skip(existing@.len() as int) =~= Seq::<u32>::empty());
        assert(command_views(plan@) =~= kill_commands(session@, existing@));
    }
    let mut active_index: Option<u32> = None;
    let mut fi: usize = 0;
    proof {
        assert(ws.skip(0) =~= ws);
    }
    while fi < windows.len() && active_index.is_none()
        invariant
            ws == crate::model::window_views(windows@),
            ws.len() == windows.len(),
            forall|j: int| 0 <= j < ws.len() ==> ws[j] == #[trigger] windows[j]@,
            0 <= fi <= windows.len(),
            match active_index {
                None => first_active_window(ws) == first_active_window(ws.skip(fi as int)),
                Some(idx) => first_active_window(ws) == Some(idx),
            },
        decreases windows.len() - fi, (if active_index is None { 1int } else { 0int }),
    {
        let ghost tail = ws.skip(fi as int);
        proof {
            assert(tail[0] == ws[fi as int]);
            assert(tail.drop_first() =~= ws.skip(fi + 1));
        }
        if windows[fi].active {
            active_index = Some(windows[fi].index);
        } else {
            fi = fi + 1;
        }
    }
    proof {
        if active_index is None {
            assert(ws.skip(ws.len() as int) =~= Seq::<WindowView>::empty());
            assert(first_active_window(ws) is None);
        }
    }
    let sorted = sort_windows(windows);
    let ghost sws = crate::model::window_views(sorted@);
    let mut wi: usize = 0;
    proof {
        assert(sws.skip(0) =~= sws);
    }
    while wi < sorted.len()
        invariant
            sws == crate::model::window_views(sorted@),
            sws == sort_by_index(ws),
            sws.len() == sorted.len(),
            forall|j: int| 0 <= j < sws.len() ==> sws[j] == #[trigger] sorted[j]@,
            0 <= wi <= sorted.len(),
            command_views(plan@) + windows_commands(session@, sws.skip(wi as int))
                =~= kill_commands(session@, existing@) + windows_commands(session@, sws),
        decreases sorted.len() - wi,
    {
        let ghost before = command_views(plan@);
        let ghost tail = sws.skip(wi as int);
        proof {
            assert(tail[0] == sws[wi as int]);
            assert(tail.drop_first() =~= sws.skip(wi + 1));
        }
        let w = &sorted[wi];
        append_window_commands(&mut plan, session, w);
        proof {
            assert(command_views(plan@) =~= before + window_commands(session@, sws[wi as int]));
        }
        wi = wi + 1;
    }
    proof {
        assert(sws.skip(sws.len() as int) =~= Seq::<WindowView>::empty());
        assert(command_views(plan@) =~= kill_commands(session@, existing@) + windows_commands(
            session@,
            sws,
        ));
    }
    match active_index {
        Some(idx) => {
            plan.push(TmuxCommand::SelectWindow { session: session.to_owned(), index: idx });
            proof {
                assert(command_views(plan@) =~= kill_commands(session@, existing@)
                    + windows_commands(session@, sws) + select_window_commands(session@, ws));
            }
        },
        None => {
            proof {
                assert(select_window_commands(session@, ws) =~= Seq::<TmuxCommandView>::empty());
                assert(command_views(plan@) =~= kill_commands(session@, existing@)
                    + windows_commands(session@, sws) + select_window_commands(session@, ws));
            }
        },
    }
    plan
}

/// Appends the commands of one window to the plan.
fn append_window_commands(plan: &mut Vec<TmuxCommand>, session: &str, w: &Window)
    ensures
        command_views(final(plan)@) == command_views(old(plan)@) + window_commands(session@, w@),
{
    let ghost before = command_views(old(plan)@);
    let ghost create = create_commands(session@, w@);
    let ghost splits = split_commands(session@, w@);
    let ghost layoutc = seq![
        TmuxCommandView::SelectLayout { session: session@, index: w@.index, layout: w@.layout },
    ];
    if w.index > 0 {
        let cwd: Option<String> = if w.panes.len() > 0 {
            Some(w.panes[0].current_path.clone())
        } else {
            None
        };
        plan.push(
            TmuxCommand::NewWindow {
                session: session.to_owned(),
                index: w.index,
                name: w.name.clone(),
                cwd,
            },
        );
        proof {
            assert(command_views(plan@) =~= before + create);
        }
    } else {
        proof {
            assert(create =~= Seq::<TmuxCommandView>::empty());
            assert(command_views(plan@) =~= before + create);
        }
    }
    let mut pi: usize = 1;
    proof {
        assert(splits.take(0) =~= Seq::<TmuxCommandView>::empty());
        assert(command_views(plan@) =~= before + create + splits.take(0));
        if w@.panes.len() > 0 {
            assert(splits.len() == w@.panes.len() - 1);
        } else {
            assert(splits.len() == 0);
        }
    }
    while pi < w.panes.len()
        invariant
            before == command_views(old(plan)@),
            create == create_commands(session@, w@),
            splits == split_commands(session@, w@),
            w@.panes.len() == w.panes.len(),
            forall|j: int| 0 <= j < w@.panes.len() ==> w@.panes[j] == #[trigger] w.panes[j]@,
            1 <= pi,
            pi - 1 <= splits.len(),
            w@.panes.len() > 0 ==> splits.len() == w@.panes.len() - 1,
            w@.panes.len() == 0 ==> pi == 1 && splits.len() == 0,
            command_views(plan@) =~= before + create + splits.take(pi - 1),
        decreases w.panes.len() - pi,
    {
        let ghost prev = command_views(plan@);
        plan.push(
            TmuxCommand::SplitWindow {
                session: session.to_owned(),
                index: w.index,
                cwd: w.panes[pi].current_path.clone(),
            },
        );
        proof {
            let c = TmuxCommandView::SplitWindow {
                session: session@,
                index: w@.index,
                cwd: w@.panes[pi as int].current_path,
            };
            assert(command_views(plan@) =~= prev.push(c));
            assert(rest_panes(w@)[pi - 1] == w@.panes[pi as int]);
            assert(splits[pi - 1] == c);
            assert(splits.take(pi as int) =~= splits.take(pi - 1).push(splits[pi - 1]));
            assert(command_views(plan@) =~= before + create + splits.take(pi as int));
        }
        pi = pi + 1;
    }
    proof {
        assert(splits.take(splits.len() as int) =~= splits);
        assert(splits.take(pi - 1) =~= splits);
        assert(command_views(plan@) =~= before + create + splits);
    }
    plan.push(
        TmuxCommand::SelectLayout {
            session: session.to_owned(),
            index: w.index,
            layout: w.layout.clone(),
        },
    );
    proof {
        assert(command_views(plan@) =~= before + create + splits + layoutc);
    }
    let mut ai: usize = 0;
    proof {
        assert(w@.panes.skip(0) =~= w@.panes);
    }
    while ai < w.panes.len()
        invariant
            before == command_views(old(plan)@),
            create == create_commands(session@, w@),
            splits == split_commands(session@, w@),
            layoutc == seq![
                TmuxCommandView::SelectLayout {
                    session: session@,
                    index: w@.index,
                    layout: w@.layout,
                },
            ],
            w@.panes.len() == w.panes.len(),
            forall|j: int| 0 <= j < w@.panes.len() ==> w@.panes[j] == #[trigger] w.panes[j]@,
            0 <= ai <= w@.panes.len(),
            command_views(plan@) =~= before + create + splits + layoutc,
            first_active_pane(w@.panes) == first_active_pane(w@.panes.skip(ai as int)),
        decreases w.panes.len() - ai,
    {
        let ghost tail = w@.panes.skip(ai as int);
        proof {
            assert(tail[0] == w@.panes[ai as int]);
            assert(tail.drop_first() =~= w@.panes.skip(ai + 1));
        }
        if w.panes[ai].active {
            plan.push(
                TmuxCommand::SelectPane {
                    session: session.to_owned(),
                    index: w.index,
                    pane: w.panes[ai].index,
                },
            );
            proof {
                assert(first_active_pane(w@.panes) == Some(w@.panes[ai as int].index));
                let c = TmuxCommandView::SelectPane {
                    session: session@,
                    index: w@.index,
                    pane: w@.panes[ai as int].index,
                };
                assert(focus_commands(session@, w@) =~= seq![c]);
                assert(command_views(plan@) =~= before + create + splits + layoutc + seq![c]);
                assert(command_views(plan@) =~= before + window_commands(session@, w@));
            }
            return ;
        }
        ai = ai + 1;
    }
    proof {
        assert(w@.panes.skip(w@.panes.len() as int) =~= Seq::<crate::model::PaneView>::empty());
        assert(first_active_pane(w@.panes) is None);
        assert(focus_commands(session@, w@) =~= Seq::<TmuxCommandView>::empty());
        assert(command_views(plan@) =~= before + window_commands(session@, w@));
    }
}

} // verus!
