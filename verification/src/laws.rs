//! The properties this library stands on, proved once and for all: building
//! a plan after a successful run finds nothing left to do; the backup policy
//! never deletes; the no-backup policy clears and links; a directory already
//! in place short-circuits to `Noop`; and a pre-existing symlink counts as
//! done exactly when it resolves to the source.

use vstd::prelude::*;

use crate::actions::{spec_actions, spec_actions_row, ActionView};
use crate::render::{spec_render, spec_render_row, LineView};
use crate::errors::BuildErrorView;
use crate::model::{probe_wf, NodeKindView, NodeView, ProbeView};
use crate::paths::spec_backup_name;
use crate::plan::{spec_build, spec_build_children, spec_is_empty, PlanView};

verus! {

/// The destination state after the plan of a snapshot has been carried out,
/// node by node: a freshly linked file is now a symlink resolving to the
/// source's canonical path; everything that already matched stays as it
/// was. Each node's destination is modeled on its own. A directory that was
/// not in place is linked as one unit, which pulls its children's
/// destinations behind the new link; that shape is not modeled — the node
/// is returned unchanged, and the laws below exclude it.
pub open spec fn after_exec(n: NodeView) -> NodeView
    decreases n,
{
    match n.kind {
        NodeKindView::Missing => n,
        NodeKindView::File { canonical } => match canonical {
            None => n,
            Some(c) => if (n.probe.link_target matches Some(t) && t == c) {
                n
            } else {
                NodeView {
                    probe: ProbeView { occupied: true, is_dir: false, link_target: Some(c) },
                    ..n
                }
            },
        },
        NodeKindView::Dir { entries } => match entries {
            None => n,
            Some(es) => if n.probe.is_dir {
                NodeView { kind: NodeKindView::Dir { entries: Some(after_exec_row(es)) }, ..n }
            } else {
                n
            },
        },
    }
}

/// The destinations of a row of siblings after execution, in order.
pub open spec fn after_exec_row(es: Seq<NodeView>) -> Seq<NodeView>
    decreases es,
{
    if es.len() == 0 {
        Seq::empty()
    } else {
        after_exec_row(es.drop_last()).push(after_exec(es.last()))
    }
}

/// Every directory of the snapshot finds an existing directory at its
/// destination: no directory needs to be linked as one unit.
pub open spec fn dirs_in_place(n: NodeView) -> bool
    decreases n,
{
    match n.kind {
        NodeKindView::Dir { entries } => match entries {
            None => true,
            Some(es) => n.probe.is_dir && forall|i: int|
                0 <= i < es.len() ==> dirs_in_place(#[trigger] es[i]),
        },
        _ => true,
    }
}

/// Idempotence: once a plan has been built and carried out, building again
/// against the same source finds everything in place — the second plan is
/// empty. This holds whenever the first build succeeded and every directory
/// already stood at its destination (a directory linked as one unit hides
/// its children behind the new link, and a second run plans them afresh).
pub proof fn lemma_idempotent(n: NodeView, backup: bool)
    requires
        spec_build(n, backup) is Ok,
        dirs_in_place(n),
    ensures
        spec_build(after_exec(n), backup) matches Ok(p) && spec_is_empty(p),
    decreases n,
{
    match n.kind {
        NodeKindView::Missing => {},
        NodeKindView::File { canonical } => {
            let c = canonical->Some_0;
            if !(n.probe.link_target matches Some(t) && t == c) {
                let n2 = after_exec(n);
                assert(n2.kind == n.kind);
                assert(n2.probe.link_target == Some(c));
            }
        },
        NodeKindView::Dir { entries } => {
            let es = entries->Some_0;
            assert(spec_build_children(es, backup) is Ok);
            lemma_idempotent_row(es, backup);
            let n2 = after_exec(n);
            assert(n2.kind == NodeKindView::Dir { entries: Some(after_exec_row(es)) });
            assert(n2.probe.is_dir);
        },
    }
}

/// Row form of [`lemma_idempotent`]: after execution, every sibling's
/// sub-plan builds again and is empty.
pub proof fn lemma_idempotent_row(es: Seq<NodeView>, backup: bool)
    requires
        spec_build_children(es, backup) is Ok,
        forall|i: int| 0 <= i < es.len() ==> dirs_in_place(#[trigger] es[i]),
    ensures
        spec_build_children(after_exec_row(es), backup) matches Ok(cs) && cs.len() == es.len()
            && forall|i: int| 0 <= i < cs.len() ==> spec_is_empty(#[trigger] cs[i]),
    decreases es,
{
    if es.len() == 0 {
        assert(after_exec_row(es) == Seq::<NodeView>::empty());
        assert(spec_build_children(Seq::<NodeView>::empty(), backup)
            == Ok::<Seq<PlanView>, BuildErrorView>(Seq::empty()));
    } else {
        let d = es.drop_last();
        let l = es.last();
        assert(spec_build_children(d, backup) is Ok);
        assert(spec_build(l, backup) is Ok);
        assert(forall|i: int| 0 <= i < d.len() ==> d[i] == #[trigger] es[i]);
        lemma_idempotent_row(d, backup);
        assert(dirs_in_place(l));
        lemma_idempotent(l, backup);
        let row = after_exec_row(es);
        assert(row == after_exec_row(d).push(after_exec(l)));
        assert(row.drop_last() =~= after_exec_row(d));
        assert(row.last() == after_exec(l));
        let cs_d = spec_build_children(after_exec_row(d), backup)->Ok_0;
        let pl = spec_build(after_exec(l), backup)->Ok_0;
        assert(spec_build_children(row, backup) == Ok::<Seq<PlanView>, BuildErrorView>(
            cs_d.push(pl),
        ));
        assert forall|i: int| 0 <= i < cs_d.push(pl).len() implies spec_is_empty(
            #[trigger] cs_d.push(pl)[i],
        ) by {
            if i < cs_d.len() {
                assert(cs_d.push(pl)[i] == cs_d[i]);
            } else {
                assert(cs_d.push(pl)[i] == pl);
            }
        }
    }
}

/// Every `Link` node of the plan carries the policy flag `b`.
pub open spec fn link_flags(p: PlanView, b: bool) -> bool
    decreases p,
{
    match p {
        PlanView::Link { backup, .. } => backup == b,
        PlanView::Noop { children, .. } => forall|i: int|
            0 <= i < children.len() ==> link_flags(#[trigger] children[i], b),
    }
}

/// A built plan inherits the backup policy unchanged, everywhere.
pub proof fn lemma_build_flags(n: NodeView, backup: bool)
    ensures
        spec_build(n, backup) matches Ok(p) ==> link_flags(p, backup),
    decreases n,
{
    match n.kind {
        NodeKindView::Missing => {},
        NodeKindView::File { .. } => {},
        NodeKindView::Dir { entries } => {
            if entries is Some {
                lemma_build_flags_row(entries->Some_0, backup);
            }
        },
    }
}

/// Row form of [`lemma_build_flags`].
pub proof fn lemma_build_flags_row(es: Seq<NodeView>, backup: bool)
    ensures
        spec_build_children(es, backup) matches Ok(cs) ==> forall|i: int|
            0 <= i < cs.len() ==> link_flags(#[trigger] cs[i], backup),
    decreases es,
{
    if es.len() > 0 {
        lemma_build_flags_row(es.drop_last(), backup);
        lemma_build_flags(es.last(), backup);
        if spec_build_children(es, backup) is Ok {
            let cs = spec_build_children(es, backup)->Ok_0;
            let cs_d = spec_build_children(es.drop_last(), backup)->Ok_0;
            let pl = spec_build(es.last(), backup)->Ok_0;
            assert(cs == cs_d.push(pl));
            assert forall|i: int| 0 <= i < cs.len() implies link_flags(#[trigger] cs[i], backup) by {
                if i < cs_d.len() {
                    assert(cs[i] == cs_d[i]);
                } else {
                    assert(cs[i] == pl);
                }
            }
        }
    }
}

/// The `Link` nodes of a plan, in depth-first order.
pub open spec fn links_of(p: PlanView) -> Seq<PlanView>
    decreases p,
{
    match p {
        PlanView::Link { .. } => seq![p],
        PlanView::Noop { children, .. } => links_of_row(children),
    }
}

/// The `Link` nodes of a row of siblings, in order.
pub open spec fn links_of_row(cs: Seq<PlanView>) -> Seq<PlanView>
    decreases cs,
{
    if cs.len() == 0 {
        Seq::empty()
    } else {
        links_of(cs[0]) + links_of_row(cs.drop_first())
    }
}

/// An element is in a concatenation exactly when it is in one of the parts.
pub proof fn lemma_contains_concat<T>(a: Seq<T>, b: Seq<T>, x: T)
    ensures
        (a + b).contains(x) <==> a.contains(x) || b.contains(x),
{
    if a.contains(x) {
        let i = choose|i: int| 0 <= i < a.len() && a[i] == x;
        assert((a + b)[i] == x);
    }
    if b.contains(x) {
        let i = choose|i: int| 0 <= i < b.len() && b[i] == x;
        assert((a + b)[a.len() + i] == x);
    }
    if (a + b).contains(x) {
        let i = choose|i: int| 0 <= i < (a + b).len() && (a + b)[i] == x;
        if i < a.len() {
            assert(a[i] == x);
        } else {
            assert(b[i - a.len()] == x);
        }
    }
}

/// No removal action occurs in the row.
pub open spec fn no_removals(acts: Seq<ActionView>) -> bool {
    forall|i: int| 0 <= i < acts.len() ==> !((#[trigger] acts[i]) is RemoveDir) && !(acts[i]
        is RemoveFile)
}

/// No rename action occurs in the row.
pub open spec fn no_renames(acts: Seq<ActionView>) -> bool {
    forall|i: int| 0 <= i < acts.len() ==> !((#[trigger] acts[i]) is Rename)
}

/// Every link whose destination is blocked has its occupant renamed to the
/// destination's backup name somewhere in the row.
pub open spec fn renames_blocked(links: Seq<PlanView>, acts: Seq<ActionView>) -> bool {
    forall|i: int|
        0 <= i < links.len() && (#[trigger] links[i])->Link_replace ==> acts.contains(
            (ActionView::Rename {
                from: links[i]->Link_dest,
                to: spec_backup_name(links[i]->Link_dest),
            }),
        )
}

/// Every link whose destination is blocked has its occupant removed
/// somewhere in the row — as a directory or as a file, whichever it is.
pub open spec fn removes_blocked(links: Seq<PlanView>, acts: Seq<ActionView>) -> bool {
    forall|i: int|
        0 <= i < links.len() && (#[trigger] links[i])->Link_replace ==> acts.contains(
            (if links[i]->Link_dest_is_dir {
                ActionView::RemoveDir { path: links[i]->Link_dest }
            } else {
                ActionView::RemoveFile { path: links[i]->Link_dest }
            }),
        )
}

/// Every link has its symlink created somewhere in the row.
pub open spec fn links_linked(links: Seq<PlanView>, acts: Seq<ActionView>) -> bool {
    forall|i: int|
        0 <= i < links.len() ==> acts.contains(
            (ActionView::Symlink {
                source: (#[trigger] links[i])->Link_path,
                dest: links[i]->Link_dest,
            }),
        )
}

/// Non-destructiveness under backup: when every link preserves its occupant,
/// carrying out the plan deletes nothing — no removal action occurs at all —
/// and every blocked destination is renamed to its backup name instead.
pub proof fn lemma_backup_preserves(p: PlanView)
    requires
        link_flags(p, true),
    ensures
        no_removals(spec_actions(p)),
        renames_blocked(links_of(p), spec_actions(p)),
    decreases p,
{
    match p {
        PlanView::Link { path, dest, replace, backup, dest_is_dir } => {
            let acts = spec_actions(p);
            let links = links_of(p);
            assert(links == seq![p]);
            assert(links[0] == p);
            if replace {
                assert(acts[0] == (ActionView::Rename {
                    from: dest,
                    to: spec_backup_name(dest),
                }));
                assert(acts.contains(acts[0]));
            }
        },
        PlanView::Noop { children, .. } => {
            lemma_backup_preserves_row(children);
        },
    }
}

/// Row form of [`lemma_backup_preserves`].
pub proof fn lemma_backup_preserves_row(cs: Seq<PlanView>)
    requires
        forall|i: int| 0 <= i < cs.len() ==> link_flags(#[trigger] cs[i], true),
    ensures
        no_removals(spec_actions_row(cs)),
        renames_blocked(links_of_row(cs), spec_actions_row(cs)),
    decreases cs,
{
    if cs.len() > 0 {
        lemma_backup_preserves(cs[0]);
        assert(forall|i: int| 0 <= i < cs.drop_first().len() ==> link_flags(
            #[trigger] cs.drop_first()[i],
            true,
        ));
        lemma_backup_preserves_row(cs.drop_first());
        let ha = spec_actions(cs[0]);
        let ta = spec_actions_row(cs.drop_first());
        let hl = links_of(cs[0]);
        let tl = links_of_row(cs.drop_first());
        assert(spec_actions_row(cs) == ha + ta);
        assert(links_of_row(cs) == hl + tl);
        assert forall|i: int| 0 <= i < (ha + ta).len() implies !((#[trigger] (ha + ta)[i])
            is RemoveDir) && !((ha + ta)[i] is RemoveFile) by {
            if i < ha.len() {
                assert((ha + ta)[i] == ha[i]);
            } else {
                assert((ha + ta)[i] == ta[i - ha.len()]);
            }
        }
        assert forall|i: int|
            0 <= i < (hl + tl).len() && (#[trigger] (hl + tl)[i])->Link_replace implies (ha
            + ta).contains(
            (ActionView::Rename {
                from: (hl + tl)[i]->Link_dest,
                to: spec_backup_name((hl + tl)[i]->Link_dest),
            }),
        ) by {
            let needle = (ActionView::Rename {
                from: (hl + tl)[i]->Link_dest,
                to: spec_backup_name((hl + tl)[i]->Link_dest),
            });
            if i < hl.len() {
                assert((hl + tl)[i] == hl[i]);
                assert(ha.contains(needle));
            } else {
                assert((hl + tl)[i] == tl[i - hl.len()]);
                assert(ta.contains(needle));
            }
            lemma_contains_concat(ha, ta, needle);
        }
    }
}

/// Replacing without backup: when no link preserves its occupant, nothing is
/// ever renamed; every blocked destination is removed — as a directory or as
/// a file, whichever it is — and every link node puts its symlink in place.
pub proof fn lemma_replace_deletes(p: PlanView)
    requires
        link_flags(p, false),
    ensures
        no_renames(spec_actions(p)),
        removes_blocked(links_of(p), spec_actions(p)),
        links_linked(links_of(p), spec_actions(p)),
    decreases p,
{
    match p {
        PlanView::Link { path, dest, replace, backup, dest_is_dir } => {
            let acts = spec_actions(p);
            let links = links_of(p);
            assert(links == seq![p]);
            assert(links[0] == p);
            if replace {
                assert(acts[0] == (if dest_is_dir {
                    ActionView::RemoveDir { path: dest }
                } else {
                    ActionView::RemoveFile { path: dest }
                }));
                assert(acts[1] == (ActionView::Symlink { source: path, dest: dest }));
                assert(acts.contains(acts[0]));
                assert(acts.contains(acts[1]));
            } else {
                assert(acts[0] == (ActionView::Symlink { source: path, dest: dest }));
                assert(acts.contains(acts[0]));
            }
        },
        PlanView::Noop { children, .. } => {
            lemma_replace_deletes_row(children);
        },
    }
}

/// Row form of [`lemma_replace_deletes`].
pub proof fn lemma_replace_deletes_row(cs: Seq<PlanView>)
    requires
        forall|i: int| 0 <= i < cs.len() ==> link_flags(#[trigger] cs[i], false),
    ensures
        no_renames(spec_actions_row(cs)),
        removes_blocked(links_of_row(cs), spec_actions_row(cs)),
        links_linked(links_of_row(cs), spec_actions_row(cs)),
    decreases cs,
{
    if cs.len() > 0 {
        lemma_replace_deletes(cs[0]);
        assert(forall|i: int| 0 <= i < cs.drop_first().len() ==> link_flags(
            #[trigger] cs.drop_first()[i],
            false,
        ));
        lemma_replace_deletes_row(cs.drop_first());
        let ha = spec_actions(cs[0]);
        let ta = spec_actions_row(cs.drop_first());
        let hl = links_of(cs[0]);
        let tl = links_of_row(cs.drop_first());
        assert(spec_actions_row(cs) == ha + ta);
        assert(links_of_row(cs) == hl + tl);
        assert forall|i: int| 0 <= i < (ha + ta).len() implies !((#[trigger] (ha + ta)[i])
            is Rename) by {
            if i < ha.len() {
                assert((ha + ta)[i] == ha[i]);
            } else {
                assert((ha + ta)[i] == ta[i - ha.len()]);
            }
        }
        assert forall|i: int|
            0 <= i < (hl + tl).len() && (#[trigger] (hl + tl)[i])->Link_replace implies (ha
            + ta).contains(
            (if (hl + tl)[i]->Link_dest_is_dir {
                ActionView::RemoveDir { path: (hl + tl)[i]->Link_dest }
            } else {
                ActionView::RemoveFile { path: (hl + tl)[i]->Link_dest }
            }),
        ) by {
            let needle = (if (hl + tl)[i]->Link_dest_is_dir {
                ActionView::RemoveDir { path: (hl + tl)[i]->Link_dest }
            } else {
                ActionView::RemoveFile { path: (hl + tl)[i]->Link_dest }
            });
            if i < hl.len() {
                assert((hl + tl)[i] == hl[i]);
                assert(ha.contains(needle));
            } else {
                assert((hl + tl)[i] == tl[i - hl.len()]);
                assert(ta.contains(needle));
            }
            lemma_contains_concat(ha, ta, needle);
        }
        assert forall|i: int| 0 <= i < (hl + tl).len() implies (ha + ta).contains(
            (ActionView::Symlink {
                source: (#[trigger] (hl + tl)[i])->Link_path,
                dest: (hl + tl)[i]->Link_dest,
            }),
        ) by {
            let needle = (ActionView::Symlink {
                source: (hl + tl)[i]->Link_path,
                dest: (hl + tl)[i]->Link_dest,
            });
            if i < hl.len() {
                assert((hl + tl)[i] == hl[i]);
                assert(ha.contains(needle));
            } else {
                assert((hl + tl)[i] == tl[i - hl.len()]);
                assert(ta.contains(needle));
            }
            lemma_contains_concat(ha, ta, needle);
        }
    }
}

/// An empty plan is idle: it performs no action and shows no line. This is
/// what lets a caller skip confirmation entirely when there is nothing to
/// do.
pub proof fn lemma_empty_plan_idle(p: PlanView)
    requires
        spec_is_empty(p),
    ensures
        spec_actions(p) == Seq::<ActionView>::empty(),
        spec_render(p) == Seq::<LineView>::empty(),
    decreases p,
{
    match p {
        PlanView::Link { .. } => {},
        PlanView::Noop { children, .. } => {
            lemma_empty_plan_idle_row(children);
        },
    }
}

/// Row form of [`lemma_empty_plan_idle`].
pub proof fn lemma_empty_plan_idle_row(cs: Seq<PlanView>)
    requires
        forall|i: int| 0 <= i < cs.len() ==> spec_is_empty(#[trigger] cs[i]),
    ensures
        spec_actions_row(cs) == Seq::<ActionView>::empty(),
        spec_render_row(cs) == Seq::<LineView>::empty(),
    decreases cs,
{
    if cs.len() > 0 {
        lemma_empty_plan_idle(cs[0]);
        assert(forall|i: int| 0 <= i < cs.drop_first().len() ==> spec_is_empty(
            #[trigger] cs.drop_first()[i],
        ));
        lemma_empty_plan_idle_row(cs.drop_first());
        assert(spec_actions_row(cs) =~= Seq::<ActionView>::empty());
        assert(spec_render_row(cs) =~= Seq::<LineView>::empty());
    }
}

/// Directory identity short-circuit: a source directory whose destination is
/// already an existing directory becomes a `Noop` node — the container is
/// right — while its entries are still planned on their own.
pub proof fn lemma_directory_short_circuit(n: NodeView, backup: bool)
    requires
        n.kind matches NodeKindView::Dir { entries: Some(es) },
        n.probe.is_dir,
        spec_build_children(n.kind->Dir_entries->Some_0, backup) is Ok,
    ensures
        spec_build(n, backup) == Ok::<PlanView, BuildErrorView>(
            (PlanView::Noop {
                path: n.path,
                dest: n.dest,
                children: spec_build_children(n.kind->Dir_entries->Some_0, backup)->Ok_0,
            }),
        ),
{
}

/// Symlink resolution decides a file's fate: a destination symlink that
/// resolves to the source's canonical path means the work is already done;
/// one that resolves anywhere else is an occupant, and is replaced.
pub proof fn lemma_link_resolution(n: NodeView, backup: bool)
    requires
        n.kind matches NodeKindView::File { canonical: Some(c) },
        probe_wf(n.probe),
    ensures
        (n.probe.link_target matches Some(t) && t == n.kind->File_canonical->Some_0)
            ==> spec_build(n, backup) == Ok::<PlanView, BuildErrorView>(
            (PlanView::Noop { path: n.path, dest: n.dest, children: Seq::empty() }),
        ),
        (n.probe.link_target matches Some(t) && t != n.kind->File_canonical->Some_0)
            ==> spec_build(n, backup) == Ok::<PlanView, BuildErrorView>(
            (PlanView::Link {
                path: n.path,
                dest: n.dest,
                replace: true,
                backup,
                dest_is_dir: n.probe.is_dir,
            }),
        ),
{
}

} // verus!
