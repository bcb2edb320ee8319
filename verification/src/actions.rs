//! What carrying out a plan does to the disk, as data: a flat, ordered row
//! of single filesystem mutations. The binary performs them one by one and
//! stops at the first failure; nothing already done is undone.

use vstd::prelude::*;

use crate::paths::{backup_name, copy_bytes, spec_backup_name};
use crate::plan::{lemma_plans_view, plan_view, plans_view, Plan, PlanView};

verus! {

/// One filesystem mutation.
#[derive(Debug, PartialEq)]
pub enum Action {
    /// Rename the occupant of `from` to `to`, silently overwriting anything
    /// already at `to`.
    Rename { from: Vec<u8>, to: Vec<u8> },
    /// Remove the directory at `path` together with all its contents.
    RemoveDir { path: Vec<u8> },
    /// Remove the file or symlink at `path`.
    RemoveFile { path: Vec<u8> },
    /// Create a symbolic link at `dest` pointing at `source`.
    Symlink { source: Vec<u8>, dest: Vec<u8> },
}

/// Mathematical image of an [`Action`].
pub ghost enum ActionView {
    Rename { from: Seq<u8>, to: Seq<u8> },
    RemoveDir { path: Seq<u8> },
    RemoveFile { path: Seq<u8> },
    Symlink { source: Seq<u8>, dest: Seq<u8> },
}

impl View for Action {
    type V = ActionView;

    open spec fn view(&self) -> ActionView {
        match *self {
            Action::Rename { from, to } => ActionView::Rename { from: from@, to: to@ },
            Action::RemoveDir { path } => ActionView::RemoveDir { path: path@ },
            Action::RemoveFile { path } => ActionView::RemoveFile { path: path@ },
            Action::Symlink { source, dest } => ActionView::Symlink {
                source: source@,
                dest: dest@,
            },
        }
    }
}

/// The images of a row of actions, in order.
pub open spec fn actions_view(s: Seq<Action>) -> Seq<ActionView> {
    Seq::new(s.len(), |i: int| s[i]@)
}

/// The mutations a single `Link` node asks for: clear the occupant first —
/// by renaming it to its backup name, or by deleting it — then link.
pub open spec fn spec_link_actions(
    path: Seq<u8>,
    dest: Seq<u8>,
    replace: bool,
    backup: bool,
    dest_is_dir: bool,
) -> Seq<ActionView> {
    if replace && backup {
        seq![
            ActionView::Rename { from: dest, to: spec_backup_name(dest) },
            ActionView::Symlink { source: path, dest: dest },
        ]
    } else if replace {
        if dest_is_dir {
            seq![
                ActionView::RemoveDir { path: dest },
                ActionView::Symlink { source: path, dest: dest },
            ]
        } else {
            seq![
                ActionView::RemoveFile { path: dest },
                ActionView::Symlink { source: path, dest: dest },
            ]
        }
    } else {
        seq![ActionView::Symlink { source: path, dest: dest }]
    }
}

/// The mutations carrying out a plan performs, depth first and in order.
/// A `Noop` node contributes nothing of its own; a `Link` node is one unit
/// of work and contributes only its own actions.
pub open spec fn spec_actions(p: PlanView) -> Seq<ActionView>
    decreases p,
{
    match p {
        PlanView::Link { path, dest, replace, backup, dest_is_dir } => spec_link_actions(
            path,
            dest,
            replace,
            backup,
            dest_is_dir,
        ),
        PlanView::Noop { children, .. } => spec_actions_row(children),
    }
}

/// The mutations of a row of sibling plans, in order.
pub open spec fn spec_actions_row(cs: Seq<PlanView>) -> Seq<ActionView>
    decreases cs,
{
    if cs.len() == 0 {
        Seq::empty()
    } else {
        spec_actions(cs[0]) + spec_actions_row(cs.drop_first())
    }
}

/// One more sibling appends its actions at the end of the row.
pub proof fn lemma_actions_row_push(cs: Seq<PlanView>, p: PlanView)
    ensures
        spec_actions_row(cs.push(p)) == spec_actions_row(cs) + spec_actions(p),
    decreases cs.len(),
{
    if cs.len() == 0 {
        assert(cs.push(p).drop_first() =~= Seq::<PlanView>::empty());
        assert(cs.push(p)[0] == p);
        assert(spec_actions_row(Seq::<PlanView>::empty()) == Seq::<ActionView>::empty());
        assert(spec_actions_row(cs.push(p)) =~= spec_actions_row(cs) + spec_actions(p));
    } else {
        lemma_actions_row_push(cs.drop_first(), p);
        assert(cs.push(p).drop_first() =~= cs.drop_first().push(p));
        assert(cs.push(p)[0] == cs[0]);
        assert(spec_actions_row(cs.drop_first().push(p)) == spec_actions_row(cs.drop_first())
            + spec_actions(p));
        assert(spec_actions_row(cs) == spec_actions(cs[0]) + spec_actions_row(cs.drop_first()));
        assert(spec_actions_row(cs.push(p)) =~= spec_actions_row(cs) + spec_actions(p));
    }
}

impl Plan {
    /// The mutations that carrying out this plan performs, in order.
    pub fn actions(&self) -> (r: Vec<Action>)
        ensures
            actions_view(r@) == spec_actions(self@),
        decreases *self,
    {
        match self {
            Plan::Link { path, dest, replace, backup, dest_is_dir } => {
                let mut r: Vec<Action> = Vec::new();
                if *replace && *backup {
                    r.push(Action::Rename { from: copy_bytes(dest), to: backup_name(dest) });
                } else if *replace {
                    if *dest_is_dir {
                        r.push(Action::RemoveDir { path: copy_bytes(dest) });
                    } else {
                        r.push(Action::RemoveFile { path: copy_bytes(dest) });
                    }
                }
                r.push(Action::Symlink { source: copy_bytes(path), dest: copy_bytes(dest) });
                proof {
                    assert(actions_view(r@) =~= spec_actions(self@));
                }
                r
            },
            Plan::Noop { children, .. } => {
                let ghost pv = plans_view(children@);
                proof {
                    lemma_plans_view(children@);
                }
                let mut r: Vec<Action> = Vec::new();
                let mut i: usize = 0;
                while i < children.len()
                    invariant
                        i <= children@.len(),
                        pv == plans_view(children@),
                        pv.len() == children@.len(),
                        self matches Plan::Noop { children: c, .. } && c == *children,
                        actions_view(r@) == spec_actions_row(pv.subrange(0, i as int)),
                    decreases children@.len() - i,
                {
                    proof {
                        lemma_plans_view(children@);
                        assert(decreases_to!(*self => self->Noop_children));
                        assert(self->Noop_children == *children);
                        assert(decreases_to!(*children => children@));
                        assert(decreases_to!(children@ => children@[i as int]));
                        assert(decreases_to!(*self => children@[i as int]));
                    }
                    let ghost r0 = r@;
                    let mut a = children[i].actions();
                    let ghost a0 = a@;
                    r.append(&mut a);
                    proof {
                        assert(pv.subrange(0, i + 1) =~= pv.subrange(0, i as int).push(
                            pv[i as int],
                        ));
                        lemma_actions_row_push(pv.subrange(0, i as int), pv[i as int]);
                        assert(actions_view(r0 + a0) =~= actions_view(r0) + actions_view(a0));
                        assert(actions_view(a0) =~= spec_actions(pv[i as int]));
                        assert(actions_view(r@) == spec_actions_row(pv.subrange(0, i + 1)));
                    }
                    i = i + 1;
                }
                proof {
                    assert(pv.subrange(0, i as int) =~= pv);
                }
                r
            },
        }
    }
}

} // verus!
