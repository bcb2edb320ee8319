//! The plan: an immutable tree that says, for every source entry, whether
//! the destination already satisfies it or a single link action is needed.
//!
//! Building a plan never touches the disk: it is a pure classification of
//! the snapshot in [`crate::model`].

use vstd::prelude::*;

use crate::errors::{BuildError, BuildErrorView};
use crate::model::{lemma_nodes_view, node_view, nodes_view, Node, NodeKind, NodeKindView, NodeView};
use crate::paths::{bytes_eq, copy_bytes};

verus! {

/// Action plan for linking a source tree into a destination directory.
#[derive(Debug, PartialEq)]
pub enum Plan {
    /// The destination already satisfies the source at this path; only the
    /// children may still need action.
    Noop { path: Vec<u8>, dest: Vec<u8>, children: Vec<Plan> },
    /// One symlink must be created at `dest`, pointing at `path`. `replace`
    /// says something occupies `dest` and must be cleared first; `backup`
    /// says a cleared occupant is preserved under a backup name rather than
    /// deleted; `dest_is_dir` says the occupant is a directory. A `Link`
    /// node has no children: a mismatched directory is replaced as a unit.
    Link { path: Vec<u8>, dest: Vec<u8>, replace: bool, backup: bool, dest_is_dir: bool },
}

/// Mathematical image of a [`Plan`].
pub ghost enum PlanView {
    Noop { path: Seq<u8>, dest: Seq<u8>, children: Seq<PlanView> },
    Link { path: Seq<u8>, dest: Seq<u8>, replace: bool, backup: bool, dest_is_dir: bool },
}

/// The image of a plan node.
pub open spec fn plan_view(p: Plan) -> PlanView
    decreases p,
{
    match p {
        Plan::Noop { path, dest, children } => PlanView::Noop {
            path: path@,
            dest: dest@,
            children: plans_view(children@),
        },
        Plan::Link { path, dest, replace, backup, dest_is_dir } => PlanView::Link {
            path: path@,
            dest: dest@,
            replace,
            backup,
            dest_is_dir,
        },
    }
}

/// The images of a sequence of plan nodes, in order.
pub open spec fn plans_view(s: Seq<Plan>) -> Seq<PlanView>
    decreases s,
{
    if s.len() == 0 {
        Seq::empty()
    } else {
        seq![plan_view(s[0])] + plans_view(s.drop_first())
    }
}

impl View for Plan {
    type V = PlanView;

    open spec fn view(&self) -> PlanView {
        plan_view(*self)
    }
}

/// `plans_view` maps each plan to its image.
pub proof fn lemma_plans_view(s: Seq<Plan>)
    ensures
        plans_view(s).len() == s.len(),
        forall|i: int| 0 <= i < s.len() ==> plans_view(s)[i] == plan_view(#[trigger] s[i]),
    decreases s,
{
    if s.len() > 0 {
        lemma_plans_view(s.drop_first());
        assert forall|i: int| 0 <= i < s.len() implies plans_view(s)[i] == plan_view(s[i]) by {
            if i > 0 {
                assert(s.drop_first()[i - 1] == s[i]);
                assert(plans_view(s)[i] == plans_view(s.drop_first())[i - 1]);
            }
        }
    }
}

/// Appending a plan appends its image.
pub proof fn lemma_plans_view_push(s: Seq<Plan>, p: Plan)
    ensures
        plans_view(s.push(p)) == plans_view(s).push(plan_view(p)),
{
    lemma_plans_view(s);
    lemma_plans_view(s.push(p));
    assert forall|i: int| 0 <= i < s.len() + 1 implies plans_view(s.push(p))[i] == plans_view(
        s,
    ).push(plan_view(p))[i] by {
        assert(plans_view(s.push(p))[i] == plan_view(s.push(p)[i]));
        if i < s.len() {
            assert(s.push(p)[i] == s[i]);
        } else {
            assert(s.push(p)[i] == p);
        }
    }
    assert(plans_view(s.push(p)) =~= plans_view(s).push(plan_view(p)));
}

/// What building a plan returns for a snapshot: the classification of the
/// whole tree, or the first error met on the way.
///
/// A directory whose destination is already a directory is in place: only
/// its entries may need action. Any other occupant of a directory's
/// destination, and any occupant of a file's destination that is not a
/// symlink resolving to the source itself, forces a `Link` that replaces
/// whatever stands there.
pub open spec fn spec_build(n: NodeView, backup: bool) -> Result<PlanView, BuildErrorView>
    decreases n,
{
    match n.kind {
        NodeKindView::Missing => Err(BuildErrorView::NotFound { path: n.path }),
        NodeKindView::Dir { entries } => match entries {
            None => Err(BuildErrorView::Io { path: n.path }),
            Some(es) => match spec_build_children(es, backup) {
                Err(e) => Err(e),
                Ok(cs) => Ok(
                    if n.probe.is_dir {
                        PlanView::Noop { path: n.path, dest: n.dest, children: cs }
                    } else {
                        PlanView::Link {
                            path: n.path,
                            dest: n.dest,
                            replace: n.probe.occupied,
                            backup,
                            dest_is_dir: n.probe.is_dir,
                        }
                    },
                ),
            },
        },
        NodeKindView::File { canonical } => match canonical {
            None => Err(BuildErrorView::Canonicalize { path: n.path }),
            Some(c) => Ok(
                if (n.probe.link_target matches Some(t) && t == c) {
                    PlanView::Noop { path: n.path, dest: n.dest, children: Seq::empty() }
                } else {
                    PlanView::Link {
                        path: n.path,
                        dest: n.dest,
                        replace: n.probe.occupied,
                        backup,
                        dest_is_dir: n.probe.is_dir,
                    }
                },
            ),
        },
    }
}

/// Build the sub-plans of a directory's entries, in order, stopping at the
/// first error.
pub open spec fn spec_build_children(es: Seq<NodeView>, backup: bool) -> Result<
    Seq<PlanView>,
    BuildErrorView,
>
    decreases es,
{
    if es.len() == 0 {
        Ok(Seq::empty())
    } else {
        match spec_build_children(es.drop_last(), backup) {
            Err(e) => Err(e),
            Ok(ps) => match spec_build(es.last(), backup) {
                Err(e) => Err(e),
                Ok(p) => Ok(ps.push(p)),
            },
        }
    }
}

/// An error among the first `i` entries is the error of the whole row.
pub proof fn lemma_build_children_err_prefix(s: Seq<NodeView>, i: int, backup: bool)
    requires
        0 <= i <= s.len(),
        spec_build_children(s.subrange(0, i), backup) is Err,
    ensures
        spec_build_children(s, backup) == spec_build_children(s.subrange(0, i), backup),
    decreases s.len(),
{
    if i == s.len() {
        assert(s.subrange(0, i) =~= s);
    } else {
        assert(s.drop_last().subrange(0, i) =~= s.subrange(0, i));
        lemma_build_children_err_prefix(s.drop_last(), i, backup);
    }
}

/// The returned plan (or error) is exactly what `spec_build` assigns to the
/// snapshot.
pub open spec fn build_matches(n: NodeView, backup: bool, r: Result<Plan, BuildError>) -> bool {
    match r {
        Ok(p) => spec_build(n, backup) == Ok::<PlanView, BuildErrorView>(p@),
        Err(e) => spec_build(n, backup) == Err::<PlanView, BuildErrorView>(e@),
    }
}

/// A plan is empty when nothing anywhere in it needs action.
pub open spec fn spec_is_empty(p: PlanView) -> bool
    decreases p,
{
    match p {
        PlanView::Noop { children, .. } => forall|i: int|
            0 <= i < children.len() ==> spec_is_empty(#[trigger] children[i]),
        PlanView::Link { .. } => false,
    }
}

impl Plan {
    /// Classify a snapshot into an action plan, inheriting the `backup`
    /// policy unchanged, or return the first error met. Building never
    /// mutates anything: the plan is pure data.
    pub fn new(node: &Node, backup: bool) -> (r: Result<Plan, BuildError>)
        ensures
            build_matches(node@, backup, r),
        decreases *node,
    {
        match &node.kind {
            NodeKind::Missing => Err(BuildError::NotFound { path: copy_bytes(&node.path) }),
            NodeKind::Dir { entries } => match entries {
                None => Err(BuildError::Io { path: copy_bytes(&node.path) }),
                Some(es) => {
                    let ghost esv = nodes_view(es@);
                    proof {
                        lemma_nodes_view(es@);
                    }
                    let mut children: Vec<Plan> = Vec::new();
                    let mut i: usize = 0;
                    while i < es.len()
                        invariant
                            i <= es@.len(),
                            esv == nodes_view(es@),
                            esv.len() == es@.len(),
                            node.kind matches NodeKind::Dir { entries: Some(v) } && v == *es,
                            spec_build_children(esv.subrange(0, i as int), backup)
                                == Ok::<Seq<PlanView>, BuildErrorView>(plans_view(children@)),
                        decreases es@.len() - i,
                    {
                        proof {
                            lemma_nodes_view(es@);
                            assert(esv.subrange(0, i + 1).drop_last() =~= esv.subrange(
                                0,
                                i as int,
                            ));
                            assert(esv.subrange(0, i + 1).last() == esv[i as int]);
                            assert(decreases_to!(*node => node.kind));
                            assert(decreases_to!(node.kind => node.kind->Dir_entries));
                            assert(decreases_to!(node.kind->Dir_entries => node.kind->Dir_entries->Some_0));
                            assert(node.kind->Dir_entries->Some_0 == *es);
                            assert(decreases_to!(*es => es@));
                            assert(decreases_to!(es@ => es@[i as int]));
                            assert(decreases_to!(*node => es@[i as int]));
                        }
                        match Plan::new(&es[i], backup) {
                            Err(e) => {
                                proof {
                                    lemma_build_children_err_prefix(esv, i + 1, backup);
                                }
                                return Err(e);
                            },
                            Ok(p) => {
                                proof {
                                    lemma_plans_view_push(children@, p);
                                }
                                children.push(p);
                            },
                        }
                        i = i + 1;
                    }
                    proof {
                        assert(esv.subrange(0, i as int) =~= esv);
                    }
                    if node.probe.is_dir {
                        Ok(Plan::Noop {
                            path: copy_bytes(&node.path),
                            dest: copy_bytes(&node.dest),
                            children,
                        })
                    } else {
                        Ok(Plan::Link {
                            path: copy_bytes(&node.path),
                            dest: copy_bytes(&node.dest),
                            replace: node.probe.occupied,
                            backup,
                            dest_is_dir: node.probe.is_dir,
                        })
                    }
                },
            },
            NodeKind::File { canonical } => match canonical {
                None => Err(BuildError::Canonicalize { path: copy_bytes(&node.path) }),
                Some(c) => {
                    let matches_source = match &node.probe.link_target {
                        Some(t) => bytes_eq(t, c),
                        None => false,
                    };
                    if matches_source {
                        Ok(Plan::Noop {
                            path: copy_bytes(&node.path),
                            dest: copy_bytes(&node.dest),
                            children: Vec::new(),
                        })
                    } else {
                        Ok(Plan::Link {
                            path: copy_bytes(&node.path),
                            dest: copy_bytes(&node.dest),
                            replace: node.probe.occupied,
                            backup,
                            dest_is_dir: node.probe.is_dir,
                        })
                    }
                },
            },
        }
    }

    /// Whether the plan is empty: a `Noop` whose children are all,
    /// recursively, empty. An empty plan means there is nothing to do.
    pub fn is_empty(&self) -> (r: bool)
        ensures
            r == spec_is_empty(self@),
        decreases *self,
    {
        match self {
            Plan::Link { .. } => false,
            Plan::Noop { children, .. } => {
                let mut i: usize = 0;
                while i < children.len()
                    invariant
                        i <= children@.len(),
                        self matches Plan::Noop { children: c, .. } && c == *children,
                        forall|k: int| 0 <= k < i ==> spec_is_empty(plans_view(children@)[k]),
                    decreases children@.len() - i,
                {
                    proof {
                        lemma_plans_view(children@);
                        assert(decreases_to!(*self => self->Noop_children));
                        assert(self->Noop_children == *children);
                        assert(decreases_to!(*children => children@));
                        assert(decreases_to!(children@ => children@[i as int]));
                        assert(decreases_to!(*self => children@[i as int]));
                    }
                    if !children[i].is_empty() {
                        proof {
                            assert(plans_view(children@)[i as int] == plan_view(
                                children@[i as int],
                            ));
                            assert(self@->Noop_children == plans_view(children@));
                            assert(!spec_is_empty(self@));
                        }
                        return false;
                    }
                    i = i + 1;
                }
                proof {
                    lemma_plans_view(children@);
                }
                true
            },
        }
    }
}

} // verus!
