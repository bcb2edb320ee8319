//! Reconciles a source directory tree with a destination by planning and
//! describing symbolic-link actions, without destroying user data silently.
//!
//! The crate works on plain-value snapshots of the two trees: the surrounding
//! binary reads the filesystem into a [`model::Node`], the library builds an
//! immutable [`plan::Plan`] from it, and the binary carries out the returned
//! actions.

use vstd::prelude::*;

pub mod actions;
pub mod errors;
pub mod laws;
pub mod model;
pub mod paths;
pub mod plan;
pub mod render;

use crate::actions::{actions_view, spec_actions, Action};
use crate::errors::{BuildError, BuildErrorView};
use crate::model::Node;
use crate::plan::{spec_build, spec_is_empty, Plan, PlanView};
use crate::render::{lines_view, spec_render, Line};

verus! {

/// What one linking run decides, before any disk mutation: the preview to
/// show, whether the user must confirm, and the mutations to perform once
/// (and only if) the run may proceed.
pub struct Outcome {
    /// The preview of the plan, in display order; empty when there is
    /// nothing to do.
    pub lines: Vec<Line>,
    /// The caller must obtain the user's confirmation before acting.
    pub needs_prompt: bool,
    /// The mutations to perform, in order.
    pub actions: Vec<Action>,
}

/// Decide a whole linking run from a snapshot of the source and destination
/// trees: build the plan and, unless it is empty, hand back its preview and
/// its actions. An empty plan asks for nothing: no preview, no prompt, no
/// action. Otherwise the preview is always handed back, and confirmation is
/// required exactly when `force` is off.
pub fn run_linking(root: &Node, backup: bool, force: bool) -> (r: Result<Outcome, BuildError>)
    ensures
        ({
            let built = spec_build(root@, backup);
            match r {
                Ok(o) => {
                    &&& built matches Ok(p)
                    &&& lines_view(o.lines@) == spec_render(p)
                    &&& actions_view(o.actions@) == spec_actions(p)
                    &&& o.needs_prompt == (!force && !spec_is_empty(p))
                },
                Err(e) => built == Err::<PlanView, BuildErrorView>(e@),
            }
        }),
{
    let plan = match Plan::new(root, backup) {
        Ok(p) => p,
        Err(e) => {
            return Err(e);
        },
    };
    if plan.is_empty() {
        proof {
            crate::laws::lemma_empty_plan_idle(plan@);
            assert(lines_view(Seq::<Line>::empty()) =~= spec_render(plan@));
            assert(actions_view(Seq::<Action>::empty()) =~= spec_actions(plan@));
        }
        return Ok(Outcome { lines: Vec::new(), needs_prompt: false, actions: Vec::new() });
    }
    let lines = plan.render();
    let actions = plan.actions();
    Ok(Outcome { lines, needs_prompt: !force, actions })
}

} // verus!
