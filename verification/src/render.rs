//! The human-readable preview of a plan, as structured lines. Rendering is
//! pure: the display layer decides colors and wording, this module decides
//! only which lines appear and in what order.

use vstd::prelude::*;

use crate::paths::{backup_name, copy_bytes, spec_backup_name};
use crate::plan::{lemma_plans_view, plan_view, plans_view, Plan, PlanView};

verus! {

/// One line of the preview.
#[derive(Debug, PartialEq)]
pub enum Line {
    /// The occupant of `from` will be moved out of the way to `to`.
    Backup { from: Vec<u8>, to: Vec<u8> },
    /// The occupant of `path` will be deleted; when `is_dir` holds it is a
    /// directory and all of its contents go with it.
    Remove { path: Vec<u8>, is_dir: bool },
    /// A link `dest -> source` will be created.
    Link { source: Vec<u8>, dest: Vec<u8> },
}

/// Mathematical image of a [`Line`].
pub ghost enum LineView {
    Backup { from: Seq<u8>, to: Seq<u8> },
    Remove { path: Seq<u8>, is_dir: bool },
    Link { source: Seq<u8>, dest: Seq<u8> },
}

impl View for Line {
    type V = LineView;

    open spec fn view(&self) -> LineView {
        match *self {
            Line::Backup { from, to } => LineView::Backup { from: from@, to: to@ },
            Line::Remove { path, is_dir } => LineView::Remove { path: path@, is_dir },
            Line::Link { source, dest } => LineView::Link { source: source@, dest: dest@ },
        }
    }
}

/// The images of a row of lines, in order.
pub open spec fn lines_view(s: Seq<Line>) -> Seq<LineView> {
    Seq::new(s.len(), |i: int| s[i]@)
}

/// The preview of a single `Link` node: a backup line when the occupant is
/// preserved, a removal line when it is deleted, and always the link line.
pub open spec fn spec_link_lines(
    path: Seq<u8>,
    dest: Seq<u8>,
    replace: bool,
    backup: bool,
    dest_is_dir: bool,
) -> Seq<LineView> {
    if replace && backup {
        seq![
            LineView::Backup { from: dest, to: spec_backup_name(dest) },
            LineView::Link { source: path, dest: dest },
        ]
    } else if replace {
        seq![
            LineView::Remove { path: dest, is_dir: dest_is_dir },
            LineView::Link { source: path, dest: dest },
        ]
    } else {
        seq![LineView::Link { source: path, dest: dest }]
    }
}

/// The whole preview of a plan, depth first and in order. `Noop` nodes show
/// nothing of their own.
pub open spec fn spec_render(p: PlanView) -> Seq<LineView>
    decreases p,
{
    match p {
        PlanView::Link { path, dest, replace, backup, dest_is_dir } => spec_link_lines(
            path,
            dest,
            replace,
            backup,
            dest_is_dir,
        ),
        PlanView::Noop { children, .. } => spec_render_row(children),
    }
}

/// The preview of a row of sibling plans, in order.
pub open spec fn spec_render_row(cs: Seq<PlanView>) -> Seq<LineView>
    decreases cs,
{
    if cs.len() == 0 {
        Seq::empty()
    } else {
        spec_render(cs[0]) + spec_render_row(cs.drop_first())
    }
}

/// One more sibling appends its preview at the end of the row.
pub proof fn lemma_render_row_push(cs: Seq<PlanView>, p: PlanView)
    ensures
        spec_render_row(cs.push(p)) == spec_render_row(cs) + spec_render(p),
    decreases cs.len(),
{
    if cs.len() == 0 {
        assert(cs.push(p).drop_first() =~= Seq::<PlanView>::empty());
        assert(cs.push(p)[0] == p);
        assert(spec_render_row(Seq::<PlanView>::empty()) == Seq::<LineView>::empty());
        assert(spec_render_row(cs.push(p)) =~= spec_render_row(cs) + spec_render(p));
    } else {
        lemma_render_row_push(cs.drop_first(), p);
        assert(cs.push(p).drop_first() =~= cs.drop_first().push(p));
        assert(cs.push(p)[0] == cs[0]);
        assert(spec_render_row(cs.drop_first().push(p)) == spec_render_row(cs.drop_first())
            + spec_render(p));
        assert(spec_render_row(cs) == spec_render(cs[0]) + spec_render_row(cs.drop_first()));
        assert(spec_render_row(cs.push(p)) =~= spec_render_row(cs) + spec_render(p));
    }
}

impl Plan {
    /// The preview of this plan, one line per pending mutation.
    pub fn render(&self) -> (r: Vec<Line>)
        ensures
            lines_view(r@) == spec_render(self@),
        decreases *self,
    {
        match self {
            Plan::Link { path, dest, replace, backup, dest_is_dir } => {
                let mut r: Vec<Line> = Vec::new();
                if *replace && *backup {
                    r.push(Line::Backup { from: copy_bytes(dest), to: backup_name(dest) });
                } else if *replace {
                    r.push(Line::Remove { path: copy_bytes(dest), is_dir: *dest_is_dir });
                }
                r.push(Line::Link { source: copy_bytes(path), dest: copy_bytes(dest) });
                proof {
                    assert(lines_view(r@) =~= spec_render(self@));
                }
                r
            },
            Plan::Noop { children, .. } => {
                let ghost pv = plans_view(children@);
                proof {
                    lemma_plans_view(children@);
                }
                let mut r: Vec<Line> = Vec::new();
                let mut i: usize = 0;
                while i < children.len()
                    invariant
                        i <= children@.len(),
                        pv == plans_view(children@),
                        pv.len() == children@.len(),
                        self matches Plan::Noop { children: c, .. } && c == *children,
                        lines_view(r@) == spec_render_row(pv.subrange(0, i as int)),
                    decreases children@.len() - i,
                {
                    proof {
                        lemma_plans_view(children@);
                        assert(decreases_to!(*self => self->Noop_children));
                        assert(self->Noop_children == *children);
                        assert(decreases_to!(*children => children@));
                        assert(decreases_to!(children@ => children@[i as int]));
                        assert(decreases_to!(*self => children@[i as int]));
                    }
                    let ghost r0 = r@;
                    let mut a = children[i].render();
                    let ghost a0 = a@;
                    r.append(&mut a);
                    proof {
                        assert(pv.subrange(0, i + 1) =~= pv.subrange(0, i as int).push(
                            pv[i as int],
                        ));
                        lemma_render_row_push(pv.subrange(0, i as int), pv[i as int]);
                        assert(lines_view(r0 + a0) =~= lines_view(r0) + lines_view(a0));
                        assert(lines_view(a0) =~= spec_render(pv[i as int]));
                        assert(lines_view(r@) == spec_render_row(pv.subrange(0, i + 1)));
                    }
                    i = i + 1;
                }
                proof {
                    assert(pv.subrange(0, i as int) =~= pv);
                }
                r
            },
        }
    }
}

} // verus!
