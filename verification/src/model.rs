//! The snapshot the plan builder works on: one [`Node`] per source entry,
//! carrying what the binary observed on disk about the entry and about the
//! destination path it maps to. Taking the snapshot reads the filesystem;
//! nothing here does.

use vstd::prelude::*;

verus! {

/// What was observed at a destination path when the snapshot was taken.
#[derive(Debug, PartialEq)]
pub struct DestProbe {
    /// Something occupies the path: a regular file, a directory, or a
    /// symlink — a broken one included.
    pub occupied: bool,
    /// The path is an existing directory (symlinks followed).
    pub is_dir: bool,
    /// The canonical resolution of the symlink at the path, when the path
    /// is a symlink whose target could be resolved.
    pub link_target: Option<Vec<u8>>,
}

/// Mathematical image of a [`DestProbe`].
pub ghost struct ProbeView {
    pub occupied: bool,
    pub is_dir: bool,
    pub link_target: Option<Seq<u8>>,
}

impl View for DestProbe {
    type V = ProbeView;

    open spec fn view(&self) -> ProbeView {
        ProbeView {
            occupied: self.occupied,
            is_dir: self.is_dir,
            link_target: match self.link_target {
                Some(t) => Some(t@),
                None => None,
            },
        }
    }
}

/// One source entry together with the state of its destination.
#[derive(Debug, PartialEq)]
pub struct Node {
    /// Source path of the entry, as traversed.
    pub path: Vec<u8>,
    /// Destination path the entry maps to.
    pub dest: Vec<u8>,
    /// What stands at the destination path.
    pub probe: DestProbe,
    /// What the source entry itself is.
    pub kind: NodeKind,
}

/// What a source entry is.
#[derive(Debug, PartialEq)]
pub enum NodeKind {
    /// Nothing exists at the source path.
    Missing,
    /// Anything that is not a directory. `canonical` is the entry's resolved
    /// absolute path, `None` when resolution failed.
    File { canonical: Option<Vec<u8>> },
    /// A directory. `entries` are its direct entries in name order, `None`
    /// when the directory could not be read.
    Dir { entries: Option<Vec<Node>> },
}

/// Mathematical image of a [`Node`].
pub ghost struct NodeView {
    pub path: Seq<u8>,
    pub dest: Seq<u8>,
    pub probe: ProbeView,
    pub kind: NodeKindView,
}

/// Mathematical image of a [`NodeKind`].
pub ghost enum NodeKindView {
    Missing,
    File { canonical: Option<Seq<u8>> },
    Dir { entries: Option<Seq<NodeView>> },
}

/// The image of a node: paths become byte sequences, entry vectors become
/// sequences of images.
pub open spec fn node_view(n: Node) -> NodeView
    decreases n,
{
    NodeView {
        path: n.path@,
        dest: n.dest@,
        probe: n.probe@,
        kind: match n.kind {
            NodeKind::Missing => NodeKindView::Missing,
            NodeKind::File { canonical } => NodeKindView::File {
                canonical: match canonical {
                    Some(c) => Some(c@),
                    None => None,
                },
            },
            NodeKind::Dir { entries } => NodeKindView::Dir {
                entries: match entries {
                    Some(es) => Some(nodes_view(es@)),
                    None => None,
                },
            },
        },
    }
}

/// The images of a sequence of nodes, in order.
pub open spec fn nodes_view(es: Seq<Node>) -> Seq<NodeView>
    decreases es,
{
    if es.len() == 0 {
        Seq::empty()
    } else {
        seq![node_view(es[0])] + nodes_view(es.drop_first())
    }
}

/// `nodes_view` maps each node to its image.
pub proof fn lemma_nodes_view(es: Seq<Node>)
    ensures
        nodes_view(es).len() == es.len(),
        forall|i: int| 0 <= i < es.len() ==> nodes_view(es)[i] == node_view(#[trigger] es[i]),
    decreases es,
{
    if es.len() > 0 {
        lemma_nodes_view(es.drop_first());
        assert forall|i: int| 0 <= i < es.len() implies nodes_view(es)[i] == node_view(es[i]) by {
            if i > 0 {
                assert(es.drop_first()[i - 1] == es[i]);
                assert(nodes_view(es)[i] == nodes_view(es.drop_first())[i - 1]);
            }
        }
    }
}

impl View for Node {
    type V = NodeView;

    open spec fn view(&self) -> NodeView {
        node_view(*self)
    }
}

/// A probe is sound when a resolved symlink counts as an occupant: on disk,
/// a path that can be read as a link is occupied by that link.
pub open spec fn probe_wf(p: ProbeView) -> bool {
    p.link_target is Some ==> p.occupied
}

/// A snapshot is sound when every probe in it is.
pub open spec fn node_wf(n: NodeView) -> bool
    decreases n,
{
    &&& probe_wf(n.probe)
    &&& (n.kind matches NodeKindView::Dir { entries: Some(es) } ==> forall|i: int|
        0 <= i < es.len() ==> node_wf(#[trigger] es[i]))
}

} // verus!
