//! The Identifier Classifier: maps a cursor position to the symbol occurrence
//! under it, or reports that the cursor does not cover a classifiable
//! construct.
//!
//! The smallest named node covering the position is found by descending into
//! the first child whose range covers the position, as long as one exists.
//! If that node is one of the four wrapping kinds, the occurrence is its
//! identifier child; if it is a bare identifier whose parent is a wrapping
//! kind, the occurrence is the node itself; anything else is not an
//! identifier.

use vstd::prelude::*;

use crate::syntax::{
    covers, covers_pos, spec_wrapper_kind, wrapper_kind, IdentKind, Node, NodeKind, Point,
    SrcRange,
};

verus! {

/// A classified identifier occurrence: its symbol kind, the source range of
/// the bare identifier, and the identifier's text.
pub struct Occurrence {
    pub kind: IdentKind,
    pub range: SrcRange,
    pub name: Vec<u8>,
}

/// The mathematical view of an `Occurrence`.
pub struct OccView {
    pub kind: IdentKind,
    pub range: SrcRange,
    pub name: Seq<u8>,
}

impl View for Occurrence {
    type V = OccView;

    open spec fn view(&self) -> OccView {
        OccView { kind: self.kind, range: self.range, name: self.name@ }
    }
}

/// The view of an optional occurrence.
pub open spec fn occ_opt_view(r: Option<Occurrence>) -> Option<OccView> {
    match r {
        Some(o) => Some(o@),
        None => None,
    }
}

/// The index of the first node at or after position `i` in `s` whose range
/// covers `p`, if any.
pub open spec fn first_covering_child(s: Seq<Node>, p: Point, i: int) -> Option<int>
    decreases s.len() - i,
{
    if i < 0 || i >= s.len() {
        None
    } else if covers(s[i].range, p) {
        Some(i)
    } else {
        first_covering_child(s, p, i + 1)
    }
}

/// A found index is in bounds and its node covers the position.
pub proof fn lemma_first_covering_child_in_bounds(s: Seq<Node>, p: Point, i: int)
    requires
        first_covering_child(s, p, i) is Some,
    ensures
        i <= first_covering_child(s, p, i).unwrap() < s.len(),
        covers(s[first_covering_child(s, p, i).unwrap()].range, p),
    decreases s.len() - i,
{
    if !(i < 0 || i >= s.len()) && !covers(s[i].range, p) {
        lemma_first_covering_child_in_bounds(s, p, i + 1);
    }
}

/// Classification of the node `n` itself, given the kind tag of its parent:
/// a wrapping node classifies as its identifier child; a bare identifier
/// classifies by its parent's wrapping kind; anything else does not classify.
pub open spec fn classify_node(n: Node, parent_kind: NodeKind) -> Option<OccView> {
    match spec_wrapper_kind(n.kind) {
        Some(k) => {
            if n.children.len() > 0 {
                Some(OccView { kind: k, range: n.children[0].range, name: n.children[0].text@ })
            } else {
                None
            }
        },
        None => {
            if n.kind == NodeKind::Ident {
                match spec_wrapper_kind(parent_kind) {
                    Some(k) => Some(OccView { kind: k, range: n.range, name: n.text@ }),
                    None => None,
                }
            } else {
                None
            }
        },
    }
}

/// Classification of position `p` within the subtree rooted at `n`, whose
/// parent carries the kind tag `parent_kind`: descend into the first child
/// covering `p` while one exists, then classify the node reached.
pub open spec fn spec_classify_in(n: Node, parent_kind: NodeKind, p: Point) -> Option<OccView>
    decreases n,
{
    match first_covering_child(n.children@, p, 0) {
        Some(i) => {
            proof {
                lemma_first_covering_child_in_bounds(n.children@, p, 0);
                vstd::std_specs::vec::axiom_vec_index_decreases(n.children, i);
            }
            spec_classify_in(n.children[i], n.kind, p)
        },
        None => classify_node(n, parent_kind),
    }
}

/// Classification of position `p` on the snapshot rooted at `root`: `None`
/// when the cursor does not cover a classifiable construct.
pub open spec fn spec_classify(root: Node, p: Point) -> Option<OccView> {
    if covers(root.range, p) {
        spec_classify_in(root, NodeKind::Other, p)
    } else {
        None
    }
}

/// Classifying a position on an unmodified snapshot is a pure function of the
/// snapshot and the position: two classifications of the same position on the
/// same snapshot yield an identical (kind, name, range).
pub proof fn lemma_classify_deterministic(root1: Node, root2: Node, p1: Point, p2: Point)
    requires
        root1 == root2,
        p1 == p2,
    ensures
        spec_classify(root1, p1) == spec_classify(root2, p2),
{
}

/// Copies a byte vector.
pub fn copy_bytes(src: &Vec<u8>) -> (r: Vec<u8>)
    ensures
        r@ == src@,
{
    let mut out: Vec<u8> = Vec::new();
    let mut i: usize = 0;
    while i < src.len()
        invariant
            i <= src.len(),
            out@ == src@.take(i as int),
        decreases src.len() - i,
    {
        let b = src[i];
        out.push(b);
        proof {
            assert(src@.take(i + 1) =~= src@.take(i as int).push(src@[i as int]));
        }
        i += 1;
    }
    proof {
        assert(src@.take(src@.len() as int) =~= src@);
    }
    out
}

/// Whether the two byte vectors hold the same bytes.
pub fn bytes_eq(a: &Vec<u8>, b: &Vec<u8>) -> (r: bool)
    ensures
        r == (a@ == b@),
{
    if a.len() != b.len() {
        proof {
            assert(a@ != b@) by {
                assert(a@.len() != b@.len());
            }
        }
        return false;
    }
    let mut i: usize = 0;
    while i < a.len()
        invariant
            i <= a.len(),
            a@.len() == b@.len(),
            forall|j: int| 0 <= j < i ==> a@[j] == b@[j],
        decreases a.len() - i,
    {
        if a[i] != b[i] {
            proof {
                assert(a@[i as int] != b@[i as int]);
            }
            return false;
        }
        i += 1;
    }
    proof {
        assert(a@ =~= b@);
    }
    true
}

/// The index of the first child of `children` covering `p`, if any.
pub fn first_covering_child_ex(children: &Vec<Node>, p: Point) -> (r: Option<usize>)
    ensures
        match r {
            Some(i) => i < children.len() && first_covering_child(children@, p, 0) == Some(
                i as int,
            ),
            None => first_covering_child(children@, p, 0) is None,
        },
{
    let mut j: usize = 0;
    while j < children.len()
        invariant
            j <= children.len(),
            first_covering_child(children@, p, 0) == first_covering_child(children@, p, j as int),
        decreases children.len() - j,
    {
        if covers_pos(children[j].range, p) {
            return Some(j);
        }
        j += 1;
    }
    None
}

/// Classification of the node `n` itself, given its parent's kind tag.
fn classify_here(n: &Node, parent_kind: NodeKind) -> (r: Option<Occurrence>)
    ensures
        occ_opt_view(r) == classify_node(*n, parent_kind),
{
    match wrapper_kind(n.kind) {
        Some(k) => {
            if n.children.len() > 0 {
                Some(
                    Occurrence {
                        kind: k,
                        range: n.children[0].range,
                        name: copy_bytes(&n.children[0].text),
                    },
                )
            } else {
                None
            }
        },
        None => {
            if n.kind == NodeKind::Ident {
                match wrapper_kind(parent_kind) {
                    Some(k) => Some(
                        Occurrence { kind: k, range: n.range, name: copy_bytes(&n.text) },
                    ),
                    None => None,
                }
            } else {
                None
            }
        },
    }
}

/// Classification within the subtree rooted at `n`.
fn classify_in(n: &Node, parent_kind: NodeKind, p: Point) -> (r: Option<Occurrence>)
    ensures
        occ_opt_view(r) == spec_classify_in(*n, parent_kind, p),
    decreases *n,
{
    match first_covering_child_ex(&n.children, p) {
        Some(i) => {
            proof {
                vstd::std_specs::vec::axiom_vec_index_decreases(n.children, i as int);
            }
            classify_in(&n.children[i], n.kind, p)
        },
        None => classify_here(n, parent_kind),
    }
}

/// The Identifier Classifier: maps the cursor position `pos` on the snapshot
/// rooted at `root` to the symbol occurrence under it, or `None` when the
/// cursor does not cover a classifiable construct.
pub fn classify(root: &Node, pos: Point) -> (r: Option<Occurrence>)
    ensures
        occ_opt_view(r) == spec_classify(*root, pos),
{
    if covers_pos(root.range, pos) {
        classify_in(root, NodeKind::Other, pos)
    } else {
        None
    }
}

} // verus!
