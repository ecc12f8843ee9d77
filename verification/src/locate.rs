//! The occurrence search shared by the Occurrence Locator and the Rename
//! Planner: every occurrence of one symbol kind with one exact name within a
//! boundary subtree, by direct recursive descent.
//!
//! The walk visits every node of the boundary. A node whose kind tag is the
//! target kind's wrapping tag is inspected: its single identifier child is
//! compared byte-for-byte (case-sensitively) against the target name, and on
//! a match the occurrence is recorded; the walk does not descend further into
//! the wrapper. Every other node's children are walked in source order. A
//! wrapping node of the target kind that lacks its single identifier child
//! violates the parser contract; the walk reports it so that a rename request
//! can be refused outright.

use vstd::prelude::*;

use crate::classify::bytes_eq;
use crate::syntax::{FieldLabel, IdentKind, Node, NodeKind, SrcRange};

verus! {

/// One occurrence of a symbol within a boundary: the range of the wrapping
/// node, the range of its bare identifier child, and whether the occurrence
/// stands in a defining position.
#[derive(Clone, Copy, PartialEq, Eq, Structural, Debug)]
pub struct OccMatch {
    pub wrap: SrcRange,
    pub ident: SrcRange,
    pub is_def: bool,
}

/// Whether a wrapping node of kind `k` standing under a parent with kind tag
/// `parent_kind`, at field `field`, is a defining position of the name:
/// a `Local` is defined as an instruction's assignment target or as a
/// parameter name; a `Label` as a block's label declaration; a `Global` as a
/// function definition's or data definition's name; an `Aggregate` as a type
/// definition's name.
pub open spec fn is_def_site(parent_kind: NodeKind, field: FieldLabel, k: IdentKind) -> bool {
    match k {
        IdentKind::Local => (parent_kind == NodeKind::Inst && field == FieldLabel::Assignment) || (
        parent_kind == NodeKind::FuncDefParam && field == FieldLabel::Name),
        IdentKind::Label => parent_kind == NodeKind::Block && field == FieldLabel::Label,
        IdentKind::Global => (parent_kind == NodeKind::FuncDef || parent_kind == NodeKind::DataDef)
            && field == FieldLabel::Name,
        IdentKind::Aggregate => parent_kind == NodeKind::TypeDef,
    }
}

/// Whether the position is a defining one; mirrors `is_def_site`.
pub fn is_def_site_ex(parent_kind: NodeKind, field: FieldLabel, k: IdentKind) -> (r: bool)
    ensures
        r == is_def_site(parent_kind, field, k),
{
    match k {
        IdentKind::Local => (parent_kind == NodeKind::Inst && field == FieldLabel::Assignment) || (
        parent_kind == NodeKind::FuncDefParam && field == FieldLabel::Name),
        IdentKind::Label => parent_kind == NodeKind::Block && field == FieldLabel::Label,
        IdentKind::Global => (parent_kind == NodeKind::FuncDef || parent_kind == NodeKind::DataDef)
            && field == FieldLabel::Name,
        IdentKind::Aggregate => parent_kind == NodeKind::TypeDef,
    }
}

/// A wrapping node has the shape the parser contract promises: exactly one
/// named child, the bare identifier.
pub open spec fn wrapper_shape_ok(n: Node) -> bool {
    n.children.len() == 1 && n.children[0].kind == NodeKind::Ident
}

/// All occurrences of kind `k` named `name` in the subtree rooted at `n`,
/// whose parent carries the kind tag `parent_kind`, in source (pre-)order.
pub open spec fn occs(n: Node, parent_kind: NodeKind, k: IdentKind, name: Seq<u8>) -> Seq<OccMatch>
    decreases n, n.children.len() + 1nat,
{
    if n.kind == k.wrap_kind() {
        if wrapper_shape_ok(n) && n.children[0].text@ == name {
            seq![
                OccMatch {
                    wrap: n.range,
                    ident: n.children[0].range,
                    is_def: is_def_site(parent_kind, n.field, k),
                },
            ]
        } else {
            Seq::empty()
        }
    } else {
        occs_children(n, k, name, 0)
    }
}

/// The occurrences contributed by the children of `n` from index `i` on.
pub open spec fn occs_children(n: Node, k: IdentKind, name: Seq<u8>, i: int) -> Seq<OccMatch>
    decreases n, n.children.len() - i,
{
    if i < 0 || i >= n.children.len() {
        Seq::empty()
    } else {
        proof {
            vstd::std_specs::vec::axiom_vec_index_decreases(n.children, i);
        }
        occs(n.children[i], n.kind, k, name) + occs_children(n, k, name, i + 1)
    }
}

/// Every wrapping node of kind `k` that the walk over the subtree rooted at
/// `n` inspects has its single identifier child.
pub open spec fn walk_ok(n: Node, k: IdentKind) -> bool
    decreases n, n.children.len() + 1nat,
{
    if n.kind == k.wrap_kind() {
        wrapper_shape_ok(n)
    } else {
        walk_ok_children(n, k, 0)
    }
}

/// The walk over the children of `n` from index `i` on meets no malformed
/// wrapping node of kind `k`.
pub open spec fn walk_ok_children(n: Node, k: IdentKind, i: int) -> bool
    decreases n, n.children.len() - i,
{
    if i < 0 || i >= n.children.len() {
        true
    } else {
        proof {
            vstd::std_specs::vec::axiom_vec_index_decreases(n.children, i);
        }
        walk_ok(n.children[i], k) && walk_ok_children(n, k, i + 1)
    }
}

/// The exact recursive walk shared by reference search, definition search and
/// rename planning: appends to `out` every occurrence of kind `k` named
/// `name` within the subtree rooted at `n`, in source order, and reports
/// whether every wrapping node of kind `k` it inspected was well-shaped.
pub fn collect_occurrences(
    n: &Node,
    parent_kind: NodeKind,
    k: IdentKind,
    name: &Vec<u8>,
    out: &mut Vec<OccMatch>,
) -> (ok: bool)
    ensures
        final(out)@ == old(out)@ + occs(*n, parent_kind, k, name@),
        ok == walk_ok(*n, k),
    decreases *n,
{
    let wk = k.wrap_node_kind();
    if n.kind == wk {
        if n.children.len() == 1 && n.children[0].kind == NodeKind::Ident {
            if bytes_eq(&n.children[0].text, name) {
                let m = OccMatch {
                    wrap: n.range,
                    ident: n.children[0].range,
                    is_def: is_def_site_ex(parent_kind, n.field, k),
                };
                out.push(m);
                proof {
                    assert(out@ =~= old(out)@ + occs(*n, parent_kind, k, name@));
                }
            } else {
                proof {
                    assert(out@ =~= old(out)@ + occs(*n, parent_kind, k, name@));
                }
            }
            true
        } else {
            proof {
                assert(out@ =~= old(out)@ + occs(*n, parent_kind, k, name@));
            }
            false
        }
    } else {
        let mut ok = true;
        let mut i: usize = 0;
        while i < n.children.len()
            invariant
                i <= n.children.len(),
                out@ + occs_children(*n, k, name@, i as int) =~= old(out)@ + occs_children(
                    *n,
                    k,
                    name@,
                    0,
                ),
                (ok && walk_ok_children(*n, k, i as int)) == walk_ok_children(*n, k, 0),
            decreases n.children.len() - i,
        {
            proof {
                vstd::std_specs::vec::axiom_vec_index_decreases(n.children, i as int);
            }
            let ghost out_before = out@;
            let r = collect_occurrences(&n.children[i], n.kind, k, name, out);
            proof {
                assert(out@ + occs_children(*n, k, name@, i + 1) =~= out_before + occs_children(
                    *n,
                    k,
                    name@,
                    i as int,
                ));
            }
            ok = ok && r;
            i += 1;
        }
        proof {
            assert(out@ =~= out@ + occs_children(*n, k, name@, n.children.len() as int));
            assert(out@ =~= old(out)@ + occs_children(*n, k, name@, 0));
        }
        ok
    }
}

/// The ranges of the wrapping nodes of the matches, in order: what reference
/// search reports.
pub open spec fn ref_ranges(ms: Seq<OccMatch>) -> Seq<SrcRange>
    decreases ms.len(),
{
    if ms.len() == 0 {
        Seq::empty()
    } else {
        ref_ranges(ms.drop_last()).push(ms.last().wrap)
    }
}

/// The ranges of the wrapping nodes of the defining matches, in order: what
/// definition search reports.
pub open spec fn def_ranges(ms: Seq<OccMatch>) -> Seq<SrcRange>
    decreases ms.len(),
{
    if ms.len() == 0 {
        Seq::empty()
    } else {
        let rest = def_ranges(ms.drop_last());
        if ms.last().is_def {
            rest.push(ms.last().wrap)
        } else {
            rest
        }
    }
}

/// The wrapping-node range of every match, in order.
pub fn ref_ranges_ex(ms: &Vec<OccMatch>) -> (r: Vec<SrcRange>)
    ensures
        r@ == ref_ranges(ms@),
{
    let mut out: Vec<SrcRange> = Vec::new();
    let mut i: usize = 0;
    while i < ms.len()
        invariant
            i <= ms.len(),
            out@ == ref_ranges(ms@.take(i as int)),
        decreases ms.len() - i,
    {
        out.push(ms[i].wrap);
        proof {
            assert(ms@.take(i + 1).drop_last() =~= ms@.take(i as int));
            assert(ms@.take(i + 1).last() == ms@[i as int]);
        }
        i += 1;
    }
    proof {
        assert(ms@.take(ms@.len() as int) =~= ms@);
    }
    out
}

/// The wrapping-node range of every defining match, in order.
pub fn def_ranges_ex(ms: &Vec<OccMatch>) -> (r: Vec<SrcRange>)
    ensures
        r@ == def_ranges(ms@),
{
    let mut out: Vec<SrcRange> = Vec::new();
    let mut i: usize = 0;
    while i < ms.len()
        invariant
            i <= ms.len(),
            out@ == def_ranges(ms@.take(i as int)),
        decreases ms.len() - i,
    {
        if ms[i].is_def {
            out.push(ms[i].wrap);
        }
        proof {
            assert(ms@.take(i + 1).drop_last() =~= ms@.take(i as int));
            assert(ms@.take(i + 1).last() == ms@[i as int]);
        }
        i += 1;
    }
    proof {
        assert(ms@.take(ms@.len() as int) =~= ms@);
    }
    out
}

/// Duplicate captures at identical ranges are suppressed before returning:
/// the result keeps the first occurrence of each range, in order.
pub open spec fn spec_dedup(s: Seq<SrcRange>) -> Seq<SrcRange>
    decreases s.len(),
{
    if s.len() == 0 {
        Seq::empty()
    } else {
        let rest = spec_dedup(s.drop_last());
        if s.drop_last().contains(s.last()) {
            rest
        } else {
            rest.push(s.last())
        }
    }
}

/// Removes later duplicates of each range, keeping first occurrences in
/// order.
pub fn dedup_ranges(v: &Vec<SrcRange>) -> (r: Vec<SrcRange>)
    ensures
        r@ == spec_dedup(v@),
{
    let mut out: Vec<SrcRange> = Vec::new();
    let mut i: usize = 0;
    while i < v.len()
        invariant
            i <= v.len(),
            out@ == spec_dedup(v@.take(i as int)),
        decreases v.len() - i,
    {
        let mut found = false;
        let mut j: usize = 0;
        while j < i
            invariant
                j <= i < v.len(),
                found == exists|t: int| 0 <= t < j && v@[t] == v@[i as int],
            decreases i - j,
        {
            if v[j] == v[i] {
                found = true;
            }
            j += 1;
        }
        proof {
            assert(found == v@.take(i as int).contains(v@[i as int])) by {
                if found {
                    let t = choose|t: int| 0 <= t < i && v@[t] == v@[i as int];
                    assert(v@.take(i as int)[t] == v@[i as int]);
                }
                if v@.take(i as int).contains(v@[i as int]) {
                    let t = choose|t: int|
                        0 <= t < i && v@.take(i as int)[t] == v@[i as int];
                    assert(v@[t] == v@[i as int]);
                }
            }
            assert(v@.take(i + 1).drop_last() =~= v@.take(i as int));
            assert(v@.take(i + 1).last() == v@[i as int]);
        }
        if !found {
            out.push(v[i]);
        }
        i += 1;
    }
    proof {
        assert(v@.take(v@.len() as int) =~= v@);
    }
    out
}

} // verus!
