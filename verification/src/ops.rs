//! The four operations the core exposes to a protocol layer: definition
//! lookup, reference lookup, rename preparation, and rename planning.
//!
//! Each operation classifies the cursor position, resolves the occurrence's
//! visibility boundary, and searches that boundary. A cursor that covers no
//! classifiable construct yields an empty or absent result from the lookups
//! and a refusal from rename; a local or label occurrence with no enclosing
//! function definition degrades the lookups to an empty result and refuses
//! the rename.

use vstd::prelude::*;

use crate::classify::{classify, spec_classify, Occurrence};
use crate::locate::{
    collect_occurrences, dedup_ranges, def_ranges, def_ranges_ex, occs, ref_ranges, ref_ranges_ex,
    spec_dedup, walk_ok, OccMatch,
};
use crate::scope::{enclosing_funcdef, spec_enclosing_funcdef};
use crate::syntax::{IdentKind, Node, NodeKind, Point, SrcRange};

verus! {

/// Why a rename request was refused.
#[derive(Clone, Copy, PartialEq, Eq, Structural, Debug)]
pub enum RenameError {
    /// The cursor does not cover a classifiable construct.
    NotAnIdentifier,
    /// A local or label occurrence has no enclosing function definition.
    NoEnclosingScope,
    /// A wrapping node lacks its single identifier child: the tree violates
    /// the parser contract and the request fails outright.
    MalformedWrappingNode,
}

/// One planned edit: replace the text at `range` with `new_text`. All edits
/// of one plan share the same replacement text.
pub struct TextEdit {
    pub range: SrcRange,
    pub new_text: Vec<u8>,
}

/// The mathematical view of a `TextEdit`.
pub struct TextEditView {
    pub range: SrcRange,
    pub new_text: Seq<u8>,
}

impl View for TextEdit {
    type V = TextEditView;

    open spec fn view(&self) -> TextEditView {
        TextEditView { range: self.range, new_text: self.new_text@ }
    }
}

/// The views of a sequence of edits.
pub open spec fn edit_seq_view(s: Seq<TextEdit>) -> Seq<TextEditView> {
    s.map_values(|e: TextEdit| e@)
}

/// The edit plan for a match list: one edit per occurrence, at the bare
/// identifier's range, all with the same replacement text.
pub open spec fn edit_list(ms: Seq<OccMatch>, new: Seq<u8>) -> Seq<TextEditView>
    decreases ms.len(),
{
    if ms.len() == 0 {
        Seq::empty()
    } else {
        edit_list(ms.drop_last(), new).push(
            TextEditView { range: ms.last().ident, new_text: new },
        )
    }
}

/// The visibility boundary of an occurrence of kind `k` at position `pos`:
/// the nearest enclosing function definition for `Local` and `Label`, the
/// document root for `Global` and `Aggregate`.
pub open spec fn spec_boundary(root: Node, pos: Point, k: IdentKind) -> Option<Node> {
    match k {
        IdentKind::Local | IdentKind::Label => spec_enclosing_funcdef(root, pos),
        IdentKind::Global | IdentKind::Aggregate => Some(root),
    }
}

/// What reference lookup returns: the deduplicated wrapping-node ranges of
/// every occurrence of the classified symbol within its boundary, in source
/// order; empty when the cursor is not on an identifier or a local or label
/// occurrence has no enclosing function.
pub open spec fn spec_references(root: Node, pos: Point) -> Seq<SrcRange> {
    match spec_classify(root, pos) {
        None => Seq::empty(),
        Some(o) => match spec_boundary(root, pos, o.kind) {
            None => Seq::empty(),
            Some(b) => spec_dedup(ref_ranges(occs(b, NodeKind::Other, o.kind, o.name))),
        },
    }
}

/// What definition lookup returns: as `spec_references`, restricted to the
/// occurrences standing in defining positions. More than one range can come
/// back for a malformed document with duplicate definitions; the full set is
/// returned, in source order.
pub open spec fn spec_goto_definition(root: Node, pos: Point) -> Seq<SrcRange> {
    match spec_classify(root, pos) {
        None => Seq::empty(),
        Some(o) => match spec_boundary(root, pos, o.kind) {
            None => Seq::empty(),
            Some(b) => spec_dedup(def_ranges(occs(b, NodeKind::Other, o.kind, o.name))),
        },
    }
}

/// What rename returns: a refusal, or one edit per occurrence of the
/// classified symbol within its boundary, at the bare identifier's range,
/// all carrying the replacement text `new`.
pub open spec fn spec_rename(root: Node, pos: Point, new: Seq<u8>) -> Result<
    Seq<TextEditView>,
    RenameError,
> {
    match spec_classify(root, pos) {
        None => Err(RenameError::NotAnIdentifier),
        Some(o) => match spec_boundary(root, pos, o.kind) {
            None => Err(RenameError::NoEnclosingScope),
            Some(b) => {
                if !walk_ok(b, o.kind) {
                    Err(RenameError::MalformedWrappingNode)
                } else {
                    Ok(edit_list(occs(b, NodeKind::Other, o.kind, o.name), new))
                }
            },
        },
    }
}

/// Reference lookup: every occurrence of the symbol under `pos` within its
/// visibility boundary, as deduplicated wrapping-node ranges in source order.
pub fn references(root: &Node, pos: Point) -> (r: Vec<SrcRange>)
    ensures
        r@ == spec_references(*root, pos),
{
    let occ = match classify(root, pos) {
        Some(o) => o,
        None => {
            return Vec::new();
        },
    };
    let boundary: &Node = match occ.kind {
        IdentKind::Local | IdentKind::Label => {
            match enclosing_funcdef(root, pos) {
                Some(b) => b,
                None => {
                    return Vec::new();
                },
            }
        },
        IdentKind::Global | IdentKind::Aggregate => root,
    };
    let mut ms: Vec<OccMatch> = Vec::new();
    let _shape_ok = collect_occurrences(boundary, NodeKind::Other, occ.kind, &occ.name, &mut ms);
    proof {
        assert(ms@ =~= occs(*boundary, NodeKind::Other, occ.kind, occ.name@));
    }
    let refs = ref_ranges_ex(&ms);
    dedup_ranges(&refs)
}

/// Definition lookup: the occurrences of the symbol under `pos` standing in
/// defining positions within its boundary, as deduplicated wrapping-node
/// ranges in source order — zero, one, or (for a malformed document with
/// duplicate definitions) many.
pub fn goto_definition(root: &Node, pos: Point) -> (r: Vec<SrcRange>)
    ensures
        r@ == spec_goto_definition(*root, pos),
{
    let occ = match classify(root, pos) {
        Some(o) => o,
        None => {
            return Vec::new();
        },
    };
    let boundary: &Node = match occ.kind {
        IdentKind::Local | IdentKind::Label => {
            match enclosing_funcdef(root, pos) {
                Some(b) => b,
                None => {
                    return Vec::new();
                },
            }
        },
        IdentKind::Global | IdentKind::Aggregate => root,
    };
    let mut ms: Vec<OccMatch> = Vec::new();
    let _shape_ok = collect_occurrences(boundary, NodeKind::Other, occ.kind, &occ.name, &mut ms);
    proof {
        assert(ms@ =~= occs(*boundary, NodeKind::Other, occ.kind, occ.name@));
    }
    let defs = def_ranges_ex(&ms);
    dedup_ranges(&defs)
}

/// Rename preparation: the bare identifier's range and its current text as
/// the placeholder, or `None` when the cursor does not cover a classifiable
/// construct.
pub fn prepare_rename(root: &Node, pos: Point) -> (r: Option<Occurrence>)
    ensures
        match (r, spec_classify(*root, pos)) {
            (Some(o), Some(s)) => o@ == s,
            (None, None) => true,
            _ => false,
        },
{
    classify(root, pos)
}

/// Rename planning: classification and scope resolution must both succeed,
/// and every wrapping node of the symbol's kind within the boundary must be
/// well-shaped; the plan then holds one edit per occurrence, at the bare
/// identifier's range, all with the replacement text `new_name`.
pub fn rename(root: &Node, pos: Point, new_name: &Vec<u8>) -> (r: Result<
    Vec<TextEdit>,
    RenameError,
>)
    ensures
        match (r, spec_rename(*root, pos, new_name@)) {
            (Ok(edits), Ok(s)) => edit_seq_view(edits@) == s,
            (Err(e1), Err(e2)) => e1 == e2,
            _ => false,
        },
{
    let occ = match classify(root, pos) {
        Some(o) => o,
        None => {
            return Err(RenameError::NotAnIdentifier);
        },
    };
    let boundary: &Node = match occ.kind {
        IdentKind::Local | IdentKind::Label => {
            match enclosing_funcdef(root, pos) {
                Some(b) => b,
                None => {
                    return Err(RenameError::NoEnclosingScope);
                },
            }
        },
        IdentKind::Global | IdentKind::Aggregate => root,
    };
    let mut ms: Vec<OccMatch> = Vec::new();
    let shape_ok = collect_occurrences(boundary, NodeKind::Other, occ.kind, &occ.name, &mut ms);
    proof {
        assert(ms@ =~= occs(*boundary, NodeKind::Other, occ.kind, occ.name@));
    }
    if !shape_ok {
        return Err(RenameError::MalformedWrappingNode);
    }
    let mut edits: Vec<TextEdit> = Vec::new();
    let mut i: usize = 0;
    while i < ms.len()
        invariant
            i <= ms.len(),
            edit_seq_view(edits@) == edit_list(ms@.take(i as int), new_name@),
        decreases ms.len() - i,
    {
        let e = TextEdit { range: ms[i].ident, new_text: crate::classify::copy_bytes(new_name) };
        edits.push(e);
        proof {
            assert(ms@.take(i + 1).drop_last() =~= ms@.take(i as int));
            assert(ms@.take(i + 1).last() == ms@[i as int]);
            assert(edit_seq_view(edits@) =~= edit_list(ms@.take(i + 1), new_name@));
        }
        i += 1;
    }
    proof {
        assert(ms@.take(ms@.len() as int) =~= ms@);
    }
    Ok(edits)
}

} // verus!
