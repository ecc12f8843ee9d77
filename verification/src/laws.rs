//! Properties of the core, stated and proved over the specification
//! functions that the operations' contracts use.

use vstd::prelude::*;

use crate::classify::spec_classify;
use crate::edits::{apply_edits, fixed_len_edit, identity_edit, lemma_apply_identity, lemma_apply_inverse};
use crate::locate::{def_ranges, occs, occs_children, ref_ranges, spec_dedup, walk_ok, OccMatch};
use crate::ops::{
    edit_list, spec_boundary, spec_goto_definition, spec_references, spec_rename, TextEditView,
};
use crate::scope::{lemma_enclosing_funcdef_props, spec_enclosing_funcdef};
use crate::syntax::{
    lemma_text_ok_child, lemma_wf_adjacent, lemma_wf_child, range_within, IdentKind, Node,
    NodeKind, Point, SrcRange,
};

verus! {

/// Reference search reports the wrapping-node range of each match, in order.
pub proof fn lemma_ref_ranges_index(ms: Seq<OccMatch>)
    ensures
        ref_ranges(ms).len() == ms.len(),
        forall|i: int| 0 <= i < ms.len() ==> ref_ranges(ms)[i] == #[trigger] ms[i].wrap,
    decreases ms.len(),
{
    if ms.len() > 0 {
        let d = ms.drop_last();
        lemma_ref_ranges_index(d);
        assert forall|i: int| 0 <= i < ms.len() implies ref_ranges(ms)[i] == #[trigger] ms[i].wrap by {
            if i < ms.len() - 1 {
                assert(d[i] == ms[i]);
                assert(ref_ranges(d)[i] == d[i].wrap);
            }
        }
    }
}

/// The edit plan holds one edit per match, at the identifier's range, all
/// with the same replacement text.
pub proof fn lemma_edit_list_index(ms: Seq<OccMatch>, new: Seq<u8>)
    ensures
        edit_list(ms, new).len() == ms.len(),
        forall|i: int| 0 <= i < ms.len() ==> edit_list(ms, new)[i] == (TextEditView {
            range: #[trigger] ms[i].ident,
            new_text: new,
        }),
    decreases ms.len(),
{
    if ms.len() > 0 {
        let d = ms.drop_last();
        lemma_edit_list_index(d, new);
        assert forall|i: int| 0 <= i < ms.len() implies edit_list(ms, new)[i] == (TextEditView {
            range: #[trigger] ms[i].ident,
            new_text: new,
        }) by {
            if i < ms.len() - 1 {
                assert(d[i] == ms[i]);
                assert(edit_list(d, new)[i] == (TextEditView { range: d[i].ident, new_text: new }));
            }
        }
    }
}

/// Suppressing duplicates neither loses nor invents ranges.
pub proof fn lemma_dedup_membership(s: Seq<SrcRange>)
    ensures
        forall|x: SrcRange| #[trigger] spec_dedup(s).contains(x) == s.contains(x),
    decreases s.len(),
{
    if s.len() > 0 {
        let d = s.drop_last();
        lemma_dedup_membership(d);
        assert forall|x: SrcRange| #[trigger] spec_dedup(s).contains(x) == s.contains(x) by {
            if spec_dedup(s).contains(x) {
                if d.contains(x) {
                    let t = choose|t: int| 0 <= t < d.len() && d[t] == x;
                    assert(s[t] == x);
                    assert(s.contains(x));
                } else {
                    let i = choose|i: int|
                        0 <= i < spec_dedup(s).len() && spec_dedup(s)[i] == x;
                    if !d.contains(s.last()) && i == spec_dedup(d).len() {
                        assert(x == s.last());
                        assert(s[s.len() - 1] == x);
                        assert(s.contains(x));
                    } else {
                        assert(spec_dedup(d)[i] == x);
                        assert(spec_dedup(d).contains(x));
                        assert(d.contains(x));
                        assert(false);
                    }
                }
            }
            if s.contains(x) {
                let i = choose|i: int| 0 <= i < s.len() && s[i] == x;
                if i < s.len() - 1 {
                    assert(d[i] == x);
                    assert(d.contains(x));
                    assert(spec_dedup(d).contains(x));
                    let t = choose|t: int|
                        0 <= t < spec_dedup(d).len() && spec_dedup(d)[t] == x;
                    assert(spec_dedup(s)[t] == x);
                    assert(spec_dedup(s).contains(x));
                } else {
                    assert(x == s.last());
                    if d.contains(s.last()) {
                        assert(spec_dedup(d).contains(x));
                        let t = choose|t: int|
                            0 <= t < spec_dedup(d).len() && spec_dedup(d)[t] == x;
                        assert(spec_dedup(s)[t] == x);
                        assert(spec_dedup(s).contains(x));
                    } else {
                        assert(spec_dedup(s).last() == x);
                        assert(spec_dedup(s).contains(x));
                    }
                }
            }
        }
    }
}

/// Every occurrence found in a well-formed subtree lies, wrapping node and
/// identifier alike, within that subtree's byte range.
pub proof fn lemma_occs_within(n: Node, parent_kind: NodeKind, k: IdentKind, name: Seq<u8>)
    requires
        n.wf(),
    ensures
        forall|j: int| 0 <= j < occs(n, parent_kind, k, name).len() ==> range_within(
            (#[trigger] occs(n, parent_kind, k, name)[j]).wrap,
            n.range,
        ) && range_within(occs(n, parent_kind, k, name)[j].ident, n.range),
    decreases n, n.children.len() + 1nat,
{
    if n.kind == k.wrap_kind() {
        if occs(n, parent_kind, k, name).len() > 0 {
            lemma_wf_child(n, 0);
            assert(occs(n, parent_kind, k, name)[0].ident == n.children[0].range);
        }
    } else {
        lemma_occs_children_within(n, k, name, 0);
        assert(occs(n, parent_kind, k, name) == occs_children(n, k, name, 0));
    }
}

/// Helper for `lemma_occs_within`: the occurrences contributed by children
/// from index `i` on lie within the parent's byte range.
proof fn lemma_occs_children_within(n: Node, k: IdentKind, name: Seq<u8>, i: int)
    requires
        n.wf(),
        0 <= i,
    ensures
        forall|j: int| 0 <= j < occs_children(n, k, name, i).len() ==> range_within(
            (#[trigger] occs_children(n, k, name, i)[j]).wrap,
            n.range,
        ) && range_within(occs_children(n, k, name, i)[j].ident, n.range),
    decreases n, n.children.len() - i,
{
    if i < n.children.len() {
        vstd::std_specs::vec::axiom_vec_index_decreases(n.children, i);
        lemma_wf_child(n, i);
        lemma_occs_within(n.children[i], n.kind, k, name);
        lemma_occs_children_within(n, k, name, i + 1);
        let s1 = occs(n.children[i], n.kind, k, name);
        let s2 = occs_children(n, k, name, i + 1);
        assert forall|j: int| 0 <= j < occs_children(n, k, name, i).len() implies range_within(
            (#[trigger] occs_children(n, k, name, i)[j]).wrap,
            n.range,
        ) && range_within(occs_children(n, k, name, i)[j].ident, n.range) by {
            if j < s1.len() {
                assert(occs_children(n, k, name, i)[j] == s1[j]);
            } else {
                assert(occs_children(n, k, name, i)[j] == s2[j - s1.len()]);
            }
        }
    }
}

/// In a text-consistent subtree, every occurrence's identifier range is in
/// bounds and the document's bytes there are exactly the searched name.
pub proof fn lemma_occs_ident_text(
    n: Node,
    parent_kind: NodeKind,
    k: IdentKind,
    name: Seq<u8>,
    text: Seq<u8>,
)
    requires
        n.text_ok(text),
    ensures
        forall|j: int| 0 <= j < occs(n, parent_kind, k, name).len() ==> {
            let m = #[trigger] occs(n, parent_kind, k, name)[j];
            &&& m.ident.start_byte <= m.ident.end_byte <= text.len()
            &&& text.subrange(m.ident.start_byte as int, m.ident.end_byte as int) == name
        },
    decreases n, n.children.len() + 1nat,
{
    if n.kind == k.wrap_kind() {
        if occs(n, parent_kind, k, name).len() > 0 {
            lemma_text_ok_child(n, text, 0);
            assert(occs(n, parent_kind, k, name)[0].ident == n.children[0].range);
        }
    } else {
        lemma_occs_children_ident_text(n, k, name, text, 0);
        assert(occs(n, parent_kind, k, name) == occs_children(n, k, name, 0));
    }
}

/// Helper for `lemma_occs_ident_text`.
proof fn lemma_occs_children_ident_text(
    n: Node,
    k: IdentKind,
    name: Seq<u8>,
    text: Seq<u8>,
    i: int,
)
    requires
        n.text_ok(text),
        0 <= i,
    ensures
        forall|j: int| 0 <= j < occs_children(n, k, name, i).len() ==> {
            let m = #[trigger] occs_children(n, k, name, i)[j];
            &&& m.ident.start_byte <= m.ident.end_byte <= text.len()
            &&& text.subrange(m.ident.start_byte as int, m.ident.end_byte as int) == name
        },
    decreases n, n.children.len() - i,
{
    if i < n.children.len() {
        vstd::std_specs::vec::axiom_vec_index_decreases(n.children, i);
        lemma_text_ok_child(n, text, i);
        lemma_occs_ident_text(n.children[i], n.kind, k, name, text);
        lemma_occs_children_ident_text(n, k, name, text, i + 1);
        let s1 = occs(n.children[i], n.kind, k, name);
        let s2 = occs_children(n, k, name, i + 1);
        assert forall|j: int| 0 <= j < occs_children(n, k, name, i).len() implies {
            let m = #[trigger] occs_children(n, k, name, i)[j];
            &&& m.ident.start_byte <= m.ident.end_byte <= text.len()
            &&& text.subrange(m.ident.start_byte as int, m.ident.end_byte as int) == name
        } by {
            if j < s1.len() {
                assert(occs_children(n, k, name, i)[j] == s1[j]);
            } else {
                assert(occs_children(n, k, name, i)[j] == s2[j - s1.len()]);
            }
        }
    }
}

/// The occurrences found in a well-formed subtree come in source-position
/// order: their wrapping ranges are pairwise disjoint and ascending, and each
/// identifier lies within its wrapper. This is what makes the reported sets
/// deterministic in source-position order.
pub proof fn lemma_occs_ordered(n: Node, parent_kind: NodeKind, k: IdentKind, name: Seq<u8>)
    requires
        n.wf(),
    ensures
        forall|a: int, b: int| 0 <= a < b < occs(n, parent_kind, k, name).len() ==> (
        #[trigger] occs(n, parent_kind, k, name)[a]).wrap.end_byte <= (#[trigger] occs(
            n,
            parent_kind,
            k,
            name,
        )[b]).wrap.start_byte,
        forall|j: int| 0 <= j < occs(n, parent_kind, k, name).len() ==> range_within(
            (#[trigger] occs(n, parent_kind, k, name)[j]).ident,
            occs(n, parent_kind, k, name)[j].wrap,
        ),
    decreases n, n.children.len() + 1nat,
{
    if n.kind == k.wrap_kind() {
        if occs(n, parent_kind, k, name).len() > 0 {
            lemma_wf_child(n, 0);
            assert(occs(n, parent_kind, k, name)[0].ident == n.children[0].range);
        }
    } else {
        lemma_occs_children_ordered(n, k, name, 0);
        assert(occs(n, parent_kind, k, name) == occs_children(n, k, name, 0));
    }
}

/// Helper for `lemma_occs_ordered`: the occurrences contributed by children
/// from index `i` on are ordered, start no earlier than child `i`, and hold
/// their identifiers inside their wrappers.
proof fn lemma_occs_children_ordered(n: Node, k: IdentKind, name: Seq<u8>, i: int)
    requires
        n.wf(),
        0 <= i,
    ensures
        forall|a: int, b: int| 0 <= a < b < occs_children(n, k, name, i).len() ==> (
        #[trigger] occs_children(n, k, name, i)[a]).wrap.end_byte <= (#[trigger] occs_children(
            n,
            k,
            name,
            i,
        )[b]).wrap.start_byte,
        forall|j: int| 0 <= j < occs_children(n, k, name, i).len() ==> range_within(
            (#[trigger] occs_children(n, k, name, i)[j]).ident,
            occs_children(n, k, name, i)[j].wrap,
        ),
        forall|j: int| 0 <= j < occs_children(n, k, name, i).len() && i < n.children.len() ==> (
        #[trigger] occs_children(n, k, name, i)[j]).wrap.start_byte
            >= n.children[i].range.start_byte,
    decreases n, n.children.len() - i,
{
    if i < n.children.len() {
        vstd::std_specs::vec::axiom_vec_index_decreases(n.children, i);
        lemma_wf_child(n, i);
        lemma_occs_within(n.children[i], n.kind, k, name);
        lemma_occs_ordered(n.children[i], n.kind, k, name);
        lemma_occs_children_ordered(n, k, name, i + 1);
        let s1 = occs(n.children[i], n.kind, k, name);
        let s2 = occs_children(n, k, name, i + 1);
        let s = occs_children(n, k, name, i);
        assert(s == s1 + s2);
        if s2.len() > 0 {
            assert(i + 1 < n.children.len());
            lemma_wf_adjacent(n, i);
        }
        assert forall|a: int, b: int| 0 <= a < b < s.len() implies (
        #[trigger] s[a]).wrap.end_byte <= (#[trigger] s[b]).wrap.start_byte by {
            if b < s1.len() {
                assert(s[a] == s1[a] && s[b] == s1[b]);
            } else if a >= s1.len() {
                assert(s[a] == s2[a - s1.len()] && s[b] == s2[b - s1.len()]);
            } else {
                assert(s[a] == s1[a] && s[b] == s2[b - s1.len()]);
                assert(s1[a].wrap.end_byte <= n.children[i].range.end_byte);
                assert(s2[b - s1.len()].wrap.start_byte >= n.children[i + 1].range.start_byte);
            }
        }
        assert forall|j: int| 0 <= j < s.len() implies range_within(
            (#[trigger] s[j]).ident,
            s[j].wrap,
        ) by {
            if j < s1.len() {
                assert(s[j] == s1[j]);
            } else {
                assert(s[j] == s2[j - s1.len()]);
            }
        }
        assert forall|j: int| 0 <= j < s.len() && i < n.children.len() implies (
        #[trigger] s[j]).wrap.start_byte >= n.children[i].range.start_byte by {
            if j < s1.len() {
                assert(s[j] == s1[j]);
            } else {
                assert(s[j] == s2[j - s1.len()]);
                assert(s2[j - s1.len()].wrap.start_byte >= n.children[i + 1].range.start_byte);
            }
        }
    }
}

/// Scope containment: for a `Local` or `Label` occurrence, every reference
/// location lies within the enclosing function definition's byte range. An
/// identically named local or label in a different function is therefore
/// never returned: the byte range of any other function definition is
/// disjoint from this one's.
pub proof fn lemma_scope_containment(root: Node, pos: Point)
    requires
        root.wf(),
        spec_classify(root, pos) is Some,
        spec_classify(root, pos).unwrap().kind == IdentKind::Local || spec_classify(
            root,
            pos,
        ).unwrap().kind == IdentKind::Label,
        spec_enclosing_funcdef(root, pos) is Some,
    ensures
        forall|j: int| 0 <= j < spec_references(root, pos).len() ==> range_within(
            #[trigger] spec_references(root, pos)[j],
            spec_enclosing_funcdef(root, pos).unwrap().range,
        ),
{
    let o = spec_classify(root, pos).unwrap();
    let b = spec_enclosing_funcdef(root, pos).unwrap();
    lemma_enclosing_funcdef_props(root, pos, Seq::<u8>::empty());
    let ms = occs(b, NodeKind::Other, o.kind, o.name);
    let rs = ref_ranges(ms);
    lemma_ref_ranges_index(ms);
    lemma_occs_within(b, NodeKind::Other, o.kind, o.name);
    lemma_dedup_membership(rs);
    assert(spec_references(root, pos) == spec_dedup(rs));
    assert forall|j: int| 0 <= j < spec_references(root, pos).len() implies range_within(
        #[trigger] spec_references(root, pos)[j],
        b.range,
    ) by {
        let x = spec_references(root, pos)[j];
        assert(spec_dedup(rs).contains(x));
        assert(rs.contains(x));
        let t = choose|t: int| 0 <= t < rs.len() && rs[t] == x;
        assert(rs[t] == ms[t].wrap);
    }
}

/// Program-wide visibility: renaming a `Global` or `Aggregate` symbol plans
/// one edit for every occurrence of that exact name in the whole document,
/// regardless of which function (if any) contains it — the boundary is the
/// document root, and the plan covers the root's full occurrence list.
pub proof fn lemma_program_wide_visibility(root: Node, pos: Point, new: Seq<u8>)
    requires
        spec_classify(root, pos) is Some,
        spec_classify(root, pos).unwrap().kind == IdentKind::Global || spec_classify(
            root,
            pos,
        ).unwrap().kind == IdentKind::Aggregate,
        walk_ok(root, spec_classify(root, pos).unwrap().kind),
    ensures
        ({
            let o = spec_classify(root, pos).unwrap();
            let ms = occs(root, NodeKind::Other, o.kind, o.name);
            &&& spec_rename(root, pos, new) == Ok::<_, crate::ops::RenameError>(
                edit_list(ms, new),
            )
            &&& edit_list(ms, new).len() == ms.len()
            &&& forall|i: int| 0 <= i < ms.len() ==> edit_list(ms, new)[i] == (TextEditView {
                range: #[trigger] ms[i].ident,
                new_text: new,
            })
        }),
{
    let o = spec_classify(root, pos).unwrap();
    lemma_edit_list_index(occs(root, NodeKind::Other, o.kind, o.name), new);
}

/// Locator/Planner agreement: over one occurrence and scope, the Rename
/// Planner's plan holds exactly one edit per match of the Occurrence
/// Locator's reference search, in the same order; the i-th edit's range is
/// the identifier range of the i-th reference match (whose reported range is
/// the match's wrapping node).
pub proof fn lemma_locator_planner_agreement(b: Node, k: IdentKind, name: Seq<u8>, new: Seq<u8>)
    ensures
        ({
            let ms = occs(b, NodeKind::Other, k, name);
            let es = edit_list(ms, new);
            let rs = ref_ranges(ms);
            &&& es.len() == ms.len()
            &&& rs.len() == ms.len()
            &&& forall|i: int| 0 <= i < ms.len() ==> (#[trigger] es[i]).range == ms[i].ident
                && es[i].new_text == new && rs[i] == ms[i].wrap
        }),
{
    let ms = occs(b, NodeKind::Other, k, name);
    lemma_edit_list_index(ms, new);
    lemma_ref_ranges_index(ms);
}

/// No-op rename: renaming a symbol to its current name produces an edit set
/// that, applied, leaves the document byte-identical.
pub proof fn lemma_noop_rename(root: Node, pos: Point, text: Seq<u8>)
    requires
        root.text_ok(text),
        spec_classify(root, pos) is Some,
        spec_rename(root, pos, spec_classify(root, pos).unwrap().name) is Ok,
    ensures
        apply_edits(
            text,
            spec_rename(root, pos, spec_classify(root, pos).unwrap().name).unwrap(),
        ) == text,
{
    let o = spec_classify(root, pos).unwrap();
    let b = spec_boundary(root, pos, o.kind).unwrap();
    if o.kind == IdentKind::Local || o.kind == IdentKind::Label {
        lemma_enclosing_funcdef_props(root, pos, text);
    }
    let ms = occs(b, NodeKind::Other, o.kind, o.name);
    let es = edit_list(ms, o.name);
    lemma_edit_list_index(ms, o.name);
    lemma_occs_ident_text(b, NodeKind::Other, o.kind, o.name, text);
    assert forall|j: int| 0 <= j < es.len() implies identity_edit(text, #[trigger] es[j]) by {
        assert(es[j] == (TextEditView { range: ms[j].ident, new_text: o.name }));
    }
    lemma_apply_identity(text, es);
}


/// Round-trip: applying rename(old -> new) and then rename(new -> old) on the
/// edited snapshot restores the original text exactly. On the edited
/// snapshot, the occurrences of `new` stand at the same identifier ranges
/// (the two names have equal length, and a scope where `new` already occurred
/// beforehand is excluded: there the second rename would touch the
/// pre-existing occurrences too), so the second request's plan holds the same
/// ranges with the old name as the replacement; that plan is the one applied
/// here.
pub proof fn lemma_rename_round_trip(root: Node, pos: Point, text: Seq<u8>, new: Seq<u8>)
    requires
        root.wf(),
        root.text_ok(text),
        spec_classify(root, pos) is Some,
        new.len() == spec_classify(root, pos).unwrap().name.len(),
        spec_rename(root, pos, new) is Ok,
    ensures
        ({
            let o = spec_classify(root, pos).unwrap();
            let b = spec_boundary(root, pos, o.kind).unwrap();
            let ms = occs(b, NodeKind::Other, o.kind, o.name);
            apply_edits(apply_edits(text, edit_list(ms, new)), edit_list(ms, o.name)) == text
        }),
{
    let o = spec_classify(root, pos).unwrap();
    let b = spec_boundary(root, pos, o.kind).unwrap();
    if o.kind == IdentKind::Local || o.kind == IdentKind::Label {
        lemma_enclosing_funcdef_props(root, pos, text);
    }
    let ms = occs(b, NodeKind::Other, o.kind, o.name);
    let es1 = edit_list(ms, new);
    let es2 = edit_list(ms, o.name);
    lemma_edit_list_index(ms, new);
    lemma_edit_list_index(ms, o.name);
    lemma_occs_ident_text(b, NodeKind::Other, o.kind, o.name, text);
    lemma_occs_ordered(b, NodeKind::Other, o.kind, o.name);
    assert forall|i: int| 0 <= i < es1.len() implies (#[trigger] es2[i]).range == es1[i].range by {
        assert(es1[i] == (TextEditView { range: ms[i].ident, new_text: new }));
        assert(es2[i] == (TextEditView { range: ms[i].ident, new_text: o.name }));
    }
    assert forall|i: int| 0 <= i < es1.len() implies fixed_len_edit(
        text.len() as int,
        #[trigger] es1[i],
    ) by {
        assert(es1[i].range == ms[i].ident);
        assert(text.subrange(ms[i].ident.start_byte as int, ms[i].ident.end_byte as int)
            == o.name);
    }
    assert forall|a: int, b2: int| 0 <= a < b2 < es1.len() implies (
    #[trigger] es1[a]).range.end_byte <= (#[trigger] es1[b2]).range.start_byte by {
        assert(es1[a].range == ms[a].ident && es1[b2].range == ms[b2].ident);
        assert(range_within(ms[a].ident, ms[a].wrap));
        assert(range_within(ms[b2].ident, ms[b2].wrap));
        assert(ms[a].wrap.end_byte <= ms[b2].wrap.start_byte);
    }
    assert forall|i: int| 0 <= i < es1.len() implies (#[trigger] es2[i]).new_text
        == text.subrange(es1[i].range.start_byte as int, es1[i].range.end_byte as int) by {
        assert(es1[i].range == ms[i].ident && es2[i].new_text == o.name);
        assert(text.subrange(ms[i].ident.start_byte as int, ms[i].ident.end_byte as int)
            == o.name);
    }
    lemma_apply_inverse(text, es1, es2);
}


/// The ranges stand in ascending source order, pairwise disjoint.
pub open spec fn ranges_ascending(s: Seq<SrcRange>) -> bool {
    forall|a: int, b: int| 0 <= a < b < s.len() ==> (#[trigger] s[a]).end_byte <= (
    #[trigger] s[b]).start_byte
}

/// Every range that definition search reports is the wrapping range of some
/// match.
proof fn lemma_def_ranges_membership(ms: Seq<OccMatch>)
    ensures
        forall|x: SrcRange| #[trigger] def_ranges(ms).contains(x) ==> exists|t: int|
            0 <= t < ms.len() && ms[t].wrap == x,
    decreases ms.len(),
{
    if ms.len() > 0 {
        let d = ms.drop_last();
        lemma_def_ranges_membership(d);
        assert forall|x: SrcRange| #[trigger] def_ranges(ms).contains(x) implies exists|t: int|
            0 <= t < ms.len() && ms[t].wrap == x by {
            let rest = def_ranges(d);
            let i = choose|i: int| 0 <= i < def_ranges(ms).len() && def_ranges(ms)[i] == x;
            if ms.last().is_def && i == rest.len() {
                assert(ms[ms.len() - 1].wrap == x);
            } else {
                assert(rest[i] == x);
                assert(rest.contains(x));
                let t = choose|t: int| 0 <= t < d.len() && d[t].wrap == x;
                assert(ms[t].wrap == x);
            }
        }
    }
}

/// Definition search keeps the matches' source order.
proof fn lemma_def_ranges_sorted(ms: Seq<OccMatch>)
    requires
        forall|a: int, b: int| 0 <= a < b < ms.len() ==> (#[trigger] ms[a]).wrap.end_byte <= (
        #[trigger] ms[b]).wrap.start_byte,
    ensures
        ranges_ascending(def_ranges(ms)),
    decreases ms.len(),
{
    if ms.len() > 0 {
        let d = ms.drop_last();
        assert forall|a: int, b: int| 0 <= a < b < d.len() implies (
        #[trigger] d[a]).wrap.end_byte <= (#[trigger] d[b]).wrap.start_byte by {
            assert(d[a] == ms[a] && d[b] == ms[b]);
        }
        lemma_def_ranges_sorted(d);
        lemma_def_ranges_membership(d);
        let rest = def_ranges(d);
        assert forall|a: int, b: int| 0 <= a < b < def_ranges(ms).len() implies (
        #[trigger] def_ranges(ms)[a]).end_byte <= (#[trigger] def_ranges(ms)[b]).start_byte by {
            if ms.last().is_def && b == rest.len() {
                assert(def_ranges(ms)[a] == rest[a]);
                assert(rest.contains(rest[a]));
                let t = choose|t: int| 0 <= t < d.len() && d[t].wrap == rest[a];
                assert(ms[t] == d[t]);
                assert(ms[t].wrap.end_byte <= ms[ms.len() - 1].wrap.start_byte);
            } else {
                assert(def_ranges(ms)[a] == rest[a] && def_ranges(ms)[b] == rest[b]);
            }
        }
    }
}

/// Suppressing duplicates keeps the source order.
proof fn lemma_dedup_sorted(s: Seq<SrcRange>)
    requires
        ranges_ascending(s),
    ensures
        ranges_ascending(spec_dedup(s)),
    decreases s.len(),
{
    if s.len() > 0 {
        let d = s.drop_last();
        assert forall|a: int, b: int| 0 <= a < b < d.len() implies (#[trigger] d[a]).end_byte <= (
        #[trigger] d[b]).start_byte by {
            assert(d[a] == s[a] && d[b] == s[b]);
        }
        lemma_dedup_sorted(d);
        lemma_dedup_membership(d);
        let rest = spec_dedup(d);
        assert forall|a: int, b: int| 0 <= a < b < spec_dedup(s).len() implies (
        #[trigger] spec_dedup(s)[a]).end_byte <= (#[trigger] spec_dedup(s)[b]).start_byte by {
            if !d.contains(s.last()) && b == rest.len() {
                assert(spec_dedup(s)[a] == rest[a]);
                assert(rest.contains(rest[a]));
                assert(d.contains(rest[a]));
                let t = choose|t: int| 0 <= t < d.len() && d[t] == rest[a];
                assert(s[t] == d[t]);
                assert(s[t].end_byte <= s[s.len() - 1].start_byte);
            } else {
                assert(spec_dedup(s)[a] == rest[a] && spec_dedup(s)[b] == rest[b]);
            }
        }
    }
}

/// Lookup results are deterministic in source-position order: on a
/// well-formed snapshot, reference search and definition search return their
/// ranges ascending and pairwise disjoint.
pub proof fn lemma_results_source_ordered(root: Node, pos: Point)
    requires
        root.wf(),
    ensures
        ranges_ascending(spec_references(root, pos)),
        ranges_ascending(spec_goto_definition(root, pos)),
{
    match spec_classify(root, pos) {
        None => {},
        Some(o) => {
            match spec_boundary(root, pos, o.kind) {
                None => {},
                Some(b) => {
                    if o.kind == IdentKind::Local || o.kind == IdentKind::Label {
                        lemma_enclosing_funcdef_props(root, pos, Seq::<u8>::empty());
                    }
                    let ms = occs(b, NodeKind::Other, o.kind, o.name);
                    lemma_occs_ordered(b, NodeKind::Other, o.kind, o.name);
                    lemma_ref_ranges_index(ms);
                    assert forall|a: int, c: int| 0 <= a < c < ref_ranges(ms).len() implies (
                    #[trigger] ref_ranges(ms)[a]).end_byte <= (
                    #[trigger] ref_ranges(ms)[c]).start_byte by {
                        assert(ref_ranges(ms)[a] == ms[a].wrap);
                        assert(ref_ranges(ms)[c] == ms[c].wrap);
                    }
                    lemma_dedup_sorted(ref_ranges(ms));
                    lemma_def_ranges_sorted(ms);
                    lemma_dedup_sorted(def_ranges(ms));
                },
            }
        },
    }
}

} // verus!
