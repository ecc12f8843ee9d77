//! What it means to apply an edit plan to a document's text.
//!
//! An edit plan lists edits in source order. Applying a plan replaces each
//! edit's byte range with its replacement text; the model applies the last
//! edit first, so that the byte offsets of the remaining, earlier edits still
//! refer to untouched text.

use vstd::prelude::*;

use crate::ops::TextEditView;

verus! {

/// One edit applied to the text: the bytes of the edit's range are replaced
/// by the edit's replacement text.
pub open spec fn splice(text: Seq<u8>, e: TextEditView) -> Seq<u8> {
    text.take(e.range.start_byte as int) + e.new_text + text.skip(e.range.end_byte as int)
}

/// A whole plan applied to the text, last edit first.
pub open spec fn apply_edits(text: Seq<u8>, es: Seq<TextEditView>) -> Seq<u8>
    decreases es.len(),
{
    if es.len() == 0 {
        text
    } else {
        apply_edits(splice(text, es.last()), es.drop_last())
    }
}

/// An edit is an identity on `text` when its range is in bounds and its
/// replacement equals the bytes already there.
pub open spec fn identity_edit(text: Seq<u8>, e: TextEditView) -> bool {
    &&& e.range.start_byte <= e.range.end_byte <= text.len()
    &&& e.new_text == text.subrange(e.range.start_byte as int, e.range.end_byte as int)
}

/// Splicing an identity edit leaves the text unchanged.
pub proof fn lemma_splice_identity(text: Seq<u8>, e: TextEditView)
    requires
        identity_edit(text, e),
    ensures
        splice(text, e) == text,
{
    assert(splice(text, e) =~= text);
}

/// Applying a plan of identity edits leaves the text unchanged.
pub proof fn lemma_apply_identity(text: Seq<u8>, es: Seq<TextEditView>)
    requires
        forall|j: int| 0 <= j < es.len() ==> identity_edit(text, #[trigger] es[j]),
    ensures
        apply_edits(text, es) == text,
    decreases es.len(),
{
    if es.len() > 0 {
        lemma_splice_identity(text, es.last());
        lemma_apply_identity(text, es.drop_last());
    }
}

/// The edit's range lies within a text of the given length and its
/// replacement has exactly the range's length, so splicing it moves nothing.
pub open spec fn fixed_len_edit(text_len: int, e: TextEditView) -> bool {
    &&& e.range.start_byte <= e.range.end_byte <= text_len
    &&& e.new_text.len() == e.range.end_byte - e.range.start_byte
}

/// The edits stand in ascending order at pairwise disjoint byte ranges.
pub open spec fn edits_disjoint(es: Seq<TextEditView>) -> bool {
    forall|a: int, b: int| 0 <= a < b < es.len() ==> (#[trigger] es[a]).range.end_byte <= (
    #[trigger] es[b]).range.start_byte
}

/// The edit covers byte position `q`.
pub open spec fn edit_covers(e: TextEditView, q: int) -> bool {
    e.range.start_byte <= q < e.range.end_byte
}

/// The index of the edit covering byte position `q`, if any.
pub open spec fn edit_at(es: Seq<TextEditView>, q: int) -> Option<int>
    decreases es.len(),
{
    if es.len() == 0 {
        None
    } else if edit_covers(es.last(), q) {
        Some(es.len() - 1)
    } else {
        edit_at(es.drop_last(), q)
    }
}

/// `edit_at` finds a covering edit exactly when one exists.
pub proof fn lemma_edit_at_props(es: Seq<TextEditView>, q: int)
    ensures
        match edit_at(es, q) {
            Some(j) => 0 <= j < es.len() && edit_covers(es[j], q),
            None => forall|j: int| 0 <= j < es.len() ==> !edit_covers(#[trigger] es[j], q),
        },
    decreases es.len(),
{
    if es.len() > 0 && !edit_covers(es.last(), q) {
        lemma_edit_at_props(es.drop_last(), q);
        let d = es.drop_last();
        match edit_at(es, q) {
            Some(j) => {
                assert(es[j] == d[j]);
            },
            None => {
                assert forall|j: int| 0 <= j < es.len() implies !edit_covers(
                    #[trigger] es[j],
                    q,
                ) by {
                    if j < es.len() - 1 {
                        assert(es[j] == d[j]);
                    }
                }
            },
        }
    }
}

/// Splicing a length-preserving edit: the text keeps its length, the range
/// holds the replacement, everything else is untouched.
pub proof fn lemma_splice_fixed_char(text: Seq<u8>, e: TextEditView)
    requires
        fixed_len_edit(text.len() as int, e),
    ensures
        splice(text, e).len() == text.len(),
        forall|q: int| 0 <= q < text.len() ==> splice(text, e)[q] == (if edit_covers(e, q) {
            e.new_text[q - e.range.start_byte]
        } else {
            text[q]
        }),
{
    assert forall|q: int| 0 <= q < text.len() implies splice(text, e)[q] == (if edit_covers(
        e,
        q,
    ) {
        e.new_text[q - e.range.start_byte]
    } else {
        text[q]
    }) by {
        if q < e.range.start_byte {
            assert(splice(text, e)[q] == text.take(e.range.start_byte as int)[q]);
        } else if q < e.range.end_byte {
            assert(splice(text, e)[q] == e.new_text[q - e.range.start_byte]);
        } else {
            assert(splice(text, e)[q] == text.skip(e.range.end_byte as int)[q
                - e.range.end_byte]);
        }
    }
}

/// Applying a plan of length-preserving, disjoint edits: the text keeps its
/// length, each edit's range holds its replacement, everything else is
/// untouched.
pub proof fn lemma_apply_fixed_char(text: Seq<u8>, es: Seq<TextEditView>)
    requires
        forall|i: int| 0 <= i < es.len() ==> fixed_len_edit(text.len() as int, #[trigger] es[i]),
        edits_disjoint(es),
    ensures
        apply_edits(text, es).len() == text.len(),
        forall|q: int| 0 <= q < text.len() ==> apply_edits(text, es)[q] == (match edit_at(es, q) {
            Some(j) => es[j].new_text[q - es[j].range.start_byte],
            None => text[q],
        }),
    decreases es.len(),
{
    if es.len() > 0 {
        let e = es.last();
        let d = es.drop_last();
        let t1 = splice(text, e);
        lemma_splice_fixed_char(text, e);
        assert forall|i: int| 0 <= i < d.len() implies fixed_len_edit(
            t1.len() as int,
            #[trigger] d[i],
        ) by {
            assert(d[i] == es[i]);
        }
        assert forall|a: int, b: int| 0 <= a < b < d.len() implies (#[trigger] d[a]).range.end_byte
            <= (#[trigger] d[b]).range.start_byte by {
            assert(d[a] == es[a] && d[b] == es[b]);
        }
        lemma_apply_fixed_char(t1, d);
        assert forall|q: int| 0 <= q < text.len() implies apply_edits(text, es)[q] == (match
            edit_at(es, q) {
            Some(j) => es[j].new_text[q - es[j].range.start_byte],
            None => text[q],
        }) by {
            lemma_edit_at_props(d, q);
            if edit_covers(e, q) {
                // No earlier edit covers q: every earlier range ends at or
                // before this one's start.
                assert forall|j: int| 0 <= j < d.len() implies !edit_covers(
                    #[trigger] d[j],
                    q,
                ) by {
                    assert(d[j] == es[j]);
                    assert(es[j].range.end_byte <= e.range.start_byte);
                }
                if edit_at(d, q) is Some {
                    let j = edit_at(d, q).unwrap();
                    assert(edit_covers(d[j], q));
                }
                assert(edit_at(d, q) is None);
                assert(apply_edits(text, es)[q] == t1[q]);
            } else {
                assert(edit_at(es, q) == edit_at(d, q));
                match edit_at(d, q) {
                    Some(j) => {
                        assert(d[j] == es[j]);
                        assert(apply_edits(text, es)[q] == d[j].new_text[q
                            - d[j].range.start_byte]);
                    },
                    None => {
                        assert(apply_edits(text, es)[q] == t1[q]);
                        assert(t1[q] == text[q]);
                    },
                }
            }
        }
    }
}

/// Applying one plan and then a second plan at the same ranges whose
/// replacements are the original bytes restores the text, provided the first
/// plan's replacements keep each range's length and the ranges are disjoint.
pub proof fn lemma_apply_inverse(text: Seq<u8>, es1: Seq<TextEditView>, es2: Seq<TextEditView>)
    requires
        es1.len() == es2.len(),
        forall|i: int| 0 <= i < es1.len() ==> (#[trigger] es2[i]).range == es1[i].range,
        forall|i: int| 0 <= i < es1.len() ==> fixed_len_edit(text.len() as int, #[trigger] es1[i]),
        edits_disjoint(es1),
        forall|i: int| 0 <= i < es1.len() ==> (#[trigger] es2[i]).new_text == text.subrange(
            es1[i].range.start_byte as int,
            es1[i].range.end_byte as int,
        ),
    ensures
        apply_edits(apply_edits(text, es1), es2) == text,
{
    let t1 = apply_edits(text, es1);
    lemma_apply_fixed_char(text, es1);
    assert forall|i: int| 0 <= i < es2.len() implies fixed_len_edit(
        t1.len() as int,
        #[trigger] es2[i],
    ) by {
        assert(es2[i].range == es1[i].range);
        assert(es2[i].new_text.len() == es1[i].range.end_byte - es1[i].range.start_byte);
    }
    assert forall|a: int, b: int| 0 <= a < b < es2.len() implies (#[trigger] es2[a]).range.end_byte
        <= (#[trigger] es2[b]).range.start_byte by {
        assert(es2[a].range == es1[a].range && es2[b].range == es1[b].range);
        assert(es1[a].range.end_byte <= es1[b].range.start_byte);
    }
    lemma_apply_fixed_char(t1, es2);
    let t2 = apply_edits(t1, es2);
    assert forall|q: int| 0 <= q < text.len() implies t2[q] == text[q] by {
        lemma_edit_at_props(es2, q);
        lemma_edit_at_props(es1, q);
        match edit_at(es2, q) {
            Some(j) => {
                assert(t2[q] == es2[j].new_text[q - es2[j].range.start_byte]);
                assert(es2[j].new_text[q - es1[j].range.start_byte] == text.subrange(
                    es1[j].range.start_byte as int,
                    es1[j].range.end_byte as int,
                )[q - es1[j].range.start_byte]);
            },
            None => {
                assert(t2[q] == t1[q]);
                if edit_at(es1, q) is Some {
                    let j = edit_at(es1, q).unwrap();
                    assert(edit_covers(es1[j], q));
                    assert(es2[j].range == es1[j].range);
                    assert(edit_covers(es2[j], q));
                    assert(false);
                }
                assert(t1[q] == text[q]);
            },
        }
    }
    assert(t2 =~= text);
}

} // verus!
