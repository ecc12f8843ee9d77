//! The Scope Resolver: maps a classified occurrence to its visibility
//! boundary.
//!
//! `Local` and `Label` names are meaningful only inside one function body, so
//! their boundary is the nearest enclosing function definition; a local or
//! label identifier with no enclosing function is a malformed document and
//! resolution fails. `Global` and `Aggregate` names occupy one flat,
//! whole-document namespace, so their boundary is the document root,
//! unconditionally.

use vstd::prelude::*;

use crate::classify::{first_covering_child, first_covering_child_ex, lemma_first_covering_child_in_bounds};
use crate::syntax::{lemma_text_ok_child, lemma_wf_child, range_within, Node, NodeKind, Point};

verus! {

/// The deepest function-definition node on the covering path of position `p`
/// within the subtree rooted at `n`, including `n` itself; `None` when the
/// path passes through no function definition.
pub open spec fn spec_enclosing_funcdef(n: Node, p: Point) -> Option<Node>
    decreases n,
{
    let deeper = match first_covering_child(n.children@, p, 0) {
        Some(i) => {
            proof {
                lemma_first_covering_child_in_bounds(n.children@, p, 0);
                vstd::std_specs::vec::axiom_vec_index_decreases(n.children, i);
            }
            spec_enclosing_funcdef(n.children[i], p)
        },
        None => None,
    };
    if deeper is Some {
        deeper
    } else if n.kind == NodeKind::FuncDef {
        Some(n)
    } else {
        None
    }
}

/// A resolved boundary inherits well-formedness and text consistency from the
/// tree it was found in, and its byte range lies within that tree's range.
pub proof fn lemma_enclosing_funcdef_props(n: Node, p: Point, text: Seq<u8>)
    requires
        spec_enclosing_funcdef(n, p) is Some,
    ensures
        n.wf() ==> spec_enclosing_funcdef(n, p).unwrap().wf(),
        n.wf() ==> range_within(spec_enclosing_funcdef(n, p).unwrap().range, n.range),
        n.text_ok(text) ==> spec_enclosing_funcdef(n, p).unwrap().text_ok(text),
    decreases n,
{
    match first_covering_child(n.children@, p, 0) {
        Some(i) => {
            lemma_first_covering_child_in_bounds(n.children@, p, 0);
            if spec_enclosing_funcdef(n.children[i], p) is Some {
                lemma_enclosing_funcdef_props(n.children[i], p, text);
                if n.wf() {
                    lemma_wf_child(n, i);
                }
                if n.text_ok(text) {
                    lemma_text_ok_child(n, text, i);
                }
            }
        },
        None => {},
    }
}

/// The Scope Resolver's upward walk, realised as a bounded descent along the
/// covering path: returns the deepest (nearest) enclosing function-definition
/// node of the position, or `None` when the tree root is reached without
/// meeting one.
pub fn enclosing_funcdef<'a>(n: &'a Node, p: Point) -> (r: Option<&'a Node>)
    ensures
        match r {
            Some(b) => spec_enclosing_funcdef(*n, p) == Some(*b),
            None => spec_enclosing_funcdef(*n, p) is None,
        },
    decreases *n,
{
    let deeper: Option<&'a Node> = match first_covering_child_ex(&n.children, p) {
        Some(i) => {
            proof {
                vstd::std_specs::vec::axiom_vec_index_decreases(n.children, i as int);
            }
            enclosing_funcdef(&n.children[i], p)
        },
        None => None,
    };
    if deeper.is_some() {
        deeper
    } else if n.kind == NodeKind::FuncDef {
        Some(n)
    } else {
        None
    }
}

} // verus!
