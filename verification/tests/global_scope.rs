//! Tests for the whole-document namespace of globals and aggregates, and for
//! definition lookup across the four kinds.

use qbels::ops::{goto_definition, references, rename};
use qbels::syntax::{FieldLabel, Node, NodeKind, Point, SrcRange};

fn pt(line: usize, col: usize) -> Point {
    Point { line, col }
}

fn rng(line: usize, s: usize, e: usize, base: usize) -> SrcRange {
    SrcRange { start_byte: base + s, end_byte: base + e, start: pt(line, s), end: pt(line, e) }
}

fn node(kind: NodeKind, field: FieldLabel, range: SrcRange, text: &str, children: Vec<Node>) -> Node {
    Node { kind, field, range, text: text.as_bytes().to_vec(), children }
}

/// A document with one type, one data definition and one function using both:
///   line 0: `type :pair = { w, w }`
///   line 1: `data $d = { w 1 }`
///   line 2: `function $f(:pair %p) { call $d ret }`
fn program_doc() -> (String, Node) {
    let l0 = "type :pair = { w, w }";
    let l1 = "data $d = { w 1 }";
    let l2 = "function $f(:pair %p) { call $d ret }";
    let text = format!("{}\n{}\n{}", l0, l1, l2);
    let base1 = l0.len() + 1;
    let base2 = base1 + l1.len() + 1;

    let typedef = node(NodeKind::TypeDef, FieldLabel::Other, rng(0, 0, 21, 0), l0, vec![node(
        NodeKind::Aggregate,
        FieldLabel::Name,
        rng(0, 5, 10, 0),
        ":pair",
        vec![node(NodeKind::Ident, FieldLabel::Other, rng(0, 6, 10, 0), "pair", vec![])],
    )]);
    let datadef = node(NodeKind::DataDef, FieldLabel::Other, rng(1, 0, 17, base1), l1, vec![node(
        NodeKind::Global,
        FieldLabel::Name,
        rng(1, 5, 7, base1),
        "$d",
        vec![node(NodeKind::Ident, FieldLabel::Other, rng(1, 6, 7, base1), "d", vec![])],
    )]);
    let func_name = node(NodeKind::Global, FieldLabel::Name, rng(2, 9, 11, base2), "$f", vec![
        node(NodeKind::Ident, FieldLabel::Other, rng(2, 10, 11, base2), "f", vec![]),
    ]);
    let param = node(NodeKind::FuncDefParam, FieldLabel::Other, rng(2, 12, 20, base2), ":pair %p", vec![
        node(NodeKind::Aggregate, FieldLabel::Other, rng(2, 12, 17, base2), ":pair", vec![node(
            NodeKind::Ident,
            FieldLabel::Other,
            rng(2, 13, 17, base2),
            "pair",
            vec![],
        )]),
        node(NodeKind::Local, FieldLabel::Name, rng(2, 18, 20, base2), "%p", vec![node(
            NodeKind::Ident,
            FieldLabel::Other,
            rng(2, 19, 20, base2),
            "p",
            vec![],
        )]),
    ]);
    let params = node(NodeKind::FuncDefParams, FieldLabel::Params, rng(2, 11, 21, base2), "(:pair %p)", vec![
        param,
    ]);
    let call_global = node(NodeKind::Global, FieldLabel::Other, rng(2, 29, 31, base2), "$d", vec![
        node(NodeKind::Ident, FieldLabel::Other, rng(2, 30, 31, base2), "d", vec![]),
    ]);
    let inst = node(NodeKind::Inst, FieldLabel::Other, rng(2, 24, 31, base2), "call $d", vec![
        call_global,
    ]);
    let block = node(NodeKind::Block, FieldLabel::Other, rng(2, 24, 35, base2), "call $d ret", vec![
        inst,
    ]);
    let funcdef = node(NodeKind::FuncDef, FieldLabel::Other, rng(2, 0, 37, base2), l2, vec![
        func_name, params, block,
    ]);
    let end = text.len();
    let root = node(
        NodeKind::Other,
        FieldLabel::Other,
        SrcRange { start_byte: 0, end_byte: end, start: pt(0, 0), end: pt(2, l2.len()) },
        &text,
        vec![typedef, datadef, funcdef],
    );
    (text, root)
}

#[test]
fn global_rename_touches_every_occurrence_in_document() {
    // Renaming the data symbol $d at its definition also edits its use
    // inside the function: the namespace is the whole document.
    let (_, root) = program_doc();
    let edits = rename(&root, pt(1, 6), &b"dd".to_vec()).expect("rename must succeed");
    assert_eq!(edits.len(), 2);
    let lines: Vec<usize> = edits.iter().map(|e| e.range.start.line).collect();
    assert!(lines.contains(&1) && lines.contains(&2));
}

#[test]
fn global_references_cross_function_boundaries() {
    let (_, root) = program_doc();
    let refs = references(&root, pt(1, 6));
    assert_eq!(refs.len(), 2);
    let refs_from_use = references(&root, pt(2, 30));
    assert_eq!(refs_from_use.len(), 2);
}

#[test]
fn global_definition_of_data_symbol() {
    // Definition lookup from the use site finds the data definition's name.
    let (_, root) = program_doc();
    let defs = goto_definition(&root, pt(2, 30));
    assert_eq!(defs.len(), 1);
    assert_eq!(defs[0].start.line, 1);
    assert_eq!((defs[0].start.col, defs[0].end.col), (5, 7));
}

#[test]
fn aggregate_rename_touches_typedef_and_use() {
    let (_, root) = program_doc();
    let edits = rename(&root, pt(0, 7), &b"quad".to_vec()).expect("rename must succeed");
    assert_eq!(edits.len(), 2);
    let lines: Vec<usize> = edits.iter().map(|e| e.range.start.line).collect();
    assert!(lines.contains(&0) && lines.contains(&2));
}

#[test]
fn aggregate_definition_from_use() {
    let (_, root) = program_doc();
    let defs = goto_definition(&root, pt(2, 14));
    assert_eq!(defs.len(), 1);
    assert_eq!(defs[0].start.line, 0);
    assert_eq!((defs[0].start.col, defs[0].end.col), (5, 10));
}

#[test]
fn parameter_is_a_definition_site() {
    let (_, root) = program_doc();
    let defs = goto_definition(&root, pt(2, 19));
    assert_eq!(defs.len(), 1);
    assert_eq!((defs[0].start.col, defs[0].end.col), (18, 20));
}

#[test]
fn function_name_definition_from_itself() {
    let (_, root) = program_doc();
    let defs = goto_definition(&root, pt(2, 10));
    assert_eq!(defs.len(), 1);
    assert_eq!((defs[0].start.col, defs[0].end.col), (9, 11));
}

#[test]
fn duplicate_global_definitions_all_returned_in_order() {
    // Two data definitions sharing one name: invalid IR that the engine does
    // not reject; definition lookup returns the full set in source order.
    let l0 = "data $a = { w 1 }";
    let l1 = "data $a = { w 2 }";
    let text = format!("{}\n{}", l0, l1);
    let base1 = l0.len() + 1;
    let mk = |line: usize, base: usize, src: &str| {
        node(NodeKind::DataDef, FieldLabel::Other, rng(line, 0, 17, base), src, vec![node(
            NodeKind::Global,
            FieldLabel::Name,
            rng(line, 5, 7, base),
            "$a",
            vec![node(NodeKind::Ident, FieldLabel::Other, rng(line, 6, 7, base), "a", vec![])],
        )])
    };
    let root = node(
        NodeKind::Other,
        FieldLabel::Other,
        SrcRange { start_byte: 0, end_byte: text.len(), start: pt(0, 0), end: pt(1, l1.len()) },
        &text,
        vec![mk(0, 0, l0), mk(1, base1, l1)],
    );
    let defs = goto_definition(&root, pt(0, 6));
    assert_eq!(defs.len(), 2);
    assert!(defs[0].start_byte < defs[1].start_byte);
}
