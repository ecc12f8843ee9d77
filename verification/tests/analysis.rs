//! Scenario tests for the symbol-resolution core, on hand-built snapshots
//! that mirror what the external parser produces.

use qbels::classify::{classify, Occurrence};
use qbels::ops::{goto_definition, prepare_rename, references, rename, RenameError, TextEdit};
use qbels::syntax::{FieldLabel, IdentKind, Node, NodeKind, Point, SrcRange};

fn pt(line: usize, col: usize) -> Point {
    Point { line, col }
}

fn rng(line: usize, s: usize, e: usize, base: usize) -> SrcRange {
    SrcRange { start_byte: base + s, end_byte: base + e, start: pt(line, s), end: pt(line, e) }
}

fn node(kind: NodeKind, field: FieldLabel, range: SrcRange, text: &str, children: Vec<Node>) -> Node {
    Node { kind, field, range, text: text.as_bytes().to_vec(), children }
}

/// One function on one line: `function $f() { @start %x =w add 1, 2 ret %x }`
/// laid out at `line`, with byte offsets starting at `base`.
///
/// Offsets within the line:
///   $f at 9..11 (ident f at 10..11), @start at 16..22 (ident at 17..22),
///   assignment %x at 23..25 (ident x at 24..25), operand %x at 42..44
///   (ident x at 43..44); the whole function spans 0..46.
fn funcdef_line(name: &str, line: usize, base: usize) -> Node {
    let global = node(
        NodeKind::Global,
        FieldLabel::Name,
        rng(line, 9, 11, base),
        &format!("${}", name),
        vec![node(NodeKind::Ident, FieldLabel::Other, rng(line, 10, 11, base), name, vec![])],
    );
    let label = node(
        NodeKind::Label,
        FieldLabel::Label,
        rng(line, 16, 22, base),
        "@start",
        vec![node(NodeKind::Ident, FieldLabel::Other, rng(line, 17, 22, base), "start", vec![])],
    );
    let assign_local = node(
        NodeKind::Local,
        FieldLabel::Assignment,
        rng(line, 23, 25, base),
        "%x",
        vec![node(NodeKind::Ident, FieldLabel::Other, rng(line, 24, 25, base), "x", vec![])],
    );
    let inst1 = node(
        NodeKind::Inst,
        FieldLabel::Other,
        rng(line, 23, 37, base),
        "%x =w add 1, 2",
        vec![assign_local],
    );
    let ret_local = node(
        NodeKind::Local,
        FieldLabel::Other,
        rng(line, 42, 44, base),
        "%x",
        vec![node(NodeKind::Ident, FieldLabel::Other, rng(line, 43, 44, base), "x", vec![])],
    );
    let inst2 = node(NodeKind::Inst, FieldLabel::Other, rng(line, 38, 44, base), "ret %x", vec![
        ret_local,
    ]);
    let block = node(
        NodeKind::Block,
        FieldLabel::Other,
        rng(line, 16, 44, base),
        "@start %x =w add 1, 2 ret %x",
        vec![label, inst1, inst2],
    );
    node(
        NodeKind::FuncDef,
        FieldLabel::Other,
        rng(line, 0, 46, base),
        &format!("function ${}() {{ @start %x =w add 1, 2 ret %x }}", name),
        vec![global, block],
    )
}

const LINE_TEXT: &str = "function $f() { @start %x =w add 1, 2 ret %x }";

/// A document holding exactly one function.
fn one_function_doc() -> (String, Node) {
    let text = LINE_TEXT.to_string();
    let f = funcdef_line("f", 0, 0);
    let root = node(
        NodeKind::Other,
        FieldLabel::Other,
        SrcRange { start_byte: 0, end_byte: text.len(), start: pt(0, 0), end: pt(0, text.len()) },
        &text,
        vec![f],
    );
    (text, root)
}

/// A document holding two functions, `$f` and `$g`, one per line, each
/// declaring and using a local `%x`.
fn two_function_doc() -> (String, Node) {
    let text = format!("{}\n{}", LINE_TEXT, LINE_TEXT);
    let f = funcdef_line("f", 0, 0);
    let g = funcdef_line("g", 1, LINE_TEXT.len() + 1);
    let root = node(
        NodeKind::Other,
        FieldLabel::Other,
        SrcRange { start_byte: 0, end_byte: text.len(), start: pt(0, 0), end: pt(1, LINE_TEXT.len()) },
        &text,
        vec![f, g],
    );
    (text, root)
}

/// Applies an edit plan to a text, last edit first, as the editor would.
fn apply(text: &str, edits: &[TextEdit]) -> String {
    let mut bytes = text.as_bytes().to_vec();
    for e in edits.iter().rev() {
        let mut out = Vec::new();
        out.extend_from_slice(&bytes[..e.range.start_byte]);
        out.extend_from_slice(&e.new_text);
        out.extend_from_slice(&bytes[e.range.end_byte..]);
        bytes = out;
    }
    String::from_utf8(bytes).unwrap()
}

#[test]
fn classify_local_on_ident() {
    let (_, root) = one_function_doc();
    let occ = classify(&root, pt(0, 24)).expect("cursor on %x must classify");
    assert!(matches!(occ.kind, IdentKind::Local));
    assert_eq!(occ.name, b"x".to_vec());
    assert_eq!(occ.range.start_byte, 24);
    assert_eq!(occ.range.end_byte, 25);
}

#[test]
fn classify_local_on_sigil() {
    // The cursor on `%` covers the wrapping node itself, not the bare
    // identifier; classification still lands on the identifier child.
    let (_, root) = one_function_doc();
    let occ = classify(&root, pt(0, 23)).expect("cursor on sigil must classify");
    assert!(matches!(occ.kind, IdentKind::Local));
    assert_eq!(occ.name, b"x".to_vec());
    assert_eq!(occ.range.start_byte, 24);
}

#[test]
fn classify_twice_agrees() {
    let (_, root) = one_function_doc();
    let a = classify(&root, pt(0, 24)).unwrap();
    let b = classify(&root, pt(0, 24)).unwrap();
    assert!(matches!(a.kind, IdentKind::Local) && matches!(b.kind, IdentKind::Local));
    assert_eq!(a.range, b.range);
    assert_eq!(a.name, b.name);
}

#[test]
fn scenario_a_definition_and_references() {
    // Cursor on the first %x: definition lookup returns the assignment
    // target; reference lookup returns both occurrences.
    let (_, root) = one_function_doc();
    let defs = goto_definition(&root, pt(0, 24));
    assert_eq!(defs.len(), 1);
    assert_eq!((defs[0].start_byte, defs[0].end_byte), (23, 25));

    let refs = references(&root, pt(0, 24));
    assert_eq!(refs.len(), 2);
    assert_eq!((refs[0].start_byte, refs[0].end_byte), (23, 25));
    assert_eq!((refs[1].start_byte, refs[1].end_byte), (42, 44));
}

#[test]
fn label_definition_and_references() {
    let (_, root) = one_function_doc();
    let defs = goto_definition(&root, pt(0, 18));
    assert_eq!(defs.len(), 1);
    assert_eq!((defs[0].start_byte, defs[0].end_byte), (16, 22));
    let refs = references(&root, pt(0, 18));
    assert_eq!(refs.len(), 1);
}

#[test]
fn global_definition_found_from_name() {
    let (_, root) = one_function_doc();
    let defs = goto_definition(&root, pt(0, 10));
    assert_eq!(defs.len(), 1);
    assert_eq!((defs[0].start_byte, defs[0].end_byte), (9, 11));
}

#[test]
fn scenario_b_rename_stays_in_one_function() {
    // Renaming %x inside $f changes only $f's two occurrences; $g's %x is
    // untouched.
    let (text, root) = two_function_doc();
    let edits = rename(&root, pt(0, 24), &b"y".to_vec()).expect("rename must succeed");
    assert_eq!(edits.len(), 2);
    let g_start = LINE_TEXT.len() + 1;
    for e in &edits {
        assert!(e.range.end_byte < g_start, "edit leaked into $g");
        assert_eq!(e.new_text, b"y".to_vec());
    }
    let renamed = apply(&text, &edits);
    let expected = format!(
        "{}\n{}",
        "function $f() { @start %y =w add 1, 2 ret %y }",
        LINE_TEXT,
    );
    assert_eq!(renamed, expected);
}

#[test]
fn scenario_b_references_stay_in_one_function() {
    let (_, root) = two_function_doc();
    let g_start = LINE_TEXT.len() + 1;
    let refs = references(&root, pt(0, 24));
    assert_eq!(refs.len(), 2);
    for r in &refs {
        assert!(r.end_byte < g_start);
    }
    let refs_g = references(&root, pt(1, 24));
    assert_eq!(refs_g.len(), 2);
    for r in &refs_g {
        assert!(r.start_byte >= g_start);
    }
}

#[test]
fn scenario_c_keyword_and_literal_yield_nothing() {
    // Cursor over a keyword or numeric literal: all four operations return
    // empty or absent results.
    let (_, root) = one_function_doc();
    for p in [pt(0, 2), pt(0, 33)] {
        assert!(classify(&root, p).is_none());
        assert!(prepare_rename(&root, p).is_none());
        assert!(references(&root, p).is_empty());
        assert!(goto_definition(&root, p).is_empty());
        assert!(matches!(rename(&root, p, &b"y".to_vec()), Err(RenameError::NotAnIdentifier)));
    }
}

#[test]
fn scenario_d_local_outside_function_refused() {
    // A local identifier outside any function: rename is refused, lookups
    // degrade to empty.
    let local = node(
        NodeKind::Local,
        FieldLabel::Other,
        rng(0, 0, 2, 0),
        "%x",
        vec![node(NodeKind::Ident, FieldLabel::Other, rng(0, 1, 2, 0), "x", vec![])],
    );
    let root = node(NodeKind::Other, FieldLabel::Other, rng(0, 0, 2, 0), "%x", vec![local]);
    assert!(matches!(rename(&root, pt(0, 1), &b"y".to_vec()), Err(RenameError::NoEnclosingScope)));
    assert!(references(&root, pt(0, 1)).is_empty());
    assert!(goto_definition(&root, pt(0, 1)).is_empty());
    // The classifier itself still sees the identifier.
    assert!(classify(&root, pt(0, 1)).is_some());
}

#[test]
fn noop_rename_leaves_text_identical() {
    let (text, root) = one_function_doc();
    let edits = rename(&root, pt(0, 24), &b"x".to_vec()).expect("rename must succeed");
    assert_eq!(edits.len(), 2);
    assert_eq!(apply(&text, &edits), text);
}

#[test]
fn rename_round_trip_restores_text() {
    // rename(x -> y) then rename(y -> x) restores the original text: the
    // second request runs on the reparsed snapshot of the edited text, which
    // here has the same shape with the renamed identifiers.
    let (text, root) = one_function_doc();
    let edits = rename(&root, pt(0, 24), &b"y".to_vec()).expect("rename must succeed");
    let renamed = apply(&text, &edits);

    // The snapshot of the renamed document: identical shape, `y` for `x`.
    let mut root2 = funcdef_line("f", 0, 0);
    rename_in_tree(&mut root2, b"x", b"y");
    let root2 = node(
        NodeKind::Other,
        FieldLabel::Other,
        SrcRange { start_byte: 0, end_byte: renamed.len(), start: pt(0, 0), end: pt(0, renamed.len()) },
        &renamed,
        vec![root2],
    );
    let back = rename(&root2, pt(0, 24), &b"x".to_vec()).expect("rename back must succeed");
    assert_eq!(apply(&renamed, &back), text);
}

/// Replaces the text of every identifier equal to `old` with `new` (same
/// length), as reparsing the edited document would.
fn rename_in_tree(n: &mut Node, old: &[u8], new: &[u8]) {
    if n.kind == NodeKind::Ident && n.text == old {
        n.text = new.to_vec();
    }
    for c in n.children.iter_mut() {
        rename_in_tree(c, old, new);
    }
}

#[test]
fn prepare_rename_reports_range_and_placeholder() {
    let (_, root) = one_function_doc();
    let occ: Occurrence = prepare_rename(&root, pt(0, 24)).expect("must be renamable");
    assert_eq!((occ.range.start_byte, occ.range.end_byte), (24, 25));
    assert_eq!(occ.name, b"x".to_vec());
}

#[test]
fn locator_and_planner_agree() {
    // The planner's edited ranges are the identifier ranges of the locator's
    // reference matches: one edit per reference, each inside its wrapper.
    let (_, root) = one_function_doc();
    let refs = references(&root, pt(0, 24));
    let edits = rename(&root, pt(0, 24), &b"long_name".to_vec()).unwrap();
    assert_eq!(refs.len(), edits.len());
    for (r, e) in refs.iter().zip(edits.iter()) {
        assert!(r.start_byte <= e.range.start_byte && e.range.end_byte <= r.end_byte);
    }
}

#[test]
fn malformed_wrapper_refuses_rename() {
    // A wrapping node without its identifier child violates the parser
    // contract: the rename request fails outright.
    let bad_local = node(NodeKind::Local, FieldLabel::Other, rng(0, 30, 32, 0), "%z", vec![]);
    let good_local = node(
        NodeKind::Local,
        FieldLabel::Assignment,
        rng(0, 20, 22, 0),
        "%x",
        vec![node(NodeKind::Ident, FieldLabel::Other, rng(0, 21, 22, 0), "x", vec![])],
    );
    let block = node(NodeKind::Block, FieldLabel::Other, rng(0, 10, 40, 0), "", vec![
        good_local, bad_local,
    ]);
    let f = node(NodeKind::FuncDef, FieldLabel::Other, rng(0, 0, 41, 0), "", vec![block]);
    let root = node(NodeKind::Other, FieldLabel::Other, rng(0, 0, 41, 0), "", vec![f]);
    assert!(matches!(
        rename(&root, pt(0, 21), &b"y".to_vec()),
        Err(RenameError::MalformedWrappingNode)
    ));
}

#[test]
fn ident_kind_names() {
    assert_eq!(IdentKind::Local.kind(), "LOCAL");
    assert_eq!(IdentKind::Global.kind(), "GLOBAL");
    assert_eq!(IdentKind::Aggregate.kind(), "AGGREGATE");
    assert_eq!(IdentKind::Label.kind(), "LABEL");
}
