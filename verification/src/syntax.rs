//! The data model: syntax-tree snapshots as plain values.
//!
//! A snapshot of one document is an immutable tree of `Node` values, each
//! carrying a kind tag, the field label of the edge from its parent, a source
//! range, the node's source text, and its ordered named children. The tree is
//! supplied by the caller (an external parser produces it); the core never
//! mutates it.

use vstd::prelude::*;

verus! {

/// The four kinds of named entity in the IR, each with its own scoping rule:
/// `Local` and `Label` are visible only inside one function definition,
/// `Global` and `Aggregate` occupy one flat, whole-document namespace.
#[derive(Clone, Copy, PartialEq, Eq, Structural, Debug)]
pub enum IdentKind {
    /// A function-scoped virtual-register identifier.
    Local,
    /// A program-wide function or data symbol.
    Global,
    /// A program-wide named structured type.
    Aggregate,
    /// A function-scoped basic-block name.
    Label,
}

/// Kind tags of syntax-tree nodes. The first four are the wrapping kinds, in
/// one-to-one correspondence with `IdentKind`; every other tag the grammar
/// produces and the core does not inspect maps to `Other`.
#[derive(Clone, Copy, PartialEq, Eq, Structural, Debug)]
pub enum NodeKind {
    Local,
    Global,
    Aggregate,
    Label,
    /// A bare identifier, the single named child of a wrapping node.
    Ident,
    FuncDef,
    FuncDefParams,
    FuncDefParam,
    Inst,
    Block,
    DataDef,
    TypeDef,
    Other,
}

/// The field label of the edge from a node's parent, for the fields the
/// definition patterns inspect; any other (or absent) label maps to `Other`.
#[derive(Clone, Copy, PartialEq, Eq, Structural, Debug)]
pub enum FieldLabel {
    /// An instruction's assignment target.
    Assignment,
    /// The name field of a definition-like node.
    Name,
    /// A block's label declaration.
    Label,
    /// A function definition's parameter list.
    Params,
    Other,
}

/// A zero-based (line, column) position.
#[derive(Clone, Copy, PartialEq, Eq, Structural, Debug)]
pub struct Point {
    pub line: usize,
    pub col: usize,
}

/// A source range: half-open [start, end) both as byte offsets and as points.
#[derive(Clone, Copy, PartialEq, Eq, Structural, Debug)]
pub struct SrcRange {
    pub start_byte: usize,
    pub end_byte: usize,
    pub start: Point,
    pub end: Point,
}

/// One node of a syntax-tree snapshot. `text` is the slice of the document's
/// source text that the node's byte range covers; `children` are the node's
/// named children, in source order.
pub struct Node {
    pub kind: NodeKind,
    pub field: FieldLabel,
    pub range: SrcRange,
    pub text: Vec<u8>,
    pub children: Vec<Node>,
}

impl IdentKind {
    /// The kind tag of the wrapping node for this symbol kind.
    pub open spec fn wrap_kind(self) -> NodeKind {
        match self {
            IdentKind::Local => NodeKind::Local,
            IdentKind::Global => NodeKind::Global,
            IdentKind::Aggregate => NodeKind::Aggregate,
            IdentKind::Label => NodeKind::Label,
        }
    }

    /// The kind tag of the wrapping node for this symbol kind; mirrors
    /// `wrap_kind`.
    pub fn wrap_node_kind(&self) -> (r: NodeKind)
        ensures
            r == self.wrap_kind(),
    {
        match self {
            IdentKind::Local => NodeKind::Local,
            IdentKind::Global => NodeKind::Global,
            IdentKind::Aggregate => NodeKind::Aggregate,
            IdentKind::Label => NodeKind::Label,
        }
    }

    /// The grammar's name for the wrapping node kind of this symbol kind.
    pub fn kind(&self) -> (r: &'static str)
        ensures
            r@ == self.spec_kind_name(),
    {
        match self {
            IdentKind::Local => "LOCAL",
            IdentKind::Global => "GLOBAL",
            IdentKind::Aggregate => "AGGREGATE",
            IdentKind::Label => "LABEL",
        }
    }

    /// The grammar's name for the wrapping node kind of this symbol kind.
    pub open spec fn spec_kind_name(self) -> Seq<char> {
        match self {
            IdentKind::Local => "LOCAL"@,
            IdentKind::Global => "GLOBAL"@,
            IdentKind::Aggregate => "AGGREGATE"@,
            IdentKind::Label => "LABEL"@,
        }
    }
}

/// `a` is at or before `b` in the document.
pub open spec fn point_le(a: Point, b: Point) -> bool {
    a.line < b.line || (a.line == b.line && a.col <= b.col)
}

/// `a` is strictly before `b` in the document.
pub open spec fn point_lt(a: Point, b: Point) -> bool {
    a.line < b.line || (a.line == b.line && a.col < b.col)
}

/// The half-open point range of `r` contains position `p`.
pub open spec fn covers(r: SrcRange, p: Point) -> bool {
    point_le(r.start, p) && point_lt(p, r.end)
}

/// Whether the half-open point range of `r` contains position `p`.
pub fn covers_pos(r: SrcRange, p: Point) -> (b: bool)
    ensures
        b == covers(r, p),
{
    let after_start = r.start.line < p.line || (r.start.line == p.line && r.start.col <= p.col);
    let before_end = p.line < r.end.line || (p.line == r.end.line && p.col < r.end.col);
    after_start && before_end
}

/// The byte range of `inner` lies within the byte range of `outer`.
pub open spec fn range_within(inner: SrcRange, outer: SrcRange) -> bool {
    outer.start_byte <= inner.start_byte && inner.end_byte <= outer.end_byte
}

/// A range's end does not precede its start.
pub open spec fn range_ok(r: SrcRange) -> bool {
    r.start_byte <= r.end_byte && point_le(r.start, r.end)
}

impl Node {
    /// Well-formedness of a snapshot tree: every range runs forward, children
    /// lie within their parent's range, and siblings are disjoint and in
    /// source order, both by byte offset and by point.
    pub open spec fn wf(self) -> bool
        decreases self, self.children.len() + 1nat,
    {
        &&& range_ok(self.range)
        &&& self.wf_children_from(0)
    }

    /// The children of `self` from index `i` on are well-formed, lie within
    /// `self`'s range, and are disjoint and ordered.
    pub open spec fn wf_children_from(self, i: int) -> bool
        decreases self, self.children.len() - i,
    {
        if i < 0 || i >= self.children.len() {
            true
        } else {
            proof {
                vstd::std_specs::vec::axiom_vec_index_decreases(self.children, i);
            }
            {
                &&& range_within(self.children[i].range, self.range)
                &&& point_le(self.range.start, self.children[i].range.start)
                &&& point_le(self.children[i].range.end, self.range.end)
                &&& (i + 1 < self.children.len() ==> {
                    &&& self.children[i].range.end_byte <= self.children[i + 1].range.start_byte
                    &&& point_le(self.children[i].range.end, self.children[i + 1].range.start)
                })
                &&& self.children[i].wf()
                &&& self.wf_children_from(i + 1)
            }
        }
    }

    /// The tree is consistent with the document text it was parsed from:
    /// every node's byte range lies within the text, and every node's `text`
    /// field equals the slice of the document at its byte range.
    pub open spec fn text_ok(self, text: Seq<u8>) -> bool
        decreases self, self.children.len() + 1nat,
    {
        &&& self.range.start_byte <= self.range.end_byte <= text.len()
        &&& self.text@ == text.subrange(self.range.start_byte as int, self.range.end_byte as int)
        &&& self.text_ok_children_from(text, 0)
    }

    /// The children of `self` from index `i` on are consistent with `text`.
    pub open spec fn text_ok_children_from(self, text: Seq<u8>, i: int) -> bool
        decreases self, self.children.len() - i,
    {
        if i < 0 || i >= self.children.len() {
            true
        } else {
            proof {
                vstd::std_specs::vec::axiom_vec_index_decreases(self.children, i);
            }
            {
                &&& self.children[i].text_ok(text)
                &&& self.text_ok_children_from(text, i + 1)
            }
        }
    }
}

/// In a well-formed tree, each child is itself well-formed and lies within
/// its parent's range.
pub proof fn lemma_wf_child(n: Node, i: int)
    requires
        n.wf(),
        0 <= i < n.children.len(),
    ensures
        n.children[i].wf(),
        range_within(n.children[i].range, n.range),
        point_le(n.range.start, n.children[i].range.start),
        point_le(n.children[i].range.end, n.range.end),
{
    lemma_wf_children_from_index(n, 0, i);
}

/// Helper for `lemma_wf_child`: walks `wf_children_from` up to index `i`.
proof fn lemma_wf_children_from_index(n: Node, j: int, i: int)
    requires
        n.wf_children_from(j),
        0 <= j <= i < n.children.len(),
    ensures
        n.children[i].wf(),
        range_within(n.children[i].range, n.range),
        point_le(n.range.start, n.children[i].range.start),
        point_le(n.children[i].range.end, n.range.end),
    decreases i - j,
{
    if j < i {
        lemma_wf_children_from_index(n, j + 1, i);
    }
}

/// In a well-formed tree, consecutive siblings are disjoint: the earlier
/// one's byte range ends before the later one's begins.
pub proof fn lemma_wf_adjacent(n: Node, i: int)
    requires
        n.wf(),
        0 <= i,
        i + 1 < n.children.len(),
    ensures
        n.children[i].range.end_byte <= n.children[i + 1].range.start_byte,
{
    lemma_wf_adjacent_from(n, 0, i);
}

/// Helper for `lemma_wf_adjacent`.
proof fn lemma_wf_adjacent_from(n: Node, j: int, i: int)
    requires
        n.wf_children_from(j),
        0 <= j <= i,
        i + 1 < n.children.len(),
    ensures
        n.children[i].range.end_byte <= n.children[i + 1].range.start_byte,
    decreases i - j,
{
    if j < i {
        lemma_wf_adjacent_from(n, j + 1, i);
    }
}

/// In a text-consistent tree, each child is itself text-consistent.
pub proof fn lemma_text_ok_child(n: Node, text: Seq<u8>, i: int)
    requires
        n.text_ok(text),
        0 <= i < n.children.len(),
    ensures
        n.children[i].text_ok(text),
{
    lemma_text_ok_children_from_index(n, text, 0, i);
}

/// Helper for `lemma_text_ok_child`.
proof fn lemma_text_ok_children_from_index(n: Node, text: Seq<u8>, j: int, i: int)
    requires
        n.text_ok_children_from(text, j),
        0 <= j <= i < n.children.len(),
    ensures
        n.children[i].text_ok(text),
    decreases i - j,
{
    if j < i {
        lemma_text_ok_children_from_index(n, text, j + 1, i);
    }
}

/// The symbol kind wrapped by a node of kind `nk`, if `nk` is one of the four
/// wrapping kinds.
pub open spec fn spec_wrapper_kind(nk: NodeKind) -> Option<IdentKind> {
    match nk {
        NodeKind::Local => Some(IdentKind::Local),
        NodeKind::Global => Some(IdentKind::Global),
        NodeKind::Aggregate => Some(IdentKind::Aggregate),
        NodeKind::Label => Some(IdentKind::Label),
        _ => None,
    }
}

/// Classifies a node kind as one of the four wrapping kinds, or `None`.
pub fn wrapper_kind(nk: NodeKind) -> (r: Option<IdentKind>)
    ensures
        r == spec_wrapper_kind(nk),
{
    match nk {
        NodeKind::Local => Some(IdentKind::Local),
        NodeKind::Global => Some(IdentKind::Global),
        NodeKind::Aggregate => Some(IdentKind::Aggregate),
        NodeKind::Label => Some(IdentKind::Label),
        _ => None,
    }
}

} // verus!
