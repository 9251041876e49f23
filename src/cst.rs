//! The concrete syntax tree: every significant token of the text, in a
//! flat arena laid out in pre-order, and its canonical rendering.
use vstd::prelude::*;
use vstd::string::StringSliceAdditionalSpecFns;
use vstd::utf8::{decode_utf8, valid_utf8};
use crate::lexer::matched;
use crate::pratt::{leaves, leaves_all, depth, expr, lemma_depth_positive, parse_items, stream, Pratt, SExpr};
use crate::text::{utf8_to_string, push_all, push_indent, push_range, push_slice, range_text, slice_text};
use crate::token::{token_eof, bin_op_of, kind_name, kind_text, unary_op_of, BinaryOp, Syntax, TextRange, Token};

verus! {

#[derive(Debug, Clone, Copy, PartialEq, Eq, Structural)]
pub enum CstNode {
    Root,
    Atom(Token),
    Op(Token),
    Error(Token),
    Eof,
}

/// A node of the arena with its depth below the root.
#[derive(Debug, Clone, Copy, PartialEq, Eq, Structural)]
pub struct FlatNode {
    pub data: CstNode,
    pub level: usize,
}

impl CstNode {
    /// The range of the node's token; `0..0` for `Root` and `Eof`.
    pub fn span(&self) -> (r: TextRange)
        ensures
            r == match *self {
                CstNode::Atom(t) | CstNode::Op(t) | CstNode::Error(t) => t.range,
                _ => TextRange { start: 0, end: 0 },
            },
    {
        match self {
            CstNode::Atom(t) => t.range,
            CstNode::Op(t) => t.range,
            CstNode::Error(t) => t.range,
            _ => token_eof().range,
        }
    }
}

/// A full-fidelity tree over a borrowed source text. `nodes` holds the tree
/// in pre-order: the root first at level 0, each node followed by its
/// children, one level deeper.
pub struct Cst<'a> {
    pub nodes: Vec<FlatNode>,
    pub code: &'a str,
}

/// The nodes of one operator tree whose root sits at `level`, in pre-order.
pub open spec fn lower(e: SExpr, level: nat) -> Seq<FlatNode>
    decreases e,
{
    match e {
        SExpr::Atom(t) => seq![FlatNode { data: CstNode::Atom(t), level: level as usize }],
        SExpr::Error(t) => seq![FlatNode { data: CstNode::Error(t), level: level as usize }],
        SExpr::Unary(op, c) => seq![FlatNode { data: CstNode::Op(op), level: level as usize }]
            + lower(*c, level + 1),
        SExpr::Binary(op, l, r) => seq![FlatNode { data: CstNode::Op(op), level: level as usize }]
            + lower(*l, level + 1) + lower(*r, level + 1),
    }
}

/// The nodes of a sequence of trees, each a child of the root.
pub open spec fn lower_all(items: Seq<SExpr>) -> Seq<FlatNode>
    decreases items.len(),
{
    if items.len() == 0 {
        seq![]
    } else {
        lower_all(items.drop_last()) + lower(items.last(), 1)
    }
}

/// The whole arena: the root, the trees under it, and a final `Eof` leaf.
pub open spec fn cst_nodes(items: Seq<SExpr>) -> Seq<FlatNode> {
    seq![FlatNode { data: CstNode::Root, level: 0 }] + lower_all(items) + seq![
        FlatNode { data: CstNode::Eof, level: 1 },
    ]
}

proof fn lemma_lower_no_root(e: SExpr, level: nat)
    ensures
        forall|i: int| 0 <= i < lower(e, level).len() ==> !(#[trigger] lower(e, level)[i].data is Root),
    decreases e,
{
    match e {
        SExpr::Unary(_, c) => {
            lemma_lower_no_root(*c, level + 1);
        },
        SExpr::Binary(_, l, r) => {
            lemma_lower_no_root(*l, level + 1);
            lemma_lower_no_root(*r, level + 1);
            let a = seq![FlatNode { data: CstNode::Op(e->Binary_0), level: level as usize }] + lower(*l, level + 1);
            assert forall|i: int| 0 <= i < a.len() implies !(#[trigger] a[i].data is Root) by {
                if i > 0 {
                    assert(a[i] == lower(*l, level + 1)[i - 1]);
                }
            }
        },
        _ => {},
    }
}

proof fn lemma_lower_all_no_root(items: Seq<SExpr>)
    ensures
        forall|i: int| 0 <= i < lower_all(items).len() ==> !(#[trigger] lower_all(items)[i].data is Root),
    decreases items.len(),
{
    if items.len() > 0 {
        lemma_lower_all_no_root(items.drop_last());
        lemma_lower_no_root(items.last(), 1);
    }
}

/// Every tree has exactly one root, its first node at level 0, and ends with
/// an `Eof` leaf under the root.
pub proof fn lemma_one_root_and_eof(items: Seq<SExpr>)
    ensures
        cst_nodes(items).len() >= 2,
        cst_nodes(items)[0] == (FlatNode { data: CstNode::Root, level: 0 }),
        cst_nodes(items).last() == (FlatNode { data: CstNode::Eof, level: 1 }),
        forall|i: int|
            1 <= i < cst_nodes(items).len() ==> !(#[trigger] cst_nodes(items)[i].data is Root),
{
    lemma_lower_all_no_root(items);
    let l = lower_all(items);
    let c = cst_nodes(items);
    assert forall|i: int| 1 <= i < c.len() implies !(#[trigger] c[i].data is Root) by {
        if i < c.len() - 1 {
            assert(c[i] == l[i - 1]);
        }
    }
}

/// An `Atom` or `Error` node holds a token whose range is the text matched
/// for it (or the end-of-input marker); other nodes trivially qualify.
pub open spec fn node_matched(b: Seq<u8>, n: FlatNode) -> bool {
    match n.data {
        CstNode::Atom(t) => matched(b, t),
        CstNode::Error(t) => matched(b, t),
        _ => true,
    }
}

proof fn lemma_lower_matched(b: Seq<u8>, e: SExpr, level: nat)
    requires
        forall|j: int| 0 <= j < leaves(e).len() ==> matched(b, #[trigger] leaves(e)[j]),
    ensures
        forall|i: int| 0 <= i < lower(e, level).len() ==> node_matched(b, #[trigger] lower(e, level)[i]),
    decreases e,
{
    match e {
        SExpr::Atom(t) => {
            assert(matched(b, leaves(e)[0]));
        },
        SExpr::Error(t) => {
            if t.kind != Syntax::Eof {
                assert(matched(b, leaves(e)[0]));
            }
        },
        SExpr::Unary(op, c) => {
            let lc = leaves(*c);
            assert forall|j: int| 0 <= j < lc.len() implies matched(b, #[trigger] lc[j]) by {
                assert(lc[j] == leaves(e)[j + 1]);
            }
            lemma_lower_matched(b, *c, level + 1);
            let n = lower(e, level);
            assert forall|i: int| 0 <= i < n.len() implies node_matched(b, #[trigger] n[i]) by {
                if i > 0 {
                    assert(n[i] == lower(*c, level + 1)[i - 1]);
                }
            }
        },
        SExpr::Binary(op, l, r) => {
            let ll = leaves(*l);
            let lr = leaves(*r);
            assert forall|j: int| 0 <= j < ll.len() implies matched(b, #[trigger] ll[j]) by {
                assert(ll[j] == leaves(e)[j]);
            }
            assert forall|j: int| 0 <= j < lr.len() implies matched(b, #[trigger] lr[j]) by {
                assert(lr[j] == leaves(e)[j + ll.len() + 1]);
            }
            lemma_lower_matched(b, *l, level + 1);
            lemma_lower_matched(b, *r, level + 1);
            let n = lower(e, level);
            let nl = lower(*l, level + 1);
            let nr = lower(*r, level + 1);
            assert forall|i: int| 0 <= i < n.len() implies node_matched(b, #[trigger] n[i]) by {
                if 1 <= i <= nl.len() {
                    assert(n[i] == nl[i - 1]);
                } else if i > nl.len() {
                    assert(n[i] == nr[i - 1 - nl.len()]);
                }
            }
        },
    }
}

proof fn lemma_lower_all_matched(b: Seq<u8>, items: Seq<SExpr>)
    requires
        forall|j: int| 0 <= j < leaves_all(items).len() ==> matched(b, #[trigger] leaves_all(items)[j]),
    ensures
        forall|i: int| 0 <= i < lower_all(items).len() ==> node_matched(b, #[trigger] lower_all(items)[i]),
    decreases items.len(),
{
    if items.len() > 0 {
        let d = items.drop_last();
        let ld = leaves_all(d);
        let le = leaves(items.last());
        assert(leaves_all(items) == ld + le);
        assert forall|j: int| 0 <= j < ld.len() implies matched(b, #[trigger] ld[j]) by {
            assert(ld[j] == leaves_all(items)[j]);
        }
        assert forall|j: int| 0 <= j < le.len() implies matched(b, #[trigger] le[j]) by {
            assert(le[j] == leaves_all(items)[j + ld.len()]);
        }
        lemma_lower_all_matched(b, d);
        lemma_lower_matched(b, items.last(), 1);
        let n = lower_all(items);
        let nd = lower_all(d);
        let ne = lower(items.last(), 1);
        assert(n == nd + ne);
        assert forall|i: int| 0 <= i < n.len() implies node_matched(b, #[trigger] n[i]) by {
            if i < nd.len() {
                assert(n[i] == nd[i]);
            } else {
                assert(n[i] == ne[i - nd.len()]);
            }
        }
    }
}

fn lower_into(out: &mut Vec<FlatNode>, e: &SExpr, level: usize)
    requires
        level + depth(*e) <= usize::MAX + 1,
    ensures
        final(out)@ == old(out)@ + lower(*e, level as nat),
    decreases e,
{
    match e {
        SExpr::Atom(t) => {
            out.push(FlatNode { data: CstNode::Atom(*t), level });
        },
        SExpr::Error(t) => {
            out.push(FlatNode { data: CstNode::Error(*t), level });
        },
        SExpr::Unary(op, c) => {
            proof {
                lemma_depth_positive(**c);
            }
            out.push(FlatNode { data: CstNode::Op(*op), level });
            lower_into(out, c, level + 1);
            assert(out@ =~= old(out)@ + lower(*e, level as nat));
        },
        SExpr::Binary(op, l, r) => {
            proof {
                lemma_depth_positive(**l);
            }
            out.push(FlatNode { data: CstNode::Op(*op), level });
            lower_into(out, l, level + 1);
            lower_into(out, r, level + 1);
            assert(out@ =~= old(out)@ + lower(*e, level as nat));
        },
    }
}

/// Builds the tree of a parse: the root, each expression under it, then `Eof`.
pub fn parse<'a>(pratt: Pratt<'a>) -> (r: Cst<'a>)
    requires
        pratt.wf(),
    ensures
        r.code == pratt.code,
        r.nodes@ == cst_nodes(pratt.ast@),
        r.nodes@.len() >= 2,
        r.nodes@[0] == (FlatNode { data: CstNode::Root, level: 0 }),
        r.nodes@.last() == (FlatNode { data: CstNode::Eof, level: 1 }),
        forall|i: int| 1 <= i < r.nodes@.len() ==> !(#[trigger] r.nodes@[i].data is Root),
{
    proof {
        lemma_one_root_and_eof(pratt.ast@);
    }
    let mut nodes: Vec<FlatNode> = Vec::new();
    nodes.push(FlatNode { data: CstNode::Root, level: 0 });
    let mut i: usize = 0;
    while i < pratt.ast.len()
        invariant
            i <= pratt.ast@.len(),
            pratt.wf(),
            nodes@ == seq![FlatNode { data: CstNode::Root, level: 0 }] + lower_all(
                pratt.ast@.subrange(0, i as int),
            ),
        decreases pratt.ast@.len() - i,
    {
        lower_into(&mut nodes, &pratt.ast[i], 1);
        proof {
            let s = pratt.ast@.subrange(0, i as int + 1);
            assert(s.drop_last() =~= pratt.ast@.subrange(0, i as int));
        }
        i = i + 1;
    }
    nodes.push(FlatNode { data: CstNode::Eof, level: 1 });
    assert(pratt.ast@.subrange(0, pratt.ast@.len() as int) =~= pratt.ast@);
    Cst { nodes, code: pratt.code }
}

/// Lexes, parses and builds the tree of a whole text; never fails.
pub fn src_to_cst(code: &str) -> (r: Cst<'_>)
    requires
        code.spec_bytes().len() < usize::MAX,
    ensures
        r.code == code,
        r.nodes@ == cst_nodes(parse_items(stream(code.spec_bytes()), 0)),
        r.nodes@[0] == (FlatNode { data: CstNode::Root, level: 0 }),
        r.nodes@.last() == (FlatNode { data: CstNode::Eof, level: 1 }),
        forall|i: int| 1 <= i < r.nodes@.len() ==> !(#[trigger] r.nodes@[i].data is Root),
        forall|i: int| 0 <= i < r.nodes@.len() ==> node_matched(code.spec_bytes(), #[trigger] r.nodes@[i]),
{
    let p = expr(code);
    proof {
        let items = p.ast@;
        lemma_lower_all_matched(code.spec_bytes(), items);
        let n = cst_nodes(items);
        assert forall|i: int| 0 <= i < n.len() implies node_matched(code.spec_bytes(), #[trigger] n[i]) by {
            if 1 <= i < n.len() - 1 {
                assert(n[i] == lower_all(items)[i - 1]);
            }
        }
    }
    parse(p)
}

pub open spec fn bin_op_name(op: BinaryOp) -> Seq<u8> {
    match op {
        BinaryOp::Add => seq![65u8, 100u8, 100u8],
        BinaryOp::Sub => seq![83u8, 117u8, 98u8],
        BinaryOp::Mul => seq![77u8, 117u8, 108u8],
        BinaryOp::Div => seq![68u8, 105u8, 118u8],
    }
}

fn bin_op_label(op: BinaryOp) -> (r: Vec<u8>)
    ensures
        r@ == bin_op_name(op),
{
    match op {
        BinaryOp::Add => vec![65u8, 100u8, 100u8],
        BinaryOp::Sub => vec![83u8, 117u8, 98u8],
        BinaryOp::Mul => vec![77u8, 117u8, 108u8],
        BinaryOp::Div => vec![68u8, 105u8, 118u8],
    }
}

/// How an operator node is titled: `BinOp <name>` or `UnaryOp <name>`, and
/// `Op <glyph>` for member access, which is neither.
pub open spec fn op_heading(k: Syntax) -> Seq<u8> {
    if bin_op_of(k) is Some {
        seq![66u8, 105u8, 110u8, 79u8, 112u8, 32u8] + bin_op_name(bin_op_of(k).unwrap())
    } else if unary_op_of(k) is Some {
        seq![85u8, 110u8, 97u8, 114u8, 121u8, 79u8, 112u8, 32u8, 78u8, 101u8, 103u8]
    } else {
        seq![79u8, 112u8, 32u8] + kind_text(k)
    }
}

fn push_op_heading(out: &mut Vec<u8>, k: Syntax)
    ensures
        final(out)@ == old(out)@ + op_heading(k),
{
    if let Some(op) = k.to_bin_op() {
        push_all(out, vec![66u8, 105u8, 110u8, 79u8, 112u8, 32u8]);
        push_all(out, bin_op_label(op));
    } else if k.to_unary_op().is_some() {
        push_all(out, vec![85u8, 110u8, 97u8, 114u8, 121u8, 79u8, 112u8, 32u8, 78u8, 101u8, 103u8]);
    } else {
        push_all(out, vec![79u8, 112u8, 32u8]);
        push_all(out, kind_name(k));
    }
    assert(out@ =~= old(out)@ + op_heading(k));
}

/// `<title> @ <range> "<text>"`.
pub open spec fn token_line(code: Seq<u8>, title: Seq<u8>, t: Token) -> Seq<u8> {
    title + seq![32u8, 64u8, 32u8] + range_text(t.range) + seq![32u8, 34u8] + slice_text(code, t.range)
        + seq![34u8]
}

/// The line of one node, indented by its level plus one, the root excepted.
pub open spec fn node_line(code: Seq<u8>, n: FlatNode) -> Seq<u8> {
    let indent = Seq::new(n.level as nat + 1, |i: int| 32u8);
    match n.data {
        CstNode::Root => seq![82u8, 111u8, 111u8, 116u8],
        CstNode::Atom(t) => indent + token_line(code, kind_text(t.kind), t),
        CstNode::Error(t) => indent + token_line(code, kind_text(t.kind), t),
        CstNode::Op(t) => indent + token_line(code, op_heading(t.kind), t),
        CstNode::Eof => indent + seq![69u8, 79u8, 70u8],
    }
}

/// One line per node, in arena order, each ended by a line feed.
pub open spec fn format_nodes(code: Seq<u8>, nodes: Seq<FlatNode>) -> Seq<u8>
    decreases nodes.len(),
{
    if nodes.len() == 0 {
        seq![]
    } else {
        format_nodes(code, nodes.drop_last()) + node_line(code, nodes.last()) + seq![10u8]
    }
}

fn push_token_tail(out: &mut Vec<u8>, code: &[u8], t: Token)
    ensures
        final(out)@ == old(out)@ + seq![32u8, 64u8, 32u8] + range_text(t.range) + seq![32u8, 34u8]
            + slice_text(code@, t.range) + seq![34u8],
{
    push_all(out, vec![32u8, 64u8, 32u8]);
    push_range(out, t.range);
    push_all(out, vec![32u8, 34u8]);
    push_slice(out, code, t.range);
    out.push(34u8);
    assert(out@ =~= old(out)@ + seq![32u8, 64u8, 32u8] + range_text(t.range) + seq![32u8, 34u8]
        + slice_text(code@, t.range) + seq![34u8]);
}

fn push_leaf_line(out: &mut Vec<u8>, code: &[u8], level: usize, t: Token)
    ensures
        final(out)@ == old(out)@ + Seq::new(level as nat + 1, |i: int| 32u8) + token_line(
            code@,
            kind_text(t.kind),
            t,
        ),
{
    push_indent(out, level);
    out.push(32u8);
    push_all(out, kind_name(t.kind));
    push_token_tail(out, code, t);
    assert(out@ =~= old(out)@ + Seq::new(level as nat + 1, |i: int| 32u8) + token_line(
        code@,
        kind_text(t.kind),
        t,
    ));
}

fn push_op_line(out: &mut Vec<u8>, code: &[u8], level: usize, t: Token)
    ensures
        final(out)@ == old(out)@ + Seq::new(level as nat + 1, |i: int| 32u8) + token_line(
            code@,
            op_heading(t.kind),
            t,
        ),
{
    push_indent(out, level);
    out.push(32u8);
    push_op_heading(out, t.kind);
    push_token_tail(out, code, t);
    assert(out@ =~= old(out)@ + Seq::new(level as nat + 1, |i: int| 32u8) + token_line(
        code@,
        op_heading(t.kind),
        t,
    ));
}

fn push_node_line(out: &mut Vec<u8>, code: &[u8], n: FlatNode)
    ensures
        final(out)@ == old(out)@ + node_line(code@, n),
{
    match n.data {
        CstNode::Root => {
            push_all(out, vec![82u8, 111u8, 111u8, 116u8]);
        },
        CstNode::Atom(t) => {
            push_leaf_line(out, code, n.level, t);
            assert(out@ =~= old(out)@ + node_line(code@, n));
        },
        CstNode::Error(t) => {
            push_leaf_line(out, code, n.level, t);
            assert(out@ =~= old(out)@ + node_line(code@, n));
        },
        CstNode::Op(t) => {
            push_op_line(out, code, n.level, t);
            assert(out@ =~= old(out)@ + node_line(code@, n));
        },
        CstNode::Eof => {
            push_indent(out, n.level);
            out.push(32u8);
            push_all(out, vec![69u8, 79u8, 70u8]);
            assert(out@ =~= old(out)@ + node_line(code@, n));
        },
    }
}

/// Node `j` is a child of node `p`: it lies one level deeper, after `p`, with
/// only descendants of `p` in between.
pub open spec fn is_child(nodes: Seq<FlatNode>, p: int, j: int) -> bool {
    &&& 0 <= p < j < nodes.len()
    &&& nodes[j].level == nodes[p].level + 1
    &&& forall|k: int| p < k < j ==> (#[trigger] nodes[k]).level > nodes[p].level
}

/// Rendering depends on nothing but the nodes and the text: rendering the
/// same tree twice gives the same text.
pub proof fn lemma_format_idempotent(code: Seq<u8>, nodes: Seq<FlatNode>, again: Seq<FlatNode>)
    requires
        again == nodes,
    ensures
        format_nodes(code, nodes) == format_nodes(code, again),
{
}

impl<'a> Cst<'a> {
    /// The canonical rendering, as bytes.
    pub fn format(&self) -> (r: Vec<u8>)
        ensures
            r@ == format_nodes(self.code.spec_bytes(), self.nodes@),
    {
        let code = self.code.as_bytes();
        let mut out: Vec<u8> = Vec::new();
        let mut i: usize = 0;
        while i < self.nodes.len()
            invariant
                i <= self.nodes@.len(),
                code@ == self.code.spec_bytes(),
                out@ == format_nodes(code@, self.nodes@.subrange(0, i as int)),
            decreases self.nodes@.len() - i,
        {
            push_node_line(&mut out, code, self.nodes[i]);
            out.push(10u8);
            proof {
                let s = self.nodes@.subrange(0, i as int + 1);
                assert(s.drop_last() =~= self.nodes@.subrange(0, i as int));
            }
            i = i + 1;
        }
        assert(self.nodes@.subrange(0, self.nodes@.len() as int) =~= self.nodes@);
        out
    }

    /// The canonical rendering, as text.
    pub fn to_string(&self) -> (r: String)
        ensures
            valid_utf8(format_nodes(self.code.spec_bytes(), self.nodes@)) ==> r@ == decode_utf8(
                format_nodes(self.code.spec_bytes(), self.nodes@),
            ),
    {
        let b = self.format();
        utf8_to_string(&b)
    }

    /// The indices of the children of node `i`, in order.
    pub fn children(&self, i: usize) -> (r: Vec<usize>)
        requires
            i < self.nodes@.len(),
        ensures
            forall|m: int| 0 <= m < r@.len() ==> is_child(self.nodes@, i as int, #[trigger] r@[m] as int),
            forall|m1: int, m2: int| 0 <= m1 < m2 < r@.len() ==> r@[m1] < r@[m2],
            forall|j: int| is_child(self.nodes@, i as int, j) ==> r@.contains(j as usize),
    {
        let n = self.nodes.len();
        let lvl = self.nodes[i].level;
        let mut out: Vec<usize> = Vec::new();
        let mut k: usize = i + 1;
        while k < n && self.nodes[k].level > lvl
            invariant
                n == self.nodes@.len(),
                i < k <= self.nodes@.len(),
                lvl == self.nodes@[i as int].level,
                forall|q: int| i < q < k ==> (#[trigger] self.nodes@[q]).level > lvl,
                forall|m: int| 0 <= m < out@.len() ==> is_child(self.nodes@, i as int, #[trigger] out@[m] as int),
                forall|m: int| 0 <= m < out@.len() ==> #[trigger] out@[m] < k,
                forall|m1: int, m2: int| 0 <= m1 < m2 < out@.len() ==> out@[m1] < out@[m2],
                forall|j: int| i < j < k && is_child(self.nodes@, i as int, j) ==> out@.contains(j as usize),
            decreases self.nodes@.len() - k,
        {
            if self.nodes[k].level - 1 == lvl {
                let ghost before = out@;
                out.push(k);
                proof {
                    assert(out@[out@.len() - 1] == k);
                    assert forall|j: int| i < j < k + 1 && is_child(self.nodes@, i as int, j) implies out@.contains(j as usize) by {
                        if j < k {
                            assert(before.contains(j as usize));
                            let w = choose|w: int| 0 <= w < before.len() && before[w] == j as usize;
                            assert(out@[w] == j as usize);
                        } else {
                            assert(out@[out@.len() - 1] == j as usize);
                        }
                    }
                }
            }
            k = k + 1;
        }
        proof {
            assert forall|j: int| is_child(self.nodes@, i as int, j) implies out@.contains(j as usize) by {
                if j > k {
                    assert(self.nodes@[k as int].level > lvl);
                }
            }
        }
        out
    }

    /// Whether some node records a syntax or lexical error; a compiler must
    /// refuse such a tree.
    pub fn has_errors(&self) -> (r: bool)
        ensures
            r == exists|i: int| 0 <= i < self.nodes@.len() && #[trigger] self.nodes@[i].data is Error,
    {
        let mut i: usize = 0;
        while i < self.nodes.len()
            invariant
                i <= self.nodes@.len(),
                forall|j: int| 0 <= j < i ==> !(#[trigger] self.nodes@[j].data is Error),
            decreases self.nodes@.len() - i,
        {
            if let CstNode::Error(_) = self.nodes[i].data {
                return true;
            }
            i = i + 1;
        }
        false
    }
}

} // verus!
