//! The Pratt engine: precedence climbing over the significant tokens, with
//! recovery from tokens that cannot start an operand.
use vstd::prelude::*;
use crate::lexer::{lex, lex_spec, matched};
use crate::text::{push_all, push_slice, slice_text, utf8_to_string};
use vstd::utf8::{decode_utf8, valid_utf8};
use crate::token::{category, kind_name, kind_text, Syntax, SyntaxKind, Token};
use vstd::string::StringSliceAdditionalSpecFns;

verus! {

/// The operator tree. A prefix `-` becomes `Unary` with its token relabelled
/// `Neg`; an infix operator becomes `Binary`; a token that cannot start an
/// operand becomes `Error`, as does a missing operand at the end of the input
/// (then wrapping the `Eof` token).
#[derive(Debug)]
pub enum SExpr {
    Atom(Token),
    Unary(Token, Box<SExpr>),
    Binary(Token, Box<SExpr>, Box<SExpr>),
    Error(Token),
}

/// Number of nodes on the longest path from the root of the tree to a leaf.
pub open spec fn depth(e: SExpr) -> nat
    decreases e,
{
    match e {
        SExpr::Atom(_) => 1,
        SExpr::Error(_) => 1,
        SExpr::Unary(_, c) => 1 + depth(*c),
        SExpr::Binary(_, l, r) => 1 + if depth(*l) >= depth(*r) {
            depth(*l)
        } else {
            depth(*r)
        },
    }
}

pub proof fn lemma_depth_positive(e: SExpr)
    ensures
        depth(e) >= 1,
{
    match e {
        SExpr::Atom(_) => {},
        SExpr::Error(_) => {},
        SExpr::Unary(_, _) => {},
        SExpr::Binary(_, _, _) => {},
    }
}

/// Strength of a prefix `-`: above every infix operator.
pub const PREFIX_POWER: u8 = 4;

/// Binding power of an infix operator; 0 for a kind that is none.
/// Member access binds tightest, then `*` and `/`, then `+` and `-`.
pub open spec fn infix_power(k: Syntax) -> u8 {
    match k {
        Syntax::Plus | Syntax::Minus => 1,
        Syntax::Star | Syntax::Slash => 2,
        Syntax::Point => 3,
        _ => 0,
    }
}

pub fn infix_power_of(k: Syntax) -> (r: u8)
    ensures
        r == infix_power(k),
{
    match k {
        Syntax::Plus | Syntax::Minus => 1,
        Syntax::Star | Syntax::Slash => 2,
        Syntax::Point => 3,
        _ => 0,
    }
}

/// The token of a prefix `-`, relabelled as negation.
pub open spec fn as_neg(t: Token) -> Token {
    Token {
        file_id: t.file_id,
        id: t.id,
        kind: Syntax::Neg,
        range: t.range,
        line: t.line,
        col: t.col,
    }
}

/// The token of a negation, as the lexer gave it.
pub open spec fn as_minus(t: Token) -> Token {
    Token {
        file_id: t.file_id,
        id: t.id,
        kind: Syntax::Minus,
        range: t.range,
        line: t.line,
        col: t.col,
    }
}

/// The tokens of a tree in source order, each as the lexer gave it; a
/// missing operand contributes none.
pub open spec fn leaves(e: SExpr) -> Seq<Token>
    decreases e,
{
    match e {
        SExpr::Atom(t) => seq![t],
        SExpr::Error(t) => if t.kind == Syntax::Eof {
            seq![]
        } else {
            seq![t]
        },
        SExpr::Unary(op, c) => seq![as_minus(op)] + leaves(*c),
        SExpr::Binary(op, l, r) => leaves(*l) + seq![op] + leaves(*r),
    }
}

/// The tokens of a sequence of trees in source order.
pub open spec fn leaves_all(items: Seq<SExpr>) -> Seq<Token>
    decreases items.len(),
{
    if items.len() == 0 {
        seq![]
    } else {
        leaves_all(items.drop_last()) + leaves(items.last())
    }
}

/// A stream that only its last token closes.
pub open spec fn closed_stream(t: Seq<Token>) -> bool {
    &&& t.len() >= 1
    &&& t.last().kind == Syntax::Eof
    &&& forall|k: int| 0 <= k < t.len() - 1 ==> (#[trigger] t[k]).kind != Syntax::Eof
}

/// The tokens without trivia, in order.
pub open spec fn significant(s: Seq<Token>) -> Seq<Token>
    decreases s.len(),
{
    if s.len() == 0 {
        seq![]
    } else if category(s.last().kind) == SyntaxKind::Trivia {
        significant(s.drop_last())
    } else {
        significant(s.drop_last()).push(s.last())
    }
}

/// One operand from position `p` of `t`, whose last token is `Eof`, then the
/// infix operators that bind more strongly than `m`. Returns the tree and the
/// position after it.
pub open spec fn parse_expr(t: Seq<Token>, p: int, m: u8) -> (SExpr, int)
    decreases t.len() - p, 1int,
{
    if p < 0 || p >= t.len() - 1 {
        (SExpr::Error(t.last()), p)
    } else if category(t[p].kind) == SyntaxKind::Atom {
        parse_loop(t, SExpr::Atom(t[p]), p + 1, m)
    } else if t[p].kind == Syntax::Minus {
        let (e, q) = parse_expr(t, p + 1, PREFIX_POWER);
        if q <= p || q >= t.len() {
            (e, q)
        } else {
            parse_loop(t, SExpr::Unary(as_neg(t[p]), Box::new(e)), q, m)
        }
    } else {
        parse_loop(t, SExpr::Error(t[p]), p + 1, m)
    }
}

/// While the token at `p` is an infix operator stronger than `m`, combines
/// `left` with the operand that follows it; equal powers group to the left.
pub open spec fn parse_loop(t: Seq<Token>, left: SExpr, p: int, m: u8) -> (SExpr, int)
    decreases t.len() - p, 0int,
{
    if 0 <= p < t.len() - 1 && infix_power(t[p].kind) > m {
        let (r, q) = parse_expr(t, p + 1, infix_power(t[p].kind));
        if q <= p || q >= t.len() {
            (left, p)
        } else {
            parse_loop(t, SExpr::Binary(t[p], Box::new(left), Box::new(r)), q, m)
        }
    } else {
        (left, p)
    }
}

/// Expressions one after another from `p` until only `Eof` is left.
pub open spec fn parse_items(t: Seq<Token>, p: int) -> Seq<SExpr>
    decreases t.len() - p,
{
    if p < 0 || p >= t.len() - 1 {
        seq![]
    } else {
        let (e, q) = parse_expr(t, p, 0);
        if q <= p || q >= t.len() {
            seq![]
        } else {
            seq![e] + parse_items(t, q)
        }
    }
}

fn parse_expr_at(t: &Vec<Token>, p: usize, m: u8) -> (r: (SExpr, usize))
    requires
        closed_stream(t@),
        p <= t@.len() - 1,
    ensures
        (r.0, r.1 as int) == parse_expr(t@, p as int, m),
        p < t@.len() - 1 ==> p < r.1 <= t@.len() - 1,
        p >= t@.len() - 1 ==> r.1 == p,
        depth(r.0) <= r.1 - p + 1,
        leaves(r.0) == t@.subrange(p as int, r.1 as int),
    decreases t@.len() - p, 1int,
{
    let n = t.len() - 1;
    if p >= n {
        assert(t@.subrange(p as int, p as int) =~= Seq::<Token>::empty());
        return (SExpr::Error(t[n]), p);
    }
    let tok = t[p];
    if tok.kind.is() == SyntaxKind::Atom {
        let r = parse_loop_at(t, SExpr::Atom(tok), p + 1, m);
        assert(t@.subrange(p as int, r.1 as int) =~= seq![tok] + t@.subrange(p + 1, r.1 as int));
        r
    } else if tok.kind == Syntax::Minus {
        let (e, q) = parse_expr_at(t, p + 1, PREFIX_POWER);
        let neg = Token {
            file_id: tok.file_id,
            id: tok.id,
            kind: Syntax::Neg,
            range: tok.range,
            line: tok.line,
            col: tok.col,
        };
        assert(as_minus(neg) == tok);
        let r = parse_loop_at(t, SExpr::Unary(neg, Box::new(e)), q, m);
        assert(t@.subrange(p as int, r.1 as int) =~= seq![tok] + t@.subrange(p + 1, q as int)
            + t@.subrange(q as int, r.1 as int));
        r
    } else {
        let r = parse_loop_at(t, SExpr::Error(tok), p + 1, m);
        assert(t@.subrange(p as int, r.1 as int) =~= seq![tok] + t@.subrange(p + 1, r.1 as int));
        r
    }
}

fn parse_loop_at(t: &Vec<Token>, left: SExpr, from: usize, m: u8) -> (r: (SExpr, usize))
    requires
        closed_stream(t@),
        from <= t@.len() - 1,
    ensures
        (r.0, r.1 as int) == parse_loop(t@, left, from as int, m),
        from <= r.1 <= t@.len() - 1,
        depth(r.0) <= depth(left) + r.1 - from,
        leaves(r.0) == leaves(left) + t@.subrange(from as int, r.1 as int),
    decreases t@.len() - from, 0int,
{
    let n = t.len() - 1;
    let ghost goal = parse_loop(t@, left, from as int, m);
    let mut acc = left;
    let mut p = from;
    loop
        invariant
            closed_stream(t@),
            n == t@.len() - 1,
            from <= p <= n,
            leaves(acc) == leaves(left) + t@.subrange(from as int, p as int),
            parse_loop(t@, acc, p as int, m) == goal,
            goal == parse_loop(t@, left, from as int, m),
            depth(acc) <= depth(left) + p - from,
        decreases n - p,
    {
        if p >= n {
            return (acc, p);
        }
        let bp = infix_power_of(t[p].kind);
        if bp <= m {
            return (acc, p);
        }
        let (rhs, q) = parse_expr_at(t, p + 1, bp);
        acc = SExpr::Binary(t[p], Box::new(acc), Box::new(rhs));
        assert(t@.subrange(from as int, q as int) =~= t@.subrange(from as int, p as int) + seq![t@[p as int]]
            + t@.subrange(p + 1, q as int));
        assert(leaves(acc) =~= leaves(left) + t@.subrange(from as int, q as int));
        p = q;
    }
}

proof fn lemma_significant_matched(b: Seq<u8>, s: Seq<Token>)
    requires
        forall|k: int| 0 <= k < s.len() ==> matched(b, #[trigger] s[k]),
    ensures
        forall|k: int| 0 <= k < significant(s).len() ==> matched(b, #[trigger] significant(s)[k]),
    decreases s.len(),
{
    if s.len() > 0 {
        let d = s.drop_last();
        assert forall|k: int| 0 <= k < d.len() implies matched(b, #[trigger] d[k]) by {
            assert(d[k] == s[k]);
        }
        lemma_significant_matched(b, d);
        assert(matched(b, s[s.len() - 1]));
        let g = significant(s);
        if category(s.last().kind) == SyntaxKind::Trivia {
            assert(g == significant(d));
        } else {
            assert(g == significant(d).push(s.last()));
            assert forall|k: int| 0 <= k < g.len() implies matched(b, #[trigger] g[k]) by {
                if k < g.len() - 1 {
                    assert(g[k] == significant(d)[k]);
                }
            }
        }
    }
}

/// Parses every expression of the significant token stream `t`.
fn parse_all(t: &Vec<Token>) -> (r: Vec<SExpr>)
    requires
        closed_stream(t@),
    ensures
        r@ == parse_items(t@, 0),
        leaves_all(r@) == t@.drop_last(),
        forall|i: int| 0 <= i < r@.len() ==> depth(#[trigger] r@[i]) <= t@.len(),
{
    let n = t.len() - 1;
    let mut items: Vec<SExpr> = Vec::new();
    let mut p: usize = 0;
    while p < n
        invariant
            n == t@.len() - 1,
            p <= n,
            items@ + parse_items(t@, p as int) == parse_items(t@, 0),
            closed_stream(t@),
            leaves_all(items@) == t@.subrange(0, p as int),
            forall|i: int| 0 <= i < items@.len() ==> depth(#[trigger] items@[i]) <= t@.len(),
        decreases n - p,
    {
        let (e, q) = parse_expr_at(t, p, 0);
        let ghost before = items@;
        proof {
            assert(parse_items(t@, p as int) == seq![e] + parse_items(t@, q as int));
            assert(before.push(e) + parse_items(t@, q as int) =~= before + (seq![e] + parse_items(
                t@,
                q as int,
            )));
        }
        items.push(e);
        proof {
            assert(items@.drop_last() == before);
            assert(t@.subrange(0, q as int) =~= t@.subrange(0, p as int) + t@.subrange(p as int, q as int));
        }
        p = q;
    }
    assert(items@ + parse_items(t@, p as int) =~= items@);
    assert(t@.subrange(0, p as int) =~= t@.drop_last());
    items
}

/// Drops the trivia from a token stream.
pub fn significant_tokens(toks: &Vec<Token>) -> (r: Vec<Token>)
    ensures
        r@ == significant(toks@),
        r@.len() <= toks@.len(),
        closed_stream(toks@) ==> closed_stream(r@),
{
    let mut out: Vec<Token> = Vec::new();
    let mut i: usize = 0;
    while i < toks.len()
        invariant
            i <= toks@.len(),
            out@ == significant(toks@.subrange(0, i as int)),
            out@.len() <= i,
            closed_stream(toks@) ==> forall|j: int|
                0 <= j < out@.len() && (#[trigger] out@[j]).kind == Syntax::Eof ==> i == toks@.len()
                    && j == out@.len() - 1,
            closed_stream(toks@) && i == toks@.len() ==> out@.len() >= 1 && out@.last() == toks@.last(),
        decreases toks@.len() - i,
    {
        let tok = toks[i];
        proof {
            let s = toks@.subrange(0, i as int + 1);
            assert(s.drop_last() =~= toks@.subrange(0, i as int));
            assert(s.last() == tok);
        }
        if tok.kind.is() != SyntaxKind::Trivia {
            out.push(tok);
        }
        i = i + 1;
    }
    assert(toks@.subrange(0, toks@.len() as int) =~= toks@);
    out
}

/// The significant tokens of a text, ending with its `Eof` token.
pub open spec fn stream(b: Seq<u8>) -> Seq<Token> {
    significant(lex_spec(b, 0))
}

/// The result of the Pratt engine: the expressions of the text in order,
/// and the `Eof` token that closes them.
pub struct Pratt<'a> {
    pub code: &'a str,
    pub ast: Vec<SExpr>,
    pub eof: Token,
}

impl<'a> Pratt<'a> {
    /// Every tree is shallow enough for its levels to be counted in `usize`.
    pub open spec fn wf(&self) -> bool {
        forall|i: int| 0 <= i < self.ast@.len() ==> depth(#[trigger] self.ast@[i]) <= usize::MAX
    }
}

/// Lexes and parses a whole text; never fails.
pub fn expr(code: &str) -> (r: Pratt<'_>)
    requires
        code.spec_bytes().len() < usize::MAX,
    ensures
        r.code == code,
        r.ast@ == parse_items(stream(code.spec_bytes()), 0),
        r.eof == stream(code.spec_bytes()).last(),
        r.eof.kind == Syntax::Eof,
        r.wf(),
        leaves_all(r.ast@) == stream(code.spec_bytes()).drop_last(),
        forall|k: int| 0 <= k < leaves_all(r.ast@).len() ==> matched(code.spec_bytes(), #[trigger] leaves_all(r.ast@)[k]),
{
    let toks = lex(0, code);
    let t = significant_tokens(&toks);
    proof {
        assert(category(toks@.last().kind) != SyntaxKind::Trivia);
        assert(t@ == significant(toks@.drop_last()).push(toks@.last()));
    }
    proof {
        lemma_significant_matched(code.spec_bytes(), toks@);
    }
    let ast = parse_all(&t);
    let eof = t[t.len() - 1];
    Pratt { code, ast, eof }
}

/// An operator tree as text: `<text>: <kind>` for an operand, prefix
/// notation in parentheses for an operator.
pub open spec fn sexpr_text(code: Seq<u8>, e: SExpr) -> Seq<u8>
    decreases e,
{
    match e {
        SExpr::Atom(t) => slice_text(code, t.range) + seq![58u8, 32u8] + kind_text(t.kind),
        SExpr::Error(t) => seq![69u8, 114u8, 114u8, 111u8, 114u8, 40u8] + slice_text(code, t.range) + seq![58u8, 32u8] + kind_text(
            t.kind,
        ) + seq![41u8],
        SExpr::Unary(op, c) => seq![40u8] + kind_text(op.kind) + seq![32u8] + sexpr_text(code, *c)
            + seq![41u8],
        SExpr::Binary(op, l, r) => seq![40u8] + kind_text(op.kind) + seq![32u8] + sexpr_text(
            code,
            *l,
        ) + seq![32u8] + sexpr_text(code, *r) + seq![41u8],
    }
}

/// The trees one per line, without a final line feed.
pub open spec fn items_text(code: Seq<u8>, items: Seq<SExpr>) -> Seq<u8>
    decreases items.len(),
{
    if items.len() == 0 {
        seq![]
    } else if items.len() == 1 {
        sexpr_text(code, items[0])
    } else {
        items_text(code, items.drop_last()) + seq![10u8] + sexpr_text(code, items.last())
    }
}

fn push_sexpr(out: &mut Vec<u8>, code: &[u8], e: &SExpr)
    ensures
        final(out)@ == old(out)@ + sexpr_text(code@, *e),
    decreases e,
{
    match e {
        SExpr::Atom(t) => {
            push_slice(out, code, t.range);
            push_all(out, vec![58u8, 32u8]);
            push_all(out, kind_name(t.kind));
        },
        SExpr::Error(t) => {
            push_all(out, vec![69u8, 114u8, 114u8, 111u8, 114u8, 40u8]);
            push_slice(out, code, t.range);
            push_all(out, vec![58u8, 32u8]);
            push_all(out, kind_name(t.kind));
            out.push(41u8);
        },
        SExpr::Unary(op, c) => {
            out.push(40u8);
            push_all(out, kind_name(op.kind));
            out.push(32u8);
            push_sexpr(out, code, c);
            out.push(41u8);
        },
        SExpr::Binary(op, l, r) => {
            out.push(40u8);
            push_all(out, kind_name(op.kind));
            out.push(32u8);
            push_sexpr(out, code, l);
            out.push(32u8);
            push_sexpr(out, code, r);
            out.push(41u8);
        },
    }
    assert(out@ =~= old(out)@ + sexpr_text(code@, *e));
}

impl<'a> Pratt<'a> {
    /// The trees as text, as bytes.
    pub fn format(&self) -> (r: Vec<u8>)
        ensures
            r@ == items_text(self.code.spec_bytes(), self.ast@),
    {
        let code = self.code.as_bytes();
        let mut out: Vec<u8> = Vec::new();
        let mut i: usize = 0;
        while i < self.ast.len()
            invariant
                i <= self.ast@.len(),
                code@ == self.code.spec_bytes(),
                out@ == items_text(code@, self.ast@.subrange(0, i as int)),
            decreases self.ast@.len() - i,
        {
            if i > 0 {
                out.push(10u8);
            }
            push_sexpr(&mut out, code, &self.ast[i]);
            proof {
                let s = self.ast@.subrange(0, i as int + 1);
                assert(s.drop_last() =~= self.ast@.subrange(0, i as int));
                if i == 0 {
                    assert(out@ =~= items_text(code@, s));
                }
            }
            i = i + 1;
        }
        assert(self.ast@.subrange(0, self.ast@.len() as int) =~= self.ast@);
        out
    }

    /// The trees as text.
    pub fn to_string(&self) -> (r: String)
        ensures
            valid_utf8(items_text(self.code.spec_bytes(), self.ast@)) ==> r@ == decode_utf8(
                items_text(self.code.spec_bytes(), self.ast@),
            ),
    {
        let b = self.format();
        utf8_to_string(&b)
    }
}

} // verus!
