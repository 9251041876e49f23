use tablam_parser::cst::{src_to_cst, CstNode};
use tablam_parser::lexer::{lex, ExtrasLexer};
use tablam_parser::pratt::{expr, SExpr};
use tablam_parser::token::{
    token_eof, BinaryOp, SepOp, Syntax, SyntaxKind, TextRange, Token, UnaryOp,
};

fn tree(code: &str) -> String {
    src_to_cst(code).to_string()
}

#[test]
fn parser() {
    let s = expr("1");
    assert_eq!(s.to_string(), "1: Int64");

    let s = expr("1.45");
    assert_eq!(s.to_string(), "1.45: Decimal");
}

#[test]
fn linear() {
    assert_eq!(
        tree("1 + 2 * 3"),
        r##"Root
  BinOp Add @ 2..3 "+"
   Int64 @ 0..1 "1"
   BinOp Mul @ 6..7 "*"
    Int64 @ 4..5 "2"
    Int64 @ 8..9 "3"
  EOF
"##
    );
}

#[test]
fn precedence_groups_multiplication_first() {
    assert_eq!(expr("1 + 2 * 3").to_string(), "(+ 1: Int64 (* 2: Int64 3: Int64))");
    assert_eq!(expr("1 * 2 + 3").to_string(), "(+ (* 1: Int64 2: Int64) 3: Int64)");
}

#[test]
fn subtraction_groups_left() {
    assert_eq!(expr("1 - 2 - 3").to_string(), "(- (- 1: Int64 2: Int64) 3: Int64)");
    assert_eq!(
        tree("1 - 2 - 3"),
        r##"Root
  BinOp Sub @ 6..7 "-"
   BinOp Sub @ 2..3 "-"
    Int64 @ 0..1 "1"
    Int64 @ 4..5 "2"
   Int64 @ 8..9 "3"
  EOF
"##
    );
}

#[test]
fn literal_kinds() {
    assert_eq!(tree("1"), "Root\n  Int64 @ 0..1 \"1\"\n  EOF\n");
    assert_eq!(tree("1.45"), "Root\n  Decimal @ 0..4 \"1.45\"\n  EOF\n");
    assert_eq!(expr("1.5f").to_string(), "1.5f: Float");
    assert_eq!(expr("1.5d").to_string(), "1.5d: Decimal");
    assert_eq!(expr("1_000").to_string(), "1_000: Int64");
    assert_eq!(expr("true").to_string(), "true: Bool");
    assert_eq!(expr("abc1").to_string(), "abc1: Ident");
    assert_eq!(expr("'hi'").to_string(), "'hi': String");
    assert_eq!(expr("d'2020-01-01'").to_string(), "d'2020-01-01': Date");
    assert_eq!(expr("t\"10:00\"").to_string(), "t\"10:00\": Time");
    assert_eq!(expr("dt'x'").to_string(), "dt'x': DateTime");
}

#[test]
fn error_is_contained() {
    assert_eq!(
        tree("1 + ) 2"),
        r##"Root
  BinOp Add @ 2..3 "+"
   Int64 @ 0..1 "1"
   ) @ 4..5 ")"
  Int64 @ 6..7 "2"
  EOF
"##
    );
    assert!(src_to_cst("1 + ) 2").has_errors());
    assert!(!src_to_cst("1 + 2").has_errors());
}

#[test]
fn prefix_minus_is_negation() {
    assert_eq!(expr("-1").to_string(), "(Neg 1: Int64)");
    assert_eq!(expr("-1 * 2").to_string(), "(* (Neg 1: Int64) 2: Int64)");
    assert_eq!(expr("1 - -2").to_string(), "(- 1: Int64 (Neg 2: Int64))");
    assert_eq!(
        tree("-1"),
        "Root\n  UnaryOp Neg @ 0..1 \"-\"\n   Int64 @ 1..2 \"1\"\n  EOF\n"
    );
}

#[test]
fn member_access_binds_tightest() {
    assert_eq!(expr("a + b.c").to_string(), "(+ a: Ident (. b: Ident c: Ident))");
    assert_eq!(
        tree("a.b"),
        "Root\n  Op . @ 1..2 \".\"\n   Ident @ 0..1 \"a\"\n   Ident @ 2..3 \"b\"\n  EOF\n"
    );
}

#[test]
fn missing_operand_at_end() {
    assert_eq!(expr("1 +").to_string(), "(+ 1: Int64 Error(: Eof))");
    assert!(src_to_cst("-").has_errors());
}

#[test]
fn empty_input() {
    assert_eq!(tree(""), "Root\n  EOF\n");
    assert_eq!(tree("  -- note\n"), "Root\n  EOF\n");
    assert_eq!(expr("").to_string(), "");
}

#[test]
fn several_expressions() {
    assert_eq!(expr("1 2").to_string(), "1: Int64\n2: Int64");
}

#[test]
fn formatting_is_stable() {
    let c = src_to_cst("x * (y - 2) -- done");
    assert_eq!(c.to_string(), c.to_string());
    assert_eq!(c.format(), c.format());
}

#[test]
fn one_root_and_eof_last() {
    for code in ["", "1", "1 + ) 2", "((", "a.b.c", "-", "é"] {
        let c = src_to_cst(code);
        assert_eq!(c.nodes[0].data, CstNode::Root);
        assert_eq!(c.nodes[0].level, 0);
        assert_eq!(c.nodes.iter().filter(|n| n.data == CstNode::Root).count(), 1);
        assert_eq!(c.nodes[c.nodes.len() - 1].data, CstNode::Eof);
    }
}

#[test]
fn spans_give_the_matched_text() {
    let code = "foo + 12 * 'bar' ) é";
    let c = src_to_cst(code);
    for n in &c.nodes {
        match n.data {
            CstNode::Atom(t) | CstNode::Error(t) | CstNode::Op(t) => {
                let text = &code[t.range.start..t.range.end];
                assert!(!text.is_empty());
                assert_eq!(n.data.span(), t.range);
            }
            _ => assert_eq!(n.data.span().start, n.data.span().end),
        }
    }
    assert!(c.to_string().contains("Error @ 19..21 \"é\""));
}

#[test]
fn tokens_cover_the_text() {
    let code = "let x := 1\n  -- c\n'a' ! é";
    let toks = lex(0, code);
    let mut rebuilt = String::new();
    let mut at = 0;
    for (i, t) in toks.iter().enumerate() {
        assert_eq!(t.id.0, i);
        assert_eq!(t.range.start, at);
        rebuilt.push_str(&code[t.range.start..t.range.end]);
        at = t.range.end;
    }
    assert_eq!(rebuilt, code);
    assert_eq!(toks[toks.len() - 1].kind, Syntax::Eof);
    assert_eq!(toks[toks.len() - 1].range.start, code.len());
}

#[test]
fn lexer_lines_and_columns() {
    let toks = lex(3, "a\n  b");
    let kinds: Vec<Syntax> = toks.iter().map(|t| t.kind).collect();
    assert_eq!(
        kinds,
        vec![Syntax::Ident, Syntax::Cr, Syntax::Whitespace, Syntax::Ident, Syntax::Eof]
    );
    assert_eq!((toks[0].line, toks[0].col), (1, 0));
    assert_eq!((toks[1].line, toks[1].col), (1, 1));
    assert_eq!((toks[2].line, toks[2].col), (2, 0));
    assert_eq!((toks[3].line, toks[3].col), (2, 2));
    assert_eq!(toks[3].file_id, 3);
}

#[test]
fn lexer_operators_and_errors() {
    let kinds: Vec<Syntax> = lex(0, ":= != <= >= < > = : ! \"open")
        .iter()
        .map(|t| t.kind)
        .filter(|k| *k != Syntax::Whitespace)
        .collect();
    assert_eq!(
        kinds,
        vec![
            Syntax::Assign,
            Syntax::NotEquals,
            Syntax::LessThan,
            Syntax::GreaterThan,
            Syntax::Less,
            Syntax::Greater,
            Syntax::Equals,
            Syntax::Error,
            Syntax::Error,
            Syntax::Error,
            Syntax::Ident,
            Syntax::Eof,
        ]
    );
    let kinds: Vec<Syntax> = lex(0, "fun let var if else do end and or not --x")
        .iter()
        .map(|t| t.kind)
        .filter(|k| *k != Syntax::Whitespace)
        .collect();
    assert_eq!(
        kinds,
        vec![
            Syntax::FnKw,
            Syntax::LetKw,
            Syntax::VarKw,
            Syntax::IfKw,
            Syntax::ElseKw,
            Syntax::DoKw,
            Syntax::EndKw,
            Syntax::AndKw,
            Syntax::OrKw,
            Syntax::NotKw,
            Syntax::Comment,
            Syntax::Eof,
        ]
    );
}

#[test]
fn classifier() {
    assert_eq!(Syntax::Whitespace.is(), SyntaxKind::Trivia);
    assert_eq!(Syntax::Integer.is(), SyntaxKind::Atom);
    assert_eq!(Syntax::Ident.is(), SyntaxKind::Atom);
    assert_eq!(Syntax::LetKw.is(), SyntaxKind::Kw);
    assert_eq!(Syntax::Plus.is(), SyntaxKind::Infix);
    assert_eq!(Syntax::Neg.is(), SyntaxKind::Prefix);
    assert_eq!(Syntax::LParen.is(), SyntaxKind::Open);
    assert_eq!(Syntax::RSquare.is(), SyntaxKind::Close);
    assert_eq!(Syntax::Error.is(), SyntaxKind::Error);
    assert!(Syntax::Plus.is_head_tree());
    assert!(!Syntax::Bool.is_head_tree());
    assert!(Syntax::Point.is_op());
    assert!(Syntax::Neg.is_op());
    assert!(!Syntax::Comma.is_op());
    assert!(Syntax::VarKw.is_var_let());
    assert!(!Syntax::FnKw.is_var_let());
}

#[test]
fn operator_meanings() {
    assert_eq!(Syntax::Plus.to_bin_op(), Some(BinaryOp::Add));
    assert_eq!(Syntax::Minus.to_bin_op(), Some(BinaryOp::Sub));
    assert_eq!(Syntax::Star.to_bin_op(), Some(BinaryOp::Mul));
    assert_eq!(Syntax::Slash.to_bin_op(), Some(BinaryOp::Div));
    assert_eq!(Syntax::Neg.to_bin_op(), None);
    assert_eq!(Syntax::Neg.to_unary_op(), Some(UnaryOp::Neg));
    assert_eq!(Syntax::Minus.to_unary_op(), None);
    assert_eq!(Syntax::Comma.to_separator(), SepOp::Comma);
    assert_eq!(Syntax::Semicolon.to_separator(), SepOp::Semicolon);
}

#[test]
fn range_of_tokens() {
    let toks = lex(0, "ab + c");
    assert_eq!(Token::range_tokens(&toks[0..3]), TextRange { start: 0, end: 4 });
    assert_eq!(Token::range_tokens(&[]), TextRange { start: 0, end: 0 });
}

#[test]
fn operator_tree_shape() {
    let p = expr("1 - 2");
    assert_eq!(p.ast.len(), 1);
    match &p.ast[0] {
        SExpr::Binary(op, l, r) => {
            assert_eq!(op.kind, Syntax::Minus);
            assert!(matches!(**l, SExpr::Atom(_)));
            assert!(matches!(**r, SExpr::Atom(_)));
        }
        _ => panic!("not a binary node"),
    }
    assert_eq!(p.eof.kind, Syntax::Eof);
}

#[test]
fn arena_children() {
    let c = src_to_cst("1 + 2 * 3 4");
    // Root, +, 1, *, 2, 3, 4, EOF
    assert_eq!(c.children(0), vec![1, 6, 7]);
    assert_eq!(c.children(1), vec![2, 3]);
    assert_eq!(c.children(3), vec![4, 5]);
    assert_eq!(c.children(2), Vec::<usize>::new());
    assert_eq!(c.nodes[6].data.span(), TextRange { start: 10, end: 11 });
}

#[test]
fn line_state() {
    let mut st = ExtrasLexer::default();
    assert_eq!((st.current_line, st.current_initial_column), (1, 0));
    st.increase_current_line(7);
    assert_eq!((st.current_line, st.current_initial_column), (2, 7));
}

#[test]
fn marker_spans_are_empty() {
    let eof = token_eof();
    assert_eq!(eof.kind, Syntax::Eof);
    assert_eq!(CstNode::Root.span(), eof.range);
    assert_eq!(CstNode::Eof.span(), TextRange { start: 0, end: 0 });
}
