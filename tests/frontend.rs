use didactic_eureka::ast::{Expr, SourceFile, Statement};
use didactic_eureka::lexer::{lex, TokenKind};
use didactic_eureka::lowering::lower;
use didactic_eureka::parser::parse;

fn kinds_and_texts(src: &str) -> Vec<(TokenKind, String)> {
    lex(src).iter().map(|t| (t.kind, t.text.to_string())).collect()
}

fn tok(kind: TokenKind, text: &str) -> (TokenKind, String) {
    (kind, text.to_string())
}

fn parsed(src: &str) -> Option<String> {
    parse(&lex(src)).map(|sf| format!("{:?}", sf))
}

#[test]
fn lexes_a_binding_and_a_sum() {
    assert_eq!(
        kinds_and_texts("let x = 1\n x+22"),
        vec![
            tok(TokenKind::LetKw, "let"),
            tok(TokenKind::Ident, "x"),
            tok(TokenKind::Equals, "="),
            tok(TokenKind::Number, "1"),
            tok(TokenKind::Ident, "x"),
            tok(TokenKind::Plus, "+"),
            tok(TokenKind::Number, "22"),
        ]
    );
}

#[test]
fn keywords_need_the_whole_word() {
    assert_eq!(
        kinds_and_texts("letx let2 if else elsewhere iff"),
        vec![
            tok(TokenKind::Ident, "letx"),
            tok(TokenKind::Ident, "let2"),
            tok(TokenKind::IfKw, "if"),
            tok(TokenKind::ElseKw, "else"),
            tok(TokenKind::Ident, "elsewhere"),
            tok(TokenKind::Ident, "iff"),
        ]
    );
}

#[test]
fn digits_then_letters_are_two_tokens() {
    assert_eq!(kinds_and_texts("12ab"), vec![tok(TokenKind::Number, "12"), tok(TokenKind::Ident, "ab")]);
}

#[test]
fn unknown_characters_are_error_tokens() {
    assert_eq!(
        kinds_and_texts("a;Bé"),
        vec![
            tok(TokenKind::Ident, "a"),
            tok(TokenKind::Error, ";"),
            tok(TokenKind::Error, "B"),
            tok(TokenKind::Error, "é"),
        ]
    );
}

#[test]
fn blanks_only_give_no_tokens() {
    assert!(lex("").is_empty());
    assert!(lex(" \t\n  ").is_empty());
}

#[test]
fn parses_binding_then_expression() {
    assert_eq!(
        parsed("let x = 1 x + 2").unwrap(),
        "SourceFile([LocalDef { name: \"x\", val: Number(1) }, Expr(Add { lhs: Variable(\"x\"), rhs: Number(2) })])"
    );
}

#[test]
fn sums_associate_to_the_left() {
    assert_eq!(
        parsed("1 + 2 + 3").unwrap(),
        "SourceFile([Expr(Add { lhs: Add { lhs: Number(1), rhs: Number(2) }, rhs: Number(3) })])"
    );
}

#[test]
fn else_branch_extends_over_a_sum() {
    assert_eq!(
        parsed("if 1 2 else 3 + 4").unwrap(),
        "SourceFile([Expr(If { condition: Number(1), true_branch: Number(2), false_branch: Add { lhs: Number(3), rhs: Number(4) } })])"
    );
}

#[test]
fn conditional_as_right_operand() {
    assert_eq!(
        parsed("1 + if 2 3 else 4").unwrap(),
        "SourceFile([Expr(Add { lhs: Number(1), rhs: If { condition: Number(2), true_branch: Number(3), false_branch: Number(4) } })])"
    );
}

#[test]
fn empty_input_is_an_empty_program() {
    assert_eq!(parsed("").unwrap(), "SourceFile([])");
}

#[test]
fn malformed_programs_are_rejected() {
    assert_eq!(parsed("let x"), None);
    assert_eq!(parsed("let = 1"), None);
    assert_eq!(parsed("+ 1"), None);
    assert_eq!(parsed("1 +"), None);
    assert_eq!(parsed("if 1 2"), None);
    assert_eq!(parsed("if 1 2 3"), None);
    assert_eq!(parsed("x ; y"), None);
}

#[test]
fn numbers_must_fit_in_32_bits() {
    assert_eq!(parsed("4294967295").unwrap(), "SourceFile([Expr(Number(4294967295))])");
    assert_eq!(parsed("007").unwrap(), "SourceFile([Expr(Number(7))])");
    assert_eq!(parsed("4294967296"), None);
    assert_eq!(parsed("99999999999999999999"), None);
}

#[test]
fn source_text_to_listing() {
    let sf = parse(&lex("let x = 1 x + 2")).unwrap();
    assert!(sf.within_limits());
    let cfg = lower(&sf).unwrap();
    assert_eq!(cfg.listing(), "\nl0:\n  %0 = 1\n  %1 = 2\n  %2 = add %0 %1\n  ret");
}

#[test]
fn size_limit_is_checked() {
    let at_limit = SourceFile((0..21844).map(|i| Statement::Expr(Expr::Number(i))).collect());
    assert!(at_limit.within_limits());
    let cfg = lower(&at_limit).unwrap();
    assert_eq!(cfg.bbs.len(), 1);
    assert_eq!(cfg.bbs[0].instrs.len(), 21844);
    let over = SourceFile((0..21845).map(|i| Statement::Expr(Expr::Number(i))).collect());
    assert!(!over.within_limits());
    let nested = SourceFile(vec![Statement::Expr((0..22000).fold(Expr::Number(0), |acc, i| Expr::Add {
        lhs: Box::new(acc),
        rhs: Box::new(Expr::Number(i)),
    }))]);
    assert!(!nested.within_limits());
}
