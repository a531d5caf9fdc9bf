use vstd::prelude::*;
use crate::ast::{Expr, ExprView, SourceFile, Statement, StatementView};
use crate::lexer::{Token, TokenKind, is_digit};

verus! {

/// The value of a string of decimal digits.
pub open spec fn decimal_value(s: Seq<char>) -> nat
    decreases s.len(),
{
    if s.len() == 0 {
        0
    } else {
        decimal_value(s.drop_last()) * 10 + (s.last() as nat - '0' as nat) as nat
    }
}

/// The number a number token spells: one or more decimal digits whose value
/// fits in 32 bits.
pub open spec fn number_of(s: Seq<char>) -> Option<u32> {
    if s.len() > 0 && (forall|i: int| 0 <= i < s.len() ==> is_digit(#[trigger] s[i])) && decimal_value(s)
        <= u32::MAX {
        Some(decimal_value(s) as u32)
    } else {
        None
    }
}

/// Binding power of `+`, the one infix operator.
pub open spec fn add_bp() -> u8 {
    1
}

/// An atom at `pos`: a number, a name, or `if c t else f`.  Gives the
/// expression and the position after it.
pub open spec fn p_lhs(toks: Seq<Token<'_>>, pos: int) -> Option<(ExprView, int)>
    decreases toks.len() - pos, 0nat,
{
    if pos < 0 || pos >= toks.len() {
        None
    } else {
        let t = toks[pos];
        match t.kind {
            TokenKind::Number => match number_of(t.text@) {
                Some(v) => Some((ExprView::Number(v), pos + 1)),
                None => None,
            },
            TokenKind::Ident => Some((ExprView::Variable(t.text@), pos + 1)),
            TokenKind::IfKw => match p_expr_bp(toks, pos + 1, 0) {
                None => None,
                Some((c, p1)) => if p1 <= pos || p1 > toks.len() {
                    None
                } else {
                    match p_expr_bp(toks, p1, 0) {
                        None => None,
                        Some((tb, p2)) => if p2 <= pos || p2 >= toks.len() || toks[p2].kind != TokenKind::ElseKw {
                            None
                        } else {
                            match p_expr_bp(toks, p2 + 1, 0) {
                                None => None,
                                Some((fb, p3)) => Some((ExprView::If(Box::new(c), Box::new(tb), Box::new(fb)), p3)),
                            }
                        },
                    }
                },
            },
            _ => None,
        }
    }
}

/// An expression at `pos` whose operators all bind at least as tightly as `min_bp`.
pub open spec fn p_expr_bp(toks: Seq<Token<'_>>, pos: int, min_bp: u8) -> Option<(ExprView, int)>
    decreases toks.len() - pos, 2nat,
{
    if pos < 0 || pos >= toks.len() {
        None
    } else {
        match p_lhs(toks, pos) {
            None => None,
            Some((lhs, p)) => if p <= pos || p > toks.len() {
                None
            } else {
                p_tail(toks, p, lhs, min_bp)
            },
        }
    }
}

/// Extend `lhs` with the `+` operands that follow at `pos`, left-associatively.
pub open spec fn p_tail(toks: Seq<Token<'_>>, pos: int, lhs: ExprView, min_bp: u8) -> Option<(ExprView, int)>
    decreases toks.len() - pos, 1nat,
{
    if 0 <= pos < toks.len() && toks[pos].kind == TokenKind::Plus && add_bp() >= min_bp {
        match p_expr_bp(toks, pos + 1, (add_bp() + 1) as u8) {
            None => None,
            Some((rhs, p)) => if p <= pos || p > toks.len() {
                None
            } else {
                p_tail(toks, p, ExprView::Add(Box::new(lhs), Box::new(rhs)), min_bp)
            },
        }
    } else {
        Some((lhs, pos))
    }
}

/// A statement at `pos`: `let name = e`, or an expression.
pub open spec fn p_stmt(toks: Seq<Token<'_>>, pos: int) -> Option<(StatementView, int)> {
    if 0 <= pos < toks.len() && toks[pos].kind == TokenKind::LetKw {
        if pos + 2 < toks.len() && toks[pos + 1].kind == TokenKind::Ident && toks[pos + 2].kind
            == TokenKind::Equals {
            match p_expr_bp(toks, pos + 3, 0) {
                Some((v, p)) => Some((StatementView::LocalDef(toks[pos + 1].text@, v), p)),
                None => None,
            }
        } else {
            None
        }
    } else {
        match p_expr_bp(toks, pos, 0) {
            Some((e, p)) => Some((StatementView::Expr(e), p)),
            None => None,
        }
    }
}

/// The statements from `pos` to the end.
pub open spec fn p_stmts(toks: Seq<Token<'_>>, pos: int) -> Option<Seq<StatementView>>
    decreases toks.len() - pos,
{
    if pos < 0 || pos >= toks.len() {
        Some(Seq::empty())
    } else {
        match p_stmt(toks, pos) {
            None => None,
            Some((st, p)) => if p <= pos || p > toks.len() {
                None
            } else {
                match p_stmts(toks, p) {
                    Some(rest) => Some(seq![st] + rest),
                    None => None,
                }
            },
        }
    }
}

/// A successful parse from `pos` ends after `pos` and within the tokens.
pub open spec fn advances<T>(r: Option<(T, int)>, pos: int, len: int) -> bool {
    match r {
        Some((_, p)) => pos < p <= len,
        None => true,
    }
}

/// Each parse that succeeds moves forward and stays within the tokens.
proof fn lemma_progress(toks: Seq<Token<'_>>, pos: int)
    ensures
        advances(p_lhs(toks, pos), pos, toks.len() as int),
        forall|mb: u8| advances(#[trigger] p_expr_bp(toks, pos, mb), pos, toks.len() as int),
    decreases toks.len() - pos,
{
    if 0 <= pos < toks.len() {
        lemma_progress(toks, pos + 1);
        if let Some((c, p1)) = p_expr_bp(toks, pos + 1, 0) {
            if p1 > pos && p1 <= toks.len() {
                lemma_progress(toks, p1);
                if let Some((tb, p2)) = p_expr_bp(toks, p1, 0) {
                    if p2 > pos && p2 < toks.len() {
                        lemma_progress(toks, p2 + 1);
                        assert(advances(p_expr_bp(toks, p2 + 1, 0), p2 + 1, toks.len() as int));
                    }
                }
            }
        }
        assert forall|mb: u8| advances(#[trigger] p_expr_bp(toks, pos, mb), pos, toks.len() as int) by {
            if let Some((lhs, p)) = p_lhs(toks, pos) {
                if pos < p <= toks.len() {
                    lemma_tail_progress(toks, p, lhs, mb);
                }
            }
        }
    }
}

proof fn lemma_tail_progress(toks: Seq<Token<'_>>, pos: int, lhs: ExprView, mb: u8)
    requires
        0 <= pos <= toks.len(),
    ensures
        p_tail(toks, pos, lhs, mb) matches Some((_, p)) ==> pos <= p <= toks.len(),
    decreases toks.len() - pos,
{
    if 0 <= pos < toks.len() && toks[pos].kind == TokenKind::Plus && add_bp() >= mb {
        if let Some((rhs, p)) = p_expr_bp(toks, pos + 1, (add_bp() + 1) as u8) {
            if p > pos && p <= toks.len() {
                lemma_tail_progress(toks, p, ExprView::Add(Box::new(lhs), Box::new(rhs)), mb);
            }
        }
    }
}

proof fn lemma_decimal_grows(s: Seq<char>, i: int)
    requires
        0 <= i <= s.len(),
        forall|k: int| 0 <= k < s.len() ==> is_digit(#[trigger] s[k]),
    ensures
        decimal_value(s.take(i)) <= decimal_value(s),
    decreases s.len() - i,
{
    if i < s.len() {
        lemma_decimal_grows(s, i + 1);
        assert(s.take(i + 1).drop_last() =~= s.take(i));
    } else {
        assert(s.take(i) =~= s);
    }
}

/// The number that a number token spells, if it fits in 32 bits.
fn parse_number(text: &str) -> (r: Option<u32>)
    ensures
        r == number_of(text@),
{
    let n = text.unicode_len();
    if n == 0 {
        return None;
    }
    let mut v: u32 = 0;
    let mut i: usize = 0;
    while i < n
        invariant
            n == text@.len(),
            i <= n,
            v as nat == decimal_value(text@.take(i as int)),
            forall|k: int| 0 <= k < i ==> is_digit(#[trigger] text@[k]),
        decreases n - i,
    {
        let c = text.get_char(i);
        if !('0' <= c && c <= '9') {
            return None;
        }
        let d = (c as u32) - ('0' as u32);
        assert(text@.take(i + 1).drop_last() =~= text@.take(i as int));
        if v > (u32::MAX - d) / 10 {
            proof {
                if forall|k: int| 0 <= k < text@.len() ==> is_digit(#[trigger] text@[k]) {
                    lemma_decimal_grows(text@, i + 1);
                }
            }
            return None;
        }
        v = v * 10 + d;
        i = i + 1;
    }
    assert(text@.take(n as int) =~= text@);
    Some(v)
}

/// The one infix operator.
#[derive(Clone, Copy)]
enum Op {
    Add,
}

impl Op {
    /// How tightly the operator binds.
    fn bp(self) -> (r: u8)
        ensures
            r == add_bp(),
    {
        match self {
            Op::Add => 1,
        }
    }
}

/// A cursor over a token sequence.
struct Parser<'a> {
    tokens: &'a [Token<'a>],
    cursor: usize,
}

impl<'a> Parser<'a> {
    fn at_eof(&self) -> (r: bool)
        ensures
            r == (self.cursor >= self.tokens@.len()),
    {
        self.cursor >= self.tokens.len()
    }

    fn peek(&self) -> (r: Option<TokenKind>)
        ensures
            r == (if self.cursor < self.tokens@.len() {
                Some(self.tokens@[self.cursor as int].kind)
            } else {
                None::<TokenKind>
            }),
    {
        if self.cursor < self.tokens.len() {
            Some(self.tokens[self.cursor].kind)
        } else {
            None
        }
    }

    fn bump(&mut self)
        requires
            old(self).cursor < old(self).tokens.len(),
        ensures
            final(self).cursor == old(self).cursor + 1,
            final(self).tokens == old(self).tokens,
    {
        self.cursor = self.cursor + 1;
    }

    /// Take the current token's text if it has kind `kind`.
    fn expect(&mut self, kind: TokenKind) -> (r: Option<String>)
        ensures
            final(self).tokens == old(self).tokens,
            match r {
                Some(text) => {
                    &&& old(self).cursor < old(self).tokens@.len()
                    &&& old(self).tokens@[old(self).cursor as int].kind == kind
                    &&& text@ == old(self).tokens@[old(self).cursor as int].text@
                    &&& final(self).cursor == old(self).cursor + 1
                },
                None => !(old(self).cursor < old(self).tokens@.len() && old(self).tokens@[old(
                    self,
                ).cursor as int].kind == kind),
            },
    {
        if self.cursor >= self.tokens.len() || self.tokens[self.cursor].kind != kind {
            return None;
        }
        let text = self.tokens[self.cursor].text.to_owned();
        self.cursor = self.cursor + 1;
        Some(text)
    }

    fn parse_lhs(&mut self) -> (r: Option<Expr>)
        requires
            old(self).cursor <= old(self).tokens@.len(),
        ensures
            final(self).tokens == old(self).tokens,
            match p_lhs(old(self).tokens@, old(self).cursor as int) {
                Some((e, p)) => r matches Some(x) && x.view() == e && final(self).cursor == p,
                None => r is None,
            },
        decreases old(self).tokens@.len() - old(self).cursor, 0nat,
    {
        let ghost toks = self.tokens@;
        let ghost c0 = self.cursor as int;
        proof {
            lemma_progress(toks, c0 + 1);
        }
        match self.peek() {
            Some(TokenKind::Number) => match parse_number(self.tokens[self.cursor].text) {
                Some(v) => {
                    self.bump();
                    Some(Expr::Number(v))
                },
                None => None,
            },
            Some(TokenKind::Ident) => match self.expect(TokenKind::Ident) {
                Some(name) => Some(Expr::Variable(name)),
                None => None,
            },
            Some(TokenKind::IfKw) => {
                self.bump();
                let condition = match self.parse_expr_bp(0) {
                    Some(e) => e,
                    None => return None,
                };
                proof {
                    lemma_progress(toks, self.cursor as int);
                }
                let true_branch = match self.parse_expr_bp(0) {
                    Some(e) => e,
                    None => return None,
                };
                if self.expect(TokenKind::ElseKw).is_none() {
                    return None;
                }
                let false_branch = match self.parse_expr_bp(0) {
                    Some(e) => e,
                    None => return None,
                };
                Some(
                    Expr::If {
                        condition: Box::new(condition),
                        true_branch: Box::new(true_branch),
                        false_branch: Box::new(false_branch),
                    },
                )
            },
            _ => None,
        }
    }

    fn next_binds(&self, min_bp: u8) -> (r: bool)
        ensures
            r == (self.cursor < self.tokens@.len() && self.tokens@[self.cursor as int].kind == TokenKind::Plus
                && add_bp() >= min_bp),
    {
        if self.at_eof() {
            return false;
        }
        let op = match self.peek() {
            Some(TokenKind::Plus) => Op::Add,
            _ => return false,
        };
        op.bp() >= min_bp
    }

    fn parse_expr_bp(&mut self, min_bp: u8) -> (r: Option<Expr>)
        requires
            old(self).cursor <= old(self).tokens@.len(),
        ensures
            final(self).tokens == old(self).tokens,
            match p_expr_bp(old(self).tokens@, old(self).cursor as int, min_bp) {
                Some((e, p)) => r matches Some(x) && x.view() == e && final(self).cursor == p,
                None => r is None,
            },
        decreases old(self).tokens@.len() - old(self).cursor, 2nat,
    {
        let ghost toks = self.tokens@;
        let ghost c0 = self.cursor as int;
        if self.at_eof() {
            return None;
        }
        proof {
            lemma_progress(toks, c0);
        }
        let lhs = match self.parse_lhs() {
            Some(e) => e,
            None => return None,
        };
        self.parse_tail(lhs, min_bp)
    }

    /// Extend `lhs` with the operands that follow, while the operator binds at
    /// least as tightly as `min_bp`.
    fn parse_tail(&mut self, lhs: Expr, min_bp: u8) -> (r: Option<Expr>)
        requires
            old(self).cursor <= old(self).tokens@.len(),
        ensures
            final(self).tokens == old(self).tokens,
            match p_tail(old(self).tokens@, old(self).cursor as int, lhs.view(), min_bp) {
                Some((e, p)) => r matches Some(x) && x.view() == e && final(self).cursor == p,
                None => r is None,
            },
        decreases old(self).tokens@.len() - old(self).cursor, 1nat,
    {
        let ghost toks = self.tokens@;
        let ghost c0 = self.cursor as int;
        if !self.next_binds(min_bp) {
            return Some(lhs);
        }
        self.bump();
        proof {
            lemma_progress(toks, c0 + 1);
        }
        let rhs = match self.parse_expr_bp(Op::Add.bp() + 1) {
            Some(e) => e,
            None => return None,
        };
        self.parse_tail(Expr::Add { lhs: Box::new(lhs), rhs: Box::new(rhs) }, min_bp)
    }

    fn parse_statement(&mut self) -> (r: Option<Statement>)
        requires
            old(self).cursor <= old(self).tokens@.len(),
        ensures
            final(self).tokens == old(self).tokens,
            match p_stmt(old(self).tokens@, old(self).cursor as int) {
                Some((st, p)) => r matches Some(x) && x.view() == st && final(self).cursor == p,
                None => r is None,
            },
    {
        if self.peek() == Some(TokenKind::LetKw) {
            self.bump();
            let name = match self.expect(TokenKind::Ident) {
                Some(n) => n,
                None => return None,
            };
            if self.expect(TokenKind::Equals).is_none() {
                return None;
            }
            let val = match self.parse_expr_bp(0) {
                Some(e) => e,
                None => return None,
            };
            return Some(Statement::LocalDef { name, val });
        }
        match self.parse_expr_bp(0) {
            Some(e) => Some(Statement::Expr(e)),
            None => None,
        }
    }
}

/// `done` followed by what `rest` holds, if it holds anything.
pub open spec fn then_rest(done: Seq<StatementView>, rest: Option<Seq<StatementView>>) -> Option<Seq<StatementView>> {
    match rest {
        Some(r) => Some(done + r),
        None => None,
    }
}

/// Parse a token sequence into a program: statements one after another, each
/// `let name = e` or an expression `e`, where `e` is a number, a name,
/// `if e e else e`, or a left-associated sum of those.  `None` where the tokens
/// do not form a program.
pub fn parse(tokens: &[Token<'_>]) -> (r: Option<SourceFile>)
    ensures
        match p_stmts(tokens@, 0) {
            Some(v) => r matches Some(sf) && sf@ == v,
            None => r is None,
        },
{
    let mut p = Parser { tokens, cursor: 0 };
    let ghost toks = tokens@;
    let mut statements: Vec<Statement> = Vec::new();
    assert(p_stmts(toks, 0) == then_rest(Seq::empty(), p_stmts(toks, 0))) by {
        if let Some(v) = p_stmts(toks, 0) {
            assert(Seq::<StatementView>::empty() + v =~= v);
        }
    }
    while !p.at_eof()
        invariant
            p.tokens@ == toks,
            toks == tokens@,
            p.cursor <= toks.len(),
            p_stmts(toks, 0) == then_rest(
                Seq::new(statements@.len(), |i: int| statements@[i].view()),
                p_stmts(toks, p.cursor as int),
            ),
        decreases toks.len() - p.cursor,
    {
        let ghost c = p.cursor as int;
        let ghost done = Seq::new(statements@.len(), |i: int| statements@[i].view());
        proof {
            lemma_progress(toks, c);
            lemma_progress(toks, c + 3);
        }
        let st = match p.parse_statement() {
            Some(st) => st,
            None => {
                assert(p_stmts(toks, c) is None);
                return None;
            },
        };
        proof {
            if let Some((sv, q)) = p_stmt(toks, c) {
                if let Some(rest) = p_stmts(toks, q) {
                    assert(done + (seq![sv] + rest) =~= done.push(sv) + rest);
                }
            }
        }
        statements.push(st);
        assert(Seq::new(statements@.len(), |i: int| statements@[i].view()) =~= done.push(st.view()));
    }
    assert(p_stmts(toks, p.cursor as int) == Some(Seq::<StatementView>::empty()));
    let sf = SourceFile(statements);
    assert(sf@ =~= Seq::new(sf.0@.len(), |i: int| sf.0@[i].view()) + Seq::<StatementView>::empty());
    Some(sf)
}

} // verus!
