//! Recursive-descent parser: token stream to expression tree.
//!
//! Grammar (lowest to highest precedence):
//! ```text
//! expr            = additive
//! additive        = multiplicative ( ('+' | '-') multiplicative )*
//! multiplicative  = power ( ('*' | '/') power )*
//! power           = unary ( '^' power )?
//! unary           = '-' unary | primary
//! primary         = Number | FieldRef | 'if' '(' expr ',' expr ',' expr ')'
//!                 | Identifier '(' arg_list ')' | Identifier | '(' expr ')'
//! arg_list        = empty | expr ( ',' expr )*
//! ```
use vstd::prelude::*;

use crate::ast::{
    copy_string, lemma_view_exprs, lemma_view_exprs_push, view_exprs, BinOp, DiffOperator, Expr,
    Term, TensorOperator, UnOp,
};
use crate::error::{ErrorView, ExpressionError};
use crate::number::{num_text, push_num_text, Num};
use crate::text::{nat_text, push_char, push_nat, str_eq};
use crate::tokenizer::{spec_tokenize, tokenize, view_tokens, KeywordKind, Tok, Token};

verus! {

broadcast use vstd::string::group_string_axioms;

// ---------------------------------------------------------------------------
// token descriptions used in messages
// ---------------------------------------------------------------------------

pub open spec fn keyword_text(k: KeywordKind) -> Seq<char> {
    match k {
        KeywordKind::Const => "Const"@,
        KeywordKind::If => "If"@,
        KeywordKind::Switch => "Switch"@,
    }
}

/// Text of a number in a token description (integers carry `.0`).
pub open spec fn num_debug(n: Num) -> Seq<char> {
    if n.exponent() >= 0 {
        num_text(n) + ".0"@
    } else {
        num_text(n)
    }
}

/// Description of a token, as it appears in parse messages.
pub open spec fn tok_text(t: Tok) -> Seq<char> {
    match t {
        Tok::Number(n) => "Number("@ + num_debug(n) + ")"@,
        Tok::Identifier(s) => "Identifier(\""@ + s + "\")"@,
        Tok::FieldRef(s) => "FieldRef(\""@ + s + "\")"@,
        Tok::Operator(c) => "Operator('"@ + seq![c] + "')"@,
        Tok::LeftParen => "LeftParen"@,
        Tok::RightParen => "RightParen"@,
        Tok::Comma => "Comma"@,
        Tok::Equals => "Equals"@,
        Tok::Semicolon => "Semicolon"@,
        Tok::Keyword(k) => "Keyword("@ + keyword_text(k) + ")"@,
    }
}

pub open spec fn opt_tok_text(t: Option<Tok>) -> Seq<char> {
    match t {
        Some(t) => "Some("@ + tok_text(t) + ")"@,
        None => "None"@,
    }
}

// ---------------------------------------------------------------------------
// specification of the parser
// ---------------------------------------------------------------------------

pub type PRes = Result<(Term, int), ErrorView>;

pub open spec fn peek(ts: Seq<Tok>, p: int) -> Option<Tok> {
    if 0 <= p < ts.len() {
        Some(ts[p])
    } else {
        None
    }
}

pub open spec fn parse_error(message: Seq<char>, position: int) -> ErrorView {
    ErrorView::ParseError { message, position: position as nat }
}

/// Error reported when a sub-parser does not move forward (never happens: see
/// the progress ensures of the executable parser).
pub open spec fn stuck(p: int) -> ErrorView {
    parse_error("no progress"@, p)
}

/// `expect_token`: the position after the expected token, or the error.
pub open spec fn p_expect(ts: Seq<Tok>, p: int, expected: Tok) -> Result<int, ErrorView> {
    if peek(ts, p) == Some(expected) {
        Ok(p + 1)
    } else {
        let after = if 0 <= p < ts.len() { p + 1 } else { p };
        Err(
            parse_error(
                "expected "@ + tok_text(expected) + ", got "@ + opt_tok_text(peek(ts, p)),
                after,
            ),
        )
    }
}

pub open spec fn bin(op: BinOp, l: Term, r: Term) -> Term {
    Term::BinaryOp { op, left: Box::new(l), right: Box::new(r) }
}

pub open spec fn un(op: UnOp, t: Term) -> Term {
    Term::UnaryOp { op, operand: Box::new(t) }
}

pub open spec fn p_expr(ts: Seq<Tok>, p: int) -> PRes
    decreases ts.len() - p, 7nat,
{
    p_additive(ts, p)
}

pub open spec fn p_additive(ts: Seq<Tok>, p: int) -> PRes
    decreases ts.len() - p, 6nat,
{
    match p_multiplicative(ts, p) {
        Err(e) => Err(e),
        Ok((l, p1)) => if p1 <= p || p1 > ts.len() {
            Err(stuck(p1))
        } else {
            p_additive_rest(ts, p1, l)
        },
    }
}

pub open spec fn p_additive_rest(ts: Seq<Tok>, p: int, left: Term) -> PRes
    decreases ts.len() - p, 6nat,
{
    if p < 0 {
        Err(stuck(p))
    } else if peek(ts, p) == Some(Tok::Operator('+')) || peek(ts, p) == Some(Tok::Operator('-')) {
        let op = if peek(ts, p) == Some(Tok::Operator('+')) { BinOp::Add } else { BinOp::Sub };
        match p_multiplicative(ts, p + 1) {
            Err(e) => Err(e),
            Ok((r, p2)) => if p2 <= p || p2 > ts.len() {
                Err(stuck(p2))
            } else {
                p_additive_rest(ts, p2, bin(op, left, r))
            },
        }
    } else {
        Ok((left, p))
    }
}

pub open spec fn p_multiplicative(ts: Seq<Tok>, p: int) -> PRes
    decreases ts.len() - p, 5nat,
{
    match p_power(ts, p) {
        Err(e) => Err(e),
        Ok((l, p1)) => if p1 <= p || p1 > ts.len() {
            Err(stuck(p1))
        } else {
            p_multiplicative_rest(ts, p1, l)
        },
    }
}

pub open spec fn p_multiplicative_rest(ts: Seq<Tok>, p: int, left: Term) -> PRes
    decreases ts.len() - p, 5nat,
{
    if p < 0 {
        Err(stuck(p))
    } else if peek(ts, p) == Some(Tok::Operator('*')) || peek(ts, p) == Some(Tok::Operator('/')) {
        let op = if peek(ts, p) == Some(Tok::Operator('*')) { BinOp::Mul } else { BinOp::Div };
        match p_power(ts, p + 1) {
            Err(e) => Err(e),
            Ok((r, p2)) => if p2 <= p || p2 > ts.len() {
                Err(stuck(p2))
            } else {
                p_multiplicative_rest(ts, p2, bin(op, left, r))
            },
        }
    } else {
        Ok((left, p))
    }
}

pub open spec fn p_power(ts: Seq<Tok>, p: int) -> PRes
    decreases ts.len() - p, 4nat,
{
    match p_unary(ts, p) {
        Err(e) => Err(e),
        Ok((base, p1)) => if p1 < p {
            Err(stuck(p1))
        } else if peek(ts, p1) == Some(Tok::Operator('^')) {
            match p_power(ts, p1 + 1) {
                Err(e) => Err(e),
                Ok((ex, p2)) => Ok((bin(BinOp::Pow, base, ex), p2)),
            }
        } else {
            Ok((base, p1))
        },
    }
}

/// Negation of a parsed operand: a double negation folds away.
pub open spec fn negate(t: Term) -> Term {
    match t {
        Term::UnaryOp { op: UnOp::Neg, operand } => *operand,
        _ => un(UnOp::Neg, t),
    }
}

pub open spec fn p_unary(ts: Seq<Tok>, p: int) -> PRes
    decreases ts.len() - p, 3nat,
{
    if p >= 0 && peek(ts, p) == Some(Tok::Operator('-')) {
        match p_unary(ts, p + 1) {
            Err(e) => Err(e),
            Ok((t, p1)) => Ok((negate(t), p1)),
        }
    } else {
        p_primary(ts, p)
    }
}

/// The term an identifier stands for when it is not called.
pub open spec fn name_term(name: Seq<char>) -> Term {
    if name == "pi"@ || name == "PI"@ {
        Term::Constant("pi"@)
    } else if name == "e"@ || name == "E_CONST"@ {
        Term::Constant("e"@)
    } else {
        Term::Variable(name)
    }
}

pub open spec fn unary_op_of(name: Seq<char>) -> Option<UnOp> {
    if name == "sin"@ {
        Some(UnOp::Sin)
    } else if name == "cos"@ {
        Some(UnOp::Cos)
    } else if name == "exp"@ {
        Some(UnOp::Exp)
    } else if name == "log"@ || name == "ln"@ {
        Some(UnOp::Log)
    } else if name == "sqrt"@ {
        Some(UnOp::Sqrt)
    } else if name == "abs"@ {
        Some(UnOp::Abs)
    } else if name == "neg"@ {
        Some(UnOp::Neg)
    } else {
        None
    }
}

pub open spec fn diff_op_of(name: Seq<char>) -> Option<DiffOperator> {
    if name == "ddt"@ || name == "time_derivative"@ {
        Some(DiffOperator::TimeDerivative)
    } else if name == "grad"@ || name == "gradient"@ {
        Some(DiffOperator::Gradient)
    } else if name == "div"@ || name == "divergence"@ {
        Some(DiffOperator::Divergence)
    } else if name == "laplacian"@ {
        Some(DiffOperator::Laplacian)
    } else if name == "curl"@ {
        Some(DiffOperator::Curl)
    } else {
        None
    }
}

pub open spec fn tensor_op_of(name: Seq<char>) -> Option<TensorOperator> {
    if name == "dot"@ {
        Some(TensorOperator::Dot)
    } else if name == "cross"@ {
        Some(TensorOperator::Cross)
    } else if name == "outer"@ {
        Some(TensorOperator::Outer)
    } else if name == "tr"@ || name == "trace"@ {
        Some(TensorOperator::Trace)
    } else if name == "transpose"@ {
        Some(TensorOperator::Transpose)
    } else if name == "sym"@ || name == "symmetric"@ {
        Some(TensorOperator::Symmetric)
    } else if name == "skew"@ {
        Some(TensorOperator::Skew)
    } else if name == "mag"@ || name == "magnitude"@ {
        Some(TensorOperator::Magnitude)
    } else if name == "magSqr"@ {
        Some(TensorOperator::MagnitudeSqr)
    } else if name == "det"@ || name == "determinant"@ {
        Some(TensorOperator::Determinant)
    } else if name == "inv"@ || name == "inverse"@ {
        Some(TensorOperator::Inverse)
    } else {
        None
    }
}

/// The node for a call of `name` on `args`; `p` is the position after `)`.
pub open spec fn call_term(name: Seq<char>, args: Seq<Term>, p: int) -> Result<Term, ErrorView> {
    match unary_op_of(name) {
        Some(op) => if args.len() != 1 {
            Err(
                parse_error(
                    "`"@ + name + "` expects 1 argument, got "@ + nat_text(args.len()),
                    p,
                ),
            )
        } else {
            Ok(un(op, args[0]))
        },
        None => match diff_op_of(name) {
            Some(op) => Ok(Term::DiffOp { op, operands: args }),
            None => match tensor_op_of(name) {
                Some(op) => Ok(Term::TensorOp { op, operands: args }),
                None => Ok(Term::FunctionCall { name, args }),
            },
        },
    }
}

pub open spec fn p_primary(ts: Seq<Tok>, p: int) -> PRes
    decreases ts.len() - p, 2nat,
{
    if p < 0 {
        Err(stuck(p))
    } else {
        match peek(ts, p) {
            Some(Tok::Number(n)) => Ok((Term::Number(n), p + 1)),
            Some(Tok::FieldRef(name)) => Ok((Term::FieldRef(name), p + 1)),
            Some(Tok::Keyword(KeywordKind::If)) => match p_expect(ts, p + 1, Tok::LeftParen) {
                Err(e) => Err(e),
                Ok(p1) => match p_expr(ts, p1) {
                    Err(e) => Err(e),
                    Ok((c, p2)) => if p2 <= p {
                        Err(stuck(p2))
                    } else {
                        match p_expect(ts, p2, Tok::Comma) {
                            Err(e) => Err(e),
                            Ok(p3) => match p_expr(ts, p3) {
                                Err(e) => Err(e),
                                Ok((tv, p4)) => if p4 <= p {
                                    Err(stuck(p4))
                                } else {
                                    match p_expect(ts, p4, Tok::Comma) {
                                        Err(e) => Err(e),
                                        Ok(p5) => match p_expr(ts, p5) {
                                            Err(e) => Err(e),
                                            Ok((fv, p6)) => match p_expect(ts, p6, Tok::RightParen) {
                                                Err(e) => Err(e),
                                                Ok(p7) => Ok(
                                                    (
                                                        Term::Conditional {
                                                            condition: Box::new(c),
                                                            true_val: Box::new(tv),
                                                            false_val: Box::new(fv),
                                                        },
                                                        p7,
                                                    ),
                                                ),
                                            },
                                        },
                                    }
                                },
                            },
                        }
                    },
                },
            },
            Some(Tok::Identifier(name)) => if peek(ts, p + 1) == Some(Tok::LeftParen) {
                match p_args(ts, p + 2) {
                    Err(e) => Err(e),
                    Ok((args, p1)) => match p_expect(ts, p1, Tok::RightParen) {
                        Err(e) => Err(e),
                        Ok(p2) => match call_term(name, args, p2) {
                            Err(e) => Err(e),
                            Ok(t) => Ok((t, p2)),
                        },
                    },
                }
            } else {
                Ok((name_term(name), p + 1))
            },
            Some(Tok::LeftParen) => match p_expr(ts, p + 1) {
                Err(e) => Err(e),
                Ok((inner, p1)) => match p_expect(ts, p1, Tok::RightParen) {
                    Err(e) => Err(e),
                    Ok(p2) => Ok((inner, p2)),
                },
            },
            other => Err(
                parse_error("unexpected token in primary position: "@ + opt_tok_text(other), p),
            ),
        }
    }
}

pub type ARes = Result<(Seq<Term>, int), ErrorView>;

pub open spec fn p_args(ts: Seq<Tok>, p: int) -> ARes
    decreases ts.len() - p, 8nat,
{
    if peek(ts, p) == Some(Tok::RightParen) {
        Ok((Seq::empty(), p))
    } else {
        match p_expr(ts, p) {
            Err(e) => Err(e),
            Ok((a, p1)) => if p1 <= p || p1 > ts.len() {
                Err(stuck(p1))
            } else {
                p_args_rest(ts, p1, seq![a])
            },
        }
    }
}

pub open spec fn p_args_rest(ts: Seq<Tok>, p: int, acc: Seq<Term>) -> ARes
    decreases ts.len() - p, 8nat,
{
    if p >= 0 && peek(ts, p) == Some(Tok::Comma) {
        match p_expr(ts, p + 1) {
            Err(e) => Err(e),
            Ok((a, p1)) => if p1 <= p || p1 > ts.len() {
                Err(stuck(p1))
            } else {
                p_args_rest(ts, p1, acc.push(a))
            },
        }
    } else {
        Ok((acc, p))
    }
}

/// Parse a whole token sequence: an expression that uses every token.
pub open spec fn parse_tokens(ts: Seq<Tok>) -> Result<Term, ErrorView> {
    match p_expr(ts, 0) {
        Err(e) => Err(e),
        Ok((t, p)) => if p < ts.len() {
            Err(
                parse_error(
                    "unexpected token after expression: "@ + tok_text(ts[p]),
                    p,
                ),
            )
        } else {
            Ok(t)
        },
    }
}

/// Parse an input text: tokenize, then parse the tokens.
pub open spec fn spec_parse(cs: Seq<char>) -> Result<Term, ErrorView> {
    match spec_tokenize(cs) {
        Err(e) => Err(e),
        Ok(ts) => parse_tokens(ts),
    }
}

// ---------------------------------------------------------------------------
// parser
// ---------------------------------------------------------------------------

fn push_keyword_text(s: &mut String, k: KeywordKind)
    ensures
        final(s)@ == old(s)@ + keyword_text(k),
{
    match k {
        KeywordKind::Const => s.append("Const"),
        KeywordKind::If => s.append("If"),
        KeywordKind::Switch => s.append("Switch"),
    }
}

fn push_tok_text(s: &mut String, t: &Token)
    ensures
        final(s)@ == old(s)@ + tok_text(t@),
{
    let ghost s0 = s@;
    match t {
        Token::Number(n) => {
            s.append("Number(");
            push_num_text(s, *n);
            if n.is_integer() {
                s.append(".0");
            }
            s.append(")");
        },
        Token::Identifier(name) => {
            s.append("Identifier(\"");
            s.append(name.as_str());
            s.append("\")");
        },
        Token::FieldRef(name) => {
            s.append("FieldRef(\"");
            s.append(name.as_str());
            s.append("\")");
        },
        Token::Operator(c) => {
            s.append("Operator('");
            push_char(s, *c);
            s.append("')");
        },
        Token::LeftParen => s.append("LeftParen"),
        Token::RightParen => s.append("RightParen"),
        Token::Comma => s.append("Comma"),
        Token::Equals => s.append("Equals"),
        Token::Semicolon => s.append("Semicolon"),
        Token::Keyword(k) => {
            s.append("Keyword(");
            push_keyword_text(s, *k);
            s.append(")");
        },
    }
    proof {
        assert(s@ =~= s0 + tok_text(t@));
    }
}

struct Parser {
    tokens: Vec<Token>,
    pos: usize,
}

impl Parser {
    spec fn ts(&self) -> Seq<Tok> {
        view_tokens(self.tokens@)
    }

    fn peek_is_op(&self, c: char) -> (b: bool)
        ensures
            b == (peek(self.ts(), self.pos as int) == Some(Tok::Operator(c))),
    {
        if self.pos < self.tokens.len() {
            match &self.tokens[self.pos] {
                Token::Operator(d) => *d == c,
                _ => false,
            }
        } else {
            false
        }
    }

    /// Message part `Some(token)` / `None` for the token at `p`.
    fn push_opt_tok_text(&self, s: &mut String, p: usize)
        ensures
            final(s)@ == old(s)@ + opt_tok_text(peek(self.ts(), p as int)),
    {
        if p < self.tokens.len() {
            s.append("Some(");
            push_tok_text(s, &self.tokens[p]);
            s.append(")");
            proof {
                assert(final(s)@ =~= old(s)@ + opt_tok_text(peek(self.ts(), p as int)));
            }
        } else {
            s.append("None");
        }
    }

    /// Consume the punctuation token `expected` (`(`, `,` or `)`).
    fn expect_token(&mut self, expected: &Token) -> (r: Result<(), ExpressionError>)
        requires
            old(self).pos <= old(self).tokens.len(),
            expected@ == Tok::LeftParen || expected@ == Tok::Comma || expected@ == Tok::RightParen,
        ensures
            final(self).tokens@ == old(self).tokens@,
            final(self).pos <= final(self).tokens.len(),
            match r {
                Ok(_) => p_expect(old(self).ts(), old(self).pos as int, expected@) == Ok::<
                    int,
                    ErrorView,
                >(final(self).pos as int),
                Err(e) => p_expect(old(self).ts(), old(self).pos as int, expected@) == Err::<
                    int,
                    ErrorView,
                >(e@),
            },
    {
        let p = self.pos;
        let ok = if p < self.tokens.len() {
            match (&self.tokens[p], expected) {
                (Token::LeftParen, Token::LeftParen) => true,
                (Token::Comma, Token::Comma) => true,
                (Token::RightParen, Token::RightParen) => true,
                _ => false,
            }
        } else {
            false
        };
        if p < self.tokens.len() {
            self.pos = p + 1;
        }
        if ok {
            Ok(())
        } else {
            let mut m = String::from_str("expected ");
            push_tok_text(&mut m, expected);
            m.append(", got ");
            self.push_opt_tok_text(&mut m, p);
            Err(ExpressionError::ParseError { message: m, position: self.pos })
        }
    }

    fn parse_expr(&mut self) -> (r: Result<Expr, ExpressionError>)
        requires
            old(self).pos <= old(self).tokens.len(),
        ensures
            final(self).tokens@ == old(self).tokens@,
            match r {
                Ok(e) => p_expr(old(self).ts(), old(self).pos as int) == Ok::<(Term, int), ErrorView>(
                    (e@, final(self).pos as int),
                ),
                Err(err) => p_expr(old(self).ts(), old(self).pos as int) == Err::<
                    (Term, int),
                    ErrorView,
                >(err@),
            },
            r is Ok ==> old(self).pos < final(self).pos <= final(self).tokens.len(),
        decreases old(self).tokens.len() - old(self).pos, 7nat,
    {
        self.parse_additive()
    }

    fn parse_additive(&mut self) -> (r: Result<Expr, ExpressionError>)
        requires
            old(self).pos <= old(self).tokens.len(),
        ensures
            final(self).tokens@ == old(self).tokens@,
            match r {
                Ok(e) => p_additive(old(self).ts(), old(self).pos as int) == Ok::<
                    (Term, int),
                    ErrorView,
                >((e@, final(self).pos as int)),
                Err(err) => p_additive(old(self).ts(), old(self).pos as int) == Err::<
                    (Term, int),
                    ErrorView,
                >(err@),
            },
            r is Ok ==> old(self).pos < final(self).pos <= final(self).tokens.len(),
        decreases old(self).tokens.len() - old(self).pos, 6nat,
    {
        let ghost ts = self.ts();
        let ghost start = self.pos as int;
        let mut left = self.parse_multiplicative()?;
        loop
            invariant
                self.tokens@ == old(self).tokens@,
                ts == view_tokens(old(self).tokens@),
                start == old(self).pos as int,
                start < self.pos <= self.tokens.len(),
                p_additive(ts, start) == p_additive_rest(ts, self.pos as int, left@),
            decreases self.tokens.len() - self.pos,
        {
            let is_add = self.peek_is_op('+');
            let is_sub = self.peek_is_op('-');
            if !is_add && !is_sub {
                return Ok(left);
            }
            self.pos = self.pos + 1;
            let right = self.parse_multiplicative()?;
            let op = if is_add { BinOp::Add } else { BinOp::Sub };
            left = Expr::binop(op, left, right);
        }
    }

    fn parse_multiplicative(&mut self) -> (r: Result<Expr, ExpressionError>)
        requires
            old(self).pos <= old(self).tokens.len(),
        ensures
            final(self).tokens@ == old(self).tokens@,
            match r {
                Ok(e) => p_multiplicative(old(self).ts(), old(self).pos as int) == Ok::<
                    (Term, int),
                    ErrorView,
                >((e@, final(self).pos as int)),
                Err(err) => p_multiplicative(old(self).ts(), old(self).pos as int) == Err::<
                    (Term, int),
                    ErrorView,
                >(err@),
            },
            r is Ok ==> old(self).pos < final(self).pos <= final(self).tokens.len(),
        decreases old(self).tokens.len() - old(self).pos, 5nat,
    {
        let ghost ts = self.ts();
        let ghost start = self.pos as int;
        let mut left = self.parse_power()?;
        loop
            invariant
                self.tokens@ == old(self).tokens@,
                ts == view_tokens(old(self).tokens@),
                start == old(self).pos as int,
                start < self.pos <= self.tokens.len(),
                p_multiplicative(ts, start) == p_multiplicative_rest(ts, self.pos as int, left@),
            decreases self.tokens.len() - self.pos,
        {
            let is_mul = self.peek_is_op('*');
            let is_div = self.peek_is_op('/');
            if !is_mul && !is_div {
                return Ok(left);
            }
            self.pos = self.pos + 1;
            let right = self.parse_power()?;
            let op = if is_mul { BinOp::Mul } else { BinOp::Div };
            left = Expr::binop(op, left, right);
        }
    }

    fn parse_power(&mut self) -> (r: Result<Expr, ExpressionError>)
        requires
            old(self).pos <= old(self).tokens.len(),
        ensures
            final(self).tokens@ == old(self).tokens@,
            match r {
                Ok(e) => p_power(old(self).ts(), old(self).pos as int) == Ok::<(Term, int), ErrorView>(
                    (e@, final(self).pos as int),
                ),
                Err(err) => p_power(old(self).ts(), old(self).pos as int) == Err::<
                    (Term, int),
                    ErrorView,
                >(err@),
            },
            r is Ok ==> old(self).pos < final(self).pos <= final(self).tokens.len(),
        decreases old(self).tokens.len() - old(self).pos, 4nat,
    {
        let base = self.parse_unary()?;
        if self.peek_is_op('^') {
            self.pos = self.pos + 1;
            let exp = self.parse_power()?;
            Ok(Expr::binop(BinOp::Pow, base, exp))
        } else {
            Ok(base)
        }
    }

    fn parse_unary(&mut self) -> (r: Result<Expr, ExpressionError>)
        requires
            old(self).pos <= old(self).tokens.len(),
        ensures
            final(self).tokens@ == old(self).tokens@,
            match r {
                Ok(e) => p_unary(old(self).ts(), old(self).pos as int) == Ok::<(Term, int), ErrorView>(
                    (e@, final(self).pos as int),
                ),
                Err(err) => p_unary(old(self).ts(), old(self).pos as int) == Err::<
                    (Term, int),
                    ErrorView,
                >(err@),
            },
            r is Ok ==> old(self).pos < final(self).pos <= final(self).tokens.len(),
        decreases old(self).tokens.len() - old(self).pos, 3nat,
    {
        if self.peek_is_op('-') {
            self.pos = self.pos + 1;
            let operand = self.parse_unary()?;
            match operand {
                Expr::UnaryOp { op: UnOp::Neg, operand: inner } => Ok(*inner),
                other => Ok(Expr::unaryop(UnOp::Neg, other)),
            }
        } else {
            self.parse_primary()
        }
    }

    #[verifier::rlimit(40)]
    fn parse_primary(&mut self) -> (r: Result<Expr, ExpressionError>)
        requires
            old(self).pos <= old(self).tokens.len(),
        ensures
            final(self).tokens@ == old(self).tokens@,
            match r {
                Ok(e) => p_primary(old(self).ts(), old(self).pos as int) == Ok::<(Term, int), ErrorView>(
                    (e@, final(self).pos as int),
                ),
                Err(err) => p_primary(old(self).ts(), old(self).pos as int) == Err::<
                    (Term, int),
                    ErrorView,
                >(err@),
            },
            r is Ok ==> old(self).pos < final(self).pos <= final(self).tokens.len(),
        decreases old(self).tokens.len() - old(self).pos, 2nat,
    {
        let p = self.pos;
        if p >= self.tokens.len() {
            let mut m = String::from_str("unexpected token in primary position: ");
            self.push_opt_tok_text(&mut m, p);
            return Err(ExpressionError::ParseError { message: m, position: p });
        }
        let kind: u8 = match &self.tokens[p] {
            Token::Number(_) => 0,
            Token::FieldRef(_) => 1,
            Token::Keyword(KeywordKind::If) => 2,
            Token::Identifier(_) => 3,
            Token::LeftParen => 4,
            _ => 5,
        };
        if kind == 0 {
            let n = match &self.tokens[p] {
                Token::Number(n) => *n,
                _ => Num::zero(),
            };
            self.pos = p + 1;
            Ok(Expr::Number(n))
        } else if kind == 1 {
            let name = match &self.tokens[p] {
                Token::FieldRef(s) => copy_string(s),
                _ => String::new(),
            };
            self.pos = p + 1;
            Ok(Expr::FieldRef(name))
        } else if kind == 2 {
            self.pos = p + 1;
            self.expect_token(&Token::LeftParen)?;
            let cond = self.parse_expr()?;
            self.expect_token(&Token::Comma)?;
            let tv = self.parse_expr()?;
            self.expect_token(&Token::Comma)?;
            let fv = self.parse_expr()?;
            self.expect_token(&Token::RightParen)?;
            Ok(
                Expr::Conditional {
                    condition: Box::new(cond),
                    true_val: Box::new(tv),
                    false_val: Box::new(fv),
                },
            )
        } else if kind == 3 {
            let name = match &self.tokens[p] {
                Token::Identifier(s) => copy_string(s),
                _ => String::new(),
            };
            self.pos = p + 1;
            let call = self.pos < self.tokens.len() && match &self.tokens[self.pos] {
                Token::LeftParen => true,
                _ => false,
            };
            if call {
                self.pos = self.pos + 1;
                let args = self.parse_arg_list()?;
                self.expect_token(&Token::RightParen)?;
                build_call(name, args, self.pos)
            } else {
                Ok(name_expr(name))
            }
        } else if kind == 4 {
            self.pos = p + 1;
            let inner = self.parse_expr()?;
            self.expect_token(&Token::RightParen)?;
            Ok(inner)
        } else {
            let mut m = String::from_str("unexpected token in primary position: ");
            self.push_opt_tok_text(&mut m, p);
            Err(ExpressionError::ParseError { message: m, position: p })
        }
    }

    fn parse_arg_list(&mut self) -> (r: Result<Vec<Expr>, ExpressionError>)
        requires
            old(self).pos <= old(self).tokens.len(),
        ensures
            final(self).tokens@ == old(self).tokens@,
            match r {
                Ok(args) => p_args(old(self).ts(), old(self).pos as int) == Ok::<
                    (Seq<Term>, int),
                    ErrorView,
                >((view_exprs(args@), final(self).pos as int)),
                Err(err) => p_args(old(self).ts(), old(self).pos as int) == Err::<
                    (Seq<Term>, int),
                    ErrorView,
                >(err@),
            },
            r is Ok ==> old(self).pos <= final(self).pos <= final(self).tokens.len(),
        decreases old(self).tokens.len() - old(self).pos, 8nat,
    {
        let ghost ts = self.ts();
        let ghost start = self.pos as int;
        let mut args: Vec<Expr> = Vec::new();
        let close = self.pos < self.tokens.len() && match &self.tokens[self.pos] {
            Token::RightParen => true,
            _ => false,
        };
        if close {
            return Ok(args);
        }
        let first = self.parse_expr()?;
        args.push(first);
        proof {
            lemma_view_exprs_push(Seq::empty(), first);
            assert(Seq::<Expr>::empty().push(first) =~= args@);
            assert(view_exprs(Seq::<Expr>::empty()) =~= Seq::<Term>::empty());
            assert(seq![first@] =~= Seq::<Term>::empty().push(first@));
        }
        loop
            invariant
                self.tokens@ == old(self).tokens@,
                ts == view_tokens(old(self).tokens@),
                start == old(self).pos as int,
                start < self.pos <= self.tokens.len(),
                p_args(ts, start) == p_args_rest(ts, self.pos as int, view_exprs(args@)),
            decreases self.tokens.len() - self.pos,
        {
            let comma = self.pos < self.tokens.len() && match &self.tokens[self.pos] {
                Token::Comma => true,
                _ => false,
            };
            if !comma {
                return Ok(args);
            }
            self.pos = self.pos + 1;
            let a = self.parse_expr()?;
            proof {
                lemma_view_exprs_push(args@, a);
            }
            args.push(a);
        }
    }
}

fn name_expr(name: String) -> (e: Expr)
    ensures
        e@ == name_term(name@),
{
    if str_eq(&name, "pi") || str_eq(&name, "PI") {
        Expr::Constant(String::from_str("pi"))
    } else if str_eq(&name, "e") || str_eq(&name, "E_CONST") {
        Expr::Constant(String::from_str("e"))
    } else {
        Expr::Variable(name)
    }
}

fn unary_op_exec(name: &String) -> (r: Option<UnOp>)
    ensures
        r == unary_op_of(name@),
{
    if str_eq(name, "sin") {
        Some(UnOp::Sin)
    } else if str_eq(name, "cos") {
        Some(UnOp::Cos)
    } else if str_eq(name, "exp") {
        Some(UnOp::Exp)
    } else if str_eq(name, "log") || str_eq(name, "ln") {
        Some(UnOp::Log)
    } else if str_eq(name, "sqrt") {
        Some(UnOp::Sqrt)
    } else if str_eq(name, "abs") {
        Some(UnOp::Abs)
    } else if str_eq(name, "neg") {
        Some(UnOp::Neg)
    } else {
        None
    }
}

fn diff_op_exec(name: &String) -> (r: Option<DiffOperator>)
    ensures
        r == diff_op_of(name@),
{
    if str_eq(name, "ddt") || str_eq(name, "time_derivative") {
        Some(DiffOperator::TimeDerivative)
    } else if str_eq(name, "grad") || str_eq(name, "gradient") {
        Some(DiffOperator::Gradient)
    } else if str_eq(name, "div") || str_eq(name, "divergence") {
        Some(DiffOperator::Divergence)
    } else if str_eq(name, "laplacian") {
        Some(DiffOperator::Laplacian)
    } else if str_eq(name, "curl") {
        Some(DiffOperator::Curl)
    } else {
        None
    }
}

fn tensor_op_exec(name: &String) -> (r: Option<TensorOperator>)
    ensures
        r == tensor_op_of(name@),
{
    if str_eq(name, "dot") {
        Some(TensorOperator::Dot)
    } else if str_eq(name, "cross") {
        Some(TensorOperator::Cross)
    } else if str_eq(name, "outer") {
        Some(TensorOperator::Outer)
    } else if str_eq(name, "tr") || str_eq(name, "trace") {
        Some(TensorOperator::Trace)
    } else if str_eq(name, "transpose") {
        Some(TensorOperator::Transpose)
    } else if str_eq(name, "sym") || str_eq(name, "symmetric") {
        Some(TensorOperator::Symmetric)
    } else if str_eq(name, "skew") {
        Some(TensorOperator::Skew)
    } else if str_eq(name, "mag") || str_eq(name, "magnitude") {
        Some(TensorOperator::Magnitude)
    } else if str_eq(name, "magSqr") {
        Some(TensorOperator::MagnitudeSqr)
    } else if str_eq(name, "det") || str_eq(name, "determinant") {
        Some(TensorOperator::Determinant)
    } else if str_eq(name, "inv") || str_eq(name, "inverse") {
        Some(TensorOperator::Inverse)
    } else {
        None
    }
}

/// Map a function name and its arguments to the node it stands for.
fn build_call(name: String, args: Vec<Expr>, pos: usize) -> (r: Result<Expr, ExpressionError>)
    ensures
        match r {
            Ok(e) => call_term(name@, view_exprs(args@), pos as int) == Ok::<Term, ErrorView>(e@),
            Err(err) => call_term(name@, view_exprs(args@), pos as int) == Err::<Term, ErrorView>(
                err@,
            ),
        },
{
    proof {
        lemma_view_exprs(args@);
    }
    match unary_op_exec(&name) {
        Some(op) => {
            if args.len() != 1 {
                let mut m = String::from_str("`");
                m.append(name.as_str());
                m.append("` expects 1 argument, got ");
                push_nat(&mut m, args.len() as u128);
                return Err(ExpressionError::ParseError { message: m, position: pos });
            }
            let mut args = args;
            let a = args.pop().unwrap();
            Ok(Expr::unaryop(op, a))
        },
        None => match diff_op_exec(&name) {
            Some(op) => Ok(Expr::DiffOp { op, operands: args }),
            None => match tensor_op_exec(&name) {
                Some(op) => Ok(Expr::TensorOp { op, operands: args }),
                None => Ok(Expr::FunctionCall { name, args }),
            },
        },
    }
}

/// Parse an expression string into an [`Expr`].
pub fn parse(input: &str) -> (r: Result<Expr, ExpressionError>)
    ensures
        match r {
            Ok(e) => spec_parse(input@) == Ok::<Term, ErrorView>(e@),
            Err(err) => spec_parse(input@) == Err::<Term, ErrorView>(err@),
        },
{
    let tokens = tokenize(input)?;
    let mut parser = Parser { tokens, pos: 0 };
    let expr = parser.parse_expr()?;
    if parser.pos < parser.tokens.len() {
        let mut m = String::from_str("unexpected token after expression: ");
        push_tok_text(&mut m, &parser.tokens[parser.pos]);
        return Err(ExpressionError::ParseError { message: m, position: parser.pos });
    }
    Ok(expr)
}


// ---------------------------------------------------------------------------
// laws
// ---------------------------------------------------------------------------

/// The primary expression at `p` is `t`, and parsing goes on at `q`.
pub open spec fn primary_is(ts: Seq<Tok>, p: int, t: Term, q: int) -> bool {
    p_primary(ts, p) == Ok::<(Term, int), ErrorView>((t, q))
}

/// At `p` stands a call of `name`: the name, `(`, the arguments `args`
/// ending at `p1`, and `)`.
pub open spec fn call_at(ts: Seq<Tok>, p: int, name: Seq<char>, args: Seq<Term>, p1: int) -> bool {
    &&& 0 <= p
    &&& peek(ts, p) == Some(Tok::Identifier(name))
    &&& peek(ts, p + 1) == Some(Tok::LeftParen)
    &&& p_args(ts, p + 2) == Ok::<(Seq<Term>, int), ErrorView>((args, p1))
    &&& peek(ts, p1) == Some(Tok::RightParen)
}

proof fn lemma_call_at(ts: Seq<Tok>, p: int, name: Seq<char>, args: Seq<Term>, p1: int)
    requires
        call_at(ts, p, name, args, p1),
    ensures
        p_primary(ts, p) == match call_term(name, args, p1 + 1) {
            Err(e) => Err(e),
            Ok(t) => Ok::<(Term, int), ErrorView>((t, p1 + 1)),
        },
{
    assert(p_expect(ts, p1, Tok::RightParen) == Ok::<int, ErrorView>(p1 + 1));
}

/// The call names of the operator tables are distinct.
proof fn lemma_call_names_distinct()
    ensures
        "sin"@ != "cos"@,
        "sin"@ != "exp"@,
        "sin"@ != "log"@,
        "sin"@ != "abs"@,
        "sin"@ != "neg"@,
        "sin"@ != "ddt"@,
        "sin"@ != "div"@,
        "sin"@ != "dot"@,
        "sin"@ != "sym"@,
        "sin"@ != "mag"@,
        "sin"@ != "det"@,
        "sin"@ != "inv"@,
        "cos"@ != "exp"@,
        "cos"@ != "log"@,
        "cos"@ != "abs"@,
        "cos"@ != "neg"@,
        "cos"@ != "ddt"@,
        "cos"@ != "div"@,
        "cos"@ != "dot"@,
        "cos"@ != "sym"@,
        "cos"@ != "mag"@,
        "cos"@ != "det"@,
        "cos"@ != "inv"@,
        "exp"@ != "log"@,
        "exp"@ != "abs"@,
        "exp"@ != "neg"@,
        "exp"@ != "ddt"@,
        "exp"@ != "div"@,
        "exp"@ != "dot"@,
        "exp"@ != "sym"@,
        "exp"@ != "mag"@,
        "exp"@ != "det"@,
        "exp"@ != "inv"@,
        "log"@ != "abs"@,
        "log"@ != "neg"@,
        "log"@ != "ddt"@,
        "log"@ != "div"@,
        "log"@ != "dot"@,
        "log"@ != "sym"@,
        "log"@ != "mag"@,
        "log"@ != "det"@,
        "log"@ != "inv"@,
        "ln"@ != "tr"@,
        "sqrt"@ != "grad"@,
        "sqrt"@ != "curl"@,
        "sqrt"@ != "skew"@,
        "abs"@ != "neg"@,
        "abs"@ != "ddt"@,
        "abs"@ != "div"@,
        "abs"@ != "dot"@,
        "abs"@ != "sym"@,
        "abs"@ != "mag"@,
        "abs"@ != "det"@,
        "abs"@ != "inv"@,
        "neg"@ != "ddt"@,
        "neg"@ != "div"@,
        "neg"@ != "dot"@,
        "neg"@ != "sym"@,
        "neg"@ != "mag"@,
        "neg"@ != "det"@,
        "neg"@ != "inv"@,
        "ddt"@ != "div"@,
        "ddt"@ != "dot"@,
        "ddt"@ != "sym"@,
        "ddt"@ != "mag"@,
        "ddt"@ != "det"@,
        "ddt"@ != "inv"@,
        "grad"@ != "curl"@,
        "grad"@ != "skew"@,
        "div"@ != "dot"@,
        "div"@ != "sym"@,
        "div"@ != "mag"@,
        "div"@ != "det"@,
        "div"@ != "inv"@,
        "laplacian"@ != "transpose"@,
        "laplacian"@ != "symmetric"@,
        "laplacian"@ != "magnitude"@,
        "curl"@ != "skew"@,
        "dot"@ != "sym"@,
        "dot"@ != "mag"@,
        "dot"@ != "det"@,
        "dot"@ != "inv"@,
        "cross"@ != "outer"@,
        "cross"@ != "trace"@,
        "outer"@ != "trace"@,
        "transpose"@ != "symmetric"@,
        "transpose"@ != "magnitude"@,
        "sym"@ != "mag"@,
        "sym"@ != "det"@,
        "sym"@ != "inv"@,
        "symmetric"@ != "magnitude"@,
        "mag"@ != "det"@,
        "mag"@ != "inv"@,
        "det"@ != "inv"@,
{
    reveal_strlit("sin");
    reveal_strlit("cos");
    reveal_strlit("exp");
    reveal_strlit("log");
    reveal_strlit("ln");
    reveal_strlit("sqrt");
    reveal_strlit("abs");
    reveal_strlit("neg");
    reveal_strlit("ddt");
    reveal_strlit("time_derivative");
    reveal_strlit("grad");
    reveal_strlit("gradient");
    reveal_strlit("div");
    reveal_strlit("divergence");
    reveal_strlit("laplacian");
    reveal_strlit("curl");
    reveal_strlit("dot");
    reveal_strlit("cross");
    reveal_strlit("outer");
    reveal_strlit("tr");
    reveal_strlit("trace");
    reveal_strlit("transpose");
    reveal_strlit("sym");
    reveal_strlit("symmetric");
    reveal_strlit("skew");
    reveal_strlit("mag");
    reveal_strlit("magnitude");
    reveal_strlit("magSqr");
    reveal_strlit("det");
    reveal_strlit("determinant");
    reveal_strlit("inv");
    reveal_strlit("inverse");
    assert("sin"@[0] != "cos"@[0]);
    assert("sin"@[0] != "exp"@[0]);
    assert("sin"@[0] != "log"@[0]);
    assert("sin"@[0] != "abs"@[0]);
    assert("sin"@[0] != "neg"@[0]);
    assert("sin"@[0] != "ddt"@[0]);
    assert("sin"@[0] != "div"@[0]);
    assert("sin"@[0] != "dot"@[0]);
    assert("sin"@[1] != "sym"@[1]);
    assert("sin"@[0] != "mag"@[0]);
    assert("sin"@[0] != "det"@[0]);
    assert("sin"@[0] != "inv"@[0]);
    assert("cos"@[0] != "exp"@[0]);
    assert("cos"@[0] != "log"@[0]);
    assert("cos"@[0] != "abs"@[0]);
    assert("cos"@[0] != "neg"@[0]);
    assert("cos"@[0] != "ddt"@[0]);
    assert("cos"@[0] != "div"@[0]);
    assert("cos"@[0] != "dot"@[0]);
    assert("cos"@[0] != "sym"@[0]);
    assert("cos"@[0] != "mag"@[0]);
    assert("cos"@[0] != "det"@[0]);
    assert("cos"@[0] != "inv"@[0]);
    assert("exp"@[0] != "log"@[0]);
    assert("exp"@[0] != "abs"@[0]);
    assert("exp"@[0] != "neg"@[0]);
    assert("exp"@[0] != "ddt"@[0]);
    assert("exp"@[0] != "div"@[0]);
    assert("exp"@[0] != "dot"@[0]);
    assert("exp"@[0] != "sym"@[0]);
    assert("exp"@[0] != "mag"@[0]);
    assert("exp"@[0] != "det"@[0]);
    assert("exp"@[0] != "inv"@[0]);
    assert("log"@[0] != "abs"@[0]);
    assert("log"@[0] != "neg"@[0]);
    assert("log"@[0] != "ddt"@[0]);
    assert("log"@[0] != "div"@[0]);
    assert("log"@[0] != "dot"@[0]);
    assert("log"@[0] != "sym"@[0]);
    assert("log"@[0] != "mag"@[0]);
    assert("log"@[0] != "det"@[0]);
    assert("log"@[0] != "inv"@[0]);
    assert("ln"@[0] != "tr"@[0]);
    assert("sqrt"@[0] != "grad"@[0]);
    assert("sqrt"@[0] != "curl"@[0]);
    assert("sqrt"@[1] != "skew"@[1]);
    assert("abs"@[0] != "neg"@[0]);
    assert("abs"@[0] != "ddt"@[0]);
    assert("abs"@[0] != "div"@[0]);
    assert("abs"@[0] != "dot"@[0]);
    assert("abs"@[0] != "sym"@[0]);
    assert("abs"@[0] != "mag"@[0]);
    assert("abs"@[0] != "det"@[0]);
    assert("abs"@[0] != "inv"@[0]);
    assert("neg"@[0] != "ddt"@[0]);
    assert("neg"@[0] != "div"@[0]);
    assert("neg"@[0] != "dot"@[0]);
    assert("neg"@[0] != "sym"@[0]);
    assert("neg"@[0] != "mag"@[0]);
    assert("neg"@[0] != "det"@[0]);
    assert("neg"@[0] != "inv"@[0]);
    assert("ddt"@[1] != "div"@[1]);
    assert("ddt"@[1] != "dot"@[1]);
    assert("ddt"@[0] != "sym"@[0]);
    assert("ddt"@[0] != "mag"@[0]);
    assert("ddt"@[1] != "det"@[1]);
    assert("ddt"@[0] != "inv"@[0]);
    assert("grad"@[0] != "curl"@[0]);
    assert("grad"@[0] != "skew"@[0]);
    assert("div"@[1] != "dot"@[1]);
    assert("div"@[0] != "sym"@[0]);
    assert("div"@[0] != "mag"@[0]);
    assert("div"@[1] != "det"@[1]);
    assert("div"@[0] != "inv"@[0]);
    assert("laplacian"@[0] != "transpose"@[0]);
    assert("laplacian"@[0] != "symmetric"@[0]);
    assert("laplacian"@[0] != "magnitude"@[0]);
    assert("curl"@[0] != "skew"@[0]);
    assert("dot"@[0] != "sym"@[0]);
    assert("dot"@[0] != "mag"@[0]);
    assert("dot"@[1] != "det"@[1]);
    assert("dot"@[0] != "inv"@[0]);
    assert("cross"@[0] != "outer"@[0]);
    assert("cross"@[0] != "trace"@[0]);
    assert("outer"@[0] != "trace"@[0]);
    assert("transpose"@[0] != "symmetric"@[0]);
    assert("transpose"@[0] != "magnitude"@[0]);
    assert("sym"@[0] != "mag"@[0]);
    assert("sym"@[0] != "det"@[0]);
    assert("sym"@[0] != "inv"@[0]);
    assert("symmetric"@[0] != "magnitude"@[0]);
    assert("mag"@[0] != "det"@[0]);
    assert("mag"@[0] != "inv"@[0]);
    assert("det"@[0] != "inv"@[0]);
}

/// A call of a built-in function takes one argument and stands for the
/// function applied to it: `sin`, `cos`, `exp`, `log` or `ln`, `sqrt`,
/// `abs`, `neg`; with any other number of arguments it is an error.
pub proof fn law_call_functions(ts: Seq<Tok>, p: int, name: Seq<char>, args: Seq<Term>, p1: int)
    requires
        call_at(ts, p, name, args, p1),
    ensures
        (name == "sin"@) && args.len() == 1 ==> primary_is(ts, p, un(UnOp::Sin, args[0]), p1 + 1),
        (name == "cos"@) && args.len() == 1 ==> primary_is(ts, p, un(UnOp::Cos, args[0]), p1 + 1),
        (name == "exp"@) && args.len() == 1 ==> primary_is(ts, p, un(UnOp::Exp, args[0]), p1 + 1),
        (name == "log"@ || name == "ln"@) && args.len() == 1 ==> primary_is(ts, p, un(UnOp::Log, args[0]), p1 + 1),
        (name == "sqrt"@) && args.len() == 1 ==> primary_is(ts, p, un(UnOp::Sqrt, args[0]), p1 + 1),
        (name == "abs"@) && args.len() == 1 ==> primary_is(ts, p, un(UnOp::Abs, args[0]), p1 + 1),
        (name == "neg"@) && args.len() == 1 ==> primary_is(ts, p, un(UnOp::Neg, args[0]), p1 + 1),
        (name == "sin"@ || name == "cos"@ || name == "exp"@ || name == "log"@ || name == "ln"@ || name == "sqrt"@ || name == "abs"@ || name == "neg"@) && args.len() != 1 ==> p_primary(ts, p) is Err,
{
    lemma_call_at(ts, p, name, args, p1);
    lemma_call_names_distinct();
    reveal_strlit("sin");
    reveal_strlit("cos");
    reveal_strlit("exp");
    reveal_strlit("log");
    reveal_strlit("ln");
    reveal_strlit("sqrt");
    reveal_strlit("abs");
    reveal_strlit("neg");
}

/// A call of a differential operator stands for the operator on all its
/// arguments: `ddt` or `time_derivative`, `grad` or `gradient`, `div` or
/// `divergence`, `laplacian`, `curl`.
pub proof fn law_call_differential_operators(ts: Seq<Tok>, p: int, name: Seq<char>, args: Seq<Term>, p1: int)
    requires
        call_at(ts, p, name, args, p1),
    ensures
        name == "ddt"@ || name == "time_derivative"@ ==> primary_is(ts, p, Term::DiffOp { op: DiffOperator::TimeDerivative, operands: args }, p1 + 1),
        name == "grad"@ || name == "gradient"@ ==> primary_is(ts, p, Term::DiffOp { op: DiffOperator::Gradient, operands: args }, p1 + 1),
        name == "div"@ || name == "divergence"@ ==> primary_is(ts, p, Term::DiffOp { op: DiffOperator::Divergence, operands: args }, p1 + 1),
        name == "laplacian"@ ==> primary_is(ts, p, Term::DiffOp { op: DiffOperator::Laplacian, operands: args }, p1 + 1),
        name == "curl"@ ==> primary_is(ts, p, Term::DiffOp { op: DiffOperator::Curl, operands: args }, p1 + 1),
{
    lemma_call_at(ts, p, name, args, p1);
    lemma_call_names_distinct();
    reveal_strlit("sin");
    reveal_strlit("cos");
    reveal_strlit("exp");
    reveal_strlit("log");
    reveal_strlit("ln");
    reveal_strlit("sqrt");
    reveal_strlit("abs");
    reveal_strlit("neg");
    reveal_strlit("ddt");
    reveal_strlit("time_derivative");
    reveal_strlit("grad");
    reveal_strlit("gradient");
    reveal_strlit("div");
    reveal_strlit("divergence");
    reveal_strlit("laplacian");
    reveal_strlit("curl");
}

/// A call of a tensor operator stands for the operator on all its
/// arguments, under the names `dot`, `cross`, `outer`, `tr` or `trace`,
/// `transpose`, `sym` or `symmetric`, `skew`, `mag` or `magnitude`,
/// `magSqr`, `det` or `determinant`, `inv` or `inverse`.
pub proof fn law_call_tensor_operators(ts: Seq<Tok>, p: int, name: Seq<char>, args: Seq<Term>, p1: int)
    requires
        call_at(ts, p, name, args, p1),
    ensures
        name == "dot"@ ==> primary_is(ts, p, Term::TensorOp { op: TensorOperator::Dot, operands: args }, p1 + 1),
        name == "cross"@ ==> primary_is(ts, p, Term::TensorOp { op: TensorOperator::Cross, operands: args }, p1 + 1),
        name == "outer"@ ==> primary_is(ts, p, Term::TensorOp { op: TensorOperator::Outer, operands: args }, p1 + 1),
        name == "tr"@ || name == "trace"@ ==> primary_is(ts, p, Term::TensorOp { op: TensorOperator::Trace, operands: args }, p1 + 1),
        name == "transpose"@ ==> primary_is(ts, p, Term::TensorOp { op: TensorOperator::Transpose, operands: args }, p1 + 1),
        name == "sym"@ || name == "symmetric"@ ==> primary_is(ts, p, Term::TensorOp { op: TensorOperator::Symmetric, operands: args }, p1 + 1),
        name == "skew"@ ==> primary_is(ts, p, Term::TensorOp { op: TensorOperator::Skew, operands: args }, p1 + 1),
        name == "mag"@ || name == "magnitude"@ ==> primary_is(ts, p, Term::TensorOp { op: TensorOperator::Magnitude, operands: args }, p1 + 1),
        name == "magSqr"@ ==> primary_is(ts, p, Term::TensorOp { op: TensorOperator::MagnitudeSqr, operands: args }, p1 + 1),
        name == "det"@ || name == "determinant"@ ==> primary_is(ts, p, Term::TensorOp { op: TensorOperator::Determinant, operands: args }, p1 + 1),
        name == "inv"@ || name == "inverse"@ ==> primary_is(ts, p, Term::TensorOp { op: TensorOperator::Inverse, operands: args }, p1 + 1),
{
    lemma_call_at(ts, p, name, args, p1);
    lemma_call_names_distinct();
    reveal_strlit("sin");
    reveal_strlit("cos");
    reveal_strlit("exp");
    reveal_strlit("log");
    reveal_strlit("ln");
    reveal_strlit("sqrt");
    reveal_strlit("abs");
    reveal_strlit("neg");
    reveal_strlit("ddt");
    reveal_strlit("time_derivative");
    reveal_strlit("grad");
    reveal_strlit("gradient");
    reveal_strlit("div");
    reveal_strlit("divergence");
    reveal_strlit("laplacian");
    reveal_strlit("curl");
    reveal_strlit("dot");
    reveal_strlit("cross");
    reveal_strlit("outer");
    reveal_strlit("tr");
    reveal_strlit("trace");
    reveal_strlit("transpose");
    reveal_strlit("sym");
    reveal_strlit("symmetric");
    reveal_strlit("skew");
    reveal_strlit("mag");
    reveal_strlit("magnitude");
    reveal_strlit("magSqr");
    reveal_strlit("det");
    reveal_strlit("determinant");
    reveal_strlit("inv");
    reveal_strlit("inverse");
}

/// A call of any other name is a generic function call on its arguments.
pub proof fn law_call_other_names(ts: Seq<Tok>, p: int, name: Seq<char>, args: Seq<Term>, p1: int)
    requires
        call_at(ts, p, name, args, p1),
        !(name == "sin"@ || name == "cos"@ || name == "exp"@ || name == "log"@ || name == "ln"@ || name == "sqrt"@ || name == "abs"@ || name == "neg"@ || name == "ddt"@ || name == "time_derivative"@ || name == "grad"@ || name == "gradient"@ || name == "div"@ || name == "divergence"@ || name == "laplacian"@ || name == "curl"@ || name == "dot"@ || name == "cross"@ || name == "outer"@ || name == "tr"@ || name == "trace"@ || name == "transpose"@ || name == "sym"@ || name == "symmetric"@ || name == "skew"@ || name == "mag"@ || name == "magnitude"@ || name == "magSqr"@ || name == "det"@ || name == "determinant"@ || name == "inv"@ || name == "inverse"@),
    ensures
        primary_is(ts, p, Term::FunctionCall { name, args }, p1 + 1),
{
    lemma_call_at(ts, p, name, args, p1);
    lemma_call_names_distinct();
}

/// The binary operators: `+` and `-` join terms from the left into sums
/// and differences, `*` and `/` join factors from the left into products
/// and quotients, and `^` joins a base to the power that follows, which
/// groups to the right; a leading `-` negates its operand.
pub proof fn law_operator_tokens(ts: Seq<Tok>, p: int, left: Term, r: Term, q: int)
    requires
        0 <= p < q <= ts.len(),
    ensures
        peek(ts, p) == Some(Tok::Operator('+')) && p_multiplicative(ts, p + 1) == Ok::<(Term, int), ErrorView>((r, q))
            ==> p_additive_rest(ts, p, left) == p_additive_rest(ts, q, bin(BinOp::Add, left, r)),
        peek(ts, p) == Some(Tok::Operator('-')) && p_multiplicative(ts, p + 1) == Ok::<(Term, int), ErrorView>((r, q))
            ==> p_additive_rest(ts, p, left) == p_additive_rest(ts, q, bin(BinOp::Sub, left, r)),
        peek(ts, p) == Some(Tok::Operator('*')) && p_power(ts, p + 1) == Ok::<(Term, int), ErrorView>((r, q))
            ==> p_multiplicative_rest(ts, p, left) == p_multiplicative_rest(ts, q, bin(BinOp::Mul, left, r)),
        peek(ts, p) == Some(Tok::Operator('/')) && p_power(ts, p + 1) == Ok::<(Term, int), ErrorView>((r, q))
            ==> p_multiplicative_rest(ts, p, left) == p_multiplicative_rest(ts, q, bin(BinOp::Div, left, r)),
        !(peek(ts, p) == Some(Tok::Operator('+')) || peek(ts, p) == Some(Tok::Operator('-')))
            ==> p_additive_rest(ts, p, left) == Ok::<(Term, int), ErrorView>((left, p)),
        !(peek(ts, p) == Some(Tok::Operator('*')) || peek(ts, p) == Some(Tok::Operator('/')))
            ==> p_multiplicative_rest(ts, p, left) == Ok::<(Term, int), ErrorView>((left, p)),
        p_unary(ts, p) == Ok::<(Term, int), ErrorView>((left, p + 1)) && peek(ts, p + 1) == Some(
            Tok::Operator('^'),
        ) && p_power(ts, p + 2) == Ok::<(Term, int), ErrorView>((r, q)) ==> p_power(ts, p)
            == Ok::<(Term, int), ErrorView>((bin(BinOp::Pow, left, r), q)),
        peek(ts, p) == Some(Tok::Operator('-')) && p_unary(ts, p + 1) == Ok::<(Term, int), ErrorView>((left, q))
            && !(left matches Term::UnaryOp { op: UnOp::Neg, .. }) ==> p_unary(ts, p) == Ok::<(Term, int), ErrorView>(
            (un(UnOp::Neg, left), q),
        ),
{
}

/// A name that is not called stands for a constant (`pi`, `PI`; `e`,
/// `E_CONST`) or else for a variable of that name.
pub proof fn law_plain_names(ts: Seq<Tok>, p: int, name: Seq<char>)
    requires
        0 <= p,
        peek(ts, p) == Some(Tok::Identifier(name)),
        peek(ts, p + 1) != Some(Tok::LeftParen),
    ensures
        name == "pi"@ || name == "PI"@ ==> primary_is(ts, p, Term::Constant("pi"@), p + 1),
        name == "e"@ || name == "E_CONST"@ ==> primary_is(ts, p, Term::Constant("e"@), p + 1),
        !(name == "pi"@ || name == "PI"@ || name == "e"@ || name == "E_CONST"@) ==> primary_is(
            ts,
            p,
            Term::Variable(name),
            p + 1,
        ),
{
    reveal_strlit("pi");
    reveal_strlit("PI");
    reveal_strlit("e");
    reveal_strlit("E_CONST");
}

} // verus!
