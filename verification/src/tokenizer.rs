//! Lexical scanner for expression strings.
use vstd::prelude::*;

use crate::error::{ErrorView, ExpressionError};
use crate::number::{make, spec_make, Num, EXP_BOUND};
use crate::text::{
    char_is_alphanumeric, char_is_ascii_alpha, char_is_ascii_space, char_is_digit, chars_of,
    digits_value, is_alphanumeric, is_ascii_alpha, is_ascii_space, is_digit, push_char, str_eq,
    string_from_chars,
};

verus! {

broadcast use vstd::string::group_string_axioms;

/// Keywords recognised by the tokenizer.
#[derive(Debug, Clone, Copy, PartialEq, Eq, Structural)]
pub enum KeywordKind {
    Const,
    If,
    Switch,
}

/// A single lexical token produced by the scanner.
#[derive(Debug, PartialEq)]
pub enum Token {
    /// Numeric literal (integer or decimal, incl. scientific notation).
    Number(Num),
    /// Plain identifier (`x`, `rho`, `sin`, ...).
    Identifier(String),
    /// Field reference starting with `$` (the `$` is stripped).
    FieldRef(String),
    /// Arithmetic operator character.
    Operator(char),
    LeftParen,
    RightParen,
    Comma,
    Equals,
    Semicolon,
    /// Reserved keyword.
    Keyword(KeywordKind),
}

/// The mathematical value of a [`Token`].
pub enum Tok {
    Number(Num),
    Identifier(Seq<char>),
    FieldRef(Seq<char>),
    Operator(char),
    LeftParen,
    RightParen,
    Comma,
    Equals,
    Semicolon,
    Keyword(KeywordKind),
}

impl View for Token {
    type V = Tok;

    open spec fn view(&self) -> Tok {
        match self {
            Token::Number(n) => Tok::Number(*n),
            Token::Identifier(s) => Tok::Identifier(s@),
            Token::FieldRef(s) => Tok::FieldRef(s@),
            Token::Operator(c) => Tok::Operator(*c),
            Token::LeftParen => Tok::LeftParen,
            Token::RightParen => Tok::RightParen,
            Token::Comma => Tok::Comma,
            Token::Equals => Tok::Equals,
            Token::Semicolon => Tok::Semicolon,
            Token::Keyword(k) => Tok::Keyword(*k),
        }
    }
}

pub open spec fn view_tokens(ts: Seq<Token>) -> Seq<Tok> {
    ts.map_values(|t: Token| t@)
}

// ---------------------------------------------------------------------------
// specification of the scanner
// ---------------------------------------------------------------------------

pub open spec fn ident_char(c: char) -> bool {
    is_alphanumeric(c) || c == '_'
}

/// First index at or after `i` that does not hold an identifier character.
pub open spec fn ident_end(cs: Seq<char>, i: int) -> int
    decreases cs.len() - i,
{
    if 0 <= i < cs.len() && ident_char(cs[i]) {
        ident_end(cs, i + 1)
    } else {
        i
    }
}

/// First index at or after `i` that does not hold a decimal digit.
pub open spec fn digits_end(cs: Seq<char>, i: int) -> int
    decreases cs.len() - i,
{
    if 0 <= i < cs.len() && is_digit(cs[i]) {
        digits_end(cs, i + 1)
    } else {
        i
    }
}

/// First index at or after `i` that holds a line feed, or the end.
pub open spec fn line_end(cs: Seq<char>, i: int) -> int
    decreases cs.len() - i,
{
    if 0 <= i < cs.len() && cs[i] != '\n' {
        line_end(cs, i + 1)
    } else {
        i
    }
}

pub proof fn lemma_ends(cs: Seq<char>, i: int)
    requires
        0 <= i <= cs.len(),
    ensures
        i <= ident_end(cs, i) <= cs.len(),
        i <= digits_end(cs, i) <= cs.len(),
        i <= line_end(cs, i) <= cs.len(),
        forall|j: int| i <= j < digits_end(cs, i) ==> is_digit(#[trigger] cs[j]),
        i < cs.len() && is_digit(cs[i]) ==> digits_end(cs, i) > i,
        i < cs.len() && ident_char(cs[i]) ==> ident_end(cs, i) > i,
        i < cs.len() && cs[i] != '\n' ==> line_end(cs, i) > i,
    decreases cs.len() - i,
{
    if i < cs.len() {
        lemma_ends(cs, i + 1);
    }
}

/// A numeric literal starts here.
pub open spec fn number_start(cs: Seq<char>, pos: int) -> bool {
    is_digit(cs[pos]) || (cs[pos] == '.' && pos + 1 < cs.len() && is_digit(cs[pos + 1]))
}

pub open spec fn tokenize_error(message: Seq<char>, position: int) -> ErrorView {
    ErrorView::TokenizeError { message, position: position as nat }
}

/// The number with decimal digits `md`, `fl` of them after the point, and
/// decimal exponent given by the digits `ed` (negative when `neg`).
pub open spec fn literal_value(md: Seq<char>, fl: int, neg: bool, ed: Seq<char>) -> Option<Num> {
    let m = digits_value(md);
    let ev = digits_value(ed);
    if m > i128::MAX || ev > EXP_BOUND || fl > EXP_BOUND {
        None
    } else {
        spec_make(m, (if neg { -ev } else { ev }) - fl)
    }
}

/// End of the integer and fraction digits of the literal starting at `pos`:
/// `(ie, fs, fe)` with integer digits `pos..ie` and fraction digits `fs..fe`.
pub open spec fn literal_mantissa(cs: Seq<char>, pos: int) -> (int, int, int) {
    let ie = digits_end(cs, pos);
    if ie < cs.len() && cs[ie] == '.' {
        (ie, ie + 1, digits_end(cs, ie + 1))
    } else {
        (ie, ie, ie)
    }
}

/// Scan the numeric literal starting at `pos`: its value and end.
pub open spec fn scan_number(cs: Seq<char>, pos: int) -> Result<(Num, int), ErrorView> {
    let (ie, fs, fe) = literal_mantissa(cs, pos);
    let md = cs.subrange(pos, ie) + cs.subrange(fs, fe);
    let fl = fe - fs;
    if fe < cs.len() && (cs[fe] == 'e' || cs[fe] == 'E') {
        let p = fe + 1;
        let signed = p < cs.len() && (cs[p] == '+' || cs[p] == '-');
        let neg = signed && cs[p] == '-';
        let ds = if signed { p + 1 } else { p };
        if ds >= cs.len() || !is_digit(cs[ds]) {
            Err(tokenize_error("expected digit in exponent"@, ds))
        } else {
            let de = digits_end(cs, ds);
            match literal_value(md, fl, neg, cs.subrange(ds, de)) {
                Some(n) => Ok((n, de)),
                None => Err(
                    tokenize_error(
                        "invalid number literal `"@ + cs.subrange(pos, de) + "`"@,
                        pos,
                    ),
                ),
            }
        }
    } else {
        match literal_value(md, fl, false, Seq::empty()) {
            Some(n) => Ok((n, fe)),
            None => Err(
                tokenize_error("invalid number literal `"@ + cs.subrange(pos, fe) + "`"@, pos),
            ),
        }
    }
}

pub proof fn lemma_scan_number_progress(cs: Seq<char>, pos: int)
    requires
        0 <= pos < cs.len(),
        number_start(cs, pos),
    ensures
        scan_number(cs, pos) matches Ok((n, end)) ==> pos < end <= cs.len(),
{
    lemma_ends(cs, pos);
    let ie = digits_end(cs, pos);
    if ie < cs.len() && cs[ie] == '.' {
        lemma_ends(cs, ie + 1);
    }
    let (ie, fs, fe) = literal_mantissa(cs, pos);
    if fe < cs.len() && (cs[fe] == 'e' || cs[fe] == 'E') {
        let p = fe + 1;
        let signed = p < cs.len() && (cs[p] == '+' || cs[p] == '-');
        let ds = if signed { p + 1 } else { p };
        if ds < cs.len() {
            lemma_ends(cs, ds);
        }
    }
}

/// The token of an identifier-like word.
pub open spec fn word_token(w: Seq<char>) -> Tok {
    if w == "const"@ {
        Tok::Keyword(KeywordKind::Const)
    } else if w == "if"@ {
        Tok::Keyword(KeywordKind::If)
    } else if w == "switch"@ {
        Tok::Keyword(KeywordKind::Switch)
    } else {
        Tok::Identifier(w)
    }
}

/// The token of a single-character symbol.
pub open spec fn symbol_token(c: char) -> Option<Tok> {
    if c == '(' {
        Some(Tok::LeftParen)
    } else if c == ')' {
        Some(Tok::RightParen)
    } else if c == ',' {
        Some(Tok::Comma)
    } else if c == '=' {
        Some(Tok::Equals)
    } else if c == ';' {
        Some(Tok::Semicolon)
    } else if c == '+' || c == '-' || c == '*' || c == '/' || c == '^' {
        Some(Tok::Operator(c))
    } else {
        None
    }
}

/// Scan `cs` from `pos`, having produced `acc` so far.
pub open spec fn scan(cs: Seq<char>, pos: int, acc: Seq<Tok>) -> Result<Seq<Tok>, ErrorView>
    decreases cs.len() - pos,
{
    if pos < 0 || pos >= cs.len() {
        Ok(acc)
    } else {
        let ch = cs[pos];
        if is_ascii_space(ch) {
            scan(cs, pos + 1, acc)
        } else if ch == '/' && pos + 1 < cs.len() && cs[pos + 1] == '/' {
            proof {
                lemma_ends(cs, pos + 2);
            }
            scan(cs, line_end(cs, pos + 2), acc)
        } else if ch == '$' {
            proof {
                lemma_ends(cs, pos + 1);
            }
            let end = ident_end(cs, pos + 1);
            if end == pos + 1 {
                Err(tokenize_error("expected identifier after '$'"@, pos + 1))
            } else {
                scan(cs, end, acc.push(Tok::FieldRef(cs.subrange(pos + 1, end))))
            }
        } else if number_start(cs, pos) {
            proof {
                lemma_scan_number_progress(cs, pos);
            }
            match scan_number(cs, pos) {
                Err(e) => Err(e),
                Ok((n, end)) => scan(cs, end, acc.push(Tok::Number(n))),
            }
        } else if is_ascii_alpha(ch) || ch == '_' {
            proof {
                lemma_ends(cs, pos + 1);
            }
            let end = ident_end(cs, pos + 1);
            scan(cs, end, acc.push(word_token(cs.subrange(pos, end))))
        } else {
            match symbol_token(ch) {
                Some(t) => scan(cs, pos + 1, acc.push(t)),
                None => Err(
                    tokenize_error("unexpected character `"@ + seq![ch] + "`"@, pos),
                ),
            }
        }
    }
}

/// The tokens of an input text, or the error at the first place it cannot be scanned.
pub open spec fn spec_tokenize(cs: Seq<char>) -> Result<Seq<Tok>, ErrorView> {
    scan(cs, 0, Seq::empty())
}

// ---------------------------------------------------------------------------
// scanner
// ---------------------------------------------------------------------------

fn ident_end_exec(cs: &Vec<char>, start: usize) -> (end: usize)
    requires
        start <= cs.len(),
    ensures
        end == ident_end(cs@, start as int),
{
    let mut i = start;
    while i < cs.len() && (char_is_alphanumeric(cs[i]) || cs[i] == '_')
        invariant
            start <= i <= cs.len(),
            ident_end(cs@, i as int) == ident_end(cs@, start as int),
        decreases cs.len() - i,
    {
        i = i + 1;
    }
    i
}

fn digits_end_exec(cs: &Vec<char>, start: usize) -> (end: usize)
    requires
        start <= cs.len(),
    ensures
        end == digits_end(cs@, start as int),
{
    let mut i = start;
    while i < cs.len() && char_is_digit(cs[i])
        invariant
            start <= i <= cs.len(),
            digits_end(cs@, i as int) == digits_end(cs@, start as int),
        decreases cs.len() - i,
    {
        i = i + 1;
    }
    i
}

fn line_end_exec(cs: &Vec<char>, start: usize) -> (end: usize)
    requires
        start <= cs.len(),
    ensures
        end == line_end(cs@, start as int),
{
    let mut i = start;
    while i < cs.len() && cs[i] != '\n'
        invariant
            start <= i <= cs.len(),
            line_end(cs@, i as int) == line_end(cs@, start as int),
        decreases cs.len() - i,
    {
        i = i + 1;
    }
    i
}

proof fn lemma_digits_value_mono(s: Seq<char>, i: int, j: int)
    requires
        0 <= i <= j <= s.len(),
        forall|k: int| 0 <= k < s.len() ==> is_digit(#[trigger] s[k]),
    ensures
        0 <= digits_value(s.take(i)) <= digits_value(s.take(j)),
    decreases j - i,
{
    if i < j {
        lemma_digits_value_mono(s, i, j - 1);
        assert(s.take(j).drop_last() =~= s.take(j - 1));
        lemma_digits_value_nonneg(s.take(j - 1));
    } else {
        lemma_digits_value_nonneg(s.take(i));
    }
}

proof fn lemma_digits_value_nonneg(s: Seq<char>)
    requires
        forall|k: int| 0 <= k < s.len() ==> is_digit(#[trigger] s[k]),
    ensures
        digits_value(s) >= 0,
    decreases s.len(),
{
    if s.len() > 0 {
        lemma_digits_value_nonneg(s.drop_last());
    }
}

/// Value of the decimal digits `ds`, when it is at most `limit`.
fn digits_value_upto(ds: &Vec<char>, limit: u128) -> (r: Option<u128>)
    requires
        9 <= limit <= i128::MAX,
        forall|k: int| 0 <= k < ds.len() ==> is_digit(#[trigger] ds@[k]),
    ensures
        digits_value(ds@) >= 0,
        r is Some <==> digits_value(ds@) <= limit,
        r matches Some(v) ==> v == digits_value(ds@),
{
    proof {
        lemma_digits_value_nonneg(ds@);
    }
    let mut v: u128 = 0;
    let mut i: usize = 0;
    while i < ds.len()
        invariant
            0 <= i <= ds.len(),
            9 <= limit <= i128::MAX,
            forall|k: int| 0 <= k < ds.len() ==> is_digit(#[trigger] ds@[k]),
            v == digits_value(ds@.take(i as int)),
            v <= limit,
        decreases ds.len() - i,
    {
        let d = (ds[i] as u32 - '0' as u32) as u128;
        proof {
            assert(ds@.take(i + 1).drop_last() =~= ds@.take(i as int));
        }
        if v > (limit - d) / 10 {
            proof {
                lemma_digits_value_mono(ds@, i + 1, ds.len() as int);
                assert(ds@.take(ds.len() as int) =~= ds@);
            }
            return None;
        }
        v = v * 10 + d;
        i = i + 1;
    }
    proof {
        assert(ds@.take(ds.len() as int) =~= ds@);
    }
    Some(v)
}

fn tokenize_error_exec(message: String, position: usize) -> (e: ExpressionError)
    ensures
        e@ == tokenize_error(message@, position as int),
{
    ExpressionError::TokenizeError { message, position }
}

/// The message for a literal that cannot be held: "invalid number literal `text`".
fn invalid_literal(cs: &Vec<char>, start: usize, end: usize) -> (e: ExpressionError)
    requires
        start <= end <= cs.len(),
    ensures
        e@ == tokenize_error(
            "invalid number literal `"@ + cs@.subrange(start as int, end as int) + "`"@,
            start as int,
        ),
{
    let mut m = String::from_str("invalid number literal `");
    let t = string_from_chars(cs, start, end);
    m.append(t.as_str());
    m.append("`");
    tokenize_error_exec(m, start)
}

/// Scan the numeric literal at `pos`.
fn scan_number_exec(cs: &Vec<char>, pos: usize) -> (r: Result<(Num, usize), ExpressionError>)
    requires
        pos < cs.len(),
        number_start(cs@, pos as int),
    ensures
        match r {
            Ok((n, end)) => scan_number(cs@, pos as int) == Ok::<(Num, int), ErrorView>(
                (n, end as int),
            ),
            Err(e) => scan_number(cs@, pos as int) == Err::<(Num, int), ErrorView>(e@),
        },
{
    proof {
        lemma_ends(cs@, pos as int);
    }
    let ie = digits_end_exec(cs, pos);
    let mut fs = ie;
    let mut fe = ie;
    if ie < cs.len() && cs[ie] == '.' {
        fs = ie + 1;
        proof {
            lemma_ends(cs@, fs as int);
        }
        fe = digits_end_exec(cs, fs);
    }
    assert(literal_mantissa(cs@, pos as int) == (ie as int, fs as int, fe as int));
    // the mantissa digits
    let mut md: Vec<char> = Vec::new();
    let mut i = pos;
    while i < ie
        invariant
            pos <= i <= ie <= cs.len(),
            md@ == cs@.subrange(pos as int, i as int),
        decreases ie - i,
    {
        md.push(cs[i]);
        proof {
            assert(cs@.subrange(pos as int, i as int).push(cs@[i as int]) =~= cs@.subrange(
                pos as int,
                i + 1,
            ));
        }
        i = i + 1;
    }
    let mut j = fs;
    while j < fe
        invariant
            pos <= ie <= fs <= j <= fe <= cs.len(),
            md@ == cs@.subrange(pos as int, ie as int) + cs@.subrange(fs as int, j as int),
        decreases fe - j,
    {
        md.push(cs[j]);
        proof {
            assert(cs@.subrange(fs as int, j as int).push(cs@[j as int]) =~= cs@.subrange(
                fs as int,
                j + 1,
            ));
        }
        j = j + 1;
    }
    proof {
        if fs > ie {
            lemma_ends(cs@, fs as int);
        }
        assert forall|k: int| 0 <= k < md.len() implies is_digit(#[trigger] md@[k]) by {
            if k < ie - pos {
                assert(md@[k] == cs@[pos + k]);
            } else {
                assert(md@[k] == cs@[fs + k - (ie - pos)]);
            }
        }
    }
    let fl = fe - fs;
    let mv = digits_value_upto(&md, i128::MAX as u128);
    if fe < cs.len() && (cs[fe] == 'e' || cs[fe] == 'E') {
        let p = fe + 1;
        let signed = p < cs.len() && (cs[p] == '+' || cs[p] == '-');
        let neg = signed && cs[p] == '-';
        let ds = if signed { p + 1 } else { p };
        if ds >= cs.len() || !char_is_digit(cs[ds]) {
            let m = String::from_str("expected digit in exponent");
            return Err(tokenize_error_exec(m, ds));
        }
        proof {
            lemma_ends(cs@, ds as int);
        }
        let de = digits_end_exec(cs, ds);
        let mut ed: Vec<char> = Vec::new();
        let mut k = ds;
        while k < de
            invariant
                ds <= k <= de <= cs.len(),
                ed@ == cs@.subrange(ds as int, k as int),
            decreases de - k,
        {
            ed.push(cs[k]);
            proof {
                assert(cs@.subrange(ds as int, k as int).push(cs@[k as int]) =~= cs@.subrange(
                    ds as int,
                    k + 1,
                ));
            }
            k = k + 1;
        }
        proof {
            assert forall|q: int| 0 <= q < ed.len() implies is_digit(#[trigger] ed@[q]) by {
                assert(ed@[q] == cs@[ds + q]);
            }
        }
        let ev = digits_value_upto(&ed, EXP_BOUND as u128);
        proof {
            assert(md@ == cs@.subrange(pos as int, ie as int) + cs@.subrange(fs as int, fe as int));
            assert(ed@ == cs@.subrange(ds as int, de as int));
        }
        match (mv, ev) {
            (Some(m), Some(e)) => {
                if fl > EXP_BOUND as usize {
                    return Err(invalid_literal(cs, pos, de));
                }
                let ee: i64 = if neg { -(e as i64) } else { e as i64 };
                match make(m as i128, ee - fl as i64) {
                    Some(n) => Ok((n, de)),
                    None => Err(invalid_literal(cs, pos, de)),
                }
            },
            _ => Err(invalid_literal(cs, pos, de)),
        }
    } else {
        proof {
            reveal_with_fuel(digits_value, 1);
        }
        match mv {
            Some(m) => {
                if fl > EXP_BOUND as usize {
                    return Err(invalid_literal(cs, pos, fe));
                }
                match make(m as i128, 0 - fl as i64) {
                    Some(n) => Ok((n, fe)),
                    None => Err(invalid_literal(cs, pos, fe)),
                }
            },
            None => Err(invalid_literal(cs, pos, fe)),
        }
    }
}

fn word_token_exec(w: String) -> (t: Token)
    ensures
        t@ == word_token(w@),
{
    if str_eq(&w, "const") {
        Token::Keyword(KeywordKind::Const)
    } else if str_eq(&w, "if") {
        Token::Keyword(KeywordKind::If)
    } else if str_eq(&w, "switch") {
        Token::Keyword(KeywordKind::Switch)
    } else {
        Token::Identifier(w)
    }
}

/// Tokenize an expression string into a sequence of [`Token`]s.
pub fn tokenize(input: &str) -> (r: Result<Vec<Token>, ExpressionError>)
    ensures
        match r {
            Ok(ts) => spec_tokenize(input@) == Ok::<Seq<Tok>, ErrorView>(view_tokens(ts@)),
            Err(e) => spec_tokenize(input@) == Err::<Seq<Tok>, ErrorView>(e@),
        },
{
    let chars = chars_of(input);
    let len = chars.len();
    let mut tokens: Vec<Token> = Vec::new();
    let mut pos: usize = 0;
    assert(view_tokens(tokens@) =~= Seq::<Tok>::empty());
    while pos < len
        invariant
            len == chars.len(),
            chars@ == input@,
            pos <= len,
            scan(chars@, pos as int, view_tokens(tokens@)) == spec_tokenize(input@),
        decreases len - pos,
    {
        let ghost acc = view_tokens(tokens@);
        let ch = chars[pos];
        if char_is_ascii_space(ch) {
            pos = pos + 1;
            continue;
        }
        if ch == '/' && pos + 1 < len && chars[pos + 1] == '/' {
            proof {
                lemma_ends(chars@, pos + 2);
            }
            pos = line_end_exec(&chars, pos + 2);
            continue;
        }
        if ch == '$' {
            proof {
                lemma_ends(chars@, pos + 1);
            }
            let start = pos + 1;
            let end = ident_end_exec(&chars, start);
            if end == start {
                let m = String::from_str("expected identifier after '$'");
                return Err(tokenize_error_exec(m, start));
            }
            let name = string_from_chars(&chars, start, end);
            tokens.push(Token::FieldRef(name));
            proof {
                assert(view_tokens(tokens@) =~= acc.push(Tok::FieldRef(chars@.subrange(start as int, end as int))));
            }
            pos = end;
            continue;
        }
        if char_is_digit(ch) || (ch == '.' && pos + 1 < len && char_is_digit(chars[pos + 1])) {
            proof {
                lemma_scan_number_progress(chars@, pos as int);
            }
            match scan_number_exec(&chars, pos) {
                Err(e) => {
                    return Err(e);
                },
                Ok((n, end)) => {
                    tokens.push(Token::Number(n));
                    proof {
                        assert(view_tokens(tokens@) =~= acc.push(Tok::Number(n)));
                    }
                    pos = end;
                    continue;
                },
            }
        }
        if char_is_ascii_alpha(ch) || ch == '_' {
            proof {
                lemma_ends(chars@, pos + 1);
            }
            let end = ident_end_exec(&chars, pos + 1);
            let word = string_from_chars(&chars, pos, end);
            let t = word_token_exec(word);
            tokens.push(t);
            proof {
                assert(view_tokens(tokens@) =~= acc.push(word_token(chars@.subrange(pos as int, end as int))));
            }
            pos = end;
            continue;
        }
        let t = if ch == '(' {
            Token::LeftParen
        } else if ch == ')' {
            Token::RightParen
        } else if ch == ',' {
            Token::Comma
        } else if ch == '=' {
            Token::Equals
        } else if ch == ';' {
            Token::Semicolon
        } else if ch == '+' || ch == '-' || ch == '*' || ch == '/' || ch == '^' {
            Token::Operator(ch)
        } else {
            let mut m = String::from_str("unexpected character `");
            push_char(&mut m, ch);
            m.append("`");
            proof {
                assert(m@ =~= "unexpected character `"@ + seq![ch] + "`"@);
            }
            return Err(tokenize_error_exec(m, pos));
        };
        tokens.push(t);
        proof {
            assert(view_tokens(tokens@) =~= acc.push(symbol_token(ch).unwrap()));
        }
        pos = pos + 1;
    }
    Ok(tokens)
}


// ---------------------------------------------------------------------------
// laws
// ---------------------------------------------------------------------------

/// Each punctuation and operator character is one token (a `/` that does
/// not begin a `//` comment included), and white space is skipped.
pub proof fn law_scan_symbols(cs: Seq<char>, pos: int, acc: Seq<Tok>)
    requires
        0 <= pos < cs.len(),
    ensures
        cs[pos] == '(' ==> scan(cs, pos, acc) == scan(cs, pos + 1, acc.push(Tok::LeftParen)),
        cs[pos] == ')' ==> scan(cs, pos, acc) == scan(cs, pos + 1, acc.push(Tok::RightParen)),
        cs[pos] == ',' ==> scan(cs, pos, acc) == scan(cs, pos + 1, acc.push(Tok::Comma)),
        cs[pos] == '=' ==> scan(cs, pos, acc) == scan(cs, pos + 1, acc.push(Tok::Equals)),
        cs[pos] == ';' ==> scan(cs, pos, acc) == scan(cs, pos + 1, acc.push(Tok::Semicolon)),
        cs[pos] == '+' ==> scan(cs, pos, acc) == scan(cs, pos + 1, acc.push(Tok::Operator('+'))),
        cs[pos] == '-' ==> scan(cs, pos, acc) == scan(cs, pos + 1, acc.push(Tok::Operator('-'))),
        cs[pos] == '*' ==> scan(cs, pos, acc) == scan(cs, pos + 1, acc.push(Tok::Operator('*'))),
        cs[pos] == '^' ==> scan(cs, pos, acc) == scan(cs, pos + 1, acc.push(Tok::Operator('^'))),
        cs[pos] == '/' && !(pos + 1 < cs.len() && cs[pos + 1] == '/') ==> scan(cs, pos, acc) == scan(
            cs,
            pos + 1,
            acc.push(Tok::Operator('/')),
        ),
        cs[pos] == ' ' || cs[pos] == '\t' || cs[pos] == '\n' || cs[pos] == '\r' ==> scan(cs, pos, acc)
            == scan(cs, pos + 1, acc),
        cs[pos] == '/' && pos + 1 < cs.len() && cs[pos + 1] == '/' ==> scan(cs, pos, acc) == scan(
            cs,
            line_end(cs, pos + 2),
            acc,
        ),
{
}

/// A word (a letter or `_`, then letters, digits and `_`) is the keyword
/// `const`, `if` or `switch`, or else an identifier; `$` and a word is a
/// field reference to that word.
pub proof fn law_scan_words(cs: Seq<char>, pos: int, acc: Seq<Tok>)
    requires
        0 <= pos < cs.len(),
    ensures
        ({
            let end = ident_end(cs, pos + 1);
            let w = cs.subrange(pos, end);
            (is_ascii_alpha(cs[pos]) || cs[pos] == '_') ==> {
                &&& w == "const"@ ==> scan(cs, pos, acc) == scan(cs, end, acc.push(Tok::Keyword(KeywordKind::Const)))
                &&& w == "if"@ ==> scan(cs, pos, acc) == scan(cs, end, acc.push(Tok::Keyword(KeywordKind::If)))
                &&& w == "switch"@ ==> scan(cs, pos, acc) == scan(cs, end, acc.push(Tok::Keyword(KeywordKind::Switch)))
                &&& !(w == "const"@ || w == "if"@ || w == "switch"@) ==> scan(cs, pos, acc) == scan(
                    cs,
                    end,
                    acc.push(Tok::Identifier(w)),
                )
            }
        }),
        ({
            let end = ident_end(cs, pos + 1);
            cs[pos] == '$' && end > pos + 1 ==> scan(cs, pos, acc) == scan(
                cs,
                end,
                acc.push(Tok::FieldRef(cs.subrange(pos + 1, end))),
            )
        }),
{
    lemma_ends(cs, pos + 1);
    reveal_strlit("const");
    reveal_strlit("if");
    reveal_strlit("switch");
}

} // verus!
