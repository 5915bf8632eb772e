use vstd::prelude::*;

use crate::datasource::{decimal_value, is_digit};
use crate::rel::chars_of;
use crate::sql::{
    ast_view, asts_view, columns_view, lemma_asts_view, ASTNode, AstV, SQLColumnDef, SQLColumnDefV,
    SQLOperator, SQLType,
};

verus! {

/// Errors of tokenizing and parsing SQL.
#[derive(Debug)]
pub enum ParserError {
    TokenizerError(String),
    ParserError(String),
}

/// The keywords of the SQL dialect.
#[derive(Debug, Clone, Copy, PartialEq, Eq, Structural)]
pub enum Keyword {
    Select,
    From,
    Where,
    Create,
    Table,
    Not,
    Null,
    And,
    Or,
    Boolean,
    Int,
    BigInt,
    Double,
    Varchar,
}

/// The lexical tokens of SQL.
#[derive(Debug)]
pub enum Token {
    Keyword(Keyword),
    Identifier(String),
    Number(i64),
    Comma,
    LParen,
    RParen,
    Gt,
    GtEq,
    Lt,
    LtEq,
    Eq,
    NotEq,
    Plus,
    Minus,
    Mult,
    Div,
    Mod,
}

/// The mathematical model of a [`Token`].
pub enum TokenV {
    Keyword(Keyword),
    Identifier(Seq<char>),
    Number(i64),
    Comma,
    LParen,
    RParen,
    Gt,
    GtEq,
    Lt,
    LtEq,
    Eq,
    NotEq,
    Plus,
    Minus,
    Mult,
    Div,
    Mod,
}

impl View for Token {
    type V = TokenV;

    open spec fn view(&self) -> TokenV {
        match self {
            Token::Keyword(k) => TokenV::Keyword(*k),
            Token::Identifier(s) => TokenV::Identifier(s@),
            Token::Number(n) => TokenV::Number(*n),
            Token::Comma => TokenV::Comma,
            Token::LParen => TokenV::LParen,
            Token::RParen => TokenV::RParen,
            Token::Gt => TokenV::Gt,
            Token::GtEq => TokenV::GtEq,
            Token::Lt => TokenV::Lt,
            Token::LtEq => TokenV::LtEq,
            Token::Eq => TokenV::Eq,
            Token::NotEq => TokenV::NotEq,
            Token::Plus => TokenV::Plus,
            Token::Minus => TokenV::Minus,
            Token::Mult => TokenV::Mult,
            Token::Div => TokenV::Div,
            Token::Mod => TokenV::Mod,
        }
    }
}

/// The models of a list of tokens.
pub open spec fn tokens_view(ts: Seq<Token>) -> Seq<TokenV> {
    Seq::new(ts.len(), |i: int| ts[i]@)
}

pub open spec fn is_space(c: char) -> bool {
    c == ' ' || c == '\t' || c == '\n' || c == '\r'
}

pub open spec fn is_letter(c: char) -> bool {
    ('a' <= c <= 'z') || ('A' <= c <= 'Z') || c == '_'
}

pub open spec fn is_word_char(c: char) -> bool {
    is_letter(c) || is_digit(c)
}

/// The upper-case form of an ASCII letter; other characters unchanged.
pub open spec fn upper(c: char) -> char {
    if 'a' <= c <= 'z' {
        ((c as u8) - 32) as char
    } else {
        c
    }
}

/// The text of a keyword, in upper case.
pub open spec fn keyword_text(k: Keyword) -> Seq<char> {
    match k {
        Keyword::Select => "SELECT"@,
        Keyword::From => "FROM"@,
        Keyword::Where => "WHERE"@,
        Keyword::Create => "CREATE"@,
        Keyword::Table => "TABLE"@,
        Keyword::Not => "NOT"@,
        Keyword::Null => "NULL"@,
        Keyword::And => "AND"@,
        Keyword::Or => "OR"@,
        Keyword::Boolean => "BOOLEAN"@,
        Keyword::Int => "INT"@,
        Keyword::BigInt => "BIGINT"@,
        Keyword::Double => "DOUBLE"@,
        Keyword::Varchar => "VARCHAR"@,
    }
}

/// The keyword that a word spells, case aside.
pub open spec fn keyword_of(word: Seq<char>) -> Option<Keyword> {
    let w = word.map_values(|c: char| upper(c));
    if w == "SELECT"@ {
        Some(Keyword::Select)
    } else if w == "FROM"@ {
        Some(Keyword::From)
    } else if w == "WHERE"@ {
        Some(Keyword::Where)
    } else if w == "CREATE"@ {
        Some(Keyword::Create)
    } else if w == "TABLE"@ {
        Some(Keyword::Table)
    } else if w == "NOT"@ {
        Some(Keyword::Not)
    } else if w == "NULL"@ {
        Some(Keyword::Null)
    } else if w == "AND"@ {
        Some(Keyword::And)
    } else if w == "OR"@ {
        Some(Keyword::Or)
    } else if w == "BOOLEAN"@ {
        Some(Keyword::Boolean)
    } else if w == "INT"@ {
        Some(Keyword::Int)
    } else if w == "BIGINT"@ {
        Some(Keyword::BigInt)
    } else if w == "DOUBLE"@ {
        Some(Keyword::Double)
    } else if w == "VARCHAR"@ {
        Some(Keyword::Varchar)
    } else {
        None
    }
}

/// The end of the run of word characters from `i` on.
pub open spec fn word_end(s: Seq<char>, i: int) -> int
    decreases s.len() - i,
{
    if 0 <= i < s.len() && is_word_char(s[i]) {
        word_end(s, i + 1)
    } else {
        i
    }
}

/// The end of the run of digits from `i` on.
pub open spec fn digits_end(s: Seq<char>, i: int) -> int
    decreases s.len() - i,
{
    if 0 <= i < s.len() && is_digit(s[i]) {
        digits_end(s, i + 1)
    } else {
        i
    }
}

/// `Some(head + rest)`, or `None` if `rest` is `None`.
pub open spec fn prepend(head: Seq<TokenV>, rest: Option<Seq<TokenV>>) -> Option<Seq<TokenV>> {
    match rest {
        Some(r) => Some(head + r),
        None => None,
    }
}

/// The tokens of `s` from position `i` on: whitespace separates tokens, a word or a
/// number is the longest run of its characters, `>=`, `<=`, `<>` and `!=` are single
/// tokens. `None` where a character starts no token, or a number exceeds `i64::MAX`.
pub open spec fn lex(s: Seq<char>, i: int) -> Option<Seq<TokenV>>
    decreases s.len() - i, 2int,
{
    if i < 0 || i >= s.len() {
        Some(Seq::empty())
    } else {
        let c = s[i];
        if is_space(c) {
            lex(s, i + 1)
        } else if is_letter(c) {
            let j = word_end(s, i);
            lex_word(s, i, j)
        } else if is_digit(c) {
            let j = digits_end(s, i);
            lex_number(s, i, j)
        } else {
            let next = if i + 1 < s.len() { s[i + 1] } else { ' ' };
            if c == '>' && next == '=' {
                prepend(seq![TokenV::GtEq], lex(s, i + 2))
            } else if c == '<' && next == '=' {
                prepend(seq![TokenV::LtEq], lex(s, i + 2))
            } else if (c == '<' && next == '>') || (c == '!' && next == '=') {
                prepend(seq![TokenV::NotEq], lex(s, i + 2))
            } else {
                match single_char_token(c) {
                    Some(t) => prepend(seq![t], lex(s, i + 1)),
                    None => None,
                }
            }
        }
    }
}

/// The message of the tokenizer error for `s` from position `i` on, where `lex` fails:
/// a number that exceeds `i64::MAX`, or a character that starts no token.
pub open spec fn lex_error(s: Seq<char>, i: int) -> Seq<char>
    decreases s.len() - i,
{
    if i < 0 || i >= s.len() {
        Seq::empty()
    } else {
        let c = s[i];
        if is_space(c) {
            lex_error(s, i + 1)
        } else if is_letter(c) {
            let j = word_end(s, i);
            if i < j <= s.len() {
                lex_error(s, j)
            } else {
                Seq::empty()
            }
        } else if is_digit(c) {
            let j = digits_end(s, i);
            if i < j <= s.len() && decimal_value(s.subrange(i, j)) <= i64::MAX {
                lex_error(s, j)
            } else {
                "number out of range"@
            }
        } else {
            let next = if i + 1 < s.len() { s[i + 1] } else { ' ' };
            if (c == '>' && next == '=') || (c == '<' && next == '=') || (c == '<' && next == '>') || (c
                == '!' && next == '=') {
                lex_error(s, i + 2)
            } else if single_char_token(c) is Some {
                lex_error(s, i + 1)
            } else {
                "unexpected character"@
            }
        }
    }
}

pub open spec fn lex_word(s: Seq<char>, i: int, j: int) -> Option<Seq<TokenV>>
    decreases s.len() - i, 0int,
{
    if i < j <= s.len() {
        let word = s.subrange(i, j);
        let t = match keyword_of(word) {
            Some(k) => TokenV::Keyword(k),
            None => TokenV::Identifier(word),
        };
        prepend(seq![t], lex(s, j))
    } else {
        None
    }
}

pub open spec fn lex_number(s: Seq<char>, i: int, j: int) -> Option<Seq<TokenV>>
    decreases s.len() - i, 0int,
{
    if i < j <= s.len() && decimal_value(s.subrange(i, j)) <= i64::MAX {
        prepend(seq![TokenV::Number(decimal_value(s.subrange(i, j)) as i64)], lex(s, j))
    } else {
        None
    }
}

/// The token that a character stands for on its own.
pub open spec fn single_char_token(c: char) -> Option<TokenV> {
    if c == ',' {
        Some(TokenV::Comma)
    } else if c == '(' {
        Some(TokenV::LParen)
    } else if c == ')' {
        Some(TokenV::RParen)
    } else if c == '>' {
        Some(TokenV::Gt)
    } else if c == '<' {
        Some(TokenV::Lt)
    } else if c == '=' {
        Some(TokenV::Eq)
    } else if c == '+' {
        Some(TokenV::Plus)
    } else if c == '-' {
        Some(TokenV::Minus)
    } else if c == '*' {
        Some(TokenV::Mult)
    } else if c == '/' {
        Some(TokenV::Div)
    } else if c == '%' {
        Some(TokenV::Mod)
    } else {
        None
    }
}


pub proof fn lemma_word_end(s: Seq<char>, i: int)
    requires
        0 <= i <= s.len(),
    ensures
        i <= word_end(s, i) <= s.len(),
        forall|k: int| i <= k < word_end(s, i) ==> is_word_char(#[trigger] s[k]),
    decreases s.len() - i,
{
    if i < s.len() && is_word_char(s[i]) {
        lemma_word_end(s, i + 1);
    }
}

pub proof fn lemma_digits_end(s: Seq<char>, i: int)
    requires
        0 <= i <= s.len(),
    ensures
        i <= digits_end(s, i) <= s.len(),
        forall|k: int| i <= k < digits_end(s, i) ==> is_digit(#[trigger] s[k]),
    decreases s.len() - i,
{
    if i < s.len() && is_digit(s[i]) {
        lemma_digits_end(s, i + 1);
    }
}

fn scan_word(s: &Vec<char>, i: usize) -> (j: usize)
    requires
        i <= s.len(),
    ensures
        j == word_end(s@, i as int),
{
    let mut j = i;
    while j < s.len() && (('a' <= s[j] && s[j] <= 'z') || ('A' <= s[j] && s[j] <= 'Z') || s[j] == '_'
        || ('0' <= s[j] && s[j] <= '9'))
        invariant
            i <= j <= s.len(),
            word_end(s@, i as int) == word_end(s@, j as int),
        decreases s.len() - j,
    {
        j = j + 1;
    }
    j
}

fn scan_digits(s: &Vec<char>, i: usize) -> (j: usize)
    requires
        i <= s.len(),
    ensures
        j == digits_end(s@, i as int),
{
    let mut j = i;
    while j < s.len() && '0' <= s[j] && s[j] <= '9'
        invariant
            i <= j <= s.len(),
            digits_end(s@, i as int) == digits_end(s@, j as int),
        decreases s.len() - j,
    {
        j = j + 1;
    }
    j
}

fn upper_char(c: char) -> (r: char)
    ensures
        r == upper(c),
{
    if 'a' <= c && c <= 'z' {
        ((c as u8) - 32) as char
    } else {
        c
    }
}

fn same_chars(a: &Vec<char>, b: &str) -> (r: bool)
    ensures
        r == (a@ == b@),
{
    let bc = chars_of(b);
    if a.len() != bc.len() {
        return false;
    }
    let mut i: usize = 0;
    while i < a.len()
        invariant
            i <= a.len(),
            a.len() == bc.len(),
            bc@ == b@,
            forall|k: int| 0 <= k < i ==> a@[k] == bc@[k],
        decreases a.len() - i,
    {
        if a[i] != bc[i] {
            return false;
        }
        i = i + 1;
    }
    assert(a@ =~= bc@);
    true
}

/// The keyword that `s[i..j]` spells, case aside.
fn keyword_at(s: &Vec<char>, i: usize, j: usize) -> (r: Option<Keyword>)
    requires
        i <= j <= s.len(),
    ensures
        r == keyword_of(s@.subrange(i as int, j as int)),
{
    let mut w: Vec<char> = Vec::new();
    let mut k = i;
    while k < j
        invariant
            i <= k <= j <= s.len(),
            w@ == s@.subrange(i as int, k as int).map_values(|c: char| upper(c)),
        decreases j - k,
    {
        w.push(upper_char(s[k]));
        proof {
            assert(s@.subrange(i as int, k + 1).map_values(|c: char| upper(c)) =~= s@.subrange(i as int, k as int).map_values(|c: char| upper(c)).push(upper(s@[k as int])));
        }
        k = k + 1;
    }
    if same_chars(&w, "SELECT") {
        Some(Keyword::Select)
    } else if same_chars(&w, "FROM") {
        Some(Keyword::From)
    } else if same_chars(&w, "WHERE") {
        Some(Keyword::Where)
    } else if same_chars(&w, "CREATE") {
        Some(Keyword::Create)
    } else if same_chars(&w, "TABLE") {
        Some(Keyword::Table)
    } else if same_chars(&w, "NOT") {
        Some(Keyword::Not)
    } else if same_chars(&w, "NULL") {
        Some(Keyword::Null)
    } else if same_chars(&w, "AND") {
        Some(Keyword::And)
    } else if same_chars(&w, "OR") {
        Some(Keyword::Or)
    } else if same_chars(&w, "BOOLEAN") {
        Some(Keyword::Boolean)
    } else if same_chars(&w, "INT") {
        Some(Keyword::Int)
    } else if same_chars(&w, "BIGINT") {
        Some(Keyword::BigInt)
    } else if same_chars(&w, "DOUBLE") {
        Some(Keyword::Double)
    } else if same_chars(&w, "VARCHAR") {
        Some(Keyword::Varchar)
    } else {
        None
    }
}

/// The number that the digits `s[i..j]` denote, if it is at most `i64::MAX`.
fn number_at(s: &Vec<char>, i: usize, j: usize) -> (r: Option<i64>)
    requires
        i <= j <= s.len(),
        forall|k: int| i <= k < j ==> is_digit(#[trigger] s@[k]),
    ensures
        match r {
            Some(n) => decimal_value(s@.subrange(i as int, j as int)) <= i64::MAX && n == decimal_value(s@.subrange(i as int, j as int)),
            None => decimal_value(s@.subrange(i as int, j as int)) > i64::MAX,
        },
{
    let mut value: i64 = 0;
    let mut k = i;
    while k < j
        invariant
            i <= k <= j <= s.len(),
            forall|m: int| i <= m < j ==> is_digit(#[trigger] s@[m]),
            0 <= value,
            value as nat == decimal_value(s@.subrange(i as int, k as int)),
        decreases j - k,
    {
        let c = s[k];
        assert(is_digit(s@[k as int]));
        let d = (c as u32 - '0' as u32) as i64;
        proof {
            assert(s@.subrange(i as int, k + 1).drop_last() == s@.subrange(i as int, k as int));
            assert(s@.subrange(i as int, k + 1).last() == c);
        }
        if value > (i64::MAX - d) / 10 {
            proof {
                assert(value * 10 + d > i64::MAX) by (nonlinear_arith)
                    requires
                        value > (i64::MAX - d) / 10,
                        0 <= d <= 9,
                ;
                crate::datasource::lemma_decimal_prefix_grows(s@.subrange(i as int, j as int), k - i + 1);
                assert(s@.subrange(i as int, j as int).take(k - i + 1) == s@.subrange(i as int, k + 1));
            }
            return None;
        }
        assert(value * 10 + d <= i64::MAX) by (nonlinear_arith)
            requires
                value <= (i64::MAX - d) / 10,
                0 <= d <= 9,
        ;
        value = value * 10 + d;
        k = k + 1;
    }
    Some(value)
}


/// The token that a character stands for on its own.
fn single_token(c: char) -> (r: Option<Token>)
    ensures
        match r {
            Some(t) => single_char_token(c) == Some(t@),
            None => single_char_token(c) is None,
        },
{
    if c == ',' {
        Some(Token::Comma)
    } else if c == '(' {
        Some(Token::LParen)
    } else if c == ')' {
        Some(Token::RParen)
    } else if c == '>' {
        Some(Token::Gt)
    } else if c == '<' {
        Some(Token::Lt)
    } else if c == '=' {
        Some(Token::Eq)
    } else if c == '+' {
        Some(Token::Plus)
    } else if c == '-' {
        Some(Token::Minus)
    } else if c == '*' {
        Some(Token::Mult)
    } else if c == '/' {
        Some(Token::Div)
    } else if c == '%' {
        Some(Token::Mod)
    } else {
        None
    }
}

/// Splits SQL text into tokens.
pub fn tokenize(sql: &str) -> (r: Result<Vec<Token>, ParserError>)
    ensures
        match r {
            Ok(ts) => lex(sql@, 0) == Some(tokens_view(ts@)),
            Err(e) => lex(sql@, 0) is None && (e matches ParserError::TokenizerError(m) && m@ == lex_error(sql@, 0)),
        },
{
    let s = chars_of(sql);
    let mut out: Vec<Token> = Vec::new();
    let mut i: usize = 0;
    proof {
        assert(tokens_view(out@) + Seq::<TokenV>::empty() =~= Seq::<TokenV>::empty());
        assert(prepend(tokens_view(out@), lex(s@, 0)) =~~= lex(s@, 0)) by {
            if let Some(r) = lex(s@, 0) {
                assert(tokens_view(out@) + r =~= r);
            }
        }
    }
    while i < s.len()
        invariant
            i <= s.len(),
            s@ == sql@,
            lex(s@, 0) == prepend(tokens_view(out@), lex(s@, i as int)),
            lex_error(s@, 0) == lex_error(s@, i as int),
        decreases s.len() - i,
    {
        let c = s[i];
        let ghost before = tokens_view(out@);
        if c == ' ' || c == '\t' || c == '\n' || c == '\r' {
            assert(lex(s@, i as int) == lex(s@, i + 1));
            assert(lex_error(s@, i as int) == lex_error(s@, i + 1));
            i = i + 1;
        } else if ('a' <= c && c <= 'z') || ('A' <= c && c <= 'Z') || c == '_' {
            let j = scan_word(&s, i);
            proof {
                lemma_word_end(s@, i as int);
                lemma_word_end(s@, i + 1);
                assert(is_word_char(s@[i as int]));
                assert(j == word_end(s@, i + 1));
            }
            assert(lex(s@, i as int) == lex_word(s@, i as int, j as int));
            assert(lex_error(s@, i as int) == lex_error(s@, j as int));
            let t = match keyword_at(&s, i, j) {
                Some(k) => Token::Keyword(k),
                None => Token::Identifier(String::from_str(sql.substring_char(i, j))),
            };
            assert(lex(s@, i as int) == prepend(seq![t@], lex(s@, j as int)));
            out.push(t);
            proof {
                assert(tokens_view(out@) =~= before + seq![t@]);
                lemma_prepend_assoc(before, seq![t@], lex(s@, j as int));
            }
            i = j;
        } else if '0' <= c && c <= '9' {
            let j = scan_digits(&s, i);
            proof {
                lemma_digits_end(s@, i as int);
                lemma_digits_end(s@, i + 1);
                assert(is_digit(s@[i as int]));
                assert(j == digits_end(s@, i + 1));
            }
            assert(lex(s@, i as int) == lex_number(s@, i as int, j as int));
            assert(lex_error(s@, i as int) == if decimal_value(s@.subrange(i as int, j as int)) <= i64::MAX {
                lex_error(s@, j as int)
            } else {
                "number out of range"@
            });
            match number_at(&s, i, j) {
                Some(n) => {
                    out.push(Token::Number(n));
                    proof {
                        assert(tokens_view(out@) =~= before + seq![TokenV::Number(n)]);
                        lemma_prepend_assoc(before, seq![TokenV::Number(n)], lex(s@, j as int));
                    }
                    i = j;
                },
                None => {
                    proof {
                        reveal_strlit("number out of range");
                    }
                    return Err(ParserError::TokenizerError(String::from_str("number out of range")));
                },
            }
        } else {
            let next = if i + 1 < s.len() { s[i + 1] } else { ' ' };
            let (t, width): (Token, usize) = if c == '>' && next == '=' {
                (Token::GtEq, 2)
            } else if c == '<' && next == '=' {
                (Token::LtEq, 2)
            } else if (c == '<' && next == '>') || (c == '!' && next == '=') {
                (Token::NotEq, 2)
            } else {
                match single_token(c) {
                    Some(t) => (t, 1),
                    None => {
                        proof {
                            reveal_strlit("unexpected character");
                        }
                        return Err(ParserError::TokenizerError(String::from_str("unexpected character")));
                    },
                }
            };
            assert(lex(s@, i as int) == prepend(seq![t@], lex(s@, i + width)));
            assert(lex_error(s@, i as int) == lex_error(s@, i + width));
            out.push(t);
            proof {
                assert(tokens_view(out@) =~= before + seq![t@]);
                lemma_prepend_assoc(before, seq![t@], lex(s@, i + width));
            }
            i = i + width;
        }
    }
    proof {
        assert(lex(s@, i as int) == Some(Seq::<TokenV>::empty()));
        assert(tokens_view(out@) + Seq::<TokenV>::empty() =~= tokens_view(out@));
    }
    Ok(out)
}

proof fn lemma_prepend_assoc(a: Seq<TokenV>, b: Seq<TokenV>, rest: Option<Seq<TokenV>>)
    ensures
        prepend(a, prepend(b, rest)) == prepend(a + b, rest),
{
    if let Some(r) = rest {
        assert(a + (b + r) =~= (a + b) + r);
    }
}


/// Whether a token is a binary operator.
pub open spec fn is_binop(t: TokenV) -> bool {
    match t {
        TokenV::Gt | TokenV::GtEq | TokenV::Lt | TokenV::LtEq | TokenV::Eq | TokenV::NotEq
        | TokenV::Plus | TokenV::Minus | TokenV::Mult | TokenV::Div | TokenV::Mod => true,
        TokenV::Keyword(k) => k == Keyword::And || k == Keyword::Or,
        _ => false,
    }
}

/// The token of an operator.
pub open spec fn op_token(op: SQLOperator) -> TokenV {
    match op {
        SQLOperator::Plus => TokenV::Plus,
        SQLOperator::Minus => TokenV::Minus,
        SQLOperator::Mult => TokenV::Mult,
        SQLOperator::Div => TokenV::Div,
        SQLOperator::Modulus => TokenV::Mod,
        SQLOperator::GT => TokenV::Gt,
        SQLOperator::GTEq => TokenV::GtEq,
        SQLOperator::LT => TokenV::Lt,
        SQLOperator::LTEq => TokenV::LtEq,
        SQLOperator::Eq => TokenV::Eq,
        SQLOperator::NotEq => TokenV::NotEq,
        SQLOperator::And => TokenV::Keyword(Keyword::And),
        SQLOperator::Or => TokenV::Keyword(Keyword::Or),
    }
}

/// Whether a syntax tree is an expression of the grammar: identifiers, integers, function
/// calls and binary expressions.
pub open spec fn is_expr(e: AstV) -> bool
    decreases e, 0int,
{
    match e {
        AstV::SQLIdentifier { .. } => true,
        AstV::SQLLiteralInt(_) => true,
        AstV::SQLFunction { args, .. } => is_expr_list(args),
        AstV::SQLBinaryExpr { left, right, .. } => is_expr(*left) && is_expr(*right),
        _ => false,
    }
}

/// Whether each element of a list is an expression of the grammar.
pub open spec fn is_expr_list(es: Seq<AstV>) -> bool
    decreases es, 1int,
{
    if es.len() == 0 {
        true
    } else {
        is_expr(es[0]) && is_expr_list(es.subrange(1, es.len() as int))
    }
}

/// The tokens of an expression: operands of a binary expression that are themselves
/// binary expressions stand in parentheses.
pub open spec fn render_expr(e: AstV) -> Seq<TokenV>
    decreases e, 1int,
{
    match e {
        AstV::SQLIdentifier { id } => seq![TokenV::Identifier(id)],
        AstV::SQLLiteralInt(n) => seq![TokenV::Number(n)],
        AstV::SQLFunction { id, args } => seq![TokenV::Identifier(id), TokenV::LParen] + render_list(args)
            + seq![TokenV::RParen],
        AstV::SQLBinaryExpr { left, op, right } => render_operand(*left) + seq![op_token(op)]
            + render_operand(*right),
        _ => Seq::empty(),
    }
}

/// The tokens of an operand of a binary expression.
pub open spec fn render_operand(e: AstV) -> Seq<TokenV>
    decreases e, 2int,
{
    if e is SQLBinaryExpr {
        seq![TokenV::LParen] + render_expr(e) + seq![TokenV::RParen]
    } else {
        render_expr(e)
    }
}

/// The tokens of a list of expressions, separated by commas.
pub open spec fn render_list(es: Seq<AstV>) -> Seq<TokenV>
    decreases es, 2int,
{
    if es.len() == 0 {
        Seq::empty()
    } else if es.len() == 1 {
        render_expr(es[0])
    } else {
        render_expr(es[0]) + seq![TokenV::Comma] + render_list(es.subrange(1, es.len() as int))
    }
}

/// Whether `r` stands in `t` from position `pos` on.
pub open spec fn at(t: Seq<TokenV>, pos: int, r: Seq<TokenV>) -> bool {
    0 <= pos && pos + r.len() <= t.len() && t.subrange(pos, pos + r.len()) == r
}

/// Whether the token at `q` (if any) cannot continue an operand.
pub open spec fn ends_operand(t: Seq<TokenV>, q: int) -> bool {
    q >= t.len() || t[q] != TokenV::LParen
}

/// Whether the token at `q` (if any) cannot continue an expression.
pub open spec fn ends_expr(t: Seq<TokenV>, q: int) -> bool {
    q >= t.len() || (t[q] != TokenV::LParen && !is_binop(t[q]))
}

/// Whether the token at `q` (if any) cannot continue a list of expressions.
pub open spec fn ends_list(t: Seq<TokenV>, q: int) -> bool {
    ends_expr(t, q) && (q >= t.len() || t[q] != TokenV::Comma)
}

pub proof fn lemma_at_concat(t: Seq<TokenV>, pos: int, a: Seq<TokenV>, b: Seq<TokenV>)
    ensures
        at(t, pos, a + b) <==> (at(t, pos, a) && at(t, pos + a.len(), b)),
{
    if at(t, pos, a + b) {
        let s = t.subrange(pos, pos + (a + b).len());
        assert forall|k: int| 0 <= k < a.len() implies #[trigger] t.subrange(pos, pos + a.len())[k] == a[k] by {
            assert(s[k] == (a + b)[k]);
        }
        assert(t.subrange(pos, pos + a.len()) =~= a);
        assert forall|k: int| 0 <= k < b.len() implies #[trigger] t.subrange(pos + a.len(), pos + a.len() + b.len())[k] == b[k] by {
            assert(s[k + a.len()] == (a + b)[k + a.len()]);
        }
        assert(t.subrange(pos + a.len(), pos + a.len() + b.len()) =~= b);
    }
    if at(t, pos, a) && at(t, pos + a.len(), b) {
        assert forall|k: int| 0 <= k < (a + b).len() implies #[trigger] t.subrange(pos, pos + (a + b).len())[k] == (a + b)[k] by {
            if k < a.len() {
                assert(t.subrange(pos, pos + a.len())[k] == a[k]);
            } else {
                assert(t.subrange(pos + a.len(), pos + a.len() + b.len())[k - a.len()] == b[k - a.len()]);
            }
        }
        assert(t.subrange(pos, pos + (a + b).len()) =~= a + b);
    }
}

pub proof fn lemma_at_first(t: Seq<TokenV>, pos: int, a: Seq<TokenV>)
    requires
        at(t, pos, a),
        a.len() > 0,
    ensures
        t[pos] == a[0],
        pos < t.len(),
{
    assert(t.subrange(pos, pos + a.len())[0] == a[0]);
}

pub proof fn lemma_render_nonempty(e: AstV)
    requires
        is_expr(e),
    ensures
        render_expr(e).len() > 0,
        render_operand(e).len() > 0,
        e is SQLIdentifier ==> render_expr(e)[0] == TokenV::Identifier(e->SQLIdentifier_id),
        e is SQLFunction ==> render_expr(e)[0] == TokenV::Identifier(e->SQLFunction_id),
        e is SQLLiteralInt ==> render_expr(e)[0] == TokenV::Number(e->SQLLiteralInt_0),
        e is SQLBinaryExpr ==> render_operand(e)[0] == TokenV::LParen,
        !(e is SQLBinaryExpr) ==> render_operand(e) == render_expr(e),
    decreases e,
{
    if let AstV::SQLBinaryExpr { left, op, right } = e {
        lemma_render_nonempty(*left);
    }
}


pub proof fn lemma_op_token(a: SQLOperator, b: SQLOperator)
    ensures
        is_binop(op_token(a)),
        op_token(a) != TokenV::LParen,
        op_token(a) != TokenV::Comma,
        op_token(a) == op_token(b) ==> a == b,
{
}

/// The operator that a token stands for.
fn operator_of(t: &Token) -> (r: Option<SQLOperator>)
    ensures
        match r {
            Some(op) => is_binop(t@) && op_token(op) == t@,
            None => !is_binop(t@),
        },
{
    match t {
        Token::Gt => Some(SQLOperator::GT),
        Token::GtEq => Some(SQLOperator::GTEq),
        Token::Lt => Some(SQLOperator::LT),
        Token::LtEq => Some(SQLOperator::LTEq),
        Token::Eq => Some(SQLOperator::Eq),
        Token::NotEq => Some(SQLOperator::NotEq),
        Token::Plus => Some(SQLOperator::Plus),
        Token::Minus => Some(SQLOperator::Minus),
        Token::Mult => Some(SQLOperator::Mult),
        Token::Div => Some(SQLOperator::Div),
        Token::Mod => Some(SQLOperator::Modulus),
        Token::Keyword(Keyword::And) => Some(SQLOperator::And),
        Token::Keyword(Keyword::Or) => Some(SQLOperator::Or),
        _ => None,
    }
}

fn is_lparen(t: &Token) -> (r: bool)
    ensures
        r == (t@ == TokenV::LParen),
{
    match t {
        Token::LParen => true,
        _ => false,
    }
}

fn is_rparen(t: &Token) -> (r: bool)
    ensures
        r == (t@ == TokenV::RParen),
{
    match t {
        Token::RParen => true,
        _ => false,
    }
}

fn is_comma(t: &Token) -> (r: bool)
    ensures
        r == (t@ == TokenV::Comma),
{
    match t {
        Token::Comma => true,
        _ => false,
    }
}

fn is_keyword(t: &Token, k: Keyword) -> (r: bool)
    ensures
        r == (t@ == TokenV::Keyword(k)),
{
    match t {
        Token::Keyword(x) => *x == k,
        _ => false,
    }
}

fn is_binary(e: &ASTNode) -> (r: bool)
    ensures
        r == (e@ is SQLBinaryExpr),
{
    match e {
        ASTNode::SQLBinaryExpr { .. } => true,
        _ => false,
    }
}

/// Whether an error is the parser's error for tokens that are no statement's.
pub open spec fn is_syntax_error(e: ParserError) -> bool {
    e matches ParserError::ParserError(m) && m@ == "unexpected token"@
}

fn syntax_error() -> (r: ParserError)
    ensures
        is_syntax_error(r),
{
    proof {
        reveal_strlit("unexpected token");
    }
    ParserError::ParserError(String::from_str("unexpected token"))
}

/// The first token of an operand: an identifier, a number or an opening parenthesis.
pub proof fn lemma_operand_start(t: Seq<TokenV>, pos: int, x: AstV)
    requires
        is_expr(x),
        at(t, pos, render_operand(x)),
    ensures
        0 <= pos < t.len(),
        x is SQLIdentifier ==> t[pos] == TokenV::Identifier(x->SQLIdentifier_id) && render_operand(x).len() == 1,
        x is SQLLiteralInt ==> t[pos] == TokenV::Number(x->SQLLiteralInt_0) && render_operand(x).len() == 1,
        x is SQLFunction ==> t[pos] == TokenV::Identifier(x->SQLFunction_id) && pos + 1 < t.len() && t[pos + 1] == TokenV::LParen,
        x is SQLBinaryExpr ==> t[pos] == TokenV::LParen,
        x is SQLIdentifier || x is SQLLiteralInt || x is SQLFunction || x is SQLBinaryExpr,
{
    lemma_render_nonempty(x);
    lemma_at_first(t, pos, render_operand(x));
    if x is SQLFunction {
        assert(render_operand(x)[1] == TokenV::LParen);
        assert(t.subrange(pos, pos + render_operand(x).len())[1] == render_operand(x)[1]);
    }
}

/// The first token of a non-empty list of expressions is no closing parenthesis.
pub proof fn lemma_list_start(t: Seq<TokenV>, pos: int, xs: Seq<AstV>)
    requires
        xs.len() > 0,
        is_expr_list(xs),
        at(t, pos, render_list(xs)),
    ensures
        0 <= pos < t.len(),
        t[pos] != TokenV::RParen,
{
    assert(is_expr(xs[0]));
    lemma_render_nonempty(xs[0]);
    if xs.len() > 1 {
        lemma_at_concat(t, pos, render_expr(xs[0]) + seq![TokenV::Comma], render_list(xs.subrange(1, xs.len() as int)));
        lemma_at_concat(t, pos, render_expr(xs[0]), seq![TokenV::Comma]);
    }
    lemma_at_first(t, pos, render_expr(xs[0]));
    if xs[0] is SQLBinaryExpr {
        let l = *xs[0]->SQLBinaryExpr_left;
        lemma_render_nonempty(l);
        assert(render_expr(xs[0])[0] == render_operand(l)[0]);
    }
}

/// Parses an operand of a binary expression from position `pos` on: an identifier, an
/// integer, a function call, or a binary expression in parentheses.
fn parse_operand(tokens: &Vec<Token>, pos: usize) -> (r: Result<(ASTNode, usize), ParserError>)
    requires
        pos <= tokens.len(),
    ensures
        match r {
            Ok((e, q)) => is_expr(e@) && at(tokens_view(tokens@), pos as int, render_operand(e@)) && q == pos
                + render_operand(e@).len(),
            Err(e) => is_syntax_error(e),
        },
        forall|x: AstV|
            is_expr(x) && at(tokens_view(tokens@), pos as int, #[trigger] render_operand(x)) && ends_operand(
                tokens_view(tokens@),
                pos + render_operand(x).len(),
            ) ==> (r matches Ok((e, q)) && e@ == x),
    decreases tokens.len() - pos, 0int,
{
    let ghost t = tokens_view(tokens@);
    if pos >= tokens.len() {
        proof {
            assert forall|x: AstV| is_expr(x) && at(t, pos as int, #[trigger] render_operand(x)) implies false by {
                lemma_operand_start(t, pos as int, x);
            }
        }
        return Err(syntax_error());
    }
    assert(t[pos as int] == tokens@[pos as int]@);
    match &tokens[pos] {
        Token::Number(n) => {
            let e = ASTNode::SQLLiteralInt(*n);
            proof {
                assert(t.subrange(pos as int, pos + 1) =~= render_operand(e@));
                assert forall|x: AstV| is_expr(x) && at(t, pos as int, #[trigger] render_operand(x)) implies x == e@ by {
                    lemma_operand_start(t, pos as int, x);
                }
            }
            Ok((e, pos + 1))
        },
        Token::Identifier(id) => {
            if pos + 1 < tokens.len() && is_lparen(&tokens[pos + 1]) {
                assert(t[pos + 1] == tokens@[pos + 1]@);
                if pos + 2 < tokens.len() && is_rparen(&tokens[pos + 2]) {
                    assert(t[pos + 2] == tokens@[pos + 2]@);
                    let e = ASTNode::SQLFunction { id: id.clone(), args: Vec::new() };
                    proof {
                        assert(asts_view(Seq::<ASTNode>::empty()) =~= Seq::<AstV>::empty());
                        assert(render_list(Seq::<AstV>::empty()) == Seq::<TokenV>::empty());
                        assert(e@ == AstV::SQLFunction { id: id@, args: Seq::<AstV>::empty() });
                        assert(render_operand(e@) =~= seq![TokenV::Identifier(id@), TokenV::LParen, TokenV::RParen]);
                        assert(is_expr_list(Seq::<AstV>::empty()));
                        assert(t.subrange(pos as int, pos + 3) =~= render_operand(e@));
                        assert forall|x: AstV| is_expr(x) && at(t, pos as int, #[trigger] render_operand(x)) && ends_operand(t, pos + render_operand(x).len()) implies x == e@ by {
                            lemma_operand_start(t, pos as int, x);
                            if let AstV::SQLFunction { id: xid, args } = x {
                                lemma_at_concat(t, pos as int, seq![TokenV::Identifier(xid), TokenV::LParen] + render_list(args), seq![TokenV::RParen]);
                                lemma_at_concat(t, pos as int, seq![TokenV::Identifier(xid), TokenV::LParen], render_list(args));
                                if args.len() > 0 {
                                    lemma_list_start(t, pos + 2, args);
                                }
                                assert(args =~= Seq::<AstV>::empty());
                            }
                        }
                    }
                    return Ok((e, pos + 3));
                }
                let ghost cand = |x: AstV| is_expr(x) && at(t, pos as int, render_operand(x)) && ends_operand(t, pos + render_operand(x).len());
                proof {
                    assert forall|x: AstV| #[trigger] cand(x) implies (x is SQLFunction && x->SQLFunction_args.len() > 0
                        && is_expr_list(x->SQLFunction_args)
                        && at(t, pos + 2, render_list(x->SQLFunction_args))
                        && pos + 2 + render_list(x->SQLFunction_args).len() < t.len()
                        && t[pos + 2 + render_list(x->SQLFunction_args).len()] == TokenV::RParen
                        && ends_list(t, pos + 2 + render_list(x->SQLFunction_args).len())
                        && render_operand(x).len() == 3 + render_list(x->SQLFunction_args).len()) by {
                        lemma_operand_start(t, pos as int, x);
                        if let AstV::SQLFunction { id: xid, args } = x {
                            lemma_at_concat(t, pos as int, seq![TokenV::Identifier(xid), TokenV::LParen] + render_list(args), seq![TokenV::RParen]);
                            lemma_at_concat(t, pos as int, seq![TokenV::Identifier(xid), TokenV::LParen], render_list(args));
                            let q = pos + 2 + render_list(args).len();
                            lemma_at_first(t, q, seq![TokenV::RParen]);
                            if args.len() == 0 {
                                assert(q == pos + 2);
                                assert(false);
                            }
                        }
                    }
                }
                let (args, q) = match parse_list(tokens, pos + 2) {
                    Ok(p) => p,
                    Err(m) => {
                        proof {
                            assert forall|x: AstV| is_expr(x) && at(t, pos as int, #[trigger] render_operand(x)) && ends_operand(t, pos + render_operand(x).len()) implies false by {
                                assert(cand(x));
                            }
                        }
                        return Err(m);
                    },
                };
                if q < tokens.len() && is_rparen(&tokens[q]) {
                    assert(t[q as int] == tokens@[q as int]@);
                    let e = ASTNode::SQLFunction { id: id.clone(), args };
                    proof {
                        let a = asts_view(args@);
                        assert(e@ == AstV::SQLFunction { id: id@, args: a });
                        lemma_at_concat(t, pos as int, seq![TokenV::Identifier(id@), TokenV::LParen], render_list(a));
                        lemma_at_concat(t, pos as int, seq![TokenV::Identifier(id@), TokenV::LParen] + render_list(a), seq![TokenV::RParen]);
                        assert(t.subrange(pos as int, pos + 2) =~= seq![TokenV::Identifier(id@), TokenV::LParen]);
                        assert(t.subrange(q as int, q + 1) =~= seq![TokenV::RParen]);
                        assert forall|x: AstV| is_expr(x) && at(t, pos as int, #[trigger] render_operand(x)) && ends_operand(t, pos + render_operand(x).len()) implies x == e@ by {
                            assert(cand(x));
                            lemma_operand_start(t, pos as int, x);
                        }
                    }
                    return Ok((e, q + 1));
                }
                proof {
                    assert forall|x: AstV| is_expr(x) && at(t, pos as int, #[trigger] render_operand(x)) && ends_operand(t, pos + render_operand(x).len()) implies false by {
                        assert(cand(x));
                    }
                }
                Err(syntax_error())
            } else {
                let e = ASTNode::SQLIdentifier { id: id.clone() };
                proof {
                    assert(t.subrange(pos as int, pos + 1) =~= render_operand(e@));
                    assert forall|x: AstV| is_expr(x) && at(t, pos as int, #[trigger] render_operand(x)) && ends_operand(t, pos + render_operand(x).len()) implies x == e@ by {
                        lemma_operand_start(t, pos as int, x);
                    }
                }
                Ok((e, pos + 1))
            }
        },
        Token::LParen => {
            let ghost cand = |x: AstV| is_expr(x) && at(t, pos as int, render_operand(x)) && ends_operand(t, pos + render_operand(x).len());
            proof {
                assert forall|x: AstV| #[trigger] cand(x) implies (x is SQLBinaryExpr && at(t, pos + 1, render_expr(x))
                    && ends_expr(t, pos + 1 + render_expr(x).len())
                    && t[pos + 1 + render_expr(x).len()] == TokenV::RParen
                    && render_operand(x).len() == render_expr(x).len() + 2) by {
                    lemma_operand_start(t, pos as int, x);
                    lemma_at_concat(t, pos as int, seq![TokenV::LParen] + render_expr(x), seq![TokenV::RParen]);
                    lemma_at_concat(t, pos as int, seq![TokenV::LParen], render_expr(x));
                    lemma_at_first(t, pos + 1 + render_expr(x).len(), seq![TokenV::RParen]);
                }
            }
            let (e, q) = match parse_expr(tokens, pos + 1) {
                Ok(p) => p,
                Err(m) => {
                    proof {
                        assert forall|x: AstV| is_expr(x) && at(t, pos as int, #[trigger] render_operand(x)) && ends_operand(t, pos + render_operand(x).len()) implies false by {
                            assert(cand(x));
                        }
                    }
                    return Err(m);
                },
            };
            if is_binary(&e) && q < tokens.len() && is_rparen(&tokens[q]) {
                assert(t[q as int] == tokens@[q as int]@);
                proof {
                    lemma_at_concat(t, pos as int, seq![TokenV::LParen], render_expr(e@));
                    lemma_at_concat(t, pos as int, seq![TokenV::LParen] + render_expr(e@), seq![TokenV::RParen]);
                    assert(t.subrange(pos as int, pos + 1) =~= seq![TokenV::LParen]);
                    assert(t.subrange(q as int, q + 1) =~= seq![TokenV::RParen]);
                    assert forall|x: AstV| is_expr(x) && at(t, pos as int, #[trigger] render_operand(x)) && ends_operand(t, pos + render_operand(x).len()) implies x == e@ by {
                        assert(cand(x));
                    }
                }
                return Ok((e, q + 1));
            }
            proof {
                assert forall|x: AstV| is_expr(x) && at(t, pos as int, #[trigger] render_operand(x)) && ends_operand(t, pos + render_operand(x).len()) implies false by {
                    assert(cand(x));
                }
            }
            Err(syntax_error())
        },
        _ => {
            proof {
                assert forall|x: AstV| is_expr(x) && at(t, pos as int, #[trigger] render_operand(x)) implies false by {
                    lemma_operand_start(t, pos as int, x);
                }
            }
            Err(syntax_error())
        },
    }
}

/// Parses an expression from position `pos` on: an operand, or two operands joined by a
/// binary operator.
fn parse_expr(tokens: &Vec<Token>, pos: usize) -> (r: Result<(ASTNode, usize), ParserError>)
    requires
        pos <= tokens.len(),
    ensures
        match r {
            Ok((e, q)) => is_expr(e@) && at(tokens_view(tokens@), pos as int, render_expr(e@)) && q == pos
                + render_expr(e@).len(),
            Err(e) => is_syntax_error(e),
        },
        forall|x: AstV|
            is_expr(x) && at(tokens_view(tokens@), pos as int, #[trigger] render_expr(x)) && ends_expr(
                tokens_view(tokens@),
                pos + render_expr(x).len(),
            ) ==> (r matches Ok((e, q)) && e@ == x),
    decreases tokens.len() - pos, 1int,
{
    let ghost t = tokens_view(tokens@);
    let ghost cand = |x: AstV| is_expr(x) && at(t, pos as int, render_expr(x)) && ends_expr(t, pos + render_expr(x).len());
    proof {
        assert forall|x: AstV| #[trigger] cand(x) implies (if x is SQLBinaryExpr {
            let l = *x->SQLBinaryExpr_left;
            let rr = *x->SQLBinaryExpr_right;
            let q1 = pos + render_operand(l).len();
            &&& is_expr(l) && is_expr(rr)
            &&& at(t, pos as int, render_operand(l)) && ends_operand(t, q1)
            &&& q1 < t.len() && t[q1] == op_token(x->SQLBinaryExpr_op)
            &&& at(t, q1 + 1, render_operand(rr)) && ends_operand(t, q1 + 1 + render_operand(rr).len())
            &&& render_expr(x).len() == render_operand(l).len() + 1 + render_operand(rr).len()
        } else {
            &&& at(t, pos as int, render_operand(x)) && render_operand(x) == render_expr(x)
            &&& ends_operand(t, pos + render_operand(x).len())
        }) by {
            lemma_render_nonempty(x);
            if let AstV::SQLBinaryExpr { left, op, right } = x {
                lemma_at_concat(t, pos as int, render_operand(*left) + seq![op_token(op)], render_operand(*right));
                lemma_at_concat(t, pos as int, render_operand(*left), seq![op_token(op)]);
                lemma_at_first(t, pos + render_operand(*left).len(), seq![op_token(op)]);
                lemma_op_token(op, op);
            }
        }
    }
    let (l, q1) = match parse_operand(tokens, pos) {
        Ok(p) => p,
        Err(m) => {
            proof {
                assert forall|x: AstV| is_expr(x) && at(t, pos as int, #[trigger] render_expr(x)) && ends_expr(t, pos + render_expr(x).len()) implies false by {
                    assert(cand(x));
                    if x is SQLBinaryExpr {
                        assert(render_operand(*x->SQLBinaryExpr_left) == render_operand(*x->SQLBinaryExpr_left));
                    } else {
                        assert(render_operand(x) == render_operand(x));
                    }
                }
            }
            return Err(m);
        },
    };
    let op = if q1 < tokens.len() {
        operator_of(&tokens[q1])
    } else {
        None
    };
    match op {
        Some(op) => {
            assert(t[q1 as int] == tokens@[q1 as int]@);
            let (rhs, q2) = match parse_operand(tokens, q1 + 1) {
                Ok(p) => p,
                Err(m) => {
                    proof {
                        assert forall|x: AstV| is_expr(x) && at(t, pos as int, #[trigger] render_expr(x)) && ends_expr(t, pos + render_expr(x).len()) implies false by {
                            assert(cand(x));
                            if x is SQLBinaryExpr {
                                assert(render_operand(*x->SQLBinaryExpr_left) == render_operand(*x->SQLBinaryExpr_left));
                                assert(render_operand(*x->SQLBinaryExpr_right) == render_operand(*x->SQLBinaryExpr_right));
                            } else {
                                assert(render_operand(x) == render_operand(x));
                            }
                        }
                    }
                    return Err(m);
                },
            };
            let e = ASTNode::SQLBinaryExpr { left: Box::new(l), op, right: Box::new(rhs) };
            proof {
                let lv = *e@->SQLBinaryExpr_left;
                let rv = *e@->SQLBinaryExpr_right;
                assert(t.subrange(q1 as int, q1 + 1) =~= seq![op_token(op)]);
                lemma_at_concat(t, pos as int, render_operand(lv), seq![op_token(op)]);
                lemma_at_concat(t, pos as int, render_operand(lv) + seq![op_token(op)], render_operand(rv));
                assert forall|x: AstV| is_expr(x) && at(t, pos as int, #[trigger] render_expr(x)) && ends_expr(t, pos + render_expr(x).len()) implies x == e@ by {
                    assert(cand(x));
                    if x is SQLBinaryExpr {
                        assert(render_operand(*x->SQLBinaryExpr_left) == render_operand(*x->SQLBinaryExpr_left));
                        assert(render_operand(*x->SQLBinaryExpr_right) == render_operand(*x->SQLBinaryExpr_right));
                        lemma_op_token(op, x->SQLBinaryExpr_op);
                    } else {
                        assert(render_operand(x) == render_operand(x));
                        assert(!is_binop(t[q1 as int]));
                    }
                }
            }
            Ok((e, q2))
        },
        None => {
            if is_binary(&l) {
                proof {
                    assert forall|x: AstV| is_expr(x) && at(t, pos as int, #[trigger] render_expr(x)) && ends_expr(t, pos + render_expr(x).len()) implies false by {
                        assert(cand(x));
                        if x is SQLBinaryExpr {
                            assert(render_operand(*x->SQLBinaryExpr_left) == render_operand(*x->SQLBinaryExpr_left));
                            lemma_op_token(x->SQLBinaryExpr_op, x->SQLBinaryExpr_op);
                        } else {
                            assert(render_operand(x) == render_operand(x));
                        }
                    }
                }
                return Err(syntax_error());
            }
            proof {
                lemma_render_nonempty(l@);
                assert forall|x: AstV| is_expr(x) && at(t, pos as int, #[trigger] render_expr(x)) && ends_expr(t, pos + render_expr(x).len()) implies x == l@ by {
                    assert(cand(x));
                    if x is SQLBinaryExpr {
                        assert(render_operand(*x->SQLBinaryExpr_left) == render_operand(*x->SQLBinaryExpr_left));
                        lemma_op_token(x->SQLBinaryExpr_op, x->SQLBinaryExpr_op);
                    } else {
                        assert(render_operand(x) == render_operand(x));
                    }
                }
            }
            Ok((l, q1))
        },
    }
}

pub proof fn lemma_asts_view_insert(s: Seq<ASTNode>, x: AstV, s2: Seq<ASTNode>)
    requires
        s2.len() == s.len() + 1,
        s2[0]@ == x,
        forall|i: int| 0 <= i < s.len() ==> s2[i + 1] == s[i],
    ensures
        asts_view(s2) == seq![x] + asts_view(s),
{
    lemma_asts_view(s);
    lemma_asts_view(s2);
    assert forall|i: int| 0 <= i < s2.len() implies #[trigger] asts_view(s2)[i] == (seq![x] + asts_view(s))[i] by {
        if i > 0 {
            assert(s2[i] == s[i - 1]);
        }
    }
    assert(asts_view(s2) =~= seq![x] + asts_view(s));
}

/// Parses a non-empty list of expressions separated by commas from position `pos` on.
fn parse_list(tokens: &Vec<Token>, pos: usize) -> (r: Result<(Vec<ASTNode>, usize), ParserError>)
    requires
        pos <= tokens.len(),
    ensures
        match r {
            Ok((es, q)) => es.len() > 0 && is_expr_list(asts_view(es@)) && at(
                tokens_view(tokens@),
                pos as int,
                render_list(asts_view(es@)),
            ) && q == pos + render_list(asts_view(es@)).len(),
            Err(e) => is_syntax_error(e),
        },
        forall|xs: Seq<AstV>|
            xs.len() > 0 && is_expr_list(xs) && at(tokens_view(tokens@), pos as int, #[trigger] render_list(xs))
                && ends_list(tokens_view(tokens@), pos + render_list(xs).len()) ==> (r matches Ok((es, q))
                && asts_view(es@) == xs),
    decreases tokens.len() - pos, 2int,
{
    let ghost t = tokens_view(tokens@);
    let ghost cand = |xs: Seq<AstV>| xs.len() > 0 && is_expr_list(xs) && at(t, pos as int, render_list(xs)) && ends_list(t, pos + render_list(xs).len());
    proof {
        assert forall|xs: Seq<AstV>| #[trigger] cand(xs) implies ({
            let e0 = render_expr(xs[0]);
            &&& is_expr(xs[0])
            &&& at(t, pos as int, e0)
            &&& ends_expr(t, pos + e0.len())
            &&& (xs.len() == 1 ==> render_list(xs) == e0 && (pos + e0.len() >= t.len() || t[pos + e0.len()] != TokenV::Comma))
            &&& (xs.len() > 1 ==> pos + e0.len() < t.len() && t[pos + e0.len()] == TokenV::Comma
                && is_expr_list(xs.subrange(1, xs.len() as int))
                && at(t, pos + e0.len() + 1, render_list(xs.subrange(1, xs.len() as int)))
                && render_list(xs).len() == e0.len() + 1 + render_list(xs.subrange(1, xs.len() as int)).len())
        }) by {
            if xs.len() > 1 {
                lemma_at_concat(t, pos as int, render_expr(xs[0]) + seq![TokenV::Comma], render_list(xs.subrange(1, xs.len() as int)));
                lemma_at_concat(t, pos as int, render_expr(xs[0]), seq![TokenV::Comma]);
                lemma_at_first(t, pos + render_expr(xs[0]).len(), seq![TokenV::Comma]);
            }
        }
    }
    let (e, q) = match parse_expr(tokens, pos) {
        Ok(p) => p,
        Err(m) => {
            proof {
                assert forall|xs: Seq<AstV>| xs.len() > 0 && is_expr_list(xs) && at(t, pos as int, #[trigger] render_list(xs)) && ends_list(t, pos + render_list(xs).len()) implies false by {
                    assert(cand(xs));
                    assert(render_expr(xs[0]) == render_expr(xs[0]));
                }
            }
            return Err(m);
        },
    };
    if q < tokens.len() && is_comma(&tokens[q]) {
        assert(t[q as int] == tokens@[q as int]@);
        let (mut rest, q2) = match parse_list(tokens, q + 1) {
            Ok(p) => p,
            Err(m) => {
                proof {
                    assert forall|xs: Seq<AstV>| xs.len() > 0 && is_expr_list(xs) && at(t, pos as int, #[trigger] render_list(xs)) && ends_list(t, pos + render_list(xs).len()) implies false by {
                        assert(cand(xs));
                        assert(render_expr(xs[0]) == render_expr(xs[0]));
                        if xs.len() > 1 {
                            assert(render_list(xs.subrange(1, xs.len() as int)) == render_list(xs.subrange(1, xs.len() as int)));
                        }
                    }
                }
                return Err(m);
            },
        };
        let ghost ev = e@;
        let ghost restv = asts_view(rest@);
        let ghost old_rest = rest@;
        rest.insert(0, e);
        proof {
            lemma_asts_view_insert(old_rest, ev, rest@);
            let all = asts_view(rest@);
            assert(all =~= seq![ev] + restv);
            assert(all.subrange(1, all.len() as int) =~= restv);
            assert(all[0] == ev);
            lemma_at_concat(t, pos as int, render_expr(ev), seq![TokenV::Comma]);
            assert(t.subrange(q as int, q + 1) =~= seq![TokenV::Comma]);
            lemma_at_concat(t, pos as int, render_expr(ev) + seq![TokenV::Comma], render_list(restv));
            assert(render_list(all) == render_expr(ev) + seq![TokenV::Comma] + render_list(restv));
            assert forall|xs: Seq<AstV>| xs.len() > 0 && is_expr_list(xs) && at(t, pos as int, #[trigger] render_list(xs)) && ends_list(t, pos + render_list(xs).len()) implies asts_view(rest@) == xs by {
                assert(cand(xs));
                assert(render_expr(xs[0]) == render_expr(xs[0]));
                if xs.len() > 1 {
                    assert(render_list(xs.subrange(1, xs.len() as int)) == render_list(xs.subrange(1, xs.len() as int)));
                    assert(xs =~= seq![xs[0]] + xs.subrange(1, xs.len() as int));
                }
            }
        }
        return Ok((rest, q2));
    }
    let v = vec![e];
    proof {
        lemma_asts_view(v@);
        let all = asts_view(v@);
        assert(all =~= seq![e@]);
        assert(all.subrange(1, 1) =~= Seq::<AstV>::empty());
        assert(is_expr_list(all.subrange(1, 1)));
        assert(is_expr_list(all));
        assert(render_list(all) == render_expr(e@));
        assert forall|xs: Seq<AstV>| xs.len() > 0 && is_expr_list(xs) && at(t, pos as int, #[trigger] render_list(xs)) && ends_list(t, pos + render_list(xs).len()) implies asts_view(v@) == xs by {
            assert(cand(xs));
            assert(render_expr(xs[0]) == render_expr(xs[0]));
            if xs.len() > 1 {
                assert(render_list(xs.subrange(1, xs.len() as int)) == render_list(xs.subrange(1, xs.len() as int)));
            }
            assert(xs =~= seq![xs[0]]);
        }
    }
    Ok((v, q))
}


/// The tokens of a column type.
pub open spec fn render_type(ty: SQLType) -> Seq<TokenV> {
    match ty {
        SQLType::Boolean => seq![TokenV::Keyword(Keyword::Boolean)],
        SQLType::Int => seq![TokenV::Keyword(Keyword::Int)],
        SQLType::BigInt => seq![TokenV::Keyword(Keyword::BigInt)],
        SQLType::Double => seq![TokenV::Keyword(Keyword::Double)],
        SQLType::Varchar(n) => seq![
            TokenV::Keyword(Keyword::Varchar),
            TokenV::LParen,
            TokenV::Number(n as i64),
            TokenV::RParen,
        ],
    }
}

/// Whether a column type can be written: a `VARCHAR` length is at most `i64::MAX`.
pub open spec fn type_fits(ty: SQLType) -> bool {
    ty matches SQLType::Varchar(n) ==> n <= i64::MAX
}

/// The tokens of a column definition: `NOT NULL` follows the type of a column that does
/// not allow null.
pub open spec fn render_column(c: SQLColumnDefV) -> Seq<TokenV> {
    seq![TokenV::Identifier(c.name)] + render_type(c.data_type) + if c.allow_null {
        Seq::empty()
    } else {
        seq![TokenV::Keyword(Keyword::Not), TokenV::Keyword(Keyword::Null)]
    }
}

/// The tokens of a list of column definitions, separated by commas.
pub open spec fn render_columns(cs: Seq<SQLColumnDefV>) -> Seq<TokenV>
    decreases cs.len(),
{
    if cs.len() == 0 {
        Seq::empty()
    } else if cs.len() == 1 {
        render_column(cs[0])
    } else {
        render_column(cs[0]) + seq![TokenV::Comma] + render_columns(cs.subrange(1, cs.len() as int))
    }
}

/// Whether each column type of a list can be written.
pub open spec fn columns_fit(cs: Seq<SQLColumnDefV>) -> bool {
    forall|i: int| 0 <= i < cs.len() ==> type_fits(#[trigger] cs[i].data_type)
}

/// The tokens of the `FROM` clause.
pub open spec fn render_from(relation: Option<Box<AstV>>) -> Seq<TokenV> {
    match relation {
        Some(r) => seq![TokenV::Keyword(Keyword::From), TokenV::Identifier(r->SQLIdentifier_id)],
        None => Seq::empty(),
    }
}

/// The tokens of the `WHERE` clause.
pub open spec fn render_where(selection: Option<Box<AstV>>) -> Seq<TokenV> {
    match selection {
        Some(s) => seq![TokenV::Keyword(Keyword::Where)] + render_expr(*s),
        None => Seq::empty(),
    }
}

/// Whether a syntax tree is a statement of the grammar:
/// `SELECT e, ... [FROM table] [WHERE e]` or
/// `CREATE TABLE name (column type [NOT NULL], ...)`.
pub open spec fn is_statement(a: AstV) -> bool {
    match a {
        AstV::SQLSelect { projection, relation, selection, order_by, limit } => {
            &&& projection.len() > 0 && is_expr_list(projection)
            &&& (relation matches Some(r) ==> *r is SQLIdentifier)
            &&& (selection matches Some(s) ==> is_expr(*s))
            &&& order_by is None && limit is None
        },
        AstV::SQLCreateTable { columns, .. } => columns.len() > 0 && columns_fit(columns),
        _ => false,
    }
}

/// The tokens of a statement.
pub open spec fn render_statement(a: AstV) -> Seq<TokenV> {
    match a {
        AstV::SQLSelect { projection, relation, selection, .. } => seq![TokenV::Keyword(Keyword::Select)]
            + render_list(projection) + render_from(relation) + render_where(selection),
        AstV::SQLCreateTable { name, columns } => seq![
            TokenV::Keyword(Keyword::Create),
            TokenV::Keyword(Keyword::Table),
            TokenV::Identifier(name),
            TokenV::LParen,
        ] + render_columns(columns) + seq![TokenV::RParen],
        _ => Seq::empty(),
    }
}

/// Whether the token at `q` (if any) cannot continue a column definition.
pub open spec fn ends_column(t: Seq<TokenV>, q: int) -> bool {
    q >= t.len() || t[q] != TokenV::Keyword(Keyword::Not)
}

/// Whether the token at `q` (if any) cannot continue a list of column definitions.
pub open spec fn ends_columns(t: Seq<TokenV>, q: int) -> bool {
    ends_column(t, q) && (q >= t.len() || t[q] != TokenV::Comma)
}

/// Parses a column type from position `pos` on.
fn parse_type(tokens: &Vec<Token>, pos: usize) -> (r: Result<(SQLType, usize), ParserError>)
    requires
        pos <= tokens.len(),
    ensures
        match r {
            Ok((ty, q)) => type_fits(ty) && at(tokens_view(tokens@), pos as int, render_type(ty)) && q == pos
                + render_type(ty).len(),
            Err(e) => is_syntax_error(e),
        },
        forall|x: SQLType|
            type_fits(x) && at(tokens_view(tokens@), pos as int, #[trigger] render_type(x)) ==> (r matches Ok((
                ty,
                q,
            )) && ty == x),
{
    let ghost t = tokens_view(tokens@);
    proof {
        assert forall|x: SQLType| at(t, pos as int, #[trigger] render_type(x)) implies pos < t.len() && t[pos as int] == render_type(x)[0] by {
            lemma_at_first(t, pos as int, render_type(x));
        }
    }
    if pos >= tokens.len() {
        return Err(syntax_error());
    }
    assert(t[pos as int] == tokens@[pos as int]@);
    let one: Option<SQLType> = match &tokens[pos] {
        Token::Keyword(Keyword::Boolean) => Some(SQLType::Boolean),
        Token::Keyword(Keyword::Int) => Some(SQLType::Int),
        Token::Keyword(Keyword::BigInt) => Some(SQLType::BigInt),
        Token::Keyword(Keyword::Double) => Some(SQLType::Double),
        _ => None,
    };
    match one {
        Some(ty) => {
            proof {
                assert(t.subrange(pos as int, pos + 1) =~= render_type(ty));
            }
            return Ok((ty, pos + 1));
        },
        None => {},
    }
    if is_keyword(&tokens[pos], Keyword::Varchar) && 3 < tokens.len() - pos && is_lparen(&tokens[pos + 1])
        && is_rparen(&tokens[pos + 3]) {
        assert(t[pos + 1] == tokens@[pos + 1]@);
        assert(t[pos + 2] == tokens@[pos + 2]@);
        assert(t[pos + 3] == tokens@[pos + 3]@);
        match &tokens[pos + 2] {
            Token::Number(n) => {
                if *n >= 0 {
                    let ty = SQLType::Varchar(*n as u64);
                    proof {
                        assert(t.subrange(pos as int, pos + 4) =~= render_type(ty));
                        assert forall|x: SQLType| type_fits(x) && at(t, pos as int, #[trigger] render_type(x)) implies x == ty by {
                            if let SQLType::Varchar(m) = x {
                                assert(t.subrange(pos as int, pos + 4)[2] == render_type(x)[2]);
                            }
                        }
                    }
                    return Ok((ty, pos + 4));
                }
                proof {
                    assert forall|x: SQLType| type_fits(x) && at(t, pos as int, #[trigger] render_type(x)) implies false by {
                        if let SQLType::Varchar(m) = x {
                            assert(t.subrange(pos as int, pos + 4)[2] == render_type(x)[2]);
                        }
                    }
                }
            },
            _ => {
                proof {
                    assert forall|x: SQLType| type_fits(x) && at(t, pos as int, #[trigger] render_type(x)) implies false by {
                        if let SQLType::Varchar(m) = x {
                            assert(t.subrange(pos as int, pos + 4)[2] == render_type(x)[2]);
                        }
                    }
                }
            },
        }
        return Err(syntax_error());
    }
    proof {
        assert forall|x: SQLType| type_fits(x) && at(t, pos as int, #[trigger] render_type(x)) implies false by {
            if let SQLType::Varchar(m) = x {
                assert(t.subrange(pos as int, pos + 4)[1] == render_type(x)[1]);
                assert(t.subrange(pos as int, pos + 4)[3] == render_type(x)[3]);
            }
        }
    }
    Err(syntax_error())
}


/// Parses a column definition from position `pos` on.
fn parse_column(tokens: &Vec<Token>, pos: usize) -> (r: Result<(SQLColumnDef, usize), ParserError>)
    requires
        pos <= tokens.len(),
    ensures
        match r {
            Ok((c, q)) => type_fits(c@.data_type) && at(tokens_view(tokens@), pos as int, render_column(c@))
                && q == pos + render_column(c@).len(),
            Err(e) => is_syntax_error(e),
        },
        forall|x: SQLColumnDefV|
            type_fits(x.data_type) && at(tokens_view(tokens@), pos as int, #[trigger] render_column(x))
                && ends_column(tokens_view(tokens@), pos + render_column(x).len()) ==> (r matches Ok((c, q))
                && c@ == x),
{
    let ghost t = tokens_view(tokens@);
    let ghost cand = |x: SQLColumnDefV| type_fits(x.data_type) && at(t, pos as int, render_column(x)) && ends_column(t, pos + render_column(x).len());
    proof {
        assert forall|x: SQLColumnDefV| #[trigger] cand(x) implies ({
            let q1 = pos + 1 + render_type(x.data_type).len();
            &&& pos < t.len() && t[pos as int] == TokenV::Identifier(x.name)
            &&& at(t, pos + 1, render_type(x.data_type))
            &&& (x.allow_null ==> render_column(x).len() == 1 + render_type(x.data_type).len() && (q1 >= t.len() || t[q1] != TokenV::Keyword(Keyword::Not)))
            &&& (!x.allow_null ==> render_column(x).len() == 3 + render_type(x.data_type).len() && q1 + 1 < t.len() && t[q1] == TokenV::Keyword(Keyword::Not) && t[q1 + 1] == TokenV::Keyword(Keyword::Null))
        }) by {
            let nn = if x.allow_null { Seq::<TokenV>::empty() } else { seq![TokenV::Keyword(Keyword::Not), TokenV::Keyword(Keyword::Null)] };
            lemma_at_concat(t, pos as int, seq![TokenV::Identifier(x.name)] + render_type(x.data_type), nn);
            lemma_at_concat(t, pos as int, seq![TokenV::Identifier(x.name)], render_type(x.data_type));
            lemma_at_first(t, pos as int, seq![TokenV::Identifier(x.name)]);
            if !x.allow_null {
                let q1 = pos + 1 + render_type(x.data_type).len();
                assert(t.subrange(q1, q1 + 2)[0] == nn[0]);
                assert(t.subrange(q1, q1 + 2)[1] == nn[1]);
            }
        }
    }
    if pos >= tokens.len() {
        proof {
            assert forall|x: SQLColumnDefV| type_fits(x.data_type) && at(t, pos as int, #[trigger] render_column(x)) && ends_column(t, pos + render_column(x).len()) implies false by {
                assert(cand(x));
            }
        }
        return Err(syntax_error());
    }
    assert(t[pos as int] == tokens@[pos as int]@);
    let name = match &tokens[pos] {
        Token::Identifier(id) => id.clone(),
        _ => {
            proof {
                assert forall|x: SQLColumnDefV| type_fits(x.data_type) && at(t, pos as int, #[trigger] render_column(x)) && ends_column(t, pos + render_column(x).len()) implies false by {
                    assert(cand(x));
                }
            }
            return Err(syntax_error());
        },
    };
    let (data_type, q1) = match parse_type(tokens, pos + 1) {
        Ok(p) => p,
        Err(m) => {
            proof {
                assert forall|x: SQLColumnDefV| type_fits(x.data_type) && at(t, pos as int, #[trigger] render_column(x)) && ends_column(t, pos + render_column(x).len()) implies false by {
                    assert(cand(x));
                    assert(render_type(x.data_type) == render_type(x.data_type));
                }
            }
            return Err(m);
        },
    };
    let not_null = q1 < tokens.len() && is_keyword(&tokens[q1], Keyword::Not);
    if not_null {
        assert(t[q1 as int] == tokens@[q1 as int]@);
        if q1 + 1 < tokens.len() && is_keyword(&tokens[q1 + 1], Keyword::Null) {
            assert(t[q1 + 1] == tokens@[q1 + 1]@);
            let c = SQLColumnDef { name, data_type, allow_null: false };
            proof {
                lemma_at_concat(t, pos as int, seq![TokenV::Identifier(c@.name)], render_type(data_type));
                assert(t.subrange(pos as int, pos + 1) =~= seq![TokenV::Identifier(c@.name)]);
                assert(t.subrange(q1 as int, q1 + 2) =~= seq![TokenV::Keyword(Keyword::Not), TokenV::Keyword(Keyword::Null)]);
                lemma_at_concat(t, pos as int, seq![TokenV::Identifier(c@.name)] + render_type(data_type), seq![TokenV::Keyword(Keyword::Not), TokenV::Keyword(Keyword::Null)]);
                assert forall|x: SQLColumnDefV| type_fits(x.data_type) && at(t, pos as int, #[trigger] render_column(x)) && ends_column(t, pos + render_column(x).len()) implies c@ == x by {
                    assert(cand(x));
                    assert(render_type(x.data_type) == render_type(x.data_type));
                }
            }
            return Ok((c, q1 + 2));
        }
        proof {
            assert forall|x: SQLColumnDefV| type_fits(x.data_type) && at(t, pos as int, #[trigger] render_column(x)) && ends_column(t, pos + render_column(x).len()) implies false by {
                assert(cand(x));
                assert(render_type(x.data_type) == render_type(x.data_type));
            }
        }
        return Err(syntax_error());
    }
    let c = SQLColumnDef { name, data_type, allow_null: true };
    proof {
        lemma_at_concat(t, pos as int, seq![TokenV::Identifier(c@.name)], render_type(data_type));
        assert(t.subrange(pos as int, pos + 1) =~= seq![TokenV::Identifier(c@.name)]);
        assert(render_column(c@) =~= seq![TokenV::Identifier(c@.name)] + render_type(data_type));
        assert forall|x: SQLColumnDefV| type_fits(x.data_type) && at(t, pos as int, #[trigger] render_column(x)) && ends_column(t, pos + render_column(x).len()) implies c@ == x by {
            assert(cand(x));
            assert(render_type(x.data_type) == render_type(x.data_type));
        }
    }
    Ok((c, q1))
}

pub proof fn lemma_columns_view_insert(s: Seq<SQLColumnDef>, x: SQLColumnDefV, s2: Seq<SQLColumnDef>)
    requires
        s2.len() == s.len() + 1,
        s2[0]@ == x,
        forall|i: int| 0 <= i < s.len() ==> s2[i + 1] == s[i],
    ensures
        columns_view(s2) == seq![x] + columns_view(s),
{
    assert forall|i: int| 0 <= i < s2.len() implies #[trigger] columns_view(s2)[i] == (seq![x] + columns_view(s))[i] by {
        if i > 0 {
            assert(s2[i] == s[i - 1]);
        }
    }
    assert(columns_view(s2) =~= seq![x] + columns_view(s));
}

/// Parses a non-empty list of column definitions separated by commas from position `pos`
/// on.
fn parse_columns(tokens: &Vec<Token>, pos: usize) -> (r: Result<(Vec<SQLColumnDef>, usize), ParserError>)
    requires
        pos <= tokens.len(),
    ensures
        match r {
            Ok((cs, q)) => cs.len() > 0 && columns_fit(columns_view(cs@)) && at(
                tokens_view(tokens@),
                pos as int,
                render_columns(columns_view(cs@)),
            ) && q == pos + render_columns(columns_view(cs@)).len(),
            Err(e) => is_syntax_error(e),
        },
        forall|xs: Seq<SQLColumnDefV>|
            xs.len() > 0 && columns_fit(xs) && at(tokens_view(tokens@), pos as int, #[trigger] render_columns(xs))
                && ends_columns(tokens_view(tokens@), pos + render_columns(xs).len()) ==> (r matches Ok((cs, q))
                && columns_view(cs@) == xs),
    decreases tokens.len() - pos,
{
    let ghost t = tokens_view(tokens@);
    let ghost cand = |xs: Seq<SQLColumnDefV>| xs.len() > 0 && columns_fit(xs) && at(t, pos as int, render_columns(xs)) && ends_columns(t, pos + render_columns(xs).len());
    proof {
        assert forall|xs: Seq<SQLColumnDefV>| #[trigger] cand(xs) implies ({
            let c0 = render_column(xs[0]);
            &&& type_fits(xs[0].data_type)
            &&& at(t, pos as int, c0)
            &&& ends_column(t, pos + c0.len())
            &&& (xs.len() == 1 ==> render_columns(xs) == c0 && (pos + c0.len() >= t.len() || t[pos + c0.len()] != TokenV::Comma))
            &&& (xs.len() > 1 ==> pos + c0.len() < t.len() && t[pos + c0.len()] == TokenV::Comma
                && columns_fit(xs.subrange(1, xs.len() as int))
                && at(t, pos + c0.len() + 1, render_columns(xs.subrange(1, xs.len() as int)))
                && render_columns(xs).len() == c0.len() + 1 + render_columns(xs.subrange(1, xs.len() as int)).len())
        }) by {
            assert(type_fits(xs[0].data_type));
            if xs.len() > 1 {
                lemma_at_concat(t, pos as int, render_column(xs[0]) + seq![TokenV::Comma], render_columns(xs.subrange(1, xs.len() as int)));
                lemma_at_concat(t, pos as int, render_column(xs[0]), seq![TokenV::Comma]);
                lemma_at_first(t, pos + render_column(xs[0]).len(), seq![TokenV::Comma]);
                assert forall|i: int| 0 <= i < xs.len() - 1 implies type_fits(#[trigger] xs.subrange(1, xs.len() as int)[i].data_type) by {
                    assert(type_fits(xs[i + 1].data_type));
                }
            }
        }
    }
    let (c, q) = match parse_column(tokens, pos) {
        Ok(p) => p,
        Err(m) => {
            proof {
                assert forall|xs: Seq<SQLColumnDefV>| xs.len() > 0 && columns_fit(xs) && at(t, pos as int, #[trigger] render_columns(xs)) && ends_columns(t, pos + render_columns(xs).len()) implies false by {
                    assert(cand(xs));
                    assert(render_column(xs[0]) == render_column(xs[0]));
                }
            }
            return Err(m);
        },
    };
    if q < tokens.len() && is_comma(&tokens[q]) {
        assert(t[q as int] == tokens@[q as int]@);
        let (mut rest, q2) = match parse_columns(tokens, q + 1) {
            Ok(p) => p,
            Err(m) => {
                proof {
                    assert forall|xs: Seq<SQLColumnDefV>| xs.len() > 0 && columns_fit(xs) && at(t, pos as int, #[trigger] render_columns(xs)) && ends_columns(t, pos + render_columns(xs).len()) implies false by {
                        assert(cand(xs));
                        assert(render_column(xs[0]) == render_column(xs[0]));
                        if xs.len() > 1 {
                            assert(render_columns(xs.subrange(1, xs.len() as int)) == render_columns(xs.subrange(1, xs.len() as int)));
                        }
                    }
                }
                return Err(m);
            },
        };
        let ghost cv = c@;
        let ghost restv = columns_view(rest@);
        let ghost old_rest = rest@;
        rest.insert(0, c);
        proof {
            lemma_columns_view_insert(old_rest, cv, rest@);
            let all = columns_view(rest@);
            assert(all =~= seq![cv] + restv);
            assert(all.subrange(1, all.len() as int) =~= restv);
            lemma_at_concat(t, pos as int, render_column(cv), seq![TokenV::Comma]);
            assert(t.subrange(q as int, q + 1) =~= seq![TokenV::Comma]);
            lemma_at_concat(t, pos as int, render_column(cv) + seq![TokenV::Comma], render_columns(restv));
            assert(render_columns(all) == render_column(cv) + seq![TokenV::Comma] + render_columns(restv));
            assert forall|i: int| 0 <= i < all.len() implies type_fits(#[trigger] all[i].data_type) by {
                if i > 0 {
                    assert(all[i] == restv[i - 1]);
                }
            }
            assert forall|xs: Seq<SQLColumnDefV>| xs.len() > 0 && columns_fit(xs) && at(t, pos as int, #[trigger] render_columns(xs)) && ends_columns(t, pos + render_columns(xs).len()) implies columns_view(rest@) == xs by {
                assert(cand(xs));
                assert(render_column(xs[0]) == render_column(xs[0]));
                if xs.len() > 1 {
                    assert(render_columns(xs.subrange(1, xs.len() as int)) == render_columns(xs.subrange(1, xs.len() as int)));
                    assert(xs =~= seq![xs[0]] + xs.subrange(1, xs.len() as int));
                }
            }
        }
        return Ok((rest, q2));
    }
    let v = vec![c];
    proof {
        let all = columns_view(v@);
        assert(all =~= seq![c@]);
        assert(render_columns(all) == render_column(c@));
        assert forall|xs: Seq<SQLColumnDefV>| xs.len() > 0 && columns_fit(xs) && at(t, pos as int, #[trigger] render_columns(xs)) && ends_columns(t, pos + render_columns(xs).len()) implies columns_view(v@) == xs by {
            assert(cand(xs));
            assert(render_column(xs[0]) == render_column(xs[0]));
            if xs.len() > 1 {
                assert(render_columns(xs.subrange(1, xs.len() as int)) == render_columns(xs.subrange(1, xs.len() as int)));
            }
            assert(xs =~= seq![xs[0]]);
        }
    }
    Ok((v, q))
}


/// Parses a `SELECT` statement whose first token is `SELECT`.
#[verifier::rlimit(100)]
#[verifier::spinoff_prover]
fn parse_select(tokens: &Vec<Token>) -> (r: Result<ASTNode, ParserError>)
    requires
        tokens.len() > 0,
        tokens@[0]@ == TokenV::Keyword(Keyword::Select),
    ensures
        match r {
            Ok(a) => is_statement(a@) && render_statement(a@) == tokens_view(tokens@),
            Err(e) => is_syntax_error(e),
        },
        forall|x: AstV|
            is_statement(x) && #[trigger] render_statement(x) == tokens_view(tokens@) && x is SQLSelect ==> (r matches Ok(a)
                && a@ == x),
{
    let ghost t = tokens_view(tokens@);
    let ghost cand = |x: AstV| is_statement(x) && render_statement(x) == t && x is SQLSelect;
    proof {
        assert forall|x: AstV| #[trigger] cand(x) implies ({
            let proj = x->SQLSelect_projection;
            let q1: int = 1int + render_list(proj).len();
            let from = render_from(x->SQLSelect_relation);
            let q2: int = q1 + from.len();
            &&& at(t, 1, render_list(proj)) && ends_list(t, q1)
            &&& (x->SQLSelect_relation matches Some(rel) ==> q1 + 1 < t.len() && t[q1] == TokenV::Keyword(Keyword::From) && t[q1 + 1] == TokenV::Identifier(rel->SQLIdentifier_id) && from.len() == 2)
            &&& (x->SQLSelect_relation is None ==> (q1 >= t.len() || t[q1] != TokenV::Keyword(Keyword::From)) && from.len() == 0)
            &&& (x->SQLSelect_selection matches Some(s) ==> q2 < t.len() && t[q2] == TokenV::Keyword(Keyword::Where) && at(t, q2 + 1, render_expr(*s)) && q2 + 1 + render_expr(*s).len() == t.len())
            &&& (x->SQLSelect_selection is None ==> q2 == t.len())
        }) by {
            let proj = x->SQLSelect_projection;
            let rl = render_list(proj);
            let from = render_from(x->SQLSelect_relation);
            let wh = render_where(x->SQLSelect_selection);
            assert(t == seq![TokenV::Keyword(Keyword::Select)] + rl + from + wh);
            assert(at(t, 0, t)) by {
                assert(t.subrange(0, t.len() as int) =~= t);
            }
            lemma_at_concat(t, 0, seq![TokenV::Keyword(Keyword::Select)] + rl + from, wh);
            lemma_at_concat(t, 0, seq![TokenV::Keyword(Keyword::Select)] + rl, from);
            lemma_at_concat(t, 0, seq![TokenV::Keyword(Keyword::Select)], rl);
            let q1: int = 1int + rl.len();
            let q2: int = q1 + from.len();
            if from.len() > 0 {
                assert(t.subrange(q1, q1 + 2)[0] == from[0]);
                assert(t.subrange(q1, q1 + 2)[1] == from[1]);
            }
            if let Some(s) = x->SQLSelect_selection {
                lemma_at_concat(t, q2, seq![TokenV::Keyword(Keyword::Where)], render_expr(*s));
                lemma_at_first(t, q2, seq![TokenV::Keyword(Keyword::Where)]);
            }
            if q1 < t.len() {
                if from.len() > 0 {
                } else if wh.len() > 0 {
                    assert(t.subrange(q2, q2 + wh.len())[0] == wh[0]);
                }
            }
        }
    }
    let (projection, q1) = match parse_list(tokens, 1) {
        Ok(p) => p,
        Err(m) => {
            proof {
                assert forall|x: AstV| is_statement(x) && #[trigger] render_statement(x) == t && x is SQLSelect implies false by {
                    assert(cand(x));
                    assert(render_list(x->SQLSelect_projection) == render_list(x->SQLSelect_projection));
                }
            }
            return Err(m);
        },
    };
    let mut q = q1;
    let mut relation: Option<Box<ASTNode>> = None;
    if q < tokens.len() && is_keyword(&tokens[q], Keyword::From) {
        assert(t[q as int] == tokens@[q as int]@);
        if q + 1 < tokens.len() {
            assert(t[q + 1] == tokens@[q + 1]@);
            match &tokens[q + 1] {
                Token::Identifier(id) => {
                    relation = Some(Box::new(ASTNode::SQLIdentifier { id: id.clone() }));
                    proof {
                        assert(t.subrange(q as int, q + 2) =~= render_from(crate::sql::opt_ast_view(relation)));
                    }
                    q = q + 2;
                },
                _ => {},
            }
        }
        if q == q1 {
            proof {
                assert forall|x: AstV| is_statement(x) && #[trigger] render_statement(x) == t && x is SQLSelect implies false by {
                    assert(cand(x));
                    assert(render_list(x->SQLSelect_projection) == render_list(x->SQLSelect_projection));
                }
            }
            return Err(syntax_error());
        }
    }
    let ghost q_from = q;
    let ghost rel_v = crate::sql::opt_ast_view(relation);
    proof {
        if relation is None {
            assert(t.subrange(q1 as int, q1 as int) =~= Seq::<TokenV>::empty());
        }
    }
    assert(at(t, q1 as int, render_from(rel_v)) && q == q1 + render_from(rel_v).len());
    assert(rel_v matches Some(rv) ==> *rv == AstV::SQLIdentifier { id: t[q1 + 1]->Identifier_0 });
    assert(rel_v is None ==> !(q1 < t.len() && t[q1 as int] == TokenV::Keyword(Keyword::From)));
    let mut selection: Option<Box<ASTNode>> = None;
    if q < tokens.len() && is_keyword(&tokens[q], Keyword::Where) {
        assert(t[q as int] == tokens@[q as int]@);
        match parse_expr(tokens, q + 1) {
            Ok((e, q2)) => {
                proof {
                    assert(t.subrange(q as int, q + 1) =~= seq![TokenV::Keyword(Keyword::Where)]);
                    lemma_at_concat(t, q as int, seq![TokenV::Keyword(Keyword::Where)], render_expr(e@));
                }
                selection = Some(Box::new(e));
                q = q2;
            },
            Err(m) => {
                proof {
                    assert forall|x: AstV| is_statement(x) && #[trigger] render_statement(x) == t && x is SQLSelect implies false by {
                        assert(cand(x));
                        assert(render_list(x->SQLSelect_projection) == render_list(x->SQLSelect_projection));
                        if let Some(s) = x->SQLSelect_selection {
                            assert(render_expr(*s) == render_expr(*s));
                        }
                    }
                }
                return Err(m);
            },
        }
    }
    let ghost sel_v = crate::sql::opt_ast_view(selection);
    proof {
        if selection is None {
            assert(t.subrange(q_from as int, q_from as int) =~= Seq::<TokenV>::empty());
        }
    }
    assert(at(t, q_from as int, render_where(sel_v)) && q == q_from + render_where(sel_v).len());
    assert(sel_v matches Some(sv) ==> is_expr(*sv) && forall|y: AstV| is_expr(y) && at(t, q_from + 1, #[trigger] render_expr(y)) && ends_expr(t, q_from + 1 + render_expr(y).len()) ==> y == *sv);
    assert(sel_v is None ==> !(q_from < t.len() && t[q_from as int] == TokenV::Keyword(Keyword::Where)));
    if q != tokens.len() {
        proof {
            assert forall|x: AstV| is_statement(x) && #[trigger] render_statement(x) == t && x is SQLSelect implies false by {
                assert(cand(x));
                assert(render_list(x->SQLSelect_projection) == render_list(x->SQLSelect_projection));
                if let Some(s) = x->SQLSelect_selection {
                    assert(render_expr(*s) == render_expr(*s));
                }
            }
        }
        return Err(syntax_error());
    }
    let a = ASTNode::SQLSelect { projection, relation, selection, order_by: None, limit: None };
    proof {
        let av = a@;
        let rl = render_list(av->SQLSelect_projection);
        let from = render_from(av->SQLSelect_relation);
        let wh = render_where(av->SQLSelect_selection);
        assert(av->SQLSelect_projection == asts_view(projection@));
        assert(t.subrange(0, 1) =~= seq![TokenV::Keyword(Keyword::Select)]);
        lemma_at_concat(t, 0, seq![TokenV::Keyword(Keyword::Select)], rl);
        lemma_at_concat(t, 0, seq![TokenV::Keyword(Keyword::Select)] + rl, from);
        if selection is Some {
            let s = *av->SQLSelect_selection->0;
            assert(t.subrange(q_from as int, q_from + 1) =~= seq![TokenV::Keyword(Keyword::Where)]);
            lemma_at_concat(t, q_from as int, seq![TokenV::Keyword(Keyword::Where)], render_expr(s));
        } else {
            assert(wh =~= Seq::<TokenV>::empty());
        }
        lemma_at_concat(t, 0, seq![TokenV::Keyword(Keyword::Select)] + rl + from, wh);
        assert(t.subrange(0, t.len() as int) =~= t);
        assert forall|x: AstV| is_statement(x) && #[trigger] render_statement(x) == t && x is SQLSelect implies a@ == x by {
            assert(cand(x));
            assert(render_list(x->SQLSelect_projection) == render_list(x->SQLSelect_projection));
            if let Some(s) = x->SQLSelect_selection {
                assert(render_expr(*s) == render_expr(*s));
            }
        }
    }
    Ok(a)
}


/// Parses a `CREATE TABLE` statement whose first token is `CREATE`.
#[verifier::rlimit(30)]
fn parse_create(tokens: &Vec<Token>) -> (r: Result<ASTNode, ParserError>)
    requires
        tokens.len() > 0,
        tokens@[0]@ == TokenV::Keyword(Keyword::Create),
    ensures
        match r {
            Ok(a) => is_statement(a@) && render_statement(a@) == tokens_view(tokens@),
            Err(e) => is_syntax_error(e),
        },
        forall|x: AstV|
            is_statement(x) && #[trigger] render_statement(x) == tokens_view(tokens@) && x is SQLCreateTable ==> (r matches Ok(a)
                && a@ == x),
{
    let ghost t = tokens_view(tokens@);
    let ghost cand = |x: AstV| is_statement(x) && render_statement(x) == t && x is SQLCreateTable;
    proof {
        assert forall|x: AstV| #[trigger] cand(x) implies ({
            let cols = x->SQLCreateTable_columns;
            let rc = render_columns(cols);
            &&& t.len() == 5int + rc.len()
            &&& t[1] == TokenV::Keyword(Keyword::Table)
            &&& t[2] == TokenV::Identifier(x->SQLCreateTable_name)
            &&& t[3] == TokenV::LParen
            &&& at(t, 4, rc)
            &&& t[4int + rc.len()] == TokenV::RParen
            &&& ends_columns(t, 4int + rc.len())
        }) by {
            let cols = x->SQLCreateTable_columns;
            let head = seq![
                TokenV::Keyword(Keyword::Create),
                TokenV::Keyword(Keyword::Table),
                TokenV::Identifier(x->SQLCreateTable_name),
                TokenV::LParen,
            ];
            let rc = render_columns(cols);
            assert(t == head + rc + seq![TokenV::RParen]);
            assert(t.subrange(0, t.len() as int) =~= t);
            lemma_at_concat(t, 0, head + rc, seq![TokenV::RParen]);
            lemma_at_concat(t, 0, head, rc);
            assert(t[1] == head[1] && t[2] == head[2] && t[3] == head[3]);
            assert(t[4int + rc.len()] == (head + rc + seq![TokenV::RParen])[4int + rc.len()]);
        }
    }
    if tokens.len() < 5 || !is_keyword(&tokens[1], Keyword::Table) || !is_lparen(&tokens[3]) {
        proof {
            if tokens.len() >= 5 {
                assert(t[1] == tokens@[1]@ && t[3] == tokens@[3]@);
            }
            assert forall|x: AstV| is_statement(x) && #[trigger] render_statement(x) == t && x is SQLCreateTable implies false by {
                assert(cand(x));
            }
        }
        return Err(syntax_error());
    }
    assert(t[1] == tokens@[1]@ && t[2] == tokens@[2]@ && t[3] == tokens@[3]@);
    let name = match &tokens[2] {
        Token::Identifier(id) => id.clone(),
        _ => {
            proof {
                assert forall|x: AstV| is_statement(x) && #[trigger] render_statement(x) == t && x is SQLCreateTable implies false by {
                    assert(cand(x));
                }
            }
            return Err(syntax_error());
        },
    };
    let (columns, q) = match parse_columns(tokens, 4) {
        Ok(p) => p,
        Err(m) => {
            proof {
                assert forall|x: AstV| is_statement(x) && #[trigger] render_statement(x) == t && x is SQLCreateTable implies false by {
                    assert(cand(x));
                    assert(render_columns(x->SQLCreateTable_columns) == render_columns(x->SQLCreateTable_columns));
                }
            }
            return Err(m);
        },
    };
    if q >= tokens.len() || q + 1 != tokens.len() || !is_rparen(&tokens[q]) {
        proof {
            if q + 1 == tokens.len() {
                assert(t[q as int] == tokens@[q as int]@);
            }
            assert forall|x: AstV| is_statement(x) && #[trigger] render_statement(x) == t && x is SQLCreateTable implies false by {
                assert(cand(x));
                assert(render_columns(x->SQLCreateTable_columns) == render_columns(x->SQLCreateTable_columns));
            }
        }
        return Err(syntax_error());
    }
    assert(t[q as int] == tokens@[q as int]@);
    let a = ASTNode::SQLCreateTable { name, columns };
    proof {
        let av = a@;
        let rc = render_columns(columns_view(columns@));
        let head = seq![
            TokenV::Keyword(Keyword::Create),
            TokenV::Keyword(Keyword::Table),
            TokenV::Identifier(av->SQLCreateTable_name),
            TokenV::LParen,
        ];
        assert(t.subrange(0, 4) =~= head);
        assert(t.subrange(q as int, q + 1) =~= seq![TokenV::RParen]);
        lemma_at_concat(t, 0, head, rc);
        lemma_at_concat(t, 0, head + rc, seq![TokenV::RParen]);
        assert(t.subrange(0, t.len() as int) =~= t);
        assert(render_statement(av) == head + rc + seq![TokenV::RParen]);
        assert forall|x: AstV| is_statement(x) && #[trigger] render_statement(x) == t && x is SQLCreateTable implies a@ == x by {
            assert(cand(x));
            assert(render_columns(x->SQLCreateTable_columns) == render_columns(x->SQLCreateTable_columns));
        }
    }
    Ok(a)
}

/// Parses a statement from its tokens.
pub fn parse_statement(tokens: &Vec<Token>) -> (r: Result<ASTNode, ParserError>)
    ensures
        match r {
            Ok(a) => is_statement(a@) && render_statement(a@) == tokens_view(tokens@),
            Err(e) => is_syntax_error(e),
        },
        forall|x: AstV| is_statement(x) && #[trigger] render_statement(x) == tokens_view(tokens@) ==> (r matches Ok(a)
            && a@ == x),
{
    let ghost t = tokens_view(tokens@);
    proof {
        assert forall|x: AstV| is_statement(x) && #[trigger] render_statement(x) == t implies t.len() > 0 && (
            (x is SQLSelect && t[0] == TokenV::Keyword(Keyword::Select)) || (x is SQLCreateTable && t[0] == TokenV::Keyword(Keyword::Create))) by {
        }
    }
    if tokens.len() > 0 && is_keyword(&tokens[0], Keyword::Select) {
        assert(t[0] == tokens@[0]@);
        return parse_select(tokens);
    }
    if tokens.len() > 0 && is_keyword(&tokens[0], Keyword::Create) {
        assert(t[0] == tokens@[0]@);
        return parse_create(tokens);
    }
    proof {
        if tokens.len() > 0 {
            assert(t[0] == tokens@[0]@);
        }
    }
    Err(syntax_error())
}

/// Whether the text `sql` is the statement `a` written out: its tokens are those of `a`.
pub open spec fn parses_to(sql: Seq<char>, a: AstV) -> bool {
    is_statement(a) && lex(sql, 0) == Some(render_statement(a))
}

/// Whether `e` is the error with which parsing the text `sql` fails: a tokenizer error
/// with the tokenizer's message where the text has no tokens, else the parser's error
/// where its tokens are no statement's.
pub open spec fn parse_failure(sql: Seq<char>, e: ParserError) -> bool {
    match e {
        ParserError::TokenizerError(m) => lex(sql, 0) is None && m@ == lex_error(sql, 0),
        ParserError::ParserError(m) => lex(sql, 0) is Some && (forall|x: AstV| !parses_to(sql, x))
            && m@ == "unexpected token"@,
    }
}

/// The SQL parser.
pub struct Parser {}

impl Parser {
    /// Parses a SQL statement. The result is the statement whose tokens the text has;
    /// the parse fails where the text has no tokens (a tokenizer error) or they are no
    /// statement's (a parser error).
    pub fn parse_sql(sql: String) -> (r: Result<ASTNode, ParserError>)
        ensures
            match r {
                Ok(a) => parses_to(sql@, a@),
                Err(e) => parse_failure(sql@, e),
            },
            forall|x: AstV| parses_to(sql@, x) ==> (r matches Ok(a) && a@ == x),
    {
        let tokens = match tokenize(sql.as_str()) {
            Ok(ts) => ts,
            Err(e) => return Err(e),
        };
        let r = parse_statement(&tokens);
        proof {
            assert forall|x: AstV| parses_to(sql@, x) implies r matches Ok(a) && a@ == x by {
                assert(render_statement(x) == tokens_view(tokens@));
            }
        }
        r
    }
}

}
