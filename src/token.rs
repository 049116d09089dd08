use vstd::prelude::*;

use crate::error::{ParseError, Rule};

verus! {

#[derive(PartialEq, Eq, Structural, Clone, Copy, Debug)]
pub enum Keyword {
    Pub,
    Local,
    Global,
    Fn,
    Shared,
    Exclusive,
    Unique,
    Mut,
    Struct,
    Enum,
    Import,
    Impl,
    Trait,
    Xor,
}

#[derive(PartialEq, Eq, Structural, Clone, Copy, Debug)]
pub enum Symbol {
    LParen,
    RParen,
    LBrace,
    RBrace,
    Comma,
    Colon,
    Semicolon,
    Arrow,
    Assign,
    Plus,
    Minus,
    Star,
    Slash,
    Percent,
    Caret,
    Amp,
    Pipe,
    Bang,
    Lt,
    Gt,
    Le,
    Ge,
    EqEq,
    Ne,
    Shl,
    Shr,
}

/// A lexical token. Identifiers and float literals keep their text.
#[derive(Debug)]
pub enum Token {
    Ident(String),
    Integer(i64),
    Float(String),
    Keyword(Keyword),
    Symbol(Symbol),
    /// The end of the input; always the last lexeme.
    Eoi,
}

/// A token together with the character offsets at which it starts and ends.
#[derive(Debug)]
pub struct Lexeme {
    pub token: Token,
    pub position: usize,
    pub end: usize,
}

pub open spec fn is_digit(c: char) -> bool {
    '0' <= c && c <= '9'
}

pub open spec fn is_ident_start(c: char) -> bool {
    ('a' <= c && c <= 'z') || ('A' <= c && c <= 'Z') || c == '_'
}

pub open spec fn is_ident_char(c: char) -> bool {
    is_ident_start(c) || is_digit(c)
}

pub open spec fn is_space(c: char) -> bool {
    c == ' ' || c == '\t' || c == '\n' || c == '\r'
}

/// The value of a sequence of decimal digits.
pub open spec fn digits_value(s: Seq<char>) -> int
    decreases s.len(),
{
    if s.len() == 0 {
        0
    } else {
        digits_value(s.drop_last()) * 10 + (s.last() as int - '0' as int)
    }
}

pub open spec fn keyword_of(w: Seq<char>) -> Option<Keyword> {
    if w == "pub"@ {
        Some(Keyword::Pub)
    } else if w == "local"@ {
        Some(Keyword::Local)
    } else if w == "global"@ {
        Some(Keyword::Global)
    } else if w == "fn"@ {
        Some(Keyword::Fn)
    } else if w == "shared"@ {
        Some(Keyword::Shared)
    } else if w == "exclusive"@ {
        Some(Keyword::Exclusive)
    } else if w == "unique"@ {
        Some(Keyword::Unique)
    } else if w == "mut"@ {
        Some(Keyword::Mut)
    } else if w == "struct"@ {
        Some(Keyword::Struct)
    } else if w == "enum"@ {
        Some(Keyword::Enum)
    } else if w == "import"@ {
        Some(Keyword::Import)
    } else if w == "impl"@ {
        Some(Keyword::Impl)
    } else if w == "trait"@ {
        Some(Keyword::Trait)
    } else if w == "xor"@ {
        Some(Keyword::Xor)
    } else {
        None
    }
}

/// The spelling of a symbol.
pub open spec fn symbol_text(sym: Symbol) -> Seq<char> {
    match sym {
        Symbol::LParen => seq!['('],
        Symbol::RParen => seq![')'],
        Symbol::LBrace => seq!['{'],
        Symbol::RBrace => seq!['}'],
        Symbol::Comma => seq![','],
        Symbol::Colon => seq![':'],
        Symbol::Semicolon => seq![';'],
        Symbol::Arrow => seq!['-', '>'],
        Symbol::Assign => seq!['='],
        Symbol::Plus => seq!['+'],
        Symbol::Minus => seq!['-'],
        Symbol::Star => seq!['*'],
        Symbol::Slash => seq!['/'],
        Symbol::Percent => seq!['%'],
        Symbol::Caret => seq!['^'],
        Symbol::Amp => seq!['&'],
        Symbol::Pipe => seq!['|'],
        Symbol::Bang => seq!['!'],
        Symbol::Lt => seq!['<'],
        Symbol::Gt => seq!['>'],
        Symbol::Le => seq!['<', '='],
        Symbol::Ge => seq!['>', '='],
        Symbol::EqEq => seq!['=', '='],
        Symbol::Ne => seq!['!', '='],
        Symbol::Shl => seq!['<', '<'],
        Symbol::Shr => seq!['>', '>'],
    }
}

/// `a` followed by `b` spells a two-character symbol.
pub open spec fn two_char_symbol(a: char, b: char) -> bool {
    ||| (a == '-' && b == '>')
    ||| (a == '<' && b == '=')
    ||| (a == '>' && b == '=')
    ||| (a == '=' && b == '=')
    ||| (a == '!' && b == '=')
    ||| (a == '<' && b == '<')
    ||| (a == '>' && b == '>')
}

/// `c` spells a one-character symbol.
pub open spec fn symbol_char(c: char) -> bool {
    c == '(' || c == ')' || c == '{' || c == '}' || c == ',' || c == ':' || c == ';' || c == '='
        || c == '+' || c == '-' || c == '*' || c == '/' || c == '%' || c == '^' || c == '&' || c
        == '|' || c == '!' || c == '<' || c == '>'
}

/// `src[start..end]` is a whole word: a letter or `_`, then letters, digits and `_`,
/// not followed by another of them.
pub open spec fn word_at(src: Seq<char>, start: int, end: int) -> bool {
    &&& is_ident_start(src[start])
    &&& forall|k: int| start <= k < end ==> is_ident_char(#[trigger] src[k])
    &&& (end == src.len() || !is_ident_char(src[end]))
}

/// `src[start..end]` is all decimal digits.
pub open spec fn all_digits(src: Seq<char>, start: int, end: int) -> bool {
    forall|k: int| start <= k < end ==> is_digit(#[trigger] src[k])
}

/// What a lexeme says of the source text that it was read from: it spells its
/// token at `src[position..end]`, and the token could not have been longer.
pub open spec fn faithful(src: Seq<char>, lx: Lexeme) -> bool {
    let text = src.subrange(lx.position as int, lx.end as int);
    &&& lx.position < lx.end <= src.len()
    &&& match lx.token {
        Token::Ident(s) => word_at(src, lx.position as int, lx.end as int) && s@ == text
            && keyword_of(text) is None,
        Token::Keyword(k) => word_at(src, lx.position as int, lx.end as int) && keyword_of(text)
            == Some(k),
        Token::Integer(v) => {
            &&& all_digits(src, lx.position as int, lx.end as int)
            &&& digits_value(text) == v
            &&& lx.end == src.len() || (!is_digit(src[lx.end as int]) && !(src[lx.end as int]
                == '.' && lx.end + 1 < src.len() && is_digit(src[lx.end + 1])))
        },
        Token::Float(s) => {
            &&& s@ == text
            &&& exists|d: int|
                lx.position < d && d + 1 < lx.end && #[trigger] src[d] == '.' && all_digits(
                    src,
                    lx.position as int,
                    d,
                ) && all_digits(src, d + 1, lx.end as int)
            &&& lx.end == src.len() || !is_digit(src[lx.end as int])
        },
        Token::Symbol(sym) => text == symbol_text(sym) && (text.len() == 1 ==> !(lx.end
            < src.len() && two_char_symbol(src[lx.position as int], src[lx.end as int]))),
        Token::Eoi => false,
    }
}

/// Some lexeme of `t` spans the character `src[k]`.
pub open spec fn covered(t: Seq<Lexeme>, k: int) -> bool {
    exists|i: int| 0 <= i < t.len() && #[trigger] t[i].position <= k < t[i].end
}

/// The lexemes are faithful to the source, in order, do not overlap, and span every
/// character that is not white space.
pub open spec fn lexed_from(src: Seq<char>, t: Seq<Lexeme>) -> bool {
    &&& forall|i: int| 0 <= i < t.len() ==> faithful(src, #[trigger] t[i])
    &&& forall|i: int, j: int| 0 <= i < j < t.len() ==> t[i].end <= t[j].position
    &&& forall|k: int| 0 <= k < src.len() && !is_space(#[trigger] src[k]) ==> covered(t, k)
}

/// A token sequence that ends with its one end-of-input marker.
pub open spec fn well_formed(t: Seq<Lexeme>) -> bool {
    &&& t.len() > 0
    &&& t.last().token is Eoi
    &&& forall|i: int| 0 <= i < t.len() - 1 ==> !(#[trigger] t[i].token is Eoi)
}

} // verus!

verus! {

/// Relies on `str::chars` collected into a `Vec`: the characters of `s` in order.
#[verifier::external_body]
fn chars_of(s: &str) -> (r: Vec<char>)
    ensures
        r@ == s@,
{
    s.chars().collect()
}

/// Relies on `String: FromIterator<char>`: the string of the given characters in order.
#[verifier::external_body]
fn string_from_chars(c: Vec<char>) -> (r: String)
    ensures
        r@ == c@,
{
    c.into_iter().collect()
}

fn is_digit_exec(c: char) -> (r: bool)
    ensures
        r == is_digit(c),
{
    '0' <= c && c <= '9'
}

fn is_ident_start_exec(c: char) -> (r: bool)
    ensures
        r == is_ident_start(c),
{
    ('a' <= c && c <= 'z') || ('A' <= c && c <= 'Z') || c == '_'
}

fn is_ident_char_exec(c: char) -> (r: bool)
    ensures
        r == is_ident_char(c),
{
    is_ident_start_exec(c) || is_digit_exec(c)
}

/// The keyword spelled by `w`, if any.
pub fn keyword_lookup(w: &String) -> (r: Option<Keyword>)
    ensures
        r == keyword_of(w@),
{
    if *w == "pub".to_owned() {
        Some(Keyword::Pub)
    } else if *w == "local".to_owned() {
        Some(Keyword::Local)
    } else if *w == "global".to_owned() {
        Some(Keyword::Global)
    } else if *w == "fn".to_owned() {
        Some(Keyword::Fn)
    } else if *w == "shared".to_owned() {
        Some(Keyword::Shared)
    } else if *w == "exclusive".to_owned() {
        Some(Keyword::Exclusive)
    } else if *w == "unique".to_owned() {
        Some(Keyword::Unique)
    } else if *w == "mut".to_owned() {
        Some(Keyword::Mut)
    } else if *w == "struct".to_owned() {
        Some(Keyword::Struct)
    } else if *w == "enum".to_owned() {
        Some(Keyword::Enum)
    } else if *w == "import".to_owned() {
        Some(Keyword::Import)
    } else if *w == "impl".to_owned() {
        Some(Keyword::Impl)
    } else if *w == "trait".to_owned() {
        Some(Keyword::Trait)
    } else if *w == "xor".to_owned() {
        Some(Keyword::Xor)
    } else {
        None
    }
}

/// The characters `c[start..end]` as a new vector.
fn slice_chars(c: &Vec<char>, start: usize, end: usize) -> (r: Vec<char>)
    requires
        start <= end <= c@.len(),
    ensures
        r@ == c@.subrange(start as int, end as int),
{
    let mut r: Vec<char> = Vec::new();
    let mut k: usize = start;
    while k < end
        invariant
            start <= k <= end <= c@.len(),
            r@ == c@.subrange(start as int, k as int),
        decreases end - k,
    {
        r.push(c[k]);
        k = k + 1;
    }
    r
}

/// The symbol that starts at `c[i]`, two characters long where it can be, with its
/// length in characters.
fn symbol_starting(c: &Vec<char>, i: usize) -> (r: Option<(Symbol, usize)>)
    requires
        i < c@.len(),
    ensures
        r matches Some((sym, n)) ==> n == symbol_text(sym).len() && i + n <= c@.len()
            && c@.subrange(i as int, i + n) == symbol_text(sym) && (n == 1 ==> !(i + 1 < c@.len()
            && two_char_symbol(c@[i as int], c@[i + 1]))),
        r is None ==> !symbol_char(c@[i as int]),
{
    let a = c[i];
    let b: char = if c.len() - i > 1 { c[i + 1] } else { ' ' };
    if a == '-' && b == '>' {
        Some((Symbol::Arrow, 2))
    } else if a == '<' && b == '=' {
        Some((Symbol::Le, 2))
    } else if a == '>' && b == '=' {
        Some((Symbol::Ge, 2))
    } else if a == '=' && b == '=' {
        Some((Symbol::EqEq, 2))
    } else if a == '!' && b == '=' {
        Some((Symbol::Ne, 2))
    } else if a == '<' && b == '<' {
        Some((Symbol::Shl, 2))
    } else if a == '>' && b == '>' {
        Some((Symbol::Shr, 2))
    } else if a == '(' {
        Some((Symbol::LParen, 1))
    } else if a == ')' {
        Some((Symbol::RParen, 1))
    } else if a == '{' {
        Some((Symbol::LBrace, 1))
    } else if a == '}' {
        Some((Symbol::RBrace, 1))
    } else if a == ',' {
        Some((Symbol::Comma, 1))
    } else if a == ':' {
        Some((Symbol::Colon, 1))
    } else if a == ';' {
        Some((Symbol::Semicolon, 1))
    } else if a == '=' {
        Some((Symbol::Assign, 1))
    } else if a == '+' {
        Some((Symbol::Plus, 1))
    } else if a == '-' {
        Some((Symbol::Minus, 1))
    } else if a == '*' {
        Some((Symbol::Star, 1))
    } else if a == '/' {
        Some((Symbol::Slash, 1))
    } else if a == '%' {
        Some((Symbol::Percent, 1))
    } else if a == '^' {
        Some((Symbol::Caret, 1))
    } else if a == '&' {
        Some((Symbol::Amp, 1))
    } else if a == '|' {
        Some((Symbol::Pipe, 1))
    } else if a == '!' {
        Some((Symbol::Bang, 1))
    } else if a == '<' {
        Some((Symbol::Lt, 1))
    } else if a == '>' {
        Some((Symbol::Gt, 1))
    } else {
        None
    }
}

proof fn lemma_digits_step(c: Seq<char>, i: int, j: int)
    requires
        0 <= i <= j < c.len(),
    ensures
        digits_value(c.subrange(i, j + 1)) == digits_value(c.subrange(i, j)) * 10 + (c[j] as int
            - '0' as int),
{
    assert(c.subrange(i, j + 1).drop_last() =~= c.subrange(i, j));
}

/// `t` is a lexing of `src`: faithful, ordered lexemes closed by the end-of-input
/// marker at the end of the text.
pub open spec fn tokens_of(src: Seq<char>, t: Seq<Lexeme>) -> bool {
    &&& well_formed(t)
    &&& t.last().position == src.len()
    &&& lexed_from(src, t.drop_last())
}

/// `t` lexes `src` up to `pos`: its lexemes are faithful, in order, end by `pos`,
/// and span every character before `pos` that is not white space.
pub open spec fn lexed_prefix(src: Seq<char>, pos: int, t: Seq<Lexeme>) -> bool {
    &&& forall|i: int| 0 <= i < t.len() ==> faithful(src, #[trigger] t[i]) && t[i].end <= pos
    &&& forall|i: int, j: int| 0 <= i < j < t.len() ==> t[i].end <= t[j].position
    &&& forall|k: int| 0 <= k < pos && !is_space(#[trigger] src[k]) ==> covered(t, k)
}

/// `src[start..end]` is a whole integer literal: digits, not followed by another
/// digit nor by a `.` and a digit, which would make it a float.
pub open spec fn integer_run(src: Seq<char>, start: int, end: int) -> bool {
    &&& 0 <= start < end <= src.len()
    &&& all_digits(src, start, end)
    &&& end == src.len() || (!is_digit(src[end]) && !(src[end] == '.' && end + 1 < src.len()
        && is_digit(src[end + 1])))
}

/// An error that the lexer reports on `src`. The text lexes up to `position`, and
/// there either a character starts no token, or an integer literal starts whose
/// value exceeds `i64::MAX`.
pub open spec fn lexical_error(src: Seq<char>, e: ParseError) -> bool {
    match e {
        ParseError::Syntax { position, expected } => {
            let c = src[position as int];
            &&& expected == Rule::Token
            &&& position < src.len()
            &&& (exists|t: Seq<Lexeme>| #[trigger] lexed_prefix(src, position as int, t))
            &&& !is_space(c) && !is_ident_start(c) && !is_digit(c) && !symbol_char(c)
        },
        ParseError::IntegerOverflow { position } => {
            &&& (exists|t: Seq<Lexeme>| #[trigger] lexed_prefix(src, position as int, t))
            &&& exists|e: int|
                #![trigger src.subrange(position as int, e)]
                integer_run(src, position as int, e) && digits_value(src.subrange(position as int, e))
                    > i64::MAX
        },
        _ => false,
    }
}

/// Digits never have a negative value.
proof fn lemma_digits_nonneg(s: Seq<char>, a: int, e: int)
    requires
        0 <= a <= e <= s.len(),
        all_digits(s, a, e),
    ensures
        digits_value(s.subrange(a, e)) >= 0,
    decreases e - a,
{
    if e > a {
        lemma_digits_nonneg(s, a, e - 1);
        lemma_digits_step(s, a, e - 1);
    }
}

/// More digits never give a smaller value.
proof fn lemma_digits_grow(s: Seq<char>, a: int, m: int, e: int)
    requires
        0 <= a <= m <= e <= s.len(),
        all_digits(s, a, e),
    ensures
        digits_value(s.subrange(a, e)) >= digits_value(s.subrange(a, m)),
    decreases e - m,
{
    if e > m {
        lemma_digits_grow(s, a, m, e - 1);
        lemma_digits_nonneg(s, a, e - 1);
        lemma_digits_step(s, a, e - 1);
    }
}

/// The value of the digits `c[i..j]`, or `None` where it exceeds `i64::MAX`.
fn integer_value(c: &Vec<char>, i: usize, j: usize) -> (r: Option<i64>)
    requires
        i <= j <= c@.len(),
        all_digits(c@, i as int, j as int),
    ensures
        r matches Some(v) ==> v as int == digits_value(c@.subrange(i as int, j as int)),
        r is None ==> digits_value(c@.subrange(i as int, j as int)) > i64::MAX,
{
    let mut v: i64 = 0;
    let mut m: usize = i;
    while m < j
        invariant
            i <= m <= j <= c@.len(),
            all_digits(c@, i as int, j as int),
            v as int == digits_value(c@.subrange(i as int, m as int)),
            v >= 0,
        decreases j - m,
    {
        let d = (c[m] as u32 - '0' as u32) as i64;
        proof {
            lemma_digits_step(c@, i as int, m as int);
        }
        if v > (i64::MAX - d) / 10 {
            proof {
                assert(v * 10 + d > i64::MAX) by (nonlinear_arith)
                    requires
                        v > (i64::MAX - d) / 10,
                        0 <= d <= 9,
                ;
                lemma_digits_grow(c@, i as int, m + 1, j as int);
            }
            return None;
        }
        v = v * 10 + d;
        m = m + 1;
    }
    Some(v)
}

/// A new lexeme that starts at or after `i` keeps every character before `i` spanned.
proof fn lemma_covered_push(src: Seq<char>, t: Seq<Lexeme>, x: Lexeme, i: int)
    requires
        x.position == i,
        forall|k: int| 0 <= k < i && !is_space(#[trigger] src[k]) ==> covered(t, k),
    ensures
        forall|k: int| 0 <= k < x.end && !is_space(#[trigger] src[k]) ==> covered(t.push(x), k),
{
    assert forall|k: int| 0 <= k < x.end && !is_space(#[trigger] src[k]) implies covered(t.push(x), k) by {
        if k < i {
            let idx = choose|idx: int| 0 <= idx < t.len() && #[trigger] t[idx].position <= k < t[idx].end;
            assert(t.push(x)[idx] == t[idx]);
        } else {
            assert(t.push(x)[t.len() as int] == x);
        }
    }
}

/// Splits source text into lexemes, skipping white space.
///
/// Fails with `IntegerOverflow` on an integer literal beyond `i64::MAX`, and with a
/// syntax error at the first character that starts no token.
pub fn tokenize(s: &str) -> (r: Result<Vec<Lexeme>, ParseError>)
    ensures
        r matches Ok(t) ==> tokens_of(s@, t@),
        r matches Err(e) ==> lexical_error(s@, e),
{
    let c = chars_of(s);
    let n = c.len();
    let mut out: Vec<Lexeme> = Vec::new();
    let mut i: usize = 0;
    while i < n
        invariant
            n == c@.len(),
            c@ == s@,
            i <= n,
            forall|j: int| 0 <= j < out@.len() ==> faithful(s@, #[trigger] out@[j]) && out@[j].end <= i,
            forall|j1: int, j2: int| 0 <= j1 < j2 < out@.len() ==> out@[j1].end <= out@[j2].position,
            forall|k: int| 0 <= k < i && !is_space(#[trigger] s@[k]) ==> covered(out@, k),
        decreases n - i,
    {
        let ghost before = out@;
        let ch = c[i];
        if ch == ' ' || ch == '\t' || ch == '\n' || ch == '\r' {
            i = i + 1;
        } else if is_ident_start_exec(ch) {
            let mut j: usize = i + 1;
            while j < n && is_ident_char_exec(c[j])
                invariant
                    i < j <= n,
                    n == c@.len(),
                    is_ident_start(c@[i as int]),
                    forall|k: int| i <= k < j ==> is_ident_char(#[trigger] c@[k]),
                decreases n - j,
            {
                j = j + 1;
            }
            let word = string_from_chars(slice_chars(&c, i, j));
            let token = match keyword_lookup(&word) {
                Some(k) => Token::Keyword(k),
                None => Token::Ident(word),
            };
            let lx = Lexeme { token, position: i, end: j };
            assert(faithful(s@, lx));
            proof {
                lemma_covered_push(s@, before, lx, i as int);
            }
            out.push(lx);
            i = j;
        } else if is_digit_exec(ch) {
            let mut j: usize = i;
            while j < n && is_digit_exec(c[j])
                invariant
                    i <= j <= n,
                    n == c@.len(),
                    forall|k: int| i <= k < j ==> is_digit(#[trigger] c@[k]),
                decreases n - j,
            {
                j = j + 1;
            }
            if j < n && n - j > 1 && c[j] == '.' && is_digit_exec(c[j + 1]) {
                let mut k: usize = j + 1;
                while k < n && is_digit_exec(c[k])
                    invariant
                        j < k <= n,
                        n == c@.len(),
                        forall|m: int| j + 1 <= m < k ==> is_digit(#[trigger] c@[m]),
                    decreases n - k,
                {
                    k = k + 1;
                }
                let text = string_from_chars(slice_chars(&c, i, k));
                let lx = Lexeme { token: Token::Float(text), position: i, end: k };
                assert(s@[j as int] == '.');
                assert(faithful(s@, lx));
                proof {
                    lemma_covered_push(s@, before, lx, i as int);
                }
                out.push(lx);
                i = k;
            } else {
                let v = match integer_value(&c, i, j) {
                    Some(v) => v,
                    None => {
                        proof {
                            let err = ParseError::IntegerOverflow { position: i };
                            assert(lexed_prefix(s@, i as int, out@));
                            assert(integer_run(s@, i as int, j as int));
                            assert(err->IntegerOverflow_position == i);
                            assert(lexical_error(s@, err));
                        }
                        return Err(ParseError::IntegerOverflow { position: i });
                    },
                };
                let lx = Lexeme { token: Token::Integer(v), position: i, end: j };
                assert(faithful(s@, lx));
                proof {
                    lemma_covered_push(s@, before, lx, i as int);
                }
                out.push(lx);
                i = j;
            }
        } else {
            match symbol_starting(&c, i) {
                Some((sym, len)) => {
                    let lx = Lexeme { token: Token::Symbol(sym), position: i, end: i + len };
                    assert(faithful(s@, lx));
                    proof {
                        lemma_covered_push(s@, before, lx, i as int);
                    }
                    out.push(lx);
                    i = i + len;
                },
                None => {
                    assert(lexed_prefix(s@, i as int, out@));
                    return Err(ParseError::Syntax { position: i, expected: Rule::Token });
                },
            }
        }
    }
    let eoi = Lexeme { token: Token::Eoi, position: n, end: n };
    assert(out@.push(eoi).drop_last() =~= out@);
    out.push(eoi);
    Ok(out)
}

} // verus!
