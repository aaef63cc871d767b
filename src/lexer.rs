//! The lexer: turns source text into positioned tokens. A malformed token
//! is reported as an item of its own and the scan goes on after it.
use vstd::prelude::*;

use crate::error::syntax;
use crate::reporting::{Position, Region};
use crate::token::{lex_result_view, LexResult, LexResultView, Token, TokenView};

verus! {

/// Relies on String::push: appends one character to the string.
#[verifier::external_body]
pub(crate) fn push_char(s: &mut String, c: char)
    ensures
        final(s)@ == old(s)@.push(c),
{
    s.push(c);
}

/// The classes of characters that the lexer reads in runs.
#[derive(Clone, Copy, PartialEq, Eq, Structural)]
pub enum CharClass {
    Space,
    Digit,
    IdentChar,
    Operator,
    NotNewline,
}

pub open spec fn is_digit(c: char) -> bool {
    '0' <= c && c <= '9'
}

pub open spec fn is_ident_start(c: char) -> bool {
    ('a' <= c && c <= 'z') || ('A' <= c && c <= 'Z') || c == '_'
}

pub open spec fn is_ident_char(c: char) -> bool {
    is_ident_start(c) || is_digit(c)
}

pub open spec fn is_operator_char(c: char) -> bool {
    c == '=' || c == '<' || c == '>' || c == '!' || c == '+' || c == '-' || c == '*' || c == '?'
        || c == '&' || c == '|' || c == '%'
}

pub open spec fn in_class(c: char, class: CharClass) -> bool {
    match class {
        CharClass::Space => c == ' ' || c == '\t' || c == '\n' || c == '\r',
        CharClass::Digit => is_digit(c),
        CharClass::IdentChar => is_ident_char(c),
        CharClass::Operator => is_operator_char(c),
        CharClass::NotNewline => c != '\n',
    }
}

fn char_in_class(c: char, class: CharClass) -> (r: bool)
    ensures
        r == in_class(c, class),
{
    match class {
        CharClass::Space => c == ' ' || c == '\t' || c == '\n' || c == '\r',
        CharClass::Digit => '0' <= c && c <= '9',
        CharClass::IdentChar => ('a' <= c && c <= 'z') || ('A' <= c && c <= 'Z') || c == '_' || (
        '0' <= c && c <= '9'),
        CharClass::Operator => c == '=' || c == '<' || c == '>' || c == '!' || c == '+' || c == '-'
            || c == '*' || c == '?' || c == '&' || c == '|' || c == '%',
        CharClass::NotNewline => c != '\n',
    }
}

/// The end of the run of characters of `class` that starts at `i`.
pub open spec fn class_end(cs: Seq<char>, i: int, class: CharClass) -> int
    decreases cs.len() - i,
{
    if 0 <= i < cs.len() && in_class(cs[i], class) {
        class_end(cs, i + 1, class)
    } else {
        i
    }
}

pub proof fn lemma_class_end_bounds(cs: Seq<char>, i: int, class: CharClass)
    requires
        0 <= i <= cs.len(),
    ensures
        i <= class_end(cs, i, class) <= cs.len(),
    decreases cs.len() - i,
{
    if 0 <= i < cs.len() && in_class(cs[i], class) {
        lemma_class_end_bounds(cs, i + 1, class);
    }
}

pub(crate) fn scan_class(cs: &Vec<char>, i: usize, class: CharClass) -> (r: usize)
    requires
        i <= cs.len(),
    ensures
        r == class_end(cs@, i as int, class),
{
    let mut j = i;
    while j < cs.len() && char_in_class(cs[j], class)
        invariant
            i <= j <= cs.len(),
            class_end(cs@, i as int, class) == class_end(cs@, j as int, class),
        decreases cs.len() - j,
    {
        j += 1;
    }
    j
}

/// Line and column of the character at index `i`.
pub open spec fn line_col(cs: Seq<char>, i: int) -> (nat, nat)
    decreases i,
{
    if i <= 0 {
        (1, 0)
    } else {
        let p = line_col(cs, i - 1);
        if cs[i - 1] == '\n' {
            ((p.0 + 1) as nat, 0)
        } else {
            (p.0, (p.1 + 1) as nat)
        }
    }
}

pub open spec fn position_at(cs: Seq<char>, i: int) -> Position {
    Position { line: line_col(cs, i).0 as usize, col: line_col(cs, i).1 as usize }
}

proof fn lemma_line_col_bounds(cs: Seq<char>, i: int)
    requires
        0 <= i,
    ensures
        line_col(cs, i).0 <= i + 1,
        line_col(cs, i).1 <= i,
    decreases i,
{
    if i > 0 {
        lemma_line_col_bounds(cs, i - 1);
    }
}

/// The position of every index of `cs`, one past the end included.
fn positions(cs: &Vec<char>) -> (r: Vec<Position>)
    requires
        cs.len() + 2 < usize::MAX,
    ensures
        r.len() == cs.len() + 1,
        forall|i: int| 0 <= i <= cs.len() ==> #[trigger] r[i] == position_at(cs@, i),
{
    let mut r: Vec<Position> = Vec::new();
    let mut line: usize = 1;
    let mut col: usize = 0;
    let mut i: usize = 0;
    while i < cs.len()
        invariant
            i <= cs.len(),
            cs.len() + 2 < usize::MAX,
            r.len() == i,
            line as nat == line_col(cs@, i as int).0,
            col as nat == line_col(cs@, i as int).1,
            forall|k: int| 0 <= k < i ==> #[trigger] r[k] == position_at(cs@, k),
        decreases cs.len() - i,
    {
        r.push(Position { line, col });
        proof {
            lemma_line_col_bounds(cs@, i as int);
        }
        if cs[i] == '\n' {
            line = line + 1;
            col = 0;
        } else {
            col = col + 1;
        }
        i += 1;
    }
    r.push(Position { line, col });
    r
}

/// Appends the characters `cs[lo..hi]` to `s`.
pub(crate) fn push_range(s: &mut String, cs: &Vec<char>, lo: usize, hi: usize)
    requires
        lo <= hi <= cs.len(),
    ensures
        final(s)@ == old(s)@ + cs@.subrange(lo as int, hi as int),
{
    let ghost start = s@;
    let mut i = lo;
    while i < hi
        invariant
            lo <= i <= hi <= cs.len(),
            s@ == start + cs@.subrange(lo as int, i as int),
        decreases hi - i,
    {
        push_char(s, cs[i]);
        i += 1;
        assert(s@ =~= start + cs@.subrange(lo as int, i as int));
    }
}

/// The string of the characters `cs[lo..hi]`.
pub(crate) fn string_of(cs: &Vec<char>, lo: usize, hi: usize) -> (r: String)
    requires
        lo <= hi <= cs.len(),
    ensures
        r@ == cs@.subrange(lo as int, hi as int),
{
    let mut s = String::new();
    let mut i = lo;
    while i < hi
        invariant
            lo <= i <= hi <= cs.len(),
            s@ == cs@.subrange(lo as int, i as int),
        decreases hi - i,
    {
        push_char(&mut s, cs[i]);
        i += 1;
        assert(s@ =~= cs@.subrange(lo as int, i as int));
    }
    s
}

/// The characters of `source`.
pub(crate) fn chars_of(source: &str) -> (r: Vec<char>)
    ensures
        r@ == source@,
{
    broadcast use vstd::string::axiom_spec_iter;

    let mut v: Vec<char> = Vec::new();
    for c in it: source.chars()
        invariant
            it.seq() == source@,
            v@ == it.seq().take(it.index() as int),
    {
        v.push(c);
    }
    assert(v@ =~= source@);
    v
}

/// The character that an escape sequence `\c` stands for.
pub open spec fn escaped(c: char) -> Option<char> {
    if c == '"' {
        Some('"')
    } else if c == '\\' {
        Some('\\')
    } else if c == 'n' {
        Some('\n')
    } else if c == 't' {
        Some('\t')
    } else if c == 'r' {
        Some('\r')
    } else {
        None
    }
}

fn escape(c: char) -> (r: Option<char>)
    ensures
        r == escaped(c),
{
    if c == '"' {
        Some('"')
    } else if c == '\\' {
        Some('\\')
    } else if c == 'n' {
        Some('\n')
    } else if c == 't' {
        Some('\t')
    } else if c == 'r' {
        Some('\r')
    } else {
        None
    }
}

/// How the body of a string literal ends.
pub enum StrScan {
    /// Closed by a quote: the contents, and the index after the quote.
    Closed(Seq<char>, int),
    /// Closed, but with an unknown escape inside; the index after the quote.
    BadEscape(int),
    /// The input ends inside the literal.
    Endless,
}

/// Reads a string literal's body from index `i`, with the contents read so
/// far in `acc` and whether an unknown escape was met in `bad`.
pub open spec fn string_body(cs: Seq<char>, i: int, acc: Seq<char>, bad: bool) -> StrScan
    decreases cs.len() - i,
{
    if i < 0 || i >= cs.len() {
        StrScan::Endless
    } else if cs[i] == '"' {
        if bad {
            StrScan::BadEscape(i + 1)
        } else {
            StrScan::Closed(acc, i + 1)
        }
    } else if cs[i] == '\\' {
        if i + 1 >= cs.len() {
            StrScan::Endless
        } else {
            match escaped(cs[i + 1]) {
                Some(e) => string_body(cs, i + 2, acc.push(e), bad),
                None => string_body(cs, i + 2, acc, true),
            }
        }
    } else {
        string_body(cs, i + 1, acc.push(cs[i]), bad)
    }
}

proof fn lemma_string_body_bounds(cs: Seq<char>, i: int, acc: Seq<char>, bad: bool)
    requires
        0 <= i,
    ensures
        string_body(cs, i, acc, bad) matches StrScan::Closed(_, k) ==> i < k <= cs.len(),
        string_body(cs, i, acc, bad) matches StrScan::BadEscape(k) ==> i < k <= cs.len(),
    decreases cs.len() - i,
{
    if i < 0 || i >= cs.len() {
    } else if cs[i] == '"' {
    } else if cs[i] == '\\' {
        if i + 1 < cs.len() {
            match escaped(cs[i + 1]) {
                Some(e) => lemma_string_body_bounds(cs, i + 2, acc.push(e), bad),
                None => lemma_string_body_bounds(cs, i + 2, acc, true),
            }
        }
    } else {
        lemma_string_body_bounds(cs, i + 1, acc.push(cs[i]), bad);
    }
}

/// Reads the body of a string literal that starts at index `i`, just after
/// its opening quote. Returns the contents or the error, and the index
/// where the scan goes on.
fn scan_string_body(cs: &Vec<char>, i: usize) -> (r: (Result<String, syntax::Str>, usize))
    requires
        i <= cs.len(),
    ensures
        match string_body(cs@, i as int, Seq::empty(), false) {
            StrScan::Closed(s, k) => r.0 matches Ok(t) && t@ == s && r.1 == k,
            StrScan::BadEscape(k) => r.0 == Err::<String, syntax::Str>(
                syntax::Str::StringEscape(syntax::Escape::EscapeUnknown),
            ) && r.1 == k,
            StrScan::Endless => r.0 == Err::<String, syntax::Str>(syntax::Str::Endless) && r.1
                == cs.len(),
        },
{
    let mut acc = String::new();
    let mut bad = false;
    let mut j = i;
    loop
        invariant
            i <= j <= cs.len(),
            string_body(cs@, i as int, Seq::empty(), false) == string_body(
                cs@,
                j as int,
                acc@,
                bad,
            ),
        decreases cs.len() - j,
    {
        if j >= cs.len() {
            return (Err(syntax::Str::Endless), cs.len());
        }
        let c = cs[j];
        if c == '"' {
            if bad {
                return (Err(syntax::Str::StringEscape(syntax::Escape::EscapeUnknown)), j + 1);
            } else {
                return (Ok(acc), j + 1);
            }
        } else if c == '\\' {
            if j + 1 >= cs.len() {
                return (Err(syntax::Str::Endless), cs.len());
            }
            match escape(cs[j + 1]) {
                Some(e) => {
                    push_char(&mut acc, e);
                },
                None => {
                    bad = true;
                },
            }
            j = j + 2;
        } else {
            push_char(&mut acc, c);
            j = j + 1;
        }
    }
}

/// Where a numeric literal that starts at `i` ends, and whether it is well
/// formed: an optional minus, digits, and an optional fraction of at least
/// one digit, not followed by a letter.
pub open spec fn number_end(cs: Seq<char>, i: int) -> (bool, int) {
    let d = if cs[i] == '-' {
        i + 1
    } else {
        i
    };
    let j = class_end(cs, d, CharClass::Digit);
    let (ok, k) = if j < cs.len() && cs[j] == '.' {
        let m = class_end(cs, j + 1, CharClass::Digit);
        (m > j + 1, m)
    } else {
        (true, j)
    };
    if k < cs.len() && is_ident_char(cs[k]) {
        (false, class_end(cs, k, CharClass::IdentChar))
    } else {
        (ok, k)
    }
}

fn scan_number(cs: &Vec<char>, i: usize) -> (r: (bool, usize))
    requires
        i < cs.len(),
        is_digit(cs[i as int]) || (cs[i as int] == '-' && i + 1 < cs.len() && is_digit(
            cs[i + 1],
        )),
    ensures
        r.0 == number_end(cs@, i as int).0,
        r.1 as int == number_end(cs@, i as int).1,
        i < r.1 <= cs.len(),
{
    let d = if cs[i] == '-' {
        i + 1
    } else {
        i
    };
    let j = scan_class(cs, d, CharClass::Digit);
    proof {
        lemma_class_end_bounds(cs@, d + 1, CharClass::Digit);
        assert(class_end(cs@, d as int, CharClass::Digit) == class_end(cs@, d + 1, CharClass::Digit));
    }
    let (ok, k) = if j < cs.len() && cs[j] == '.' {
        let m = scan_class(cs, j + 1, CharClass::Digit);
        proof {
            lemma_class_end_bounds(cs@, j + 1, CharClass::Digit);
        }
        (m > j + 1, m)
    } else {
        (true, j)
    };
    if k < cs.len() && char_in_class(cs[k], CharClass::IdentChar) {
        let e = scan_class(cs, k, CharClass::IdentChar);
        proof {
            lemma_class_end_bounds(cs@, k as int, CharClass::IdentChar);
        }
        (false, e)
    } else {
        (ok, k)
    }
}

/// The token that a word of identifier characters stands for.
pub open spec fn word_token(w: Seq<char>) -> TokenView {
    if w == seq!['d', 'a', 't', 'a'] {
        TokenView::Data
    } else if w == seq!['s', 'e', 'r', 'v', 'i', 'c', 'e'] {
        TokenView::Service
    } else if w == seq!['e', 'n', 'u', 'm'] {
        TokenView::Enum
    } else if w == seq!['d', 'e', 'f'] {
        TokenView::Def
    } else if w == seq!['t', 'r', 'u', 'e'] {
        TokenView::Boolean(true)
    } else if w == seq!['f', 'a', 'l', 's', 'e'] {
        TokenView::Boolean(false)
    } else {
        TokenView::Identifier(w)
    }
}

/// Whether `cs[lo..hi]` spells `w`.
pub(crate) fn spells(cs: &Vec<char>, lo: usize, hi: usize, w: &Vec<char>) -> (r: bool)
    requires
        lo <= hi <= cs.len(),
    ensures
        r == (cs@.subrange(lo as int, hi as int) == w@),
{
    if hi - lo != w.len() {
        return false;
    }
    let mut k: usize = 0;
    while k < w.len()
        invariant
            lo <= hi <= cs.len(),
            hi - lo == w.len(),
            k <= w.len(),
            forall|m: int| 0 <= m < k ==> cs@[lo + m] == w@[m],
        decreases w.len() - k,
    {
        if cs[lo + k] != w[k] {
            return false;
        }
        k += 1;
    }
    assert(cs@.subrange(lo as int, hi as int) =~= w@);
    true
}

fn word_at(cs: &Vec<char>, lo: usize, hi: usize) -> (r: Token)
    requires
        lo <= hi <= cs.len(),
    ensures
        r@ == word_token(cs@.subrange(lo as int, hi as int)),
{
    if spells(cs, lo, hi, &vec!['d', 'a', 't', 'a']) {
        Token::Data
    } else if spells(cs, lo, hi, &vec!['s', 'e', 'r', 'v', 'i', 'c', 'e']) {
        Token::Service
    } else if spells(cs, lo, hi, &vec!['e', 'n', 'u', 'm']) {
        Token::Enum
    } else if spells(cs, lo, hi, &vec!['d', 'e', 'f']) {
        Token::Def
    } else if spells(cs, lo, hi, &vec!['t', 'r', 'u', 'e']) {
        Token::Boolean(true)
    } else if spells(cs, lo, hi, &vec!['f', 'a', 'l', 's', 'e']) {
        Token::Boolean(false)
    } else {
        Token::Identifier(string_of(cs, lo, hi))
    }
}

pub open spec fn token_at(cs: Seq<char>, i: int, k: int, t: TokenView) -> (LexResultView, int) {
    (Ok((Region { start: position_at(cs, i), end: position_at(cs, k) }, t)), k)
}

/// Reads the one token that starts at index `i`, which holds no white
/// space; returns it and the index after it.
pub open spec fn scan(cs: Seq<char>, i: int) -> (LexResultView, int) {
    let c = cs[i];
    let p = position_at(cs, i);
    if c == '(' {
        token_at(cs, i, i + 1, TokenView::LParen)
    } else if c == ')' {
        token_at(cs, i, i + 1, TokenView::RParen)
    } else if c == '{' {
        token_at(cs, i, i + 1, TokenView::LBrace)
    } else if c == '}' {
        token_at(cs, i, i + 1, TokenView::RBrace)
    } else if c == ',' {
        token_at(cs, i, i + 1, TokenView::Comma)
    } else if c == '#' {
        token_at(cs, i, i + 1, TokenView::Hash)
    } else if c == ':' {
        if i + 1 < cs.len() && is_ident_start(cs[i + 1]) && !(i > 0 && is_ident_char(cs[i - 1])) {
            let j = class_end(cs, i + 1, CharClass::IdentChar);
            token_at(cs, i, j, TokenView::Keyword(cs.subrange(i + 1, j)))
        } else {
            token_at(cs, i, i + 1, TokenView::Colon)
        }
    } else if c == '"' {
        match string_body(cs, i + 1, Seq::empty(), false) {
            StrScan::Closed(s, k) => token_at(cs, i, k, TokenView::String(s)),
            StrScan::BadEscape(k) => (
                Err(
                    syntax::Token::String(
                        p.line,
                        p.col,
                        syntax::Str::StringEscape(syntax::Escape::EscapeUnknown),
                    ),
                ),
                k,
            ),
            StrScan::Endless => (
                Err(syntax::Token::String(p.line, p.col, syntax::Str::Endless)),
                cs.len() as int,
            ),
        }
    } else if c == '/' {
        if i + 1 < cs.len() && cs[i + 1] == '/' {
            let j = class_end(cs, i + 2, CharClass::NotNewline);
            token_at(cs, i, j, TokenView::Comment(cs.subrange(i + 2, j)))
        } else {
            (Err(syntax::Token::Comment(syntax::Comment::Start, p.line, p.col)), i + 1)
        }
    } else if is_digit(c) || (c == '-' && i + 1 < cs.len() && is_digit(cs[i + 1])) {
        let (ok, k) = number_end(cs, i);
        if ok {
            token_at(cs, i, k, TokenView::Number(cs.subrange(i, k)))
        } else {
            (Err(syntax::Token::Number(p.line, p.col, syntax::Number::Bad)), k)
        }
    } else if is_ident_start(c) {
        let j = class_end(cs, i, CharClass::IdentChar);
        token_at(cs, i, j, word_token(cs.subrange(i, j)))
    } else if c == '.' {
        let j = class_end(cs, i + 1, CharClass::IdentChar);
        token_at(cs, i, j, TokenView::Symbol(cs.subrange(i, j)))
    } else if is_operator_char(c) {
        let j = class_end(cs, i, CharClass::Operator);
        token_at(cs, i, j, TokenView::Symbol(cs.subrange(i, j)))
    } else {
        (Err(syntax::Token::BadChar(p.line, p.col, c)), i + 1)
    }
}

/// The items that lexing `cs` from index `i` on yields, ending with `Eof`.
pub open spec fn lex_from(cs: Seq<char>, i: int) -> Seq<LexResultView>
    decreases cs.len() - i,
{
    let j = class_end(cs, i, CharClass::Space);
    if j < i || j >= cs.len() {
        seq![token_at(cs, j, j, TokenView::Eof).0]
    } else {
        let (item, k) = scan(cs, j);
        if j < k <= cs.len() {
            seq![item] + lex_from(cs, k)
        } else {
            seq![item]
        }
    }
}

/// The items that lexing the text `cs` yields.
pub open spec fn lex_spec(cs: Seq<char>) -> Seq<LexResultView> {
    lex_from(cs, 0)
}

fn ident_start(c: char) -> (r: bool)
    ensures
        r == is_ident_start(c),
{
    ('a' <= c && c <= 'z') || ('A' <= c && c <= 'Z') || c == '_'
}

fn region_of(pos: &Vec<Position>, i: usize, k: usize) -> (r: Region)
    requires
        i < pos.len(),
        k < pos.len(),
    ensures
        r == (Region { start: pos[i as int], end: pos[k as int] }),
{
    Region { start: pos[i], end: pos[k] }
}

/// Reads the token that starts at index `i`.
fn scan_token(cs: &Vec<char>, pos: &Vec<Position>, i: usize) -> (r: (LexResult, usize))
    requires
        i < cs.len(),
        pos.len() == cs.len() + 1,
        forall|k: int| 0 <= k <= cs.len() ==> #[trigger] pos[k] == position_at(cs@, k),
    ensures
        (lex_result_view(r.0), r.1 as int) == scan(cs@, i as int),
        i < r.1 <= cs.len(),
{
    let c = cs[i];
    let p = pos[i];
    let n = cs.len();
    if c == '(' {
        (Ok((region_of(pos, i, i + 1), Token::LParen)), i + 1)
    } else if c == ')' {
        (Ok((region_of(pos, i, i + 1), Token::RParen)), i + 1)
    } else if c == '{' {
        (Ok((region_of(pos, i, i + 1), Token::LBrace)), i + 1)
    } else if c == '}' {
        (Ok((region_of(pos, i, i + 1), Token::RBrace)), i + 1)
    } else if c == ',' {
        (Ok((region_of(pos, i, i + 1), Token::Comma)), i + 1)
    } else if c == '#' {
        (Ok((region_of(pos, i, i + 1), Token::Hash)), i + 1)
    } else if c == ':' {
        if i + 1 < n && ident_start(cs[i + 1]) && !(i > 0 && char_in_class(
            cs[i - 1],
            CharClass::IdentChar,
        )) {
            let j = scan_class(cs, i + 1, CharClass::IdentChar);
            proof {
                lemma_class_end_bounds(cs@, i + 1, CharClass::IdentChar);
            }
            (Ok((region_of(pos, i, j), Token::Keyword(string_of(cs, i + 1, j)))), j)
        } else {
            (Ok((region_of(pos, i, i + 1), Token::Colon)), i + 1)
        }
    } else if c == '"' {
        let (body, k) = scan_string_body(cs, i + 1);
        proof {
            lemma_string_body_bounds(cs@, i + 1, Seq::empty(), false);
        }
        match body {
            Ok(text) => (Ok((region_of(pos, i, k), Token::String(text))), k),
            Err(e) => (Err(syntax::Token::String(p.line, p.col, e)), k),
        }
    } else if c == '/' {
        if i + 1 < n && cs[i + 1] == '/' {
            let j = scan_class(cs, i + 2, CharClass::NotNewline);
            proof {
                lemma_class_end_bounds(cs@, i + 2, CharClass::NotNewline);
            }
            (Ok((region_of(pos, i, j), Token::Comment(string_of(cs, i + 2, j)))), j)
        } else {
            (Err(syntax::Token::Comment(syntax::Comment::Start, p.line, p.col)), i + 1)
        }
    } else if char_in_class(c, CharClass::Digit) || (c == '-' && i + 1 < n && char_in_class(
        cs[i + 1],
        CharClass::Digit,
    )) {
        let (ok, k) = scan_number(cs, i);
        if ok {
            (Ok((region_of(pos, i, k), Token::Number(string_of(cs, i, k)))), k)
        } else {
            (Err(syntax::Token::Number(p.line, p.col, syntax::Number::Bad)), k)
        }
    } else if ident_start(c) {
        let j = scan_class(cs, i, CharClass::IdentChar);
        proof {
            lemma_class_end_bounds(cs@, i + 1, CharClass::IdentChar);
        }
        (Ok((region_of(pos, i, j), word_at(cs, i, j))), j)
    } else if c == '.' {
        let j = scan_class(cs, i + 1, CharClass::IdentChar);
        proof {
            lemma_class_end_bounds(cs@, i + 1, CharClass::IdentChar);
        }
        (Ok((region_of(pos, i, j), Token::Symbol(string_of(cs, i, j)))), j)
    } else if char_in_class(c, CharClass::Operator) {
        let j = scan_class(cs, i, CharClass::Operator);
        proof {
            lemma_class_end_bounds(cs@, i + 1, CharClass::Operator);
        }
        (Ok((region_of(pos, i, j), Token::Symbol(string_of(cs, i, j)))), j)
    } else {
        (Err(syntax::Token::BadChar(p.line, p.col, c)), i + 1)
    }
}

/// Reads all of `source` into tokens and malformed tokens, in order,
/// ending with one `Eof`.
pub fn lex(source: &str) -> (r: Vec<LexResult>)
    requires
        source@.len() + 2 < usize::MAX,
    ensures
        r@.map_values(|x: LexResult| lex_result_view(x)) == lex_spec(source@),
{
    let cs = chars_of(source);
    let pos = positions(&cs);
    let mut out: Vec<LexResult> = Vec::new();
    let mut i: usize = 0;
    loop
        invariant
            i <= cs.len(),
            pos.len() == cs.len() + 1,
            forall|k: int| 0 <= k <= cs.len() ==> #[trigger] pos[k] == position_at(cs@, k),
            out@.map_values(|x: LexResult| lex_result_view(x)) + lex_from(cs@, i as int)
                == lex_spec(cs@),
            cs@ == source@,
        decreases cs.len() - i,
    {
        let j = scan_class(&cs, i, CharClass::Space);
        proof {
            lemma_class_end_bounds(cs@, i as int, CharClass::Space);
        }
        let ghost before = out@.map_values(|x: LexResult| lex_result_view(x));
        if j >= cs.len() {
            out.push(Ok((region_of(&pos, j, j), Token::Eof)));
            assert(out@.map_values(|x: LexResult| lex_result_view(x)) =~= before + lex_from(
                cs@,
                i as int,
            ));
            return out;
        }
        let (item, k) = scan_token(&cs, &pos, j);
        out.push(item);
        assert(out@.map_values(|x: LexResult| lex_result_view(x)) + lex_from(cs@, k as int)
            =~= before + lex_from(cs@, i as int));
        i = k;
    }
}

} // verus!
