//! The lexer: turns source bytes into a gapless stream of tokens.
use vstd::prelude::*;
use crate::text::slice_text;
use crate::token::{Syntax, TextRange, Token, TokenId};
use vstd::string::StringSliceAdditionalSpecFns;

verus! {

pub open spec fn is_digit(c: u8) -> bool {
    48 <= c <= 57
}

pub open spec fn is_alpha(c: u8) -> bool {
    (65 <= c <= 90) || (97 <= c <= 122)
}

pub open spec fn is_alnum(c: u8) -> bool {
    is_digit(c) || is_alpha(c)
}

/// Space, tab or form feed.
pub open spec fn is_blank(c: u8) -> bool {
    c == 32 || c == 9 || c == 12
}

/// A byte that continues a multi-byte UTF-8 sequence.
pub open spec fn is_continuation(c: u8) -> bool {
    128 <= c <= 191
}

pub open spec fn digits_end(b: Seq<u8>, i: int) -> int
    decreases b.len() - i,
{
    if 0 <= i < b.len() && is_digit(b[i]) {
        digits_end(b, i + 1)
    } else {
        i
    }
}

pub open spec fn alnum_end(b: Seq<u8>, i: int) -> int
    decreases b.len() - i,
{
    if 0 <= i < b.len() && is_alnum(b[i]) {
        alnum_end(b, i + 1)
    } else {
        i
    }
}

pub open spec fn blank_end(b: Seq<u8>, i: int) -> int
    decreases b.len() - i,
{
    if 0 <= i < b.len() && is_blank(b[i]) {
        blank_end(b, i + 1)
    } else {
        i
    }
}

/// Index of the next line feed at or after `i`, or the end of the input.
pub open spec fn line_end(b: Seq<u8>, i: int) -> int
    decreases b.len() - i,
{
    if 0 <= i < b.len() && b[i] != 10 {
        line_end(b, i + 1)
    } else {
        i
    }
}

pub open spec fn continuation_end(b: Seq<u8>, i: int) -> int
    decreases b.len() - i,
{
    if 0 <= i < b.len() && is_continuation(b[i]) {
        continuation_end(b, i + 1)
    } else {
        i
    }
}

/// Index of the first byte `q` at or after `i`, or -1 when there is none.
pub open spec fn quote_close(b: Seq<u8>, i: int, q: u8) -> int
    decreases b.len() - i,
{
    if i < 0 || i >= b.len() {
        -1
    } else if b[i] == q {
        i
    } else {
        quote_close(b, i + 1, q)
    }
}

/// End of `\d+_\d+` or `\d+`, the longer of the two, from a digit at `i`.
pub open spec fn decimal_end(b: Seq<u8>, i: int) -> int {
    let e = digits_end(b, i);
    if e + 1 < b.len() && b[e] == 95 && is_digit(b[e + 1]) {
        digits_end(b, e + 1)
    } else {
        e
    }
}

/// A number from a digit at `i`: an integer, or a decimal part with an
/// optional `d` (decimal) or `f` (float) suffix.
pub open spec fn scan_number(b: Seq<u8>, i: int) -> (Syntax, int) {
    let e = decimal_end(b, i);
    if e + 1 < b.len() && b[e] == 46 && is_digit(b[e + 1]) {
        let f = decimal_end(b, e + 1);
        if f < b.len() && b[f] == 102 {
            (Syntax::Float, f + 1)
        } else if f < b.len() && b[f] == 100 {
            (Syntax::Decimal, f + 1)
        } else {
            (Syntax::Decimal, f)
        }
    } else {
        (Syntax::Integer, e)
    }
}

/// The kind of a quoted literal introduced by the word `b[i..e]`, if the word
/// is `d`, `t` or `dt`.
pub open spec fn quoted_prefix(b: Seq<u8>, i: int, e: int) -> Option<Syntax> {
    if e - i == 1 && b[i] == 100 {
        Some(Syntax::Date)
    } else if e - i == 1 && b[i] == 116 {
        Some(Syntax::Time)
    } else if e - i == 2 && b[i] == 100 && b[i + 1] == 116 {
        Some(Syntax::DateTime)
    } else {
        None
    }
}

pub open spec fn is_quote(c: u8) -> bool {
    c == 34 || c == 39
}

/// A word from a letter at `i`: a date/time literal, a keyword or an identifier.
pub open spec fn scan_word(b: Seq<u8>, i: int) -> (Syntax, int) {
    let e = alnum_end(b, i + 1);
    if quoted_prefix(b, i, e) is Some && e < b.len() && is_quote(b[e]) && quote_close(
        b,
        e + 1,
        b[e],
    ) >= 0 {
        (quoted_prefix(b, i, e).unwrap(), quote_close(b, e + 1, b[e]) + 1)
    } else {
        (word_kind(b.subrange(i, e)), e)
    }
}

/// The kinds made of one punctuation byte.
pub open spec fn punct_kind(c: u8) -> Option<Syntax> {
    if c == 46 {
        Some(Syntax::Point)
    } else if c == 44 {
        Some(Syntax::Comma)
    } else if c == 59 {
        Some(Syntax::Semicolon)
    } else if c == 63 {
        Some(Syntax::Question)
    } else if c == 43 {
        Some(Syntax::Plus)
    } else if c == 45 {
        Some(Syntax::Minus)
    } else if c == 42 {
        Some(Syntax::Star)
    } else if c == 47 {
        Some(Syntax::Slash)
    } else if c == 61 {
        Some(Syntax::Equals)
    } else if c == 60 {
        Some(Syntax::Less)
    } else if c == 62 {
        Some(Syntax::Greater)
    } else if c == 40 {
        Some(Syntax::LParen)
    } else if c == 41 {
        Some(Syntax::RParen)
    } else if c == 123 {
        Some(Syntax::LBrace)
    } else if c == 125 {
        Some(Syntax::RBrace)
    } else if c == 91 {
        Some(Syntax::LSquare)
    } else if c == 93 {
        Some(Syntax::RSquare)
    } else {
        None
    }
}

/// The kinds made of two punctuation bytes.
pub open spec fn pair_kind(c: u8, d: u8) -> Option<Syntax> {
    if d != 61 {
        None
    } else if c == 58 {
        Some(Syntax::Assign)
    } else if c == 33 {
        Some(Syntax::NotEquals)
    } else if c == 60 {
        Some(Syntax::LessThan)
    } else if c == 62 {
        Some(Syntax::GreaterThan)
    } else {
        None
    }
}

/// The kind and end of the longest token that starts at `i`. Input that no
/// rule matches gives an `Error` token over one character.
pub open spec fn scan(b: Seq<u8>, i: int) -> (Syntax, int) {
    let n = b.len();
    let c = b[i];
    if c == 10 {
        (Syntax::Cr, i + 1)
    } else if is_blank(c) {
        (Syntax::Whitespace, blank_end(b, i))
    } else if c == 45 && i + 1 < b.len() && b[i + 1] == 45 {
        (Syntax::Comment, line_end(b, i))
    } else if is_digit(c) {
        scan_number(b, i)
    } else if is_alpha(c) {
        scan_word(b, i)
    } else if is_quote(c) && quote_close(b, i + 1, c) >= 0 {
        (Syntax::String, quote_close(b, i + 1, c) + 1)
    } else if i + 1 < b.len() && pair_kind(c, b[i + 1]) is Some {
        (pair_kind(c, b[i + 1]).unwrap(), i + 2)
    } else if punct_kind(c) is Some {
        (punct_kind(c).unwrap(), i + 1)
    } else {
        (Syntax::Error, continuation_end(b, i + 1))
    }
}

/// The kind of a word: a keyword, a boolean literal, or an identifier.
pub open spec fn word_kind(w: Seq<u8>) -> Syntax {
    if w == seq![116u8, 114u8, 117u8, 101u8] {
        Syntax::Bool
    } else if w == seq![102u8, 97u8, 108u8, 115u8, 101u8] {
        Syntax::Bool
    } else if w == seq![102u8, 117u8, 110u8] {
        Syntax::FnKw
    } else if w == seq![108u8, 101u8, 116u8] {
        Syntax::LetKw
    } else if w == seq![118u8, 97u8, 114u8] {
        Syntax::VarKw
    } else if w == seq![105u8, 102u8] {
        Syntax::IfKw
    } else if w == seq![101u8, 108u8, 115u8, 101u8] {
        Syntax::ElseKw
    } else if w == seq![100u8, 111u8] {
        Syntax::DoKw
    } else if w == seq![101u8, 110u8, 100u8] {
        Syntax::EndKw
    } else if w == seq![97u8, 110u8, 100u8] {
        Syntax::AndKw
    } else if w == seq![111u8, 114u8] {
        Syntax::OrKw
    } else if w == seq![110u8, 111u8, 116u8] {
        Syntax::NotKw
    } else {
        Syntax::Ident
    }
}

fn word_kind_at(b: &[u8], i: usize, e: usize) -> (r: Syntax)
    requires
        i <= e <= b@.len(),
    ensures
        r == word_kind(b@.subrange(i as int, e as int)),
{
    if same_bytes(b, i, e, &vec![116u8, 114u8, 117u8, 101u8]) {
        Syntax::Bool
    } else if same_bytes(b, i, e, &vec![102u8, 97u8, 108u8, 115u8, 101u8]) {
        Syntax::Bool
    } else if same_bytes(b, i, e, &vec![102u8, 117u8, 110u8]) {
        Syntax::FnKw
    } else if same_bytes(b, i, e, &vec![108u8, 101u8, 116u8]) {
        Syntax::LetKw
    } else if same_bytes(b, i, e, &vec![118u8, 97u8, 114u8]) {
        Syntax::VarKw
    } else if same_bytes(b, i, e, &vec![105u8, 102u8]) {
        Syntax::IfKw
    } else if same_bytes(b, i, e, &vec![101u8, 108u8, 115u8, 101u8]) {
        Syntax::ElseKw
    } else if same_bytes(b, i, e, &vec![100u8, 111u8]) {
        Syntax::DoKw
    } else if same_bytes(b, i, e, &vec![101u8, 110u8, 100u8]) {
        Syntax::EndKw
    } else if same_bytes(b, i, e, &vec![97u8, 110u8, 100u8]) {
        Syntax::AndKw
    } else if same_bytes(b, i, e, &vec![111u8, 114u8]) {
        Syntax::OrKw
    } else if same_bytes(b, i, e, &vec![110u8, 111u8, 116u8]) {
        Syntax::NotKw
    } else {
        Syntax::Ident
    }
}

fn digit(c: u8) -> (r: bool)
    ensures
        r == is_digit(c),
{
    48 <= c && c <= 57
}

fn alnum(c: u8) -> (r: bool)
    ensures
        r == is_alnum(c),
{
    (48 <= c && c <= 57) || (65 <= c && c <= 90) || (97 <= c && c <= 122)
}

fn digits_end_at(b: &[u8], i: usize) -> (r: usize)
    requires
        i <= b@.len(),
    ensures
        r == digits_end(b@, i as int),
        i <= r <= b@.len(),
        i < b@.len() && is_digit(b@[i as int]) ==> i < r,
{
    let mut j: usize = i;
    while j < b.len() && digit(b[j])
        invariant
            i <= j <= b@.len(),
            digits_end(b@, j as int) == digits_end(b@, i as int),
        decreases b@.len() - j,
    {
        j = j + 1;
    }
    j
}

fn alnum_end_at(b: &[u8], i: usize) -> (r: usize)
    requires
        i <= b@.len(),
    ensures
        r == alnum_end(b@, i as int),
        i <= r <= b@.len(),
{
    let mut j: usize = i;
    while j < b.len() && alnum(b[j])
        invariant
            i <= j <= b@.len(),
            alnum_end(b@, j as int) == alnum_end(b@, i as int),
        decreases b@.len() - j,
    {
        j = j + 1;
    }
    j
}

fn blank_end_at(b: &[u8], i: usize) -> (r: usize)
    requires
        i <= b@.len(),
    ensures
        r == blank_end(b@, i as int),
        i <= r <= b@.len(),
{
    let mut j: usize = i;
    while j < b.len() && (b[j] == 32 || b[j] == 9 || b[j] == 12)
        invariant
            i <= j <= b@.len(),
            blank_end(b@, j as int) == blank_end(b@, i as int),
        decreases b@.len() - j,
    {
        j = j + 1;
    }
    j
}

fn line_end_at(b: &[u8], i: usize) -> (r: usize)
    requires
        i <= b@.len(),
    ensures
        r == line_end(b@, i as int),
        i <= r <= b@.len(),
{
    let mut j: usize = i;
    while j < b.len() && b[j] != 10
        invariant
            i <= j <= b@.len(),
            line_end(b@, j as int) == line_end(b@, i as int),
        decreases b@.len() - j,
    {
        j = j + 1;
    }
    j
}

fn continuation_end_at(b: &[u8], i: usize) -> (r: usize)
    requires
        i <= b@.len(),
    ensures
        r == continuation_end(b@, i as int),
        i <= r <= b@.len(),
{
    let mut j: usize = i;
    while j < b.len() && 128 <= b[j] && b[j] <= 191
        invariant
            i <= j <= b@.len(),
            continuation_end(b@, j as int) == continuation_end(b@, i as int),
        decreases b@.len() - j,
    {
        j = j + 1;
    }
    j
}

fn find_quote(b: &[u8], i: usize, q: u8) -> (r: Option<usize>)
    requires
        i <= b@.len(),
    ensures
        r is Some <==> quote_close(b@, i as int, q) >= 0,
        r is Some ==> r.unwrap() == quote_close(b@, i as int, q) && i <= r.unwrap() < b@.len(),
{
    let mut j: usize = i;
    while j < b.len()
        invariant
            i <= j <= b@.len(),
            quote_close(b@, j as int, q) == quote_close(b@, i as int, q),
        decreases b@.len() - j,
    {
        if b[j] == q {
            return Some(j);
        }
        j = j + 1;
    }
    None
}

fn decimal_end_at(b: &[u8], i: usize) -> (r: usize)
    requires
        i <= b@.len(),
    ensures
        r == decimal_end(b@, i as int),
        i <= r <= b@.len(),
        i < b@.len() && is_digit(b@[i as int]) ==> i < r,
{
    let e = digits_end_at(b, i);
    if e < b.len() && e + 1 < b.len() && b[e] == 95 && digit(b[e + 1]) {
        digits_end_at(b, e + 1)
    } else {
        e
    }
}

fn scan_number_at(b: &[u8], i: usize) -> (r: (Syntax, usize))
    requires
        i < b@.len(),
        is_digit(b@[i as int]),
    ensures
        (r.0, r.1 as int) == scan_number(b@, i as int),
        i < r.1 <= b@.len(),
{
    let e = decimal_end_at(b, i);
    if e < b.len() && e + 1 < b.len() && b[e] == 46 && digit(b[e + 1]) {
        let f = decimal_end_at(b, e + 1);
        if f < b.len() && b[f] == 102 {
            (Syntax::Float, f + 1)
        } else if f < b.len() && b[f] == 100 {
            (Syntax::Decimal, f + 1)
        } else {
            (Syntax::Decimal, f)
        }
    } else {
        (Syntax::Integer, e)
    }
}

/// Whether `b[i..e]` holds exactly the bytes of `w`.
fn same_bytes(b: &[u8], i: usize, e: usize, w: &Vec<u8>) -> (r: bool)
    requires
        i <= e <= b@.len(),
    ensures
        r == (b@.subrange(i as int, e as int) == w@),
{
    if e - i != w.len() {
        assert(b@.subrange(i as int, e as int).len() != w@.len());
        return false;
    }
    let mut k: usize = 0;
    while k < w.len()
        invariant
            e - i == w@.len(),
            i <= e <= b@.len(),
            k <= w@.len(),
            forall|j: int| 0 <= j < k ==> b@[i + j] == w@[j],
        decreases w@.len() - k,
    {
        if b[i + k] != w[k] {
            assert(b@.subrange(i as int, e as int)[k as int] != w@[k as int]);
            return false;
        }
        k = k + 1;
    }
    assert(b@.subrange(i as int, e as int) =~= w@);
    true
}

fn quoted_prefix_at(b: &[u8], i: usize, e: usize) -> (r: Option<Syntax>)
    requires
        i < e <= b@.len(),
    ensures
        r == quoted_prefix(b@, i as int, e as int),
{
    if e - i == 1 && b[i] == 100 {
        Some(Syntax::Date)
    } else if e - i == 1 && b[i] == 116 {
        Some(Syntax::Time)
    } else if e - i == 2 && b[i] == 100 && b[i + 1] == 116 {
        Some(Syntax::DateTime)
    } else {
        None
    }
}

fn scan_word_at(b: &[u8], i: usize) -> (r: (Syntax, usize))
    requires
        i < b@.len(),
    ensures
        (r.0, r.1 as int) == scan_word(b@, i as int),
        i < r.1 <= b@.len(),
{
    let n = b.len();
    let e = alnum_end_at(b, i + 1);
    let p = quoted_prefix_at(b, i, e);
    if let Some(k) = p {
        if e < n && (b[e] == 34 || b[e] == 39) {
            if let Some(c) = find_quote(b, e + 1, b[e]) {
                return (k, c + 1);
            }
        }
    }
    (word_kind_at(b, i, e), e)
}

fn punct_kind_of(c: u8) -> (r: Option<Syntax>)
    ensures
        r == punct_kind(c),
{
    if c == 46 {
        Some(Syntax::Point)
    } else if c == 44 {
        Some(Syntax::Comma)
    } else if c == 59 {
        Some(Syntax::Semicolon)
    } else if c == 63 {
        Some(Syntax::Question)
    } else if c == 43 {
        Some(Syntax::Plus)
    } else if c == 45 {
        Some(Syntax::Minus)
    } else if c == 42 {
        Some(Syntax::Star)
    } else if c == 47 {
        Some(Syntax::Slash)
    } else if c == 61 {
        Some(Syntax::Equals)
    } else if c == 60 {
        Some(Syntax::Less)
    } else if c == 62 {
        Some(Syntax::Greater)
    } else if c == 40 {
        Some(Syntax::LParen)
    } else if c == 41 {
        Some(Syntax::RParen)
    } else if c == 123 {
        Some(Syntax::LBrace)
    } else if c == 125 {
        Some(Syntax::RBrace)
    } else if c == 91 {
        Some(Syntax::LSquare)
    } else if c == 93 {
        Some(Syntax::RSquare)
    } else {
        None
    }
}

fn pair_kind_of(c: u8, d: u8) -> (r: Option<Syntax>)
    ensures
        r == pair_kind(c, d),
{
    if d != 61 {
        None
    } else if c == 58 {
        Some(Syntax::Assign)
    } else if c == 33 {
        Some(Syntax::NotEquals)
    } else if c == 60 {
        Some(Syntax::LessThan)
    } else if c == 62 {
        Some(Syntax::GreaterThan)
    } else {
        None
    }
}

/// The longest token at `i`; it is never empty.
pub fn scan_at(b: &[u8], i: usize) -> (r: (Syntax, usize))
    requires
        i < b@.len(),
    ensures
        (r.0, r.1 as int) == scan(b@, i as int),
        i < r.1 <= b@.len(),
        r.0 != Syntax::Eof,
{
    let n = b.len();
    let c = b[i];
    if c == 10 {
        (Syntax::Cr, i + 1)
    } else if c == 32 || c == 9 || c == 12 {
        (Syntax::Whitespace, blank_end_at(b, i + 1))
    } else if c == 45 && i + 1 < n && b[i + 1] == 45 {
        (Syntax::Comment, line_end_at(b, i + 1))
    } else if digit(c) {
        scan_number_at(b, i)
    } else if alnum(c) {
        scan_word_at(b, i)
    } else {
        if c == 34 || c == 39 {
            if let Some(q) = find_quote(b, i + 1, c) {
                return (Syntax::String, q + 1);
            }
        }
        if i + 1 < n {
            if let Some(k) = pair_kind_of(c, b[i + 1]) {
                return (k, i + 2);
            }
        }
        if let Some(k) = punct_kind_of(c) {
            (k, i + 1)
        } else {
            (Syntax::Error, continuation_end_at(b, i + 1))
        }
    }
}

/// The lexer's position in lines: the current line, from 1, and the byte
/// offset at which that line starts.
#[derive(Debug, Clone, Copy, PartialEq, Eq, Structural)]
pub struct ExtrasLexer {
    pub current_line: usize,
    pub current_initial_column: usize,
}

impl Default for ExtrasLexer {
    fn default() -> (r: Self)
        ensures
            r.current_line == 1,
            r.current_initial_column == 0,
    {
        ExtrasLexer { current_line: 1, current_initial_column: 0 }
    }
}

impl ExtrasLexer {
    /// After a line feed that ends at `end`: the next line starts there.
    pub fn increase_current_line(&mut self, end: usize)
        requires
            old(self).current_line < usize::MAX,
        ensures
            final(self).current_line == old(self).current_line + 1,
            final(self).current_initial_column == end,
    {
        self.current_line = self.current_line + 1;
        self.current_initial_column = end;
    }
}

/// The token with the given number, kind, range, line and column.
pub open spec fn token_at(file: usize, id: int, k: Syntax, s: int, e: int, line: int, col: int) -> Token {
    Token {
        file_id: file,
        id: TokenId(id as usize),
        kind: k,
        range: TextRange { start: s as usize, end: e as usize },
        line: line as usize,
        col: col as usize,
    }
}

/// The tokens from byte `i` on, the first numbered `id`, while the scan is on
/// line `line`, which starts at byte `ls`. Each token is the longest match at
/// its start; a line feed moves to the next line; an empty `Eof` token at the
/// end of the input closes the stream.
pub open spec fn lex_from(b: Seq<u8>, file: usize, i: int, id: int, line: int, ls: int) -> Seq<Token>
    decreases b.len() - i,
{
    if i < 0 || i >= b.len() {
        seq![token_at(file, id, Syntax::Eof, b.len() as int, b.len() as int, line, b.len() - ls)]
    } else {
        let (k, e) = scan(b, i);
        if e <= i || e > b.len() {
            seq![]
        } else if k == Syntax::Cr {
            seq![token_at(file, id, k, i, e, line, i - ls)] + lex_from(b, file, e, id + 1, line + 1, e)
        } else {
            seq![token_at(file, id, k, i, e, line, i - ls)] + lex_from(b, file, e, id + 1, line, ls)
        }
    }
}

/// The token stream of a whole text: first line 1, first column 0.
pub open spec fn lex_spec(b: Seq<u8>, file: usize) -> Seq<Token> {
    lex_from(b, file, 0, 0, 1, 0)
}

/// `t` is the end-of-input marker, or its range is a non-empty range of `b`
/// holding exactly the text that the scan matches at its start.
pub open spec fn matched(b: Seq<u8>, t: Token) -> bool {
    t.kind == Syntax::Eof || (t.range.start < t.range.end && t.range.end <= b.len() && scan(
        b,
        t.range.start as int,
    ) == (t.kind, t.range.end as int))
}

/// The texts of the tokens, one after another.
pub open spec fn joined_text(b: Seq<u8>, toks: Seq<Token>) -> Seq<u8>
    decreases toks.len(),
{
    if toks.len() == 0 {
        seq![]
    } else {
        joined_text(b, toks.drop_last()) + slice_text(b, toks.last().range)
    }
}

/// Lexes the whole text. Never fails: bytes that match no rule become
/// `Error` tokens.
#[verifier::rlimit(60)]
pub fn lex(file_id: usize, code: &str) -> (r: Vec<Token>)
    requires
        code.spec_bytes().len() < usize::MAX,
    ensures
        r@ == lex_spec(code.spec_bytes(), file_id),
        1 <= r@.len() <= code.spec_bytes().len() + 1,
        r@.last().kind == Syntax::Eof,
        forall|k: int| 0 <= k < r@.len() - 1 ==> (#[trigger] r@[k]).kind != Syntax::Eof,
        joined_text(code.spec_bytes(), r@) == code.spec_bytes(),
        forall|k: int| 0 <= k < r@.len() ==> matched(code.spec_bytes(), #[trigger] r@[k]),
{
    let b = code.as_bytes();
    let n = b.len();
    let mut toks: Vec<Token> = Vec::new();
    let mut i: usize = 0;
    let mut st = ExtrasLexer::default();
    while i < n
        invariant
            n == b@.len(),
            n < usize::MAX,
            b@ == code.spec_bytes(),
            i <= n,
            st.current_initial_column <= i,
            toks@.len() <= i,
            1 <= st.current_line <= toks@.len() + 1,
            toks@ + lex_from(
                b@,
                file_id,
                i as int,
                toks@.len() as int,
                st.current_line as int,
                st.current_initial_column as int,
            ) == lex_spec(b@, file_id),
            forall|k: int| 0 <= k < toks@.len() ==> (#[trigger] toks@[k]).kind != Syntax::Eof,
            joined_text(b@, toks@) == b@.subrange(0, i as int),
            forall|k: int| 0 <= k < toks@.len() ==> matched(b@, #[trigger] toks@[k]),
        decreases n - i,
    {
        let (k, e) = scan_at(b, i);
        let line = st.current_line;
        let ls = st.current_initial_column;
        let tok = Token {
            file_id,
            id: TokenId(toks.len()),
            kind: k,
            range: TextRange { start: i, end: e },
            line,
            col: i - ls,
        };
        let ghost before = toks@;
        if k == Syntax::Cr {
            st.increase_current_line(e);
        }
        proof {
            let rest = lex_from(
                b@,
                file_id,
                e as int,
                before.len() + 1 as int,
                st.current_line as int,
                st.current_initial_column as int,
            );
            assert(tok == token_at(file_id, before.len() as int, k, i as int, e as int, line as int, i - ls));
            assert(lex_from(b@, file_id, i as int, before.len() as int, line as int, ls as int) == seq![tok] + rest);
            assert(before.push(tok) + rest =~= before + (seq![tok] + rest));
        }
        toks.push(tok);
        proof {
            assert(toks@.drop_last() == before);
            assert(b@.subrange(0, e as int) =~= b@.subrange(0, i as int) + b@.subrange(i as int, e as int));
        }
        i = e;
    }
    let eof = Token {
        file_id,
        id: TokenId(toks.len()),
        kind: Syntax::Eof,
        range: TextRange { start: n, end: n },
        line: st.current_line,
        col: n - st.current_initial_column,
    };
    let ghost before = toks@;
    toks.push(eof);
    proof {
        assert(toks@ =~= before + lex_from(
            b@,
            file_id,
            i as int,
            before.len() as int,
            st.current_line as int,
            st.current_initial_column as int,
        ));
        assert(toks@.drop_last() == before);
        assert(b@.subrange(0, n as int) =~= b@);
        assert(b@.subrange(n as int, n as int) =~= Seq::<u8>::empty());
    }
    toks
}

} // verus!
