use vstd::prelude::*;
use vstd::string::StrSliceExecFns;
use vstd::string::StringExecFns;

verus! {

/// The classification of a lexeme. Keyword-like tokens are recognized
/// case-insensitively; identifier runs that spell no keyword are `Variable`.
#[derive(Clone, Copy, Debug, PartialEq, Eq, Structural)]
pub enum Token {
    Loop,
    Output,
    Import,
    End,
    As,
    LeftParentheses,
    RightParentheses,
    LeftBracket,
    RightBracket,
    LeftMustache,
    RightMustache,
    DoubleDot,
    Dot,
    Comma,
    Colon,
    SemiColon,
    Number,
    Variable,
    EOF,
    Error,
}

/// The mathematical content of a realized token: its classification, its
/// text, and its half-open character-offset range in the source.
pub struct TokenModel {
    pub token: Token,
    pub slice: Seq<char>,
    pub start: int,
    pub end: int,
}

/// A realized token: classification, literal text, and the half-open
/// character-offset range `[start, end)` it occupies in the source.
#[derive(Clone)]
pub struct InfoToken {
    pub token: Token,
    pub slice: String,
    pub start: usize,
    pub end: usize,
}

impl View for InfoToken {
    type V = TokenModel;

    open spec fn view(&self) -> TokenModel {
        TokenModel { token: self.token, slice: self.slice@, start: self.start as int, end: self.end as int }
    }
}

impl DeepView for InfoToken {
    type V = TokenModel;

    open spec fn deep_view(&self) -> TokenModel {
        self.view()
    }
}

impl InfoToken {
    /// Copy a token record.
    pub fn duplicate(&self) -> (r: InfoToken)
        ensures
            r == *self,
    {
        InfoToken { token: self.token, slice: self.slice.clone(), start: self.start, end: self.end }
    }
}

/// Characters skipped between tokens.
pub open spec fn is_space_char(c: char) -> bool {
    c == ' ' || c == '\t' || c == '\n' || c == '\r' || c == '\u{b}' || c == '\u{c}'
}

/// Decimal digits, the body of a `Number` token.
pub open spec fn is_digit_char(c: char) -> bool {
    '0' as u32 <= c as u32 && c as u32 <= '9' as u32
}

/// Characters that may open an identifier run.
pub open spec fn is_ident_start_char(c: char) -> bool {
    ('a' as u32 <= c as u32 && c as u32 <= 'z' as u32)
        || ('A' as u32 <= c as u32 && c as u32 <= 'Z' as u32)
        || c == '_'
}

/// Characters that may continue an identifier run.
pub open spec fn is_ident_char(c: char) -> bool {
    is_ident_start_char(c) || is_digit_char(c)
}

/// `c` equals the lower-case letter `l`, ignoring ASCII case.
pub open spec fn char_eq_ci(c: char, l: char) -> bool {
    c == l || c as u32 + 32 == l as u32
}

/// End of the whitespace run starting at `i`.
pub open spec fn spaces_end(text: Seq<char>, i: int) -> int
    decreases text.len() - i,
{
    if 0 <= i && i < text.len() && is_space_char(text[i]) {
        spaces_end(text, i + 1)
    } else {
        i
    }
}

/// End of the digit run starting at `i`.
pub open spec fn digits_end(text: Seq<char>, i: int) -> int
    decreases text.len() - i,
{
    if 0 <= i && i < text.len() && is_digit_char(text[i]) {
        digits_end(text, i + 1)
    } else {
        i
    }
}

/// End of the identifier run starting at `i`.
pub open spec fn ident_end(text: Seq<char>, i: int) -> int
    decreases text.len() - i,
{
    if 0 <= i && i < text.len() && is_ident_char(text[i]) {
        ident_end(text, i + 1)
    } else {
        i
    }
}

pub proof fn lemma_spaces_end(text: Seq<char>, i: int)
    requires
        0 <= i <= text.len(),
    ensures
        i <= spaces_end(text, i) <= text.len(),
        forall|k: int| i <= k < spaces_end(text, i) ==> is_space_char(#[trigger] text[k]),
        spaces_end(text, i) < text.len() ==> !is_space_char(text[spaces_end(text, i)]),
    decreases text.len() - i,
{
    if i < text.len() && is_space_char(text[i]) {
        lemma_spaces_end(text, i + 1);
    }
}

pub proof fn lemma_digits_end(text: Seq<char>, i: int)
    requires
        0 <= i <= text.len(),
    ensures
        i <= digits_end(text, i) <= text.len(),
    decreases text.len() - i,
{
    if i < text.len() && is_digit_char(text[i]) {
        lemma_digits_end(text, i + 1);
    }
}

pub proof fn lemma_ident_end(text: Seq<char>, i: int)
    requires
        0 <= i <= text.len(),
    ensures
        i <= ident_end(text, i) <= text.len(),
    decreases text.len() - i,
{
    if i < text.len() && is_ident_char(text[i]) {
        lemma_ident_end(text, i + 1);
    }
}

/// The keyword a word spells, if any, compared without regard to ASCII case.
pub open spec fn keyword_token(w: Seq<char>) -> Option<Token> {
    if w.len() == 4 && char_eq_ci(w[0], 'l') && char_eq_ci(w[1], 'o') && char_eq_ci(w[2], 'o')
        && char_eq_ci(w[3], 'p') {
        Some(Token::Loop)
    } else if w.len() == 6 && char_eq_ci(w[0], 'o') && char_eq_ci(w[1], 'u') && char_eq_ci(w[2], 't')
        && char_eq_ci(w[3], 'p') && char_eq_ci(w[4], 'u') && char_eq_ci(w[5], 't') {
        Some(Token::Output)
    } else if w.len() == 6 && char_eq_ci(w[0], 'i') && char_eq_ci(w[1], 'm') && char_eq_ci(w[2], 'p')
        && char_eq_ci(w[3], 'o') && char_eq_ci(w[4], 'r') && char_eq_ci(w[5], 't') {
        Some(Token::Import)
    } else if w.len() == 3 && char_eq_ci(w[0], 'e') && char_eq_ci(w[1], 'n') && char_eq_ci(w[2], 'd') {
        Some(Token::End)
    } else if w.len() == 2 && char_eq_ci(w[0], 'a') && char_eq_ci(w[1], 's') {
        Some(Token::As)
    } else {
        None
    }
}

/// Classification and end offset of the token that starts at `i`, which must
/// be in range and not whitespace. Punctuation is matched longest-first, a
/// digit opens a maximal digit run, an identifier character opens a maximal
/// identifier run that is then checked against the keywords, and any other
/// character is a one-character `Error` token.
pub open spec fn token_shape_at(text: Seq<char>, i: int) -> (Token, int) {
    let c = text[i];
    if c == '{' {
        if i + 1 < text.len() && text[i + 1] == '{' {
            (Token::LeftMustache, i + 2)
        } else {
            (Token::Error, i + 1)
        }
    } else if c == '}' {
        if i + 1 < text.len() && text[i + 1] == '}' {
            (Token::RightMustache, i + 2)
        } else {
            (Token::Error, i + 1)
        }
    } else if c == '.' {
        if i + 1 < text.len() && text[i + 1] == '.' {
            (Token::DoubleDot, i + 2)
        } else {
            (Token::Dot, i + 1)
        }
    } else if c == '(' {
        (Token::LeftParentheses, i + 1)
    } else if c == ')' {
        (Token::RightParentheses, i + 1)
    } else if c == '[' {
        (Token::LeftBracket, i + 1)
    } else if c == ']' {
        (Token::RightBracket, i + 1)
    } else if c == ',' {
        (Token::Comma, i + 1)
    } else if c == ':' {
        (Token::Colon, i + 1)
    } else if c == ';' {
        (Token::SemiColon, i + 1)
    } else if is_digit_char(c) {
        (Token::Number, digits_end(text, i + 1))
    } else if is_ident_start_char(c) {
        let e = ident_end(text, i + 1);
        let t = match keyword_token(text.subrange(i, e)) {
            Some(k) => k,
            None => Token::Variable,
        };
        (t, e)
    } else {
        (Token::Error, i + 1)
    }
}

pub proof fn lemma_token_shape_at(text: Seq<char>, i: int)
    requires
        0 <= i < text.len(),
    ensures
        i < token_shape_at(text, i).1 <= text.len(),
{
    lemma_digits_end(text, i + 1);
    lemma_ident_end(text, i + 1);
}

/// The permanent end-of-input token.
pub open spec fn eof_model(text: Seq<char>) -> TokenModel {
    TokenModel { token: Token::EOF, slice: Seq::empty(), start: text.len() as int, end: text.len() as int }
}

/// The token stream of `text` from offset `i` on: whitespace is skipped
/// before each token, and the stream always finishes with `EOF`.
pub open spec fn token_stream_from(text: Seq<char>, i: int) -> Seq<TokenModel>
    decreases text.len() - i,
    when 0 <= i <= text.len()
    via token_stream_from_dec
{
    let j = spaces_end(text, i);
    if j >= text.len() {
        seq![eof_model(text)]
    } else {
        let (t, e) = token_shape_at(text, j);
        seq![TokenModel { token: t, slice: text.subrange(j, e), start: j, end: e }] + token_stream_from(
            text,
            e,
        )
    }
}

#[via_fn]
proof fn token_stream_from_dec(text: Seq<char>, i: int) {
    lemma_spaces_end(text, i);
    let j = spaces_end(text, i);
    if j < text.len() {
        lemma_token_shape_at(text, j);
    }
}

/// The whole token stream of `text`.
pub open spec fn token_stream(text: Seq<char>) -> Seq<TokenModel> {
    token_stream_from(text, 0)
}

/// Structural soundness of a token stream over its source: at least the
/// `EOF` token is present and last, every token's span lies inside the text
/// and carries the exact source slice, and spans appear in source order.
pub open spec fn stream_wf(s: Seq<TokenModel>, text: Seq<char>) -> bool {
    &&& s.len() >= 1
    &&& s[s.len() - 1].token == Token::EOF
    &&& forall|k: int| 0 <= k < s.len() - 1 ==> (#[trigger] s[k]).token != Token::EOF
    &&& forall|k: int|
        0 <= k < s.len() ==> 0 <= (#[trigger] s[k]).start && s[k].start <= s[k].end && s[k].end
            <= text.len() && s[k].slice == text.subrange(s[k].start, s[k].end)
    &&& forall|k: int|
        0 <= k < s.len() ==> ((#[trigger] s[k]).token != Token::EOF ==> s[k].start < s[k].end)
    &&& forall|k1: int, k2: int|
        0 <= k1 < k2 < s.len() ==> (#[trigger] s[k1]).end <= (#[trigger] s[k2]).start
}

pub proof fn lemma_token_stream_wf(text: Seq<char>, i: int)
    requires
        0 <= i <= text.len(),
    ensures
        stream_wf(token_stream_from(text, i), text),
        forall|k: int|
            0 <= k < token_stream_from(text, i).len() ==> (#[trigger] token_stream_from(text, i)[k]).start
                >= i,
    decreases text.len() - i,
{
    lemma_spaces_end(text, i);
    let s = token_stream_from(text, i);
    let j = spaces_end(text, i);
    if j >= text.len() {
        assert(s =~= seq![eof_model(text)]);
        assert(eof_model(text).slice =~= text.subrange(text.len() as int, text.len() as int));
    } else {
        lemma_token_shape_at(text, j);
        let (t, e) = token_shape_at(text, j);
        let head = TokenModel { token: t, slice: text.subrange(j, e), start: j, end: e };
        let tail = token_stream_from(text, e);
        lemma_token_stream_wf(text, e);
        assert(s =~= seq![head] + tail);
        assert(s[s.len() - 1] == tail[tail.len() - 1]);
        assert(head.token != Token::EOF) by {
            lemma_digits_end(text, j + 1);
            lemma_ident_end(text, j + 1);
        }
        assert forall|k: int| 0 <= k < s.len() - 1 implies (#[trigger] s[k]).token != Token::EOF by {
            if k > 0 {
                assert(s[k] == tail[k - 1]);
            }
        }
        assert forall|k: int| 0 <= k < s.len() && (#[trigger] s[k]).token != Token::EOF implies s[k].start
            < s[k].end by {
            if k > 0 {
                assert(s[k] == tail[k - 1]);
            }
        }
        assert forall|k: int| 0 <= k < s.len() implies 0 <= (#[trigger] s[k]).start && s[k].start
            <= s[k].end && s[k].end <= text.len() && s[k].slice == text.subrange(
            s[k].start,
            s[k].end,
        ) && s[k].start >= i by {
            if k > 0 {
                assert(s[k] == tail[k - 1]);
            }
        }
        assert forall|k1: int, k2: int| 0 <= k1 < k2 < s.len() implies (#[trigger] s[k1]).end
            <= (#[trigger] s[k2]).start by {
            if k1 > 0 {
                assert(s[k1] == tail[k1 - 1]);
                assert(s[k2] == tail[k2 - 1]);
            } else {
                assert(s[k2] == tail[k2 - 1]);
                assert(tail[k2 - 1].start >= e);
            }
        }
    }
}

/// Collect the characters of a string, in order.
pub fn chars_of(text: &str) -> (v: Vec<char>)
    ensures
        v@ == text@,
{
    let n = text.unicode_len();
    let mut v: Vec<char> = Vec::new();
    let mut i: usize = 0;
    while i < n
        invariant
            n == text@.len(),
            i <= n,
            v@ == text@.take(i as int),
        decreases n - i,
    {
        v.push(text.get_char(i));
        proof {
            assert(v@ =~= text@.take(i + 1));
        }
        i = i + 1;
    }
    proof {
        assert(text@.take(n as int) =~= text@);
    }
    v
}

fn is_space(c: char) -> (r: bool)
    ensures
        r == is_space_char(c),
{
    c == ' ' || c == '\t' || c == '\n' || c == '\r' || c == '\u{b}' || c == '\u{c}'
}

fn is_digit(c: char) -> (r: bool)
    ensures
        r == is_digit_char(c),
{
    let u = c as u32;
    '0' as u32 <= u && u <= '9' as u32
}

fn is_ident_start(c: char) -> (r: bool)
    ensures
        r == is_ident_start_char(c),
{
    let u = c as u32;
    ('a' as u32 <= u && u <= 'z' as u32) || ('A' as u32 <= u && u <= 'Z' as u32) || c == '_'
}

fn is_ident(c: char) -> (r: bool)
    ensures
        r == is_ident_char(c),
{
    is_ident_start(c) || is_digit(c)
}

fn char_ci(c: char, l: char) -> (r: bool)
    ensures
        r == char_eq_ci(c, l),
{
    c == l || c as u32 + 32 == l as u32
}

fn scan_digits(chars: &Vec<char>, from: usize) -> (r: usize)
    requires
        from <= chars@.len(),
    ensures
        r as int == digits_end(chars@, from as int),
        from <= r <= chars@.len(),
{
    let mut i = from;
    while i < chars.len() && is_digit(chars[i])
        invariant
            from <= i <= chars@.len(),
            digits_end(chars@, from as int) == digits_end(chars@, i as int),
        decreases chars@.len() - i,
    {
        i = i + 1;
    }
    i
}

fn scan_ident(chars: &Vec<char>, from: usize) -> (r: usize)
    requires
        from <= chars@.len(),
    ensures
        r as int == ident_end(chars@, from as int),
        from <= r <= chars@.len(),
{
    let mut i = from;
    while i < chars.len() && is_ident(chars[i])
        invariant
            from <= i <= chars@.len(),
            ident_end(chars@, from as int) == ident_end(chars@, i as int),
        decreases chars@.len() - i,
    {
        i = i + 1;
    }
    i
}

/// Keyword classification of the identifier run `[start, end)`.
fn classify_word(chars: &Vec<char>, start: usize, end: usize) -> (t: Token)
    requires
        start <= end <= chars@.len(),
    ensures
        t == (match keyword_token(chars@.subrange(start as int, end as int)) {
            Some(k) => k,
            None => Token::Variable,
        }),
{
    let ghost w = chars@.subrange(start as int, end as int);
    let len = end - start;
    if len == 4 && char_ci(chars[start], 'l') && char_ci(chars[start + 1], 'o')
        && char_ci(chars[start + 2], 'o') && char_ci(chars[start + 3], 'p') {
        Token::Loop
    } else if len == 6 && char_ci(chars[start], 'o') && char_ci(chars[start + 1], 'u')
        && char_ci(chars[start + 2], 't') && char_ci(chars[start + 3], 'p')
        && char_ci(chars[start + 4], 'u') && char_ci(chars[start + 5], 't') {
        Token::Output
    } else if len == 6 && char_ci(chars[start], 'i') && char_ci(chars[start + 1], 'm')
        && char_ci(chars[start + 2], 'p') && char_ci(chars[start + 3], 'o')
        && char_ci(chars[start + 4], 'r') && char_ci(chars[start + 5], 't') {
        Token::Import
    } else if len == 3 && char_ci(chars[start], 'e') && char_ci(chars[start + 1], 'n')
        && char_ci(chars[start + 2], 'd') {
        Token::End
    } else if len == 2 && char_ci(chars[start], 'a') && char_ci(chars[start + 1], 's') {
        Token::As
    } else {
        Token::Variable
    }
}

/// Classification and end offset of the token starting at `pos`.
fn token_shape(chars: &Vec<char>, pos: usize) -> (r: (Token, usize))
    requires
        pos < chars@.len(),
    ensures
        r.0 == token_shape_at(chars@, pos as int).0,
        r.1 as int == token_shape_at(chars@, pos as int).1,
        pos < r.1 <= chars@.len(),
{
    proof {
        lemma_token_shape_at(chars@, pos as int);
    }
    let n = chars.len();
    let c = chars[pos];
    if c == '{' {
        if pos + 1 < n && chars[pos + 1] == '{' {
            (Token::LeftMustache, pos + 2)
        } else {
            (Token::Error, pos + 1)
        }
    } else if c == '}' {
        if pos + 1 < n && chars[pos + 1] == '}' {
            (Token::RightMustache, pos + 2)
        } else {
            (Token::Error, pos + 1)
        }
    } else if c == '.' {
        if pos + 1 < n && chars[pos + 1] == '.' {
            (Token::DoubleDot, pos + 2)
        } else {
            (Token::Dot, pos + 1)
        }
    } else if c == '(' {
        (Token::LeftParentheses, pos + 1)
    } else if c == ')' {
        (Token::RightParentheses, pos + 1)
    } else if c == '[' {
        (Token::LeftBracket, pos + 1)
    } else if c == ']' {
        (Token::RightBracket, pos + 1)
    } else if c == ',' {
        (Token::Comma, pos + 1)
    } else if c == ':' {
        (Token::Colon, pos + 1)
    } else if c == ';' {
        (Token::SemiColon, pos + 1)
    } else if is_digit(c) {
        (Token::Number, scan_digits(chars, pos + 1))
    } else if is_ident_start(c) {
        let e = scan_ident(chars, pos + 1);
        (classify_word(chars, pos, e), e)
    } else {
        (Token::Error, pos + 1)
    }
}

/// A cursor over the token stream of one source text, with unlimited ordered
/// lookahead that is discarded whenever the cursor advances.
pub struct Tokenizer {
    toks: Vec<InfoToken>,
    cursor: usize,
    peek_index: usize,
}

impl Tokenizer {
    /// The stream of realized tokens this cursor walks.
    pub closed spec fn stream(self) -> Seq<TokenModel> {
        self.toks.deep_view()
    }

    /// Offset of the token the cursor sits on.
    pub closed spec fn cursor_pos(self) -> int {
        self.cursor as int
    }

    /// How far past the cursor the next `peek` reads.
    pub closed spec fn peek_offset(self) -> int {
        self.peek_index as int
    }

    /// The token the cursor sits on.
    pub open spec fn cur(self) -> TokenModel {
        self.stream()[self.cursor_pos()]
    }

    /// Offset the next `peek` reads from, clamped to the final `EOF`.
    pub open spec fn peek_pos(self) -> int {
        if self.cursor_pos() + self.peek_offset() < self.stream().len() {
            self.cursor_pos() + self.peek_offset()
        } else {
            self.stream().len() - 1
        }
    }

    pub open spec fn wf(self) -> bool {
        &&& self.stream().len() >= 1
        &&& 0 <= self.cursor_pos() < self.stream().len()
        &&& self.stream()[self.stream().len() - 1].token == Token::EOF
        &&& 1 <= self.peek_offset() <= self.stream().len()
    }

    /// Construct a `Tokenizer` over the whole token stream of `text`.
    pub fn new(text: &str) -> (t: Tokenizer)
        ensures
            t.wf(),
            t.stream() == token_stream(text@),
            t.cursor_pos() == 0,
            t.peek_offset() == 1,
    {
        let chars = chars_of(text);
        let n = chars.len();
        let mut toks: Vec<InfoToken> = Vec::new();
        let mut pos: usize = 0;
        proof {
            assert(toks.deep_view() + token_stream_from(text@, 0) =~= token_stream(text@));
        }
        loop
            invariant_except_break
                toks.deep_view() + token_stream_from(text@, pos as int) =~= token_stream(text@),
            invariant
                chars@ == text@,
                n == text@.len(),
                pos <= n,
            ensures
                toks.deep_view() =~= token_stream(text@),
            decreases n - pos,
        {
            let ghost p0 = pos as int;
            while pos < n && is_space(chars[pos])
                invariant
                    chars@ == text@,
                    n == text@.len(),
                    p0 <= pos <= n,
                    spaces_end(text@, p0) == spaces_end(text@, pos as int),
                decreases n - pos,
            {
                pos = pos + 1;
            }
            proof {
                assert(spaces_end(text@, pos as int) == pos as int);
                assert(spaces_end(text@, p0) == pos as int);
            }
            if pos >= n {
                let eof = InfoToken { token: Token::EOF, slice: String::new(), start: pos, end: pos };
                proof {
                    assert(eof@ == eof_model(text@)) by {
                        assert(eof@.slice =~= eof_model(text@).slice);
                    }
                    assert(token_stream_from(text@, p0) =~= seq![eof_model(text@)]);
                }
                let ghost pre = toks.deep_view();
                toks.push(eof);
                proof {
                    assert(toks.deep_view() =~= pre + seq![eof_model(text@)]);
                    assert(toks.deep_view() =~= token_stream(text@));
                }
                break ;
            } else {
                let (tok, end) = token_shape(&chars, pos);
                let slice = String::from_str(text.substring_char(pos, end));
                let it = InfoToken { token: tok, slice, start: pos, end };
                let ghost head = TokenModel {
                    token: token_shape_at(text@, pos as int).0,
                    slice: text@.subrange(pos as int, end as int),
                    start: pos as int,
                    end: end as int,
                };
                proof {
                    assert(it@ == head);
                    assert(token_stream_from(text@, p0) =~= seq![head] + token_stream_from(
                        text@,
                        end as int,
                    ));
                }
                let ghost pre = toks.deep_view();
                toks.push(it);
                proof {
                    assert(toks.deep_view() =~= pre + seq![head]);
                    assert(toks.deep_view() + token_stream_from(text@, end as int)
                        =~= token_stream(text@));
                }
                pos = end;
            }
        }
        let t = Tokenizer { toks, cursor: 0, peek_index: 1 };
        proof {
            lemma_token_stream_wf(text@, 0);
            assert(t.stream() =~= token_stream(text@));
            assert(t.stream().len() >= 1);
        }
        t
    }

    /// The token the cursor currently sits on, without consuming it.
    pub fn info(&self) -> (r: &InfoToken)
        requires
            self.wf(),
        ensures
            r@ == self.cur(),
    {
        &self.toks[self.cursor]
    }

    /// Move the cursor to the next token (staying on the final `EOF`), and
    /// discard any accumulated lookahead.
    pub fn advance(&mut self)
        requires
            old(self).wf(),
        ensures
            final(self).wf(),
            final(self).stream() == old(self).stream(),
            final(self).peek_offset() == 1,
            final(self).cursor_pos() == if old(self).cursor_pos() + 1 < old(self).stream().len() {
                old(self).cursor_pos() + 1
            } else {
                old(self).stream().len() - 1
            },
    {
        proof {
            assert(self.toks@.len() == self.stream().len());
        }
        self.peek_index = 1;
        let len = self.toks.len();
        if self.cursor < len - 1 {
            self.cursor = self.cursor + 1;
        }
    }

    /// Return the token one past the previous peek without moving the
    /// cursor; successive peeks walk forward, and peeking past the end keeps
    /// returning `EOF`.
    pub fn peek(&mut self) -> (r: InfoToken)
        requires
            old(self).wf(),
        ensures
            final(self).wf(),
            final(self).stream() == old(self).stream(),
            final(self).cursor_pos() == old(self).cursor_pos(),
            r@ == old(self).stream()[old(self).peek_pos()],
            final(self).peek_offset() == if old(self).peek_offset() < old(self).stream().len() {
                old(self).peek_offset() + 1
            } else {
                old(self).peek_offset()
            },
    {
        proof {
            assert(self.toks@.len() == self.stream().len());
        }
        let remaining = self.toks.len() - 1 - self.cursor;
        let target = if self.peek_index <= remaining {
            self.cursor + self.peek_index
        } else {
            self.toks.len() - 1
        };
        if self.peek_index < self.toks.len() {
            self.peek_index = self.peek_index + 1;
        }
        self.toks[target].duplicate()
    }
}

} // verus!
