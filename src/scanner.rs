//! The scanner: source text to tokens.
use vstd::prelude::*;
use crate::number::{decimal, push_range, decimal_value, is_digit};
use crate::text::{alphabetic, alphanumeric, chars_of, is_alphabetic, is_alphanumeric, string_of};
use crate::token::{Primitive, Token, TokenType, TokenView, Val, tokens_view};

verus! {

/// Why scanning stopped.
#[derive(Debug, Clone, Copy, PartialEq, Eq, Structural)]
pub enum ScanError {
    /// A string literal runs to the end of the input.
    UnterminatedString { line: usize },
    /// A character that starts no token.
    UnexpectedCharacter { character: char, line: usize },
    /// A number literal whose value cannot be represented.
    NumberOutOfRange { line: usize },
}

/// The keyword spelled `text`, if it is one.
pub open spec fn keyword(text: Seq<char>) -> Option<TokenType> {
    if text == seq!['a', 'n', 'd'] {
        Some(TokenType::And)
    } else if text == seq!['c', 'l', 'a', 's', 's'] {
        Some(TokenType::Class)
    } else if text == seq!['e', 'l', 's', 'e'] {
        Some(TokenType::Else)
    } else if text == seq!['f', 'a', 'l', 's', 'e'] {
        Some(TokenType::False)
    } else if text == seq!['f', 'o', 'r'] {
        Some(TokenType::For)
    } else if text == seq!['f', 'u', 'n'] {
        Some(TokenType::Fun)
    } else if text == seq!['i', 'f'] {
        Some(TokenType::If)
    } else if text == seq!['n', 'i', 'l'] {
        Some(TokenType::Nil)
    } else if text == seq!['o', 'r'] {
        Some(TokenType::Or)
    } else if text == seq!['p', 'r', 'i', 'n', 't'] {
        Some(TokenType::Print)
    } else if text == seq!['r', 'e', 't', 'u', 'r', 'n'] {
        Some(TokenType::Return)
    } else if text == seq!['s', 'u', 'p', 'e', 'r'] {
        Some(TokenType::Super)
    } else if text == seq!['t', 'h', 'i', 's'] {
        Some(TokenType::This)
    } else if text == seq!['t', 'r', 'u', 'e'] {
        Some(TokenType::True)
    } else if text == seq!['v', 'a', 'r'] {
        Some(TokenType::Var)
    } else if text == seq!['w', 'h', 'i', 'l', 'e'] {
        Some(TokenType::While)
    } else {
        None
    }
}

/// The kind of a token of one character that no other character can extend.
pub open spec fn single_kind(c: char) -> Option<TokenType> {
    if c == '(' {
        Some(TokenType::LeftParen)
    } else if c == ')' {
        Some(TokenType::RightParen)
    } else if c == '{' {
        Some(TokenType::LeftBrace)
    } else if c == '}' {
        Some(TokenType::RightBrace)
    } else if c == ',' {
        Some(TokenType::Comma)
    } else if c == '.' {
        Some(TokenType::Dot)
    } else if c == '-' {
        Some(TokenType::Minus)
    } else if c == '+' {
        Some(TokenType::Plus)
    } else if c == ';' {
        Some(TokenType::SemiColon)
    } else if c == '*' {
        Some(TokenType::Star)
    } else {
        None
    }
}

/// For an operator character that may be followed by `=`: the kind alone,
/// and the kind with the `=`.
pub open spec fn pair_kinds(c: char) -> Option<(TokenType, TokenType)> {
    if c == '!' {
        Some((TokenType::Bang, TokenType::BangEqual))
    } else if c == '=' {
        Some((TokenType::Equal, TokenType::EqualEqual))
    } else if c == '<' {
        Some((TokenType::Less, TokenType::LessEqual))
    } else if c == '>' {
        Some((TokenType::Greater, TokenType::GreaterEqual))
    } else {
        None
    }
}

pub open spec fn is_ident_start(c: char) -> bool {
    alphabetic(c) || c == '_'
}

pub open spec fn is_ident_char(c: char) -> bool {
    alphanumeric(c) || c == '_'
}

/// The end of the run of digits that starts at `i`.
pub open spec fn digits_end(src: Seq<char>, i: int) -> int
    decreases src.len() - i,
{
    if 0 <= i < src.len() && is_digit(src[i]) {
        digits_end(src, i + 1)
    } else {
        i
    }
}

/// The end of the run of identifier characters that starts at `i`.
pub open spec fn ident_end(src: Seq<char>, i: int) -> int
    decreases src.len() - i,
{
    if 0 <= i < src.len() && is_ident_char(src[i]) {
        ident_end(src, i + 1)
    } else {
        i
    }
}

/// The first position at or after `i` that holds `stop`, or the end.
pub open spec fn find_from(src: Seq<char>, i: int, stop: char) -> int
    decreases src.len() - i,
{
    if 0 <= i < src.len() && src[i] != stop {
        find_from(src, i + 1, stop)
    } else {
        i
    }
}

/// The number of line breaks in `s`.
pub open spec fn count_newlines(s: Seq<char>) -> nat
    decreases s.len(),
{
    if s.len() == 0 {
        0
    } else {
        count_newlines(s.drop_last()) + if s.last() == '\n' { 1nat } else { 0nat }
    }
}

pub open spec fn tok(kind: TokenType, lexeme: Seq<char>, literal: Option<Val>, line: nat) -> TokenView {
    TokenView { kind, lexeme, literal, line }
}

/// What the scanner does at one position.
pub enum Step {
    /// Nothing is emitted; scanning goes on at `next` on line `line`.
    Skip { next: int, line: nat },
    /// `token` is emitted; scanning goes on at `next` on line `line`.
    Emit { token: TokenView, next: int, line: nat },
    /// Scanning stops with `error`.
    Fail { error: ScanError },
}

/// The token that starts at `pos`, on line `line`. Whitespace and line
/// comments produce no token; a `.` after digits belongs to the number only
/// when a digit follows it.
pub open spec fn step(src: Seq<char>, pos: int, line: nat) -> Step {
    let c = src[pos];
    let n = src.len();
    if single_kind(c) is Some {
        Step::Emit {
            token: tok(single_kind(c).unwrap(), src.subrange(pos, pos + 1), None, line),
            next: pos + 1,
            line,
        }
    } else if pair_kinds(c) is Some {
        let (one, two) = pair_kinds(c).unwrap();
        if pos + 1 < n && src[pos + 1] == '=' {
            Step::Emit { token: tok(two, src.subrange(pos, pos + 2), None, line), next: pos + 2, line }
        } else {
            Step::Emit { token: tok(one, src.subrange(pos, pos + 1), None, line), next: pos + 1, line }
        }
    } else if c == '/' {
        if pos + 1 < n && src[pos + 1] == '/' {
            Step::Skip { next: find_from(src, pos + 2, '\n'), line }
        } else {
            Step::Emit {
                token: tok(TokenType::Slash, src.subrange(pos, pos + 1), None, line),
                next: pos + 1,
                line,
            }
        }
    } else if c == ' ' || c == '\r' || c == '\t' {
        Step::Skip { next: pos + 1, line }
    } else if c == '\n' {
        Step::Skip { next: pos + 1, line: line + 1 }
    } else if c == '"' {
        let e = find_from(src, pos + 1, '"');
        let l = line + count_newlines(src.subrange(pos + 1, e));
        if e >= n {
            Step::Fail { error: ScanError::UnterminatedString { line: l as usize } }
        } else {
            Step::Emit {
                token: tok(
                    TokenType::String,
                    src.subrange(pos, e + 1),
                    Some(Val::Str(src.subrange(pos + 1, e))),
                    l,
                ),
                next: e + 1,
                line: l,
            }
        }
    } else if is_digit(c) {
        let i = digits_end(src, pos);
        let (end, value) = if i + 1 < n && src[i] == '.' && is_digit(src[i + 1]) {
            let j = digits_end(src, i + 1);
            (j, decimal_value(src.subrange(pos, i) + src.subrange(i + 1, j), (j - i - 1) as nat))
        } else {
            (i, decimal_value(src.subrange(pos, i), 0))
        };
        match value {
            Some(x) => Step::Emit {
                token: tok(TokenType::Number, src.subrange(pos, end), Some(Val::Number(x)), line),
                next: end,
                line,
            },
            None => Step::Fail { error: ScanError::NumberOutOfRange { line: line as usize } },
        }
    } else if is_ident_start(c) {
        let e = ident_end(src, pos + 1);
        let text = src.subrange(pos, e);
        let kind = match keyword(text) {
            Some(k) => k,
            None => TokenType::Identifier,
        };
        Step::Emit { token: tok(kind, text, Some(Val::Str(text)), line), next: e, line }
    } else {
        Step::Fail { error: ScanError::UnexpectedCharacter { character: c, line: line as usize } }
    }
}

/// The tokens from position `pos` on, line `line`, ending with `Eof`.
pub open spec fn scan_from(src: Seq<char>, pos: int, line: nat) -> Result<Seq<TokenView>, ScanError>
    decreases src.len() - pos,
{
    if pos < 0 || pos >= src.len() {
        Ok(seq![tok(TokenType::Eof, Seq::empty(), None, line)])
    } else {
        match step(src, pos, line) {
            Step::Skip { next, line } => if pos < next <= src.len() {
                scan_from(src, next, line)
            } else {
                Ok(seq![tok(TokenType::Eof, Seq::empty(), None, line)])
            },
            Step::Emit { token, next, line } => if pos < next <= src.len() {
                match scan_from(src, next, line) {
                    Ok(ts) => Ok(seq![token] + ts),
                    Err(e) => Err(e),
                }
            } else {
                Ok(seq![tok(TokenType::Eof, Seq::empty(), None, line)])
            },
            Step::Fail { error } => Err(error),
        }
    }
}

/// The tokens of `src`: those that start on its first line onward.
pub open spec fn scan(src: Seq<char>) -> Result<Seq<TokenView>, ScanError> {
    scan_from(src, 0, 1)
}

/// `done` followed by what `rest` holds.
pub open spec fn prepend(done: Seq<TokenView>, rest: Result<Seq<TokenView>, ScanError>) -> Result<
    Seq<TokenView>,
    ScanError,
> {
    match rest {
        Ok(ts) => Ok(done + ts),
        Err(e) => Err(e),
    }
}


fn digits_end_exec(src: &Vec<char>, i: usize) -> (r: usize)
    requires
        i <= src@.len(),
    ensures
        r as int == digits_end(src@, i as int),
        i <= r <= src@.len(),
        forall|k: int| i <= k < r ==> is_digit(#[trigger] src@[k]),
        i < src@.len() && is_digit(src@[i as int]) ==> r > i,
{
    let mut k = i;
    while k < src.len() && src[k] >= '0' && src[k] <= '9'
        invariant
            i <= k <= src@.len(),
            forall|j: int| i <= j < k ==> is_digit(#[trigger] src@[j]),
            digits_end(src@, k as int) == digits_end(src@, i as int),
        decreases src@.len() - k,
    {
        k = k + 1;
    }
    k
}

fn ident_end_exec(src: &Vec<char>, i: usize) -> (r: usize)
    requires
        i <= src@.len(),
    ensures
        r as int == ident_end(src@, i as int),
        i <= r <= src@.len(),
{
    let mut k = i;
    while k < src.len() && (is_alphanumeric(src[k]) || src[k] == '_')
        invariant
            i <= k <= src@.len(),
            ident_end(src@, k as int) == ident_end(src@, i as int),
        decreases src@.len() - k,
    {
        k = k + 1;
    }
    k
}

fn find_from_exec(src: &Vec<char>, i: usize, stop: char) -> (r: usize)
    requires
        i <= src@.len(),
    ensures
        r as int == find_from(src@, i as int, stop),
        i <= r <= src@.len(),
{
    let mut k = i;
    while k < src.len() && src[k] != stop
        invariant
            i <= k <= src@.len(),
            find_from(src@, k as int, stop) == find_from(src@, i as int, stop),
        decreases src@.len() - k,
    {
        k = k + 1;
    }
    k
}

fn count_newlines_exec(src: &Vec<char>, from: usize, to: usize) -> (r: usize)
    requires
        from <= to <= src@.len(),
    ensures
        r == count_newlines(src@.subrange(from as int, to as int)),
        r <= to - from,
{
    let mut k = from;
    let mut r: usize = 0;
    while k < to
        invariant
            from <= k <= to <= src@.len(),
            r == count_newlines(src@.subrange(from as int, k as int)),
            r <= k - from,
        decreases to - k,
    {
        assert(src@.subrange(from as int, k + 1).drop_last() == src@.subrange(from as int, k as int));
        if src[k] == '\n' {
            r = r + 1;
        }
        k = k + 1;
    }
    r
}

fn is_word(t: &Vec<char>, w: &[char]) -> (r: bool)
    ensures
        r == (t@ == w@),
{
    if t.len() != w.len() {
        return false;
    }
    let mut i: usize = 0;
    while i < t.len()
        invariant
            i <= t@.len() == w@.len(),
            forall|j: int| 0 <= j < i ==> t@[j] == w@[j],
        decreases t@.len() - i,
    {
        if t[i] != w[i] {
            return false;
        }
        i = i + 1;
    }
    assert(t@ =~= w@);
    true
}

fn keyword_of(t: &Vec<char>) -> (r: Option<TokenType>)
    ensures
        r == keyword(t@),
{
    if is_word(t, &['a', 'n', 'd']) {
        Some(TokenType::And)
    } else if is_word(t, &['c', 'l', 'a', 's', 's']) {
        Some(TokenType::Class)
    } else if is_word(t, &['e', 'l', 's', 'e']) {
        Some(TokenType::Else)
    } else if is_word(t, &['f', 'a', 'l', 's', 'e']) {
        Some(TokenType::False)
    } else if is_word(t, &['f', 'o', 'r']) {
        Some(TokenType::For)
    } else if is_word(t, &['f', 'u', 'n']) {
        Some(TokenType::Fun)
    } else if is_word(t, &['i', 'f']) {
        Some(TokenType::If)
    } else if is_word(t, &['n', 'i', 'l']) {
        Some(TokenType::Nil)
    } else if is_word(t, &['o', 'r']) {
        Some(TokenType::Or)
    } else if is_word(t, &['p', 'r', 'i', 'n', 't']) {
        Some(TokenType::Print)
    } else if is_word(t, &['r', 'e', 't', 'u', 'r', 'n']) {
        Some(TokenType::Return)
    } else if is_word(t, &['s', 'u', 'p', 'e', 'r']) {
        Some(TokenType::Super)
    } else if is_word(t, &['t', 'h', 'i', 's']) {
        Some(TokenType::This)
    } else if is_word(t, &['t', 'r', 'u', 'e']) {
        Some(TokenType::True)
    } else if is_word(t, &['v', 'a', 'r']) {
        Some(TokenType::Var)
    } else if is_word(t, &['w', 'h', 'i', 'l', 'e']) {
        Some(TokenType::While)
    } else {
        None
    }
}


/// The lexemes of `ts`, one after another.
pub open spec fn lexemes(ts: Seq<TokenView>) -> Seq<char>
    decreases ts.len(),
{
    if ts.len() == 0 {
        Seq::empty()
    } else {
        ts[0].lexeme + lexemes(ts.drop_first())
    }
}

/// The tokens of `src` from `pos` on when every character there is a
/// punctuation character of its own: one token per character, then `Eof`.
pub open spec fn punctuation_tokens(src: Seq<char>, pos: int) -> Seq<TokenView>
    decreases src.len() - pos,
{
    if pos < 0 || pos >= src.len() {
        seq![tok(TokenType::Eof, Seq::empty(), None, 1)]
    } else {
        seq![tok(single_kind(src[pos]).unwrap(), src.subrange(pos, pos + 1), None, 1)]
            + punctuation_tokens(src, pos + 1)
    }
}

proof fn lemma_punctuation_from(src: Seq<char>, pos: int)
    requires
        0 <= pos <= src.len(),
        forall|i: int| 0 <= i < src.len() ==> single_kind(#[trigger] src[i]) is Some,
    ensures
        scan_from(src, pos, 1) == Ok::<Seq<TokenView>, ScanError>(punctuation_tokens(src, pos)),
        lexemes(punctuation_tokens(src, pos)) == src.skip(pos),
    decreases src.len() - pos,
{
    if pos < src.len() {
        lemma_punctuation_from(src, pos + 1);
        let ts = punctuation_tokens(src, pos);
        assert(ts.drop_first() =~= punctuation_tokens(src, pos + 1));
        assert(src.subrange(pos, pos + 1) + src.skip(pos + 1) =~= src.skip(pos));
    } else {
        let ts = punctuation_tokens(src, pos);
        assert(ts.drop_first() =~= Seq::<TokenView>::empty());
        assert(lexemes(ts.drop_first()) =~= Seq::<char>::empty());
        assert(src.skip(pos) =~= Seq::<char>::empty());
    }
}

/// An input made only of one-character punctuation scans to one token per
/// character, of that character's kind, and then `Eof`; writing the
/// lexemes one after another gives the input back.
pub proof fn lemma_punctuation_round_trip(src: Seq<char>)
    requires
        forall|i: int| 0 <= i < src.len() ==> single_kind(#[trigger] src[i]) is Some,
    ensures
        scan(src) is Ok,
        scan(src).unwrap().len() == src.len() + 1,
        forall|i: int| 0 <= i < src.len() ==> (#[trigger] scan(src).unwrap()[i]).kind == single_kind(src[i]).unwrap(),
        scan(src).unwrap().last().kind == TokenType::Eof,
        lexemes(scan(src).unwrap()) == src,
{
    lemma_punctuation_from(src, 0);
    assert(src.skip(0) =~= src);
    assert forall|p: int| 0 <= p <= src.len() implies {
        let ts = #[trigger] punctuation_tokens(src, p);
        &&& ts.len() == src.len() - p + 1
        &&& forall|i: int| 0 <= i < src.len() - p ==> ts[i].kind == single_kind(src[p + i]).unwrap()
        &&& ts.last().kind == TokenType::Eof
    } by {
        lemma_punctuation_shape(src, p);
    }
}

proof fn lemma_punctuation_shape(src: Seq<char>, p: int)
    requires
        0 <= p <= src.len(),
    ensures
        punctuation_tokens(src, p).len() == src.len() - p + 1,
        forall|i: int| 0 <= i < src.len() - p ==> (#[trigger] punctuation_tokens(src, p)[i]).kind == single_kind(src[p + i]).unwrap(),
        punctuation_tokens(src, p).last().kind == TokenType::Eof,
    decreases src.len() - p,
{
    if p < src.len() {
        lemma_punctuation_shape(src, p + 1);
        let ts = punctuation_tokens(src, p);
        assert forall|i: int| 0 <= i < src.len() - p implies (#[trigger] ts[i]).kind == single_kind(src[p + i]).unwrap() by {
            if i > 0 {
                assert(ts[i] == punctuation_tokens(src, p + 1)[i - 1]);
            }
        }
    }
}

/// A successful scan from `pos` ends with `Eof` and has at most one token
/// per remaining character, and one more.
pub proof fn lemma_scan_shape(src: Seq<char>, pos: int, line: nat)
    requires
        0 <= pos <= src.len(),
        scan_from(src, pos, line) is Ok,
    ensures
        scan_from(src, pos, line).unwrap().len() >= 1,
        scan_from(src, pos, line).unwrap().len() <= src.len() - pos + 1,
        scan_from(src, pos, line).unwrap().last().kind == TokenType::Eof,
    decreases src.len() - pos,
{
    if pos < src.len() {
        match step(src, pos, line) {
            Step::Skip { next, line: l } => {
                if pos < next <= src.len() {
                    lemma_scan_shape(src, next, l);
                }
            },
            Step::Emit { token, next, line: l } => {
                if pos < next <= src.len() {
                    lemma_scan_shape(src, next, l);
                    let ts = scan_from(src, next, l).unwrap();
                    assert((seq![token] + ts).last() == ts.last());
                }
            },
            Step::Fail { .. } => {},
        }
    }
}

/// The scanner's state: the source, the tokens so far, where the current
/// token starts, how far it has read, and the current line.
pub struct TokenScanner {
    source: Vec<char>,
    tokens: Vec<Token>,
    start: usize,
    current: usize,
    line: usize,
}

impl TokenScanner {
    /// The source being scanned.
    pub closed spec fn source(&self) -> Seq<char> {
        self.source@
    }

    /// How far the scanner has read.
    pub closed spec fn position(&self) -> int {
        self.current as int
    }

    pub closed spec fn wf(&self) -> bool {
        &&& self.source@.len() < usize::MAX
        &&& self.start <= self.current <= self.source@.len()
        &&& 1 <= self.line <= self.current + 1
    }

    /// Whether scanning `source` from the start would give the tokens so
    /// far followed by those from the current position on.
    pub closed spec fn on_track(&self) -> bool {
        scan(self.source@) == prepend(
            tokens_view(self.tokens@),
            scan_from(self.source@, self.current as int, self.line as nat),
        )
    }

    /// A scanner at the start of `source`.
    pub fn new(source: &str) -> (r: TokenScanner)
        requires
            source@.len() < usize::MAX,
        ensures
            r.source() == source@,
            r.wf(),
            r.on_track(),
    {
        let chars = chars_of(source);
        let r = TokenScanner { source: chars, tokens: Vec::new(), start: 0, current: 0, line: 1 };
        assert(tokens_view(r.tokens@) =~= Seq::empty());
        assert(prepend(Seq::empty(), scan_from(r.source@, 0, 1)) =~= scan_from(r.source@, 0, 1)) by {
            match scan_from(r.source@, 0, 1) {
                Ok(ts) => assert(Seq::<TokenView>::empty() + ts =~= ts),
                Err(_) => {},
            }
        }
        r
    }

    /// Whether the whole source has been read.
    pub fn is_at_end(&self) -> (r: bool)
        requires
            self.wf(),
        ensures
            r == (self.position() >= self.source().len()),
    {
        self.current >= self.source.len()
    }

    /// The character at the current position, or `'\0'` at the end.
    pub fn peek(&self) -> (r: char)
        requires
            self.wf(),
        ensures
            r == if self.position() < self.source().len() { self.source()[self.position()] } else { '\0' },
    {
        if self.current >= self.source.len() {
            return '\0';
        }
        self.source[self.current]
    }

    /// The character after the current one, or `'\0'` past the end.
    pub fn peek_next(&self) -> (r: char)
        requires
            self.wf(),
        ensures
            r == if self.position() + 1 < self.source().len() {
                self.source()[self.position() + 1]
            } else {
                '\0'
            },
    {
        if self.current + 1 >= self.source.len() {
            return '\0';
        }
        self.source[self.current + 1]
    }

    /// Steps over the current character and returns it.
    fn advance(&mut self) -> (r: char)
        requires
            old(self).wf(),
            old(self).current < old(self).source@.len(),
        ensures
            r == old(self).source@[old(self).current as int],
            *final(self) == (TokenScanner { current: (old(self).current + 1) as usize, ..*old(self) }),
    {
        let c = self.source[self.current];
        self.current = self.current + 1;
        c
    }

    /// Steps over the current character if it is `expected`.
    fn char_match(&mut self, expected: char) -> (r: bool)
        requires
            old(self).wf(),
        ensures
            r == (old(self).current < old(self).source@.len() && old(self).source@[old(self).current as int] == expected),
            *final(self) == (TokenScanner {
                current: if r { (old(self).current + 1) as usize } else { old(self).current },
                ..*old(self)
            }),
    {
        if self.is_at_end() {
            return false;
        }
        if self.source[self.current] != expected {
            return false;
        }
        self.current = self.current + 1;
        true
    }

    /// Emits a token of kind `token_type` whose text runs from `start` to
    /// `current`.
    fn add_token(&mut self, token_type: TokenType, literal: Option<Primitive>)
        requires
            old(self).wf(),
        ensures
            final(self).source@ == old(self).source@,
            final(self).current == old(self).current,
            final(self).start == old(self).start,
            final(self).line == old(self).line,
            final(self).tokens@.len() == old(self).tokens@.len() + 1,
            tokens_view(final(self).tokens@) == tokens_view(old(self).tokens@).push(
                tok(
                    token_type,
                    old(self).source@.subrange(old(self).start as int, old(self).current as int),
                    match literal {
                        Some(p) => Some(p@),
                        None => None,
                    },
                    old(self).line as nat,
                ),
            ),
    {
        let text = string_of(vstd::slice::slice_subrange(self.source.as_slice(), self.start, self.current));
        let ghost before = self.tokens@;
        self.tokens.push(Token { token_type, lexme: Some(text), literal, line: self.line });
        assert(tokens_view(self.tokens@) =~= tokens_view(before).push(self.tokens@.last()@));
    }

    /// Scans a string literal whose opening quote is at `start`.
    fn init_string(&mut self) -> (r: Result<(), ScanError>)
        requires
            old(self).wf(),
            old(self).current == old(self).start + 1,
            old(self).source@[old(self).start as int] == '"',
        ensures
            final(self).source@ == old(self).source@,
            r is Ok ==> final(self).current > old(self).start,
            ({
                let src = old(self).source@;
                let pos = old(self).start as int;
                let line = old(self).line as nat;
                let e = find_from(src, pos + 1, '"');
                let l = line + count_newlines(src.subrange(pos + 1, e));
                if e >= src.len() {
                    r == Err::<(), ScanError>(ScanError::UnterminatedString { line: l as usize })
                } else {
                    &&& r is Ok
                    &&& final(self).wf()
                    &&& final(self).current == e + 1
                    &&& final(self).line == l
                    &&& tokens_view(final(self).tokens@) == tokens_view(old(self).tokens@).push(
                        tok(
                            TokenType::String,
                            src.subrange(pos, e + 1),
                            Some(Val::Str(src.subrange(pos + 1, e))),
                            l,
                        ),
                    )
                }
            }),
    {
        let e = find_from_exec(&self.source, self.current, '"');
        let nl = count_newlines_exec(&self.source, self.current, e);
        self.line = self.line + nl;
        if e >= self.source.len() {
            self.current = e;
            return Err(ScanError::UnterminatedString { line: self.line });
        }
        self.current = e + 1;
        let value = string_of(vstd::slice::slice_subrange(self.source.as_slice(), self.start + 1, e));
        self.add_token(TokenType::String, Some(Primitive::String(value)));
        Ok(())
    }

    /// Scans a number literal whose first digit is at `start`.
    fn init_number(&mut self) -> (r: Result<(), ScanError>)
        requires
            old(self).wf(),
            old(self).current == old(self).start + 1,
            is_digit(old(self).source@[old(self).start as int]),
        ensures
            final(self).source@ == old(self).source@,
            r is Ok ==> final(self).current > old(self).start,
            ({
                let src = old(self).source@;
                let pos = old(self).start as int;
                let line = old(self).line as nat;
                let n = src.len();
                let i = digits_end(src, pos);
                let (end, value) = if i + 1 < n && src[i] == '.' && is_digit(src[i + 1]) {
                    let j = digits_end(src, i + 1);
                    (j, decimal_value(src.subrange(pos, i) + src.subrange(i + 1, j), (j - i - 1) as nat))
                } else {
                    (i, decimal_value(src.subrange(pos, i), 0))
                };
                match value {
                    Some(x) => {
                        &&& r is Ok
                        &&& final(self).wf()
                        &&& final(self).current == end
                        &&& final(self).line == line
                        &&& tokens_view(final(self).tokens@) == tokens_view(old(self).tokens@).push(
                            tok(TokenType::Number, src.subrange(pos, end), Some(Val::Number(x)), line),
                        )
                    },
                    None => r == Err::<(), ScanError>(ScanError::NumberOutOfRange { line: line as usize }),
                }
            }),
    {
        let pos = self.start;
        let i = digits_end_exec(&self.source, pos);
        let mut digits: Vec<char> = Vec::new();
        push_range(&mut digits, &self.source, pos, i);
        assert(digits@ =~= self.source@.subrange(pos as int, i as int));
        let end;
        let value;
        self.current = i;
        let next = self.peek_next();
        if self.peek() == '.' && next >= '0' && next <= '9' {
            let j = digits_end_exec(&self.source, i + 1);
            push_range(&mut digits, &self.source, i + 1, j);
            assert forall|k: int| 0 <= k < digits@.len() implies is_digit(#[trigger] digits@[k]) by {
                if k < i - pos {
                    assert(digits@[k] == self.source@[k + pos]);
                } else {
                    assert(digits@[k] == self.source@[k + pos + 1]);
                }
            }
            value = decimal(&digits, j - i - 1);
            end = j;
        } else {
            assert forall|k: int| 0 <= k < digits@.len() implies is_digit(#[trigger] digits@[k]) by {
                assert(digits@[k] == self.source@[k + pos]);
            }
            value = decimal(&digits, 0);
            end = i;
        }
        match value {
            Some(x) => {
                self.current = end;
                self.add_token(TokenType::Number, Some(Primitive::Number(x)));
                Ok(())
            },
            None => Err(ScanError::NumberOutOfRange { line: self.line }),
        }
    }

    /// Scans an identifier or keyword whose first character is at `start`.
    fn init_identifier(&mut self)
        requires
            old(self).wf(),
            old(self).current == old(self).start + 1,
            old(self).start < old(self).source@.len(),
        ensures
            final(self).source@ == old(self).source@,
            final(self).current > old(self).start,
            ({
                let src = old(self).source@;
                let pos = old(self).start as int;
                let e = ident_end(src, pos + 1);
                let text = src.subrange(pos, e);
                let kind = match keyword(text) {
                    Some(k) => k,
                    None => TokenType::Identifier,
                };
                &&& final(self).wf()
                &&& final(self).current == e
                &&& final(self).line == old(self).line
                &&& tokens_view(final(self).tokens@) == tokens_view(old(self).tokens@).push(
                    tok(kind, text, Some(Val::Str(text)), old(self).line as nat),
                )
            }),
    {
        let e = ident_end_exec(&self.source, self.current);
        let mut text: Vec<char> = Vec::new();
        push_range(&mut text, &self.source, self.start, e);
        assert(text@ =~= self.source@.subrange(self.start as int, e as int));
        let kind = match keyword_of(&text) {
            Some(k) => k,
            None => TokenType::Identifier,
        };
        self.current = e;
        let value = string_of(text.as_slice());
        self.add_token(kind, Some(Primitive::String(value)));
    }

    /// Scans the token that starts at the current position, as `step` says.
    fn scan_token(&mut self) -> (r: Result<(), ScanError>)
        requires
            old(self).wf(),
            old(self).current < old(self).source@.len(),
        ensures
            final(self).source@ == old(self).source@,
            match step(old(self).source@, old(self).current as int, old(self).line as nat) {
                Step::Skip { next, line } => {
                    &&& r is Ok
                    &&& final(self).wf()
                    &&& final(self).current == next
                    &&& final(self).line == line
                    &&& final(self).tokens@ == old(self).tokens@
                },
                Step::Emit { token, next, line } => {
                    &&& r is Ok
                    &&& final(self).wf()
                    &&& final(self).current == next
                    &&& final(self).line == line
                    &&& tokens_view(final(self).tokens@) == tokens_view(old(self).tokens@).push(token)
                },
                Step::Fail { error } => r == Err::<(), ScanError>(error),
            },
            r is Ok ==> old(self).current < final(self).current,
    {
        self.start = self.current;
        let c = self.advance();
        match single_kind_of(c) {
            Some(kind) => {
                self.add_token(kind, None);
                return Ok(());
            },
            None => {},
        }
        match pair_kinds_of(c) {
            Some((one, two)) => {
                let kind = if self.char_match('=') {
                    two
                } else {
                    one
                };
                self.add_token(kind, None);
                return Ok(());
            },
            None => {},
        }
        if c == '/' {
            if self.char_match('/') {
                self.current = find_from_exec(&self.source, self.current, '\n');
            } else {
                self.add_token(TokenType::Slash, None);
            }
            return Ok(());
        }
        if c == ' ' || c == '\r' || c == '\t' {
            return Ok(());
        }
        if c == '\n' {
            self.line = self.line + 1;
            return Ok(());
        }
        if c == '"' {
            return self.init_string();
        }
        if c >= '0' && c <= '9' {
            return self.init_number();
        }
        if is_alphabetic(c) || c == '_' {
            self.init_identifier();
            return Ok(());
        }
        Err(ScanError::UnexpectedCharacter { character: c, line: self.line })
    }

    /// Scans the rest of the source: the tokens of the whole source, ending
    /// with `Eof`, or the first error, as `scan` says.
    pub fn scan_tokens(&mut self) -> (r: Result<Vec<Token>, ScanError>)
        requires
            old(self).wf(),
            old(self).on_track(),
        ensures
            match r {
                Ok(ts) => scan(old(self).source()) == Ok::<Seq<TokenView>, ScanError>(tokens_view(ts@)),
                Err(e) => scan(old(self).source()) == Err::<Seq<TokenView>, ScanError>(e),
            },
    {
        while !self.is_at_end()
            invariant
                self.wf(),
                self.on_track(),
                self.source@ == old(self).source@,
            decreases self.source@.len() - self.current,
        {
            let ghost before = *self;
            let ghost src = self.source@;
            match self.scan_token() {
                Ok(()) => {
                    proof {
                        match step(src, before.current as int, before.line as nat) {
                            Step::Emit { token, next, line } => {
                                match scan_from(src, next, line) {
                                    Ok(ts) => {
                                        assert(tokens_view(before.tokens@) + (seq![token] + ts) =~=
                                            tokens_view(before.tokens@).push(token) + ts);
                                    },
                                    Err(_) => {},
                                }
                            },
                            _ => {},
                        }
                    }
                },
                Err(e) => {
                    return Err(e);
                },
            }
        }
        let ghost before = self.tokens@;
        let eof = Token {
            token_type: TokenType::Eof,
            lexme: Some(String::new()),
            literal: None,
            line: self.line,
        };
        self.tokens.push(eof);
        assert(tokens_view(self.tokens@) =~= tokens_view(before) + seq![tok(TokenType::Eof, Seq::empty(), None, self.line as nat)]);
        let mut out: Vec<Token> = Vec::new();
        std::mem::swap(&mut out, &mut self.tokens);
        Ok(out)
    }
}

fn single_kind_of(c: char) -> (r: Option<TokenType>)
    ensures
        r == single_kind(c),
{
    if c == '(' {
        Some(TokenType::LeftParen)
    } else if c == ')' {
        Some(TokenType::RightParen)
    } else if c == '{' {
        Some(TokenType::LeftBrace)
    } else if c == '}' {
        Some(TokenType::RightBrace)
    } else if c == ',' {
        Some(TokenType::Comma)
    } else if c == '.' {
        Some(TokenType::Dot)
    } else if c == '-' {
        Some(TokenType::Minus)
    } else if c == '+' {
        Some(TokenType::Plus)
    } else if c == ';' {
        Some(TokenType::SemiColon)
    } else if c == '*' {
        Some(TokenType::Star)
    } else {
        None
    }
}

fn pair_kinds_of(c: char) -> (r: Option<(TokenType, TokenType)>)
    ensures
        r == pair_kinds(c),
{
    if c == '!' {
        Some((TokenType::Bang, TokenType::BangEqual))
    } else if c == '=' {
        Some((TokenType::Equal, TokenType::EqualEqual))
    } else if c == '<' {
        Some((TokenType::Less, TokenType::LessEqual))
    } else if c == '>' {
        Some((TokenType::Greater, TokenType::GreaterEqual))
    } else {
        None
    }
}

} // verus!
