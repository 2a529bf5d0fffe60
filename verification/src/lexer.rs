//! The lexer: what the token stream of a byte string is, and the scanner
//! that produces it one token at a time.

use vstd::prelude::*;
use crate::text::{byte_chars, char_bytes, string_of_bytes};
use crate::token::{Token, TokenType, TokenView};

verus! {

/// The byte classes that the scanner reads in runs.
pub enum ByteClass {
    Whitespace,
    Letter,
    Digit,
}

/// Space, tab, line feed and carriage return separate tokens.
pub open spec fn is_whitespace_byte(b: u8) -> bool {
    b == ' ' as u8 || b == '\t' as u8 || b == '\n' as u8 || b == '\r' as u8
}

/// Identifiers are made of ASCII letters and the underscore.
pub open spec fn is_letter_byte(b: u8) -> bool {
    (b >= 'a' as u8 && b <= 'z' as u8) || (b >= 'A' as u8 && b <= 'Z' as u8) || b == '_' as u8
}

/// Integer literals are made of ASCII decimal digits.
pub open spec fn is_digit_byte(b: u8) -> bool {
    b >= '0' as u8 && b <= '9' as u8
}

impl ByteClass {
    /// Whether `b` belongs to the class.
    pub open spec fn holds(self, b: u8) -> bool {
        match self {
            ByteClass::Whitespace => is_whitespace_byte(b),
            ByteClass::Letter => is_letter_byte(b),
            ByteClass::Digit => is_digit_byte(b),
        }
    }
}

/// The byte at index `i`, if the input has one there.
pub open spec fn byte_at(input: Seq<u8>, i: int) -> Option<u8> {
    if 0 <= i < input.len() {
        Some(input[i])
    } else {
        None
    }
}

/// Where the longest run of bytes of `class` that begins at `start` ends:
/// the first index from `start` on that holds no byte of the class.
pub open spec fn run_end(input: Seq<u8>, start: int, class: ByteClass) -> int
    decreases input.len() - start,
{
    if 0 <= start < input.len() && class.holds(input[start]) {
        run_end(input, start + 1, class)
    } else {
        start
    }
}

/// A run ends at or after its start and inside the input, every byte of it
/// is of the class, and the byte after it, if there is one, is not.
pub proof fn lemma_run_end(input: Seq<u8>, start: int, class: ByteClass)
    ensures
        start <= run_end(input, start, class),
        start <= input.len() ==> run_end(input, start, class) <= input.len(),
        forall|i: int|
            0 <= start <= i < run_end(input, start, class) ==> class.holds(#[trigger] input[i]),
        byte_at(input, run_end(input, start, class)) matches Some(b) ==> !class.holds(b),
    decreases input.len() - start,
{
    if 0 <= start < input.len() && class.holds(input[start]) {
        lemma_run_end(input, start + 1, class);
    }
}

/// The kind of the punctuation or operator that the single byte `b` spells.
pub open spec fn punctuation_kind(b: u8) -> Option<TokenType> {
    if b == '=' as u8 {
        Some(TokenType::Assign)
    } else if b == '!' as u8 {
        Some(TokenType::Bang)
    } else if b == ';' as u8 {
        Some(TokenType::Semicolon)
    } else if b == '(' as u8 {
        Some(TokenType::LeftParen)
    } else if b == ')' as u8 {
        Some(TokenType::RightParen)
    } else if b == ',' as u8 {
        Some(TokenType::Comma)
    } else if b == '+' as u8 {
        Some(TokenType::Plus)
    } else if b == '-' as u8 {
        Some(TokenType::Minus)
    } else if b == '/' as u8 {
        Some(TokenType::Slash)
    } else if b == '*' as u8 {
        Some(TokenType::Asterisk)
    } else if b == '<' as u8 {
        Some(TokenType::LT)
    } else if b == '>' as u8 {
        Some(TokenType::GT)
    } else if b == '{' as u8 {
        Some(TokenType::LeftBrace)
    } else if b == '}' as u8 {
        Some(TokenType::RightBrace)
    } else {
        None
    }
}

/// Whether `==` or `!=` stands at `start`.
pub open spec fn two_byte_operator_at(input: Seq<u8>, start: int) -> bool {
    &&& 0 <= start
    &&& start + 1 < input.len()
    &&& input[start] == '=' as u8 || input[start] == '!' as u8
    &&& input[start + 1] == '=' as u8
}

/// Where the token that begins at `start` ends. At or past the end of the
/// input nothing is consumed.
pub open spec fn token_end(input: Seq<u8>, start: int) -> int {
    if !(0 <= start < input.len()) {
        start
    } else if two_byte_operator_at(input, start) {
        start + 2
    } else if is_letter_byte(input[start]) {
        run_end(input, start, ByteClass::Letter)
    } else if is_digit_byte(input[start]) {
        run_end(input, start, ByteClass::Digit)
    } else {
        start + 1
    }
}

/// The kind of the token that begins at `start`.
pub open spec fn token_kind(input: Seq<u8>, start: int) -> TokenType {
    if !(0 <= start < input.len()) {
        TokenType::EOF
    } else if two_byte_operator_at(input, start) {
        if input[start] == '=' as u8 {
            TokenType::EQ
        } else {
            TokenType::NotEQ
        }
    } else if punctuation_kind(input[start]) is Some {
        punctuation_kind(input[start])->0
    } else if is_letter_byte(input[start]) {
        TokenType::spec_lookup_ident(
            byte_chars(input.subrange(start, run_end(input, start, ByteClass::Letter))),
        )
    } else if is_digit_byte(input[start]) {
        TokenType::Integer
    } else {
        TokenType::Illegal
    }
}

/// The end-of-input token.
pub open spec fn eof_token() -> TokenView {
    TokenView { token_type: TokenType::EOF, literal: Seq::empty() }
}

/// Where the next token begins when the scanner stands at `pos`: after the
/// whitespace there.
pub open spec fn token_start(input: Seq<u8>, pos: int) -> int {
    run_end(input, pos, ByteClass::Whitespace)
}

/// The token that a scanner standing at `pos` returns next: the
/// end-of-input token where only whitespace is left, else a token whose text
/// is the source text that it spans.
pub open spec fn next_token_at(input: Seq<u8>, pos: int) -> TokenView {
    let start = token_start(input, pos);
    if 0 <= start < input.len() {
        TokenView {
            token_type: token_kind(input, start),
            literal: byte_chars(input.subrange(start, token_end(input, start))),
        }
    } else {
        eof_token()
    }
}

/// Where a scanner that stood at `pos` stands after it returned its next
/// token.
pub open spec fn next_position(input: Seq<u8>, pos: int) -> int {
    token_end(input, token_start(input, pos))
}

/// The next token is the end-of-input token exactly when only whitespace is
/// left; any other token consumes at least one byte and ends inside the input.
pub proof fn lemma_next_token(input: Seq<u8>, pos: int)
    ensures
        pos <= token_start(input, pos) <= next_position(input, pos),
        next_token_at(input, pos).token_type == TokenType::EOF <==> !(0 <= token_start(input, pos)
            < input.len()),
        next_token_at(input, pos).token_type == TokenType::EOF ==> next_token_at(input, pos)
            == eof_token() && next_position(input, pos) == token_start(input, pos),
        next_token_at(input, pos).token_type != TokenType::EOF ==> token_start(input, pos)
            < next_position(input, pos) <= input.len(),
{
    let start = token_start(input, pos);
    lemma_run_end(input, pos, ByteClass::Whitespace);
    lemma_run_end(input, start, ByteClass::Letter);
    lemma_run_end(input, start, ByteClass::Digit);
    if 0 <= start < input.len() {
        lemma_lookup_never_eof(
            byte_chars(input.subrange(start, run_end(input, start, ByteClass::Letter))),
        );
    }
}

/// The reserved-word table holds no end-of-input entry.
pub proof fn lemma_lookup_never_eof(text: Seq<char>)
    ensures
        TokenType::spec_lookup_ident(text) != TokenType::EOF,
{
}

/// The token stream of `input` from `pos` on: the tokens that a scanner
/// standing at `pos` returns, in order, before it reaches the end of the
/// input.
pub open spec fn tokens_from(input: Seq<u8>, pos: int) -> Seq<TokenView>
    decreases input.len() - pos,
{
    let token = next_token_at(input, pos);
    if token.token_type == TokenType::EOF {
        Seq::empty()
    } else {
        proof {
            lemma_next_token(input, pos);
        }
        seq![token] + tokens_from(input, next_position(input, pos))
    }
}

/// Where a scanner that stood at `pos` stands after `calls` tokens.
pub open spec fn position_after(input: Seq<u8>, pos: int, calls: nat) -> int
    decreases calls,
{
    if calls == 0 {
        pos
    } else {
        next_position(input, position_after(input, pos, (calls - 1) as nat))
    }
}

/// End of input is final: once the scanner has returned the end-of-input
/// token, every later call returns the end-of-input token, with empty text.
pub proof fn lemma_eof_is_final(input: Seq<u8>, pos: int, calls: nat)
    requires
        next_token_at(input, pos).token_type == TokenType::EOF,
    ensures
        next_token_at(input, position_after(input, pos, calls)) == eof_token(),
    decreases calls,
{
    lemma_next_token(input, pos);
    if calls > 0 {
        let before = position_after(input, pos, (calls - 1) as nat);
        lemma_eof_is_final(input, pos, (calls - 1) as nat);
        lemma_next_token(input, before);
        lemma_run_end(input, before, ByteClass::Whitespace);
        assert(token_start(input, next_position(input, before)) == token_start(input, before));
    }
}

/// A run that begins inside a stretch of bytes of its class reaches the end
/// of the stretch.
proof fn lemma_run_covers(input: Seq<u8>, start: int, end: int, class: ByteClass)
    requires
        0 <= start <= end <= input.len(),
        forall|i: int| start <= i < end ==> class.holds(#[trigger] input[i]),
        byte_at(input, end) matches Some(b) ==> !class.holds(b),
    ensures
        run_end(input, start, class) == end,
    decreases end - start,
{
    if start < end {
        lemma_run_covers(input, start + 1, end, class);
    }
}

/// An input that is one token from its first byte to its last has that
/// token alone as its stream.
proof fn lemma_single_token(input: Seq<u8>)
    requires
        input.len() > 0,
        !is_whitespace_byte(input[0]),
        token_end(input, 0) == input.len(),
    ensures
        tokens_from(input, 0) == seq![
            TokenView { token_type: token_kind(input, 0), literal: byte_chars(input) },
        ],
{
    let end = input.len() as int;
    assert(input.subrange(0, end) =~= input);
    lemma_next_token(input, 0);
    assert(token_start(input, end) == end);
    assert(tokens_from(input, end) =~= Seq::empty());
    assert(tokens_from(input, 0) =~= seq![next_token_at(input, 0)] + tokens_from(input, end));
}

/// Every operator, delimiter and reserved word, scanned alone, is one token
/// of its kind whose text is the input text.
pub proof fn lemma_spelling_scans_alone(kind: TokenType)
    requires
        kind.spelling() is Some,
    ensures
        tokens_from(char_bytes(kind.spelling()->0), 0) == seq![
            TokenView { token_type: kind, literal: kind.spelling()->0 },
        ],
{
    let text = kind.spelling()->0;
    let input = char_bytes(text);
    reveal_strlit("=");
    reveal_strlit("+");
    reveal_strlit("-");
    reveal_strlit("!");
    reveal_strlit("*");
    reveal_strlit("/");
    reveal_strlit("<");
    reveal_strlit(">");
    reveal_strlit(",");
    reveal_strlit(";");
    reveal_strlit("(");
    reveal_strlit(")");
    reveal_strlit("{");
    reveal_strlit("}");
    reveal_strlit("fn");
    reveal_strlit("let");
    reveal_strlit("true");
    reveal_strlit("false");
    reveal_strlit("if");
    reveal_strlit("else");
    reveal_strlit("return");
    reveal_strlit("==");
    reveal_strlit("!=");
    assert(byte_chars(input) =~= text);
    if is_letter_byte(input[0]) {
        lemma_run_covers(input, 0, input.len() as int, ByteClass::Letter);
    }
    lemma_single_token(input);
}

/// Whether a token that ends with the last byte of `text` stays as it is
/// when more bytes follow: the text is empty, or its last byte is none that
/// a following byte can extend, which are the letters, the digits, `=` and
/// `!`.
pub open spec fn closes_tokens(text: Seq<u8>) -> bool {
    text.len() > 0 ==> {
        let b = text.last();
        !is_letter_byte(b) && !is_digit_byte(b) && b != '=' as u8 && b != '!' as u8
    }
}

/// A run inside the second of two texts ends where it ends in that text
/// alone.
proof fn lemma_run_end_shift(first: Seq<u8>, second: Seq<u8>, pos: int, class: ByteClass)
    requires
        0 <= pos,
    ensures
        run_end(first + second, first.len() + pos, class) == first.len() + run_end(
            second,
            pos,
            class,
        ),
    decreases second.len() - pos,
{
    if pos < second.len() {
        assert((first + second)[first.len() + pos] == second[pos]);
        if class.holds(second[pos]) {
            lemma_run_end_shift(first, second, pos + 1, class);
        }
    }
}

/// A run inside the first of two texts ends where it ends in that text
/// alone, unless it reaches the end of that text: then it goes on as a run
/// from the first byte of the second text does.
proof fn lemma_run_end_prefix(first: Seq<u8>, second: Seq<u8>, pos: int, class: ByteClass)
    requires
        0 <= pos <= first.len(),
    ensures
        run_end(first + second, pos, class) == if run_end(first, pos, class) < first.len() {
            run_end(first, pos, class)
        } else {
            run_end(first + second, first.len() as int, class)
        },
    decreases first.len() - pos,
{
    lemma_run_end(first, pos, class);
    if pos < first.len() {
        assert((first + second)[pos] == first[pos]);
        if class.holds(first[pos]) {
            lemma_run_end_prefix(first, second, pos + 1, class);
        }
    }
}

/// The tokens of the second of two texts are the same in both texts
/// together as in that text alone.
proof fn lemma_tokens_shift(first: Seq<u8>, second: Seq<u8>, pos: int)
    requires
        0 <= pos,
    ensures
        tokens_from(first + second, first.len() + pos) == tokens_from(second, pos),
    decreases second.len() - pos,
{
    let both = first + second;
    let shift = first.len() as int;
    let start = token_start(second, pos);
    lemma_run_end_shift(first, second, pos, ByteClass::Whitespace);
    lemma_run_end(second, pos, ByteClass::Whitespace);
    lemma_next_token(second, pos);
    if 0 <= start < second.len() {
        lemma_run_end_shift(first, second, start, ByteClass::Letter);
        lemma_run_end_shift(first, second, start, ByteClass::Digit);
        lemma_run_end(second, start, ByteClass::Letter);
        lemma_run_end(second, start, ByteClass::Digit);
        assert(both[shift + start] == second[start]);
        if start + 1 < second.len() {
            assert(both[shift + start + 1] == second[start + 1]);
        }
        let end = token_end(second, start);
        assert(token_end(both, shift + start) == shift + end);
        assert(both.subrange(shift + start, shift + end) =~= second.subrange(start, end));
        assert(both.subrange(
            shift + start,
            shift + run_end(second, start, ByteClass::Letter),
        ) =~= second.subrange(start, run_end(second, start, ByteClass::Letter)));
        assert(next_token_at(both, shift + pos) == next_token_at(second, pos));
        lemma_tokens_shift(first, second, end);
    }
}

/// The tokens of the first of two texts are the same in both texts together
/// as in that text alone, where its last token cannot be extended, and the
/// tokens of the second text follow them.
proof fn lemma_tokens_prefix(first: Seq<u8>, second: Seq<u8>, pos: int)
    requires
        closes_tokens(first),
        0 <= pos <= first.len(),
    ensures
        tokens_from(first + second, pos) == tokens_from(first, pos) + tokens_from(second, 0),
    decreases first.len() - pos,
{
    let both = first + second;
    let end_of_first = first.len() as int;
    let start = token_start(first, pos);
    lemma_run_end(first, pos, ByteClass::Whitespace);
    lemma_run_end_prefix(first, second, pos, ByteClass::Whitespace);
    lemma_next_token(first, pos);
    if start < end_of_first {
        let end = token_end(first, start);
        lemma_run_end(first, start, ByteClass::Letter);
        lemma_run_end(first, start, ByteClass::Digit);
        lemma_run_end_prefix(first, second, start, ByteClass::Letter);
        lemma_run_end_prefix(first, second, start, ByteClass::Digit);
        assert(both[start] == first[start]);
        if start + 1 < end_of_first {
            assert(both[start + 1] == first[start + 1]);
        }
        if is_letter_byte(first[start]) || is_digit_byte(first[start]) {
            assert(end < end_of_first) by {
                if end == end_of_first {
                    assert(first.last() == first[end - 1]);
                }
            }
        }
        assert(token_end(both, start) == end);
        assert(both.subrange(start, end) =~= first.subrange(start, end));
        assert(both.subrange(start, run_end(first, start, ByteClass::Letter)) =~= first.subrange(
            start,
            run_end(first, start, ByteClass::Letter),
        ));
        assert(next_token_at(both, pos) == next_token_at(first, pos));
        lemma_tokens_prefix(first, second, end);
        assert(tokens_from(both, pos) =~= tokens_from(first, pos) + tokens_from(second, 0));
    } else {
        lemma_tokens_shift(first, second, 0);
        lemma_next_token(both, pos);
        lemma_next_token(both, end_of_first);
        assert(token_start(both, pos) == token_start(both, end_of_first));
        assert(tokens_from(both, pos) == tokens_from(both, end_of_first));
        assert(tokens_from(first, pos) + tokens_from(second, 0) =~= tokens_from(second, 0));
    }
}

/// Two texts one after the other have the tokens of the first and then the
/// tokens of the second, where the last token of the first cannot be
/// extended.
pub proof fn lemma_tokens_of_concatenation(first: Seq<u8>, second: Seq<u8>)
    requires
        closes_tokens(first),
    ensures
        tokens_from(first + second, 0) == tokens_from(first, 0) + tokens_from(second, 0),
{
    lemma_tokens_prefix(first, second, 0);
}

/// A text whose last token is a semicolon ends with that semicolon or with
/// whitespace, so that no token of it can be extended.
pub proof fn lemma_semicolon_closes(text: Seq<u8>, pos: int)
    requires
        0 <= pos <= text.len(),
        tokens_from(text, pos).len() > 0,
        tokens_from(text, pos).last().token_type == TokenType::Semicolon,
    ensures
        closes_tokens(text),
    decreases text.len() - pos,
{
    let start = token_start(text, pos);
    let next = next_position(text, pos);
    lemma_next_token(text, pos);
    if tokens_from(text, next).len() > 0 {
        assert(tokens_from(text, pos).last() == tokens_from(text, next).last());
        lemma_semicolon_closes(text, next);
    } else {
        let last = text.len() - 1;
        assert(tokens_from(text, pos).last() == next_token_at(text, pos));
        assert(text[start] == ';' as u8);
        lemma_next_token(text, next);
        lemma_run_end(text, next, ByteClass::Whitespace);
        if next < text.len() {
            assert(is_whitespace_byte(text[last]));
        }
    }
}

/// A scanner over a byte string. It yields one token per call and never
/// looks further ahead than one byte.
#[derive(Debug)]
pub struct Lexer<'a> {
    input: &'a [u8],
    position: usize,
    read_position: usize,
    ch: Option<u8>,
}

impl<'a> Lexer<'a> {
    /// The bytes being scanned.
    pub closed spec fn input(&self) -> Seq<u8> {
        self.input@
    }

    /// The index of the current byte.
    pub closed spec fn position(&self) -> int {
        self.position as int
    }

    /// The index of the byte that is read next.
    pub closed spec fn read_position(&self) -> int {
        self.read_position as int
    }

    /// The byte at `position`, or `None` at the end of the input.
    pub closed spec fn current_byte(&self) -> Option<u8> {
        self.ch
    }

    /// The state after every completed read step: the read position is one
    /// past the position, and the current byte is the one at the position.
    pub open spec fn wf(&self) -> bool {
        &&& self.input().len() < usize::MAX
        &&& 0 <= self.position()
        &&& self.read_position() == self.position() + 1
        &&& self.current_byte() == byte_at(self.input(), self.position())
    }

    /// Both positions are machine indices: neither is negative, and neither
    /// is above `usize::MAX`.
    pub proof fn lemma_positions_in_range(&self)
        ensures
            0 <= self.position() <= usize::MAX,
            0 <= self.read_position() <= usize::MAX,
    {
    }

    /// A scanner that stands on the first byte of `input`.
    pub fn new(input: &'a [u8]) -> (lexer: Self)
        requires
            input@.len() < usize::MAX,
        ensures
            lexer.wf(),
            lexer.input() == input@,
            lexer.position() == 0,
            lexer.read_position() == 1,
    {
        let mut lexer = Self { input, position: 0, read_position: 0, ch: None };
        lexer.read_char();
        lexer
    }

    /// One read step: the byte at the read position becomes the current byte,
    /// and both positions move on by one, at the end of the input too. The
    /// state is well formed after every step.
    pub fn read_char(&mut self)
        requires
            old(self).read_position() < usize::MAX,
        ensures
            final(self).input() == old(self).input(),
            final(self).position() == old(self).read_position(),
            final(self).read_position() == old(self).read_position() + 1,
            final(self).current_byte() == byte_at(old(self).input(), old(self).read_position()),
            0 <= final(self).position() < final(self).read_position(),
            old(self).input().len() < usize::MAX ==> final(self).wf(),
    {
        if self.read_position >= self.input.len() {
            self.ch = None;
        } else {
            self.ch = Some(self.input[self.read_position]);
        }
        self.position = self.read_position;
        self.read_position += 1;
    }

    /// Skips whitespace, then reads one token. Once nothing but whitespace
    /// is left, the token is the end-of-input token. The scanner never moves
    /// back.
    pub fn next_token(&mut self) -> (token: Token)
        requires
            old(self).wf(),
        ensures
            final(self).wf(),
            final(self).input() == old(self).input(),
            final(self).position() == next_position(old(self).input(), old(self).position()),
            final(self).position() >= old(self).position(),
            token@ == next_token_at(old(self).input(), old(self).position()),
    {
        proof {
            lemma_next_token(self.input(), self.position());
        }
        self.skip_whitespace();
        let ghost input = self.input();
        let ghost start = self.position();
        proof {
            lemma_run_end(input, start, ByteClass::Letter);
            lemma_run_end(input, start, ByteClass::Digit);
        }
        match self.ch {
            Some(ch) => {
                if ch == '=' as u8 || ch == '!' as u8 {
                    let doubled = match self.peek_char() {
                        Some(next) => next == '=' as u8,
                        None => false,
                    };
                    if doubled {
                        self.read_char();
                        self.read_char();
                        proof {
                            reveal_strlit("==");
                            reveal_strlit("!=");
                            assert(byte_chars(input.subrange(start, start + 2)) =~= seq![
                                ch as char,
                                '=',
                            ]);
                            assert("=="@ =~= seq!['=', '=']);
                            assert("!="@ =~= seq!['!', '=']);
                        }
                        if ch == '=' as u8 {
                            Token::new(TokenType::EQ, "==".to_string())
                        } else {
                            Token::new(TokenType::NotEQ, "!=".to_string())
                        }
                    } else {
                        self.read_char();
                        proof {
                            assert(byte_chars(input.subrange(start, start + 1)) =~= seq![
                                ch as char,
                            ]);
                        }
                        if ch == '=' as u8 {
                            Token::new_char(TokenType::Assign, '=')
                        } else {
                            Token::new_char(TokenType::Bang, '!')
                        }
                    }
                } else if let Some(kind) = Self::punctuation(ch) {
                    self.read_char();
                    proof {
                        assert(byte_chars(input.subrange(start, start + 1)) =~= seq![ch as char]);
                    }
                    Token::new_char(kind, ch as char)
                } else if Self::is_letter(ch) {
                    let literal = self.read_identifier();
                    let token_type = TokenType::lookup_ident(literal.as_str());
                    Token::new(token_type, literal)
                } else if Self::is_digit(ch) {
                    let literal = self.read_number();
                    Token::new(TokenType::Integer, literal)
                } else {
                    self.read_char();
                    proof {
                        assert(byte_chars(input.subrange(start, start + 1)) =~= seq![ch as char]);
                    }
                    Token::new_char(TokenType::Illegal, ch as char)
                }
            },
            None => Token::new(TokenType::EOF, String::new()),
        }
    }

    /// Reads the run of letters that begins at the current byte and returns
    /// its text.
    pub fn read_identifier(&mut self) -> (text: String)
        requires
            old(self).wf(),
            old(self).position() <= old(self).input().len(),
        ensures
            final(self).wf(),
            final(self).input() == old(self).input(),
            final(self).position() == run_end(
                old(self).input(),
                old(self).position(),
                ByteClass::Letter,
            ),
            text@ == byte_chars(
                old(self).input().subrange(old(self).position(), final(self).position()),
            ),
    {
        let position = self.position;
        proof {
            lemma_run_end(self.input(), self.position(), ByteClass::Letter);
        }
        loop
            invariant
                self.wf(),
                self.input() == old(self).input(),
                position <= self.position() <= self.input().len(),
                run_end(self.input(), self.position(), ByteClass::Letter) == run_end(
                    old(self).input(),
                    old(self).position(),
                    ByteClass::Letter,
                ),
            ensures
                self.position() == run_end(
                    old(self).input(),
                    old(self).position(),
                    ByteClass::Letter,
                ),
            decreases self.input().len() - self.position(),
        {
            match self.ch {
                Some(ch) => {
                    if Self::is_letter(ch) {
                        self.read_char();
                    } else {
                        break ;
                    }
                },
                None => {
                    break ;
                },
            }
        }
        string_of_bytes(self.input, position, self.position)
    }

    /// Whether `ch` can stand in an identifier.
    pub fn is_letter(ch: u8) -> (yes: bool)
        ensures
            yes == is_letter_byte(ch),
    {
        (ch >= 'a' as u8 && ch <= 'z' as u8) || (ch >= 'A' as u8 && ch <= 'Z' as u8) || ch
            == '_' as u8
    }

    fn is_digit(ch: u8) -> (yes: bool)
        ensures
            yes == is_digit_byte(ch),
    {
        ch >= '0' as u8 && ch <= '9' as u8
    }

    fn punctuation(ch: u8) -> (kind: Option<TokenType>)
        ensures
            kind == punctuation_kind(ch),
    {
        if ch == '=' as u8 {
            Some(TokenType::Assign)
        } else if ch == '!' as u8 {
            Some(TokenType::Bang)
        } else if ch == ';' as u8 {
            Some(TokenType::Semicolon)
        } else if ch == '(' as u8 {
            Some(TokenType::LeftParen)
        } else if ch == ')' as u8 {
            Some(TokenType::RightParen)
        } else if ch == ',' as u8 {
            Some(TokenType::Comma)
        } else if ch == '+' as u8 {
            Some(TokenType::Plus)
        } else if ch == '-' as u8 {
            Some(TokenType::Minus)
        } else if ch == '/' as u8 {
            Some(TokenType::Slash)
        } else if ch == '*' as u8 {
            Some(TokenType::Asterisk)
        } else if ch == '<' as u8 {
            Some(TokenType::LT)
        } else if ch == '>' as u8 {
            Some(TokenType::GT)
        } else if ch == '{' as u8 {
            Some(TokenType::LeftBrace)
        } else if ch == '}' as u8 {
            Some(TokenType::RightBrace)
        } else {
            None
        }
    }

    /// Moves to the first byte from the current one on that is no whitespace.
    pub fn skip_whitespace(&mut self)
        requires
            old(self).wf(),
        ensures
            final(self).wf(),
            final(self).input() == old(self).input(),
            final(self).position() == token_start(old(self).input(), old(self).position()),
    {
        loop
            invariant
                self.wf(),
                self.input() == old(self).input(),
                run_end(self.input(), self.position(), ByteClass::Whitespace) == run_end(
                    old(self).input(),
                    old(self).position(),
                    ByteClass::Whitespace,
                ),
            ensures
                self.position() == run_end(
                    old(self).input(),
                    old(self).position(),
                    ByteClass::Whitespace,
                ),
            decreases self.input().len() - self.position(),
        {
            match self.ch {
                Some(ch) => {
                    if ch == ' ' as u8 || ch == '\t' as u8 || ch == '\n' as u8 || ch == '\r' as u8 {
                        self.read_char();
                    } else {
                        break ;
                    }
                },
                None => {
                    break ;
                },
            }
        }
    }

    /// Reads the run of digits that begins at the current byte and returns
    /// its text.
    pub fn read_number(&mut self) -> (text: String)
        requires
            old(self).wf(),
            old(self).position() <= old(self).input().len(),
        ensures
            final(self).wf(),
            final(self).input() == old(self).input(),
            final(self).position() == run_end(
                old(self).input(),
                old(self).position(),
                ByteClass::Digit,
            ),
            text@ == byte_chars(
                old(self).input().subrange(old(self).position(), final(self).position()),
            ),
    {
        let position = self.position;
        proof {
            lemma_run_end(self.input(), self.position(), ByteClass::Digit);
        }
        loop
            invariant
                self.wf(),
                self.input() == old(self).input(),
                position <= self.position() <= self.input().len(),
                run_end(self.input(), self.position(), ByteClass::Digit) == run_end(
                    old(self).input(),
                    old(self).position(),
                    ByteClass::Digit,
                ),
            ensures
                self.position() == run_end(
                    old(self).input(),
                    old(self).position(),
                    ByteClass::Digit,
                ),
            decreases self.input().len() - self.position(),
        {
            match self.ch {
                Some(ch) => {
                    if Self::is_digit(ch) {
                        self.read_char();
                    } else {
                        break ;
                    }
                },
                None => {
                    break ;
                },
            }
        }
        string_of_bytes(self.input, position, self.position)
    }

    /// The byte after the current one, if there is one.
    fn peek_char(&self) -> (next: Option<u8>)
        ensures
            next == byte_at(self.input(), self.read_position()),
    {
        if self.read_position >= self.input.len() {
            None
        } else {
            Some(self.input[self.read_position])
        }
    }
}

/// Scans `input` from its first byte to its end and returns its tokens in
/// order.
pub fn tokenize(input: &[u8]) -> (tokens: Vec<Token>)
    requires
        input@.len() < usize::MAX,
    ensures
        tokens.deep_view() == tokens_from(input@, 0),
{
    let mut lexer = Lexer::new(input);
    let mut tokens: Vec<Token> = Vec::new();
    loop
        invariant
            lexer.wf(),
            lexer.input() == input@,
            0 <= lexer.position() <= input@.len(),
            tokens.deep_view() + tokens_from(input@, lexer.position()) == tokens_from(input@, 0),
        ensures
            tokens.deep_view() == tokens_from(input@, 0),
        decreases input@.len() - lexer.position(),
    {
        let ghost before = lexer.position();
        let ghost seen = tokens.deep_view();
        proof {
            lemma_next_token(input@, before);
            lemma_run_end(input@, before, ByteClass::Whitespace);
        }
        let token = lexer.next_token();
        if token.token_type == TokenType::EOF {
            proof {
                assert(tokens_from(input@, 0) =~= seen);
            }
            break ;
        }
        tokens.push(token);
        proof {
            assert(tokens.deep_view() =~= seen.push(token@));
            assert(seen.push(token@) + tokens_from(input@, lexer.position()) =~= seen
                + tokens_from(input@, before));
        }
    }
    tokens
}

} // verus!
