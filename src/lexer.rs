//! The lexer: turns source text into tokens, one token per call.
use crate::token::{literal, lookup_ident, word_token, Token, TokenV};
use crate::text::push_char;
use vstd::prelude::*;

verus! {

/// What `char::is_whitespace` answers for a character (the Unicode
/// `White_Space` property).
pub uninterp spec fn whitespace(c: char) -> bool;

/// What `char::is_alphabetic` answers for a character (the Unicode
/// `Alphabetic` property).
pub uninterp spec fn alphabetic(c: char) -> bool;

/// What `char::is_alphanumeric` answers for a character.
pub uninterp spec fn alphanumeric(c: char) -> bool;

/// Relies on `char::is_whitespace`.
#[verifier::external_body]
fn is_space(c: char) -> (r: bool)
    ensures
        r == whitespace(c),
{
    c.is_whitespace()
}

/// Relies on `char::is_alphabetic`.
#[verifier::external_body]
fn is_letter(c: char) -> (r: bool)
    ensures
        r == alphabetic(c),
{
    c.is_alphabetic()
}

/// Relies on `char::is_alphanumeric`.
#[verifier::external_body]
fn is_letter_or_digit(c: char) -> (r: bool)
    ensures
        r == alphanumeric(c),
{
    c.is_alphanumeric()
}

/// An ASCII decimal digit.
pub open spec fn is_digit(c: char) -> bool {
    '0' <= c && c <= '9'
}

/// A character that may continue an identifier.
pub open spec fn is_word_char(c: char) -> bool {
    alphanumeric(c) || c == '_'
}

/// A character that may start an identifier.
pub open spec fn starts_word(c: char) -> bool {
    alphabetic(c) || c == '_'
}

/// The character at `i`, or NUL past the end.
pub open spec fn char_at(s: Seq<char>, i: int) -> char {
    if 0 <= i < s.len() {
        s[i]
    } else {
        '\0'
    }
}

/// The first position at or after `i` that does not hold whitespace.
pub open spec fn skip_space(s: Seq<char>, i: int) -> int
    decreases s.len() - i,
{
    if 0 <= i < s.len() && whitespace(s[i]) {
        skip_space(s, i + 1)
    } else {
        i
    }
}

/// The end of the run of identifier characters that starts at `i`.
pub open spec fn word_end(s: Seq<char>, i: int) -> int
    decreases s.len() - i,
{
    if 0 <= i < s.len() && is_word_char(s[i]) {
        word_end(s, i + 1)
    } else {
        i
    }
}

/// The end of the run of ASCII digits that starts at `i`.
pub open spec fn digits_end(s: Seq<char>, i: int) -> int
    decreases s.len() - i,
{
    if 0 <= i < s.len() && is_digit(s[i]) {
        digits_end(s, i + 1)
    } else {
        i
    }
}

/// The number that a run of ASCII digits denotes.
pub open spec fn digits_value(d: Seq<char>) -> nat
    decreases d.len(),
{
    if d.len() == 0 {
        0
    } else {
        digits_value(d.drop_last()) * 10 + ((d.last() as int) - ('0' as int)) as nat
    }
}

/// The value of an integer literal: its number, or 0 when that does not fit in `i64`.
pub open spec fn int_value(d: Seq<char>) -> i64 {
    if digits_value(d) <= i64::MAX {
        digits_value(d) as i64
    } else {
        0
    }
}

/// One step of the lexer from position `i`: the token, the position where its
/// text starts (after whitespace), and the position after it.
pub open spec fn lex_step(s: Seq<char>, i: int) -> (TokenV, int, int) {
    let p = skip_space(s, i);
    let c = char_at(s, p);
    if c == '=' {
        if char_at(s, p + 1) == '=' {
            (TokenV::Eq, p, p + 2)
        } else {
            (TokenV::Assign, p, p + 1)
        }
    } else if c == '!' {
        if char_at(s, p + 1) == '=' {
            (TokenV::NotEq, p, p + 2)
        } else {
            (TokenV::Bang, p, p + 1)
        }
    } else if c == '+' {
        (TokenV::Plus, p, p + 1)
    } else if c == '-' {
        (TokenV::Minus, p, p + 1)
    } else if c == '*' {
        (TokenV::Asterisk, p, p + 1)
    } else if c == '<' {
        (TokenV::LessThan, p, p + 1)
    } else if c == '>' {
        (TokenV::GreaterThan, p, p + 1)
    } else if c == '/' {
        (TokenV::Slash, p, p + 1)
    } else if c == ',' {
        (TokenV::Comma, p, p + 1)
    } else if c == ';' {
        (TokenV::Semicolon, p, p + 1)
    } else if c == '(' {
        (TokenV::Lparen, p, p + 1)
    } else if c == ')' {
        (TokenV::Rparen, p, p + 1)
    } else if c == '{' {
        (TokenV::Lbrace, p, p + 1)
    } else if c == '}' {
        (TokenV::Rbrace, p, p + 1)
    } else if c == '\0' {
        (TokenV::Eof, p, if p < s.len() { p + 1 } else { p })
    } else if starts_word(c) {
        let e = word_end(s, p + 1);
        (word_token(s.subrange(p, e)), p, e)
    } else if is_digit(c) {
        let e = digits_end(s, p + 1);
        (TokenV::Int(int_value(s.subrange(p, e))), p, e)
    } else {
        (TokenV::Illegal, p, p + 1)
    }
}


/// All tokens from position `i` on, up to the `Eof` that the end of input gives.
pub open spec fn tokens_from(s: Seq<char>, i: int) -> Seq<TokenV>
    decreases s.len() - i,
{
    let (t, _start, next) = lex_step(s, i);
    if (t is Eof && next >= s.len()) || next <= i || next > s.len() {
        seq![t]
    } else {
        seq![t] + tokens_from(s, next)
    }
}

pub proof fn lemma_skip_space(s: Seq<char>, i: int)
    requires
        0 <= i <= s.len(),
    ensures
        i <= skip_space(s, i) <= s.len(),
    decreases s.len() - i,
{
    if 0 <= i < s.len() && whitespace(s[i]) {
        lemma_skip_space(s, i + 1);
    }
}

pub proof fn lemma_word_end(s: Seq<char>, i: int)
    requires
        0 <= i <= s.len(),
    ensures
        i <= word_end(s, i) <= s.len(),
    decreases s.len() - i,
{
    if 0 <= i < s.len() && is_word_char(s[i]) {
        lemma_word_end(s, i + 1);
    }
}

pub proof fn lemma_digits_end(s: Seq<char>, i: int)
    requires
        0 <= i <= s.len(),
    ensures
        i <= digits_end(s, i) <= s.len(),
    decreases s.len() - i,
{
    if 0 <= i < s.len() && is_digit(s[i]) {
        lemma_digits_end(s, i + 1);
    }
}

/// The lexer never moves backwards nor past the end, and it moves forward
/// unless it has reached the end of input.
pub proof fn lemma_lex_step_progress(s: Seq<char>, i: int)
    requires
        0 <= i <= s.len(),
    ensures
        i <= lex_step(s, i).1 <= lex_step(s, i).2 <= s.len(),
        !(lex_step(s, i).0 is Eof && lex_step(s, i).2 >= s.len()) ==> lex_step(s, i).2 > i,
        lex_step(s, i).1 < s.len() ==> lex_step(s, i).2 > lex_step(s, i).1,
{
    lemma_skip_space(s, i);
    let p = skip_space(s, i);
    if p + 1 <= s.len() {
        lemma_word_end(s, p + 1);
        lemma_digits_end(s, p + 1);
    }
}


/// Whether every character of `w` is whitespace.
pub open spec fn all_space(w: Seq<char>) -> bool {
    forall|k: int| 0 <= k < w.len() ==> whitespace(#[trigger] w[k])
}

/// Well-formed source from position `i` on: every token that the lexer finds
/// before the end of input is neither `Illegal` nor an early `Eof` (a NUL
/// character), and every integer literal is written in its canonical decimal
/// form (no leading zero, not out of range).
pub open spec fn well_formed_from(s: Seq<char>, i: int) -> bool
    decreases s.len() - i,
{
    let (t, start, next) = lex_step(s, i);
    if (t is Eof && next >= s.len()) || next <= i || next > s.len() {
        start >= s.len()
    } else {
        &&& !(t is Illegal)
        &&& !(t is Eof)
        &&& (t is Int ==> s.subrange(start, next) == literal(t))
        &&& well_formed_from(s, next)
    }
}

/// Whitespace runs `gaps` interleaved with the texts `lits`:
/// `gaps[0] + lits[0] + gaps[1] + ... + lits[n-1] + gaps[n]`.
pub open spec fn interleave(gaps: Seq<Seq<char>>, lits: Seq<Seq<char>>) -> Seq<char>
    decreases lits.len(),
{
    if lits.len() == 0 || gaps.len() == 0 {
        if gaps.len() == 0 {
            Seq::empty()
        } else {
            gaps[0]
        }
    } else {
        gaps[0] + lits[0] + interleave(gaps.drop_first(), lits.drop_first())
    }
}

/// The literals of a token sequence, without its final `Eof`.
pub open spec fn literals_before_end(ts: Seq<TokenV>) -> Seq<Seq<char>> {
    ts.drop_last().map_values(|t: TokenV| literal(t))
}

proof fn lemma_skip_space_is_space(s: Seq<char>, i: int)
    requires
        0 <= i <= s.len(),
    ensures
        all_space(s.subrange(i, skip_space(s, i))),
    decreases s.len() - i,
{
    lemma_skip_space(s, i);
    if 0 <= i < s.len() && whitespace(s[i]) {
        lemma_skip_space_is_space(s, i + 1);
        lemma_skip_space(s, i + 1);
        let w = s.subrange(i, skip_space(s, i));
        let w1 = s.subrange(i + 1, skip_space(s, i + 1));
        assert forall|k: int| 0 <= k < w.len() implies whitespace(#[trigger] w[k]) by {
            if k > 0 {
                assert(w[k] == w1[k - 1]);
            }
        }
    }
}

/// The text of a token that is neither `Illegal`, `Eof` nor `Int` is its literal.
proof fn lemma_step_text(s: Seq<char>, i: int)
    requires
        0 <= i <= s.len(),
        !(lex_step(s, i).0 is Illegal),
        !(lex_step(s, i).0 is Eof),
        !(lex_step(s, i).0 is Int),
    ensures
        s.subrange(lex_step(s, i).1, lex_step(s, i).2) == literal(lex_step(s, i).0),
{
    lemma_lex_step_progress(s, i);
    let (t, p, e) = lex_step(s, i);
    let c = char_at(s, p);
    reveal_strlit("=");
    reveal_strlit("==");
    reveal_strlit("!");
    reveal_strlit("!=");
    reveal_strlit("+");
    reveal_strlit("-");
    reveal_strlit("*");
    reveal_strlit("<");
    reveal_strlit(">");
    reveal_strlit("/");
    reveal_strlit(",");
    reveal_strlit(";");
    reveal_strlit("(");
    reveal_strlit(")");
    reveal_strlit("{");
    reveal_strlit("}");
    if c == '=' && char_at(s, p + 1) == '=' {
        assert(s.subrange(p, e) =~= "=="@);
    } else if c == '!' && char_at(s, p + 1) == '=' {
        assert(s.subrange(p, e) =~= "!="@);
    } else if c == '=' || c == '!' || c == '+' || c == '-' || c == '*' || c == '<' || c == '>'
        || c == '/' || c == ',' || c == ';' || c == '(' || c == ')' || c == '{' || c == '}' {
        assert(s.subrange(p, e) =~= seq![c]);
    } else {
        let w = s.subrange(p, e);
        if w == "fn"@ || w == "let"@ || w == "true"@ || w == "false"@ || w == "if"@ || w == "else"@
            || w == "return"@ {
        } else {
        }
    }
}

/// Lexing well-formed source and putting the tokens' literals back together,
/// with runs of whitespace between them, gives the source back: the source is
/// `gaps[0] + lit[0] + gaps[1] + ... + lit[n-1] + gaps[n]`, where the `lit`s
/// are the literals of the tokens before the final `Eof` and every gap is
/// whitespace.
pub proof fn lemma_tokens_rebuild_source(s: Seq<char>, i: int) -> (gaps: Seq<Seq<char>>)
    requires
        0 <= i <= s.len(),
        well_formed_from(s, i),
    ensures
        gaps.len() == literals_before_end(tokens_from(s, i)).len() + 1,
        forall|k: int| 0 <= k < gaps.len() ==> all_space(#[trigger] gaps[k]),
        s.subrange(i, s.len() as int) == interleave(gaps, literals_before_end(tokens_from(s, i))),
    decreases s.len() - i,
{
    lemma_lex_step_progress(s, i);
    lemma_skip_space_is_space(s, i);
    let (t, start, next) = lex_step(s, i);
    let ts = tokens_from(s, i);
    if (t is Eof && next >= s.len()) || next <= i || next > s.len() {
        assert(ts == seq![t]);
        assert(literals_before_end(ts) =~= Seq::<Seq<char>>::empty());
        assert(start == skip_space(s, i));
        assert(start == s.len());
        let gaps = seq![s.subrange(i, s.len() as int)];
        assert(s.subrange(i, s.len() as int) == interleave(gaps, literals_before_end(ts)));
        gaps
    } else {
        let rest = lemma_tokens_rebuild_source(s, next);
        let lits_rest = literals_before_end(tokens_from(s, next));
        assert(ts == seq![t] + tokens_from(s, next));
        assert(tokens_from(s, next).len() >= 1) by {
            reveal_with_fuel(tokens_from, 1);
        }
        assert(literals_before_end(ts) =~= seq![literal(t)] + lits_rest);
        if !(t is Int) {
            lemma_step_text(s, i);
        }
        let gap0 = s.subrange(i, start);
        let gaps = seq![gap0] + rest;
        assert(gaps.drop_first() =~= rest);
        assert((seq![literal(t)] + lits_rest).drop_first() =~= lits_rest);
        assert(s.subrange(i, s.len() as int) =~= gap0 + s.subrange(start, next) + s.subrange(
            next,
            s.len() as int,
        ));
        assert forall|k: int| 0 <= k < gaps.len() implies all_space(#[trigger] gaps[k]) by {
            if k > 0 {
                assert(gaps[k] == rest[k - 1]);
            }
        }
        gaps
    }
}

/// A lexer over a source text.
pub struct Lexer {
    input: Vec<char>,
    position: usize,
}

impl Lexer {
    /// The source text, as characters.
    pub closed spec fn source(&self) -> Seq<char> {
        self.input@
    }

    /// The position of the next character to read.
    pub closed spec fn pos(&self) -> int {
        self.position as int
    }

    /// A lexer at the start of `input`.
    pub fn new(input: &str) -> (r: Lexer)
        ensures
            r.source() == input@,
            r.pos() == 0,
    {
        let mut chars: Vec<char> = Vec::new();
        for c in it: input.chars()
            invariant
                chars@ == it.seq().take(it.index() as int),
        {
            chars.push(c);
        }
        proof {
            vstd::string::axiom_spec_iter(input);
            assert(chars@ =~= input@);
        }
        Lexer { input: chars, position: 0 }
    }

    /// The position of the next character to read.
    pub fn position(&self) -> (r: usize)
        ensures
            r == self.pos(),
    {
        self.position
    }

    /// The number of characters of the source.
    pub fn source_len(&self) -> (r: usize)
        ensures
            r == self.source().len(),
    {
        self.input.len()
    }

    fn char_at(&self, i: usize) -> (c: char)
        ensures
            c == char_at(self.source(), i as int),
    {
        if i < self.input.len() {
            self.input[i]
        } else {
            '\0'
        }
    }

    fn skip_whitespace(&mut self)
        requires
            old(self).pos() <= old(self).source().len(),
        ensures
            final(self).source() == old(self).source(),
            final(self).pos() == skip_space(old(self).source(), old(self).pos()),
            final(self).pos() <= final(self).source().len(),
    {
        while self.position < self.input.len() && is_space(self.input[self.position])
            invariant
                self.source() == old(self).source(),
                self.pos() <= self.source().len(),
                skip_space(self.source(), self.pos()) == skip_space(
                    old(self).source(),
                    old(self).pos(),
                ),
            decreases self.input.len() - self.position,
        {
            self.position = self.position + 1;
        }
    }

    fn read_identifier(&mut self) -> (r: String)
        requires
            old(self).pos() < old(self).source().len(),
        ensures
            final(self).source() == old(self).source(),
            final(self).pos() == word_end(old(self).source(), old(self).pos() + 1),
            final(self).pos() <= final(self).source().len(),
            r@ == old(self).source().subrange(old(self).pos(), final(self).pos()),
    {
        let start = self.position;
        assert(self.position < self.input.len());
        let mut out = String::new();
        push_char(&mut out, self.input[self.position]);
        self.position = self.position + 1;
        while self.position < self.input.len() && (is_letter_or_digit(self.input[self.position])
            || self.input[self.position] == '_')
            invariant
                self.source() == old(self).source(),
                start < self.pos() <= self.source().len(),
                start == old(self).pos(),
                word_end(self.source(), self.pos()) == word_end(
                    old(self).source(),
                    old(self).pos() + 1,
                ),
                out@ == self.source().subrange(start as int, self.pos()),
            decreases self.input.len() - self.position,
        {
            push_char(&mut out, self.input[self.position]);
            self.position = self.position + 1;
            assert(out@ =~= self.source().subrange(start as int, self.pos()));
        }
        out
    }

    fn read_number(&mut self) -> (r: i64)
        requires
            old(self).pos() < old(self).source().len(),
            is_digit(old(self).source()[old(self).pos()]),
        ensures
            final(self).source() == old(self).source(),
            final(self).pos() == digits_end(old(self).source(), old(self).pos() + 1),
            final(self).pos() <= final(self).source().len(),
            r == int_value(old(self).source().subrange(old(self).pos(), final(self).pos())),
    {
        let start = self.position;
        let mut value: u64 = 0;
        let mut overflow = false;
        while self.position < self.input.len() && '0' <= self.input[self.position]
            && self.input[self.position] <= '9'
            invariant
                self.source() == old(self).source(),
                start <= self.pos() <= self.source().len(),
                start == old(self).pos(),
                self.pos() == start ==> !overflow && value == 0,
                digits_end(self.source(), if self.pos() == start {
                    start + 1
                } else {
                    self.pos() as int
                }) == digits_end(old(self).source(), old(self).pos() + 1),
                forall|k: int| start <= k < self.pos() ==> is_digit(#[trigger] self.source()[k]),
                !overflow ==> value == digits_value(
                    self.source().subrange(start as int, self.pos()),
                ) && value <= i64::MAX,
                overflow ==> digits_value(self.source().subrange(start as int, self.pos()))
                    > i64::MAX,
            decreases self.input.len() - self.position,
        {
            let c = self.input[self.position];
            let d: u64 = ((c as u32) - ('0' as u32)) as u64;
            let ghost prev = self.source().subrange(start as int, self.pos());
            let ghost next = self.source().subrange(start as int, self.pos() + 1);
            proof {
                assert(next.drop_last() =~= prev);
                assert(digits_value(next) == digits_value(prev) * 10 + d);
            }
            if !overflow {
                if value <= (9223372036854775807u64 - d) / 10 {
                    value = value * 10 + d;
                } else {
                    overflow = true;
                }
            }
            self.position = self.position + 1;
        }
        if overflow {
            0
        } else {
            value as i64
        }
    }

    /// The next token; past the end of the input, `Eof` again and again.
    pub fn next_token(&mut self) -> (r: Token)
        requires
            old(self).pos() <= old(self).source().len(),
        ensures
            final(self).source() == old(self).source(),
            r@ == lex_step(old(self).source(), old(self).pos()).0,
            final(self).pos() == lex_step(old(self).source(), old(self).pos()).2,
            final(self).pos() <= final(self).source().len(),
    {
        self.skip_whitespace();
        let c = self.char_at(self.position);
        let next = if self.position < self.input.len() {
            self.char_at(self.position + 1)
        } else {
            '\0'
        };
        let (token, width): (Token, usize) = if c == '=' {
            if next == '=' {
                (Token::Eq, 2)
            } else {
                (Token::Assign, 1)
            }
        } else if c == '!' {
            if next == '=' {
                (Token::NotEq, 2)
            } else {
                (Token::Bang, 1)
            }
        } else if c == '+' {
            (Token::Plus, 1)
        } else if c == '-' {
            (Token::Minus, 1)
        } else if c == '*' {
            (Token::Asterisk, 1)
        } else if c == '<' {
            (Token::LessThan, 1)
        } else if c == '>' {
            (Token::GreaterThan, 1)
        } else if c == '/' {
            (Token::Slash, 1)
        } else if c == ',' {
            (Token::Comma, 1)
        } else if c == ';' {
            (Token::Semicolon, 1)
        } else if c == '(' {
            (Token::Lparen, 1)
        } else if c == ')' {
            (Token::Rparen, 1)
        } else if c == '{' {
            (Token::Lbrace, 1)
        } else if c == '}' {
            (Token::Rbrace, 1)
        } else if c == '\0' {
            (Token::Eof, if self.position < self.input.len() { 1 } else { 0 })
        } else if is_letter(c) || c == '_' {
            let word = self.read_identifier();
            return lookup_ident(word.as_str());
        } else if '0' <= c && c <= '9' {
            let value = self.read_number();
            return Token::Int(value);
        } else {
            (Token::Illegal, 1)
        };
        self.position = self.position + width;
        token
    }
}

} // verus!
