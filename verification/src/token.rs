//! Lexical analysis: classifying source text into tokens.
//!
//! The lexer is pull-based: `JsLexer::next` hands out one token at a time and
//! is proved to follow the spec-level tokenizer `spec_tokenize_from`, so the
//! whole token stream of a lexer is a function of the source text alone.

use vstd::prelude::*;

verus! {

/// One lexical unit of source text.
#[derive(Debug, Clone, PartialEq, Eq)]
pub enum Token {
    /// A reserved word, such as `var`.
    Keyword(String),
    /// A single-character punctuator, such as `+` or `;`.
    Punctuator(char),
    /// A name that is not a reserved word.
    Identifier(String),
    /// The text between two double quotes, without the quotes.
    StringLiteral(String),
    /// A run of decimal digits, read as an unsigned integer.
    Number(u64),
}

/// The mathematical value of a `Token`: text is a sequence of characters.
pub enum TokenModel {
    Keyword(Seq<char>),
    Punctuator(char),
    Identifier(Seq<char>),
    StringLiteral(Seq<char>),
    Number(u64),
}

impl Token {
    /// A copy with the same model; lookahead hands copies out while keeping
    /// the original buffered.
    pub fn duplicate(&self) -> (t: Token)
        ensures
            t@ == self@,
    {
        match self {
            Token::Keyword(s) => Token::Keyword(s.clone()),
            Token::Punctuator(c) => Token::Punctuator(*c),
            Token::Identifier(s) => Token::Identifier(s.clone()),
            Token::StringLiteral(s) => Token::StringLiteral(s.clone()),
            Token::Number(n) => Token::Number(*n),
        }
    }
}

impl View for Token {
    type V = TokenModel;

    open spec fn view(&self) -> TokenModel {
        match self {
            Token::Keyword(s) => TokenModel::Keyword(s@),
            Token::Punctuator(c) => TokenModel::Punctuator(*c),
            Token::Identifier(s) => TokenModel::Identifier(s@),
            Token::StringLiteral(s) => TokenModel::StringLiteral(s@),
            Token::Number(n) => TokenModel::Number(*n),
        }
    }
}

/// A letter opens an identifier-or-keyword run.
pub open spec fn is_letter(c: char) -> bool {
    ('a' <= c && c <= 'z') || ('A' <= c && c <= 'Z')
}

/// A digit opens a number run.
pub open spec fn is_digit(c: char) -> bool {
    '0' <= c && c <= '9'
}

/// Characters that may continue an identifier-or-keyword run.
pub open spec fn is_ident_char(c: char) -> bool {
    is_letter(c) || is_digit(c)
}

/// The fixed set of single-character punctuators.
pub open spec fn is_punctuator(c: char) -> bool {
    c == '+' || c == '-' || c == '=' || c == ';' || c == '(' || c == ')' || c == '{' || c == '}'
        || c == ',' || c == '.'
}

/// Characters that open a token; everything else (whitespace included) is
/// skipped, so lexing never fails.
pub open spec fn starts_token(c: char) -> bool {
    is_letter(c) || is_digit(c) || c == '"' || is_punctuator(c)
}

/// The text of the one reserved word.
pub open spec fn keyword_var() -> Seq<char> {
    seq!['v', 'a', 'r']
}

fn exec_is_letter(c: char) -> (r: bool)
    ensures
        r == is_letter(c),
{
    ('a' <= c && c <= 'z') || ('A' <= c && c <= 'Z')
}

fn exec_is_digit(c: char) -> (r: bool)
    ensures
        r == is_digit(c),
{
    '0' <= c && c <= '9'
}

fn exec_is_ident_char(c: char) -> (r: bool)
    ensures
        r == is_ident_char(c),
{
    exec_is_letter(c) || exec_is_digit(c)
}

fn exec_is_punctuator(c: char) -> (r: bool)
    ensures
        r == is_punctuator(c),
{
    c == '+' || c == '-' || c == '=' || c == ';' || c == '(' || c == ')' || c == '{' || c == '}'
        || c == ',' || c == '.'
}

/// First position at or after `i` whose character no longer continues an
/// identifier run.
pub open spec fn ident_end(s: Seq<char>, i: int) -> int
    decreases s.len() - i
    when 0 <= i <= s.len()
{
    if i >= s.len() {
        i
    } else if is_ident_char(s[i]) {
        ident_end(s, i + 1)
    } else {
        i
    }
}

/// First position at or after `i` whose character is not a digit.
pub open spec fn digits_end(s: Seq<char>, i: int) -> int
    decreases s.len() - i
    when 0 <= i <= s.len()
{
    if i >= s.len() {
        i
    } else if is_digit(s[i]) {
        digits_end(s, i + 1)
    } else {
        i
    }
}

/// First position at or after `i` holding a closing double quote, or the end
/// of the text if the string literal is unterminated.
pub open spec fn string_end(s: Seq<char>, i: int) -> int
    decreases s.len() - i
    when 0 <= i <= s.len()
{
    if i >= s.len() {
        i
    } else if s[i] == '"' {
        i
    } else {
        string_end(s, i + 1)
    }
}

pub proof fn lemma_ident_end_bounds(s: Seq<char>, i: int)
    requires
        0 <= i <= s.len(),
    ensures
        i <= ident_end(s, i) <= s.len(),
    decreases s.len() - i,
{
    if i < s.len() && is_ident_char(s[i]) {
        lemma_ident_end_bounds(s, i + 1);
    }
}

pub proof fn lemma_digits_end_bounds(s: Seq<char>, i: int)
    requires
        0 <= i <= s.len(),
    ensures
        i <= digits_end(s, i) <= s.len(),
    decreases s.len() - i,
{
    if i < s.len() && is_digit(s[i]) {
        lemma_digits_end_bounds(s, i + 1);
    }
}

pub proof fn lemma_string_end_bounds(s: Seq<char>, i: int)
    requires
        0 <= i <= s.len(),
    ensures
        i <= string_end(s, i) <= s.len(),
    decreases s.len() - i,
{
    if i < s.len() && s[i] != '"' {
        lemma_string_end_bounds(s, i + 1);
    }
}

/// The numeric value of one digit character.
pub open spec fn digit_of(c: char) -> u64
    recommends
        is_digit(c),
{
    ((c as u32) - ('0' as u32)) as u64
}

/// The value of the digit run `s[i..j)`, accumulated left to right with
/// wrapping 64-bit arithmetic: this is the declared overflow policy for
/// numeric literals too long for a `u64`.
pub open spec fn digits_value(s: Seq<char>, i: int, j: int) -> u64
    decreases j - i,
{
    if j <= i {
        0u64
    } else {
        vstd::wrapping::u64_specs::wrapping_add(
            vstd::wrapping::u64_specs::wrapping_mul(digits_value(s, i, j - 1), 10),
            digit_of(s[j - 1]),
        )
    }
}

/// The next token of `s` at or after position `i`, with the position just
/// past it; `None` at end of input. This is the specification the executable
/// lexer is proved against.
pub open spec fn next_token_at(s: Seq<char>, i: int) -> Option<(TokenModel, int)>
    decreases s.len() - i
    when 0 <= i <= s.len()
{
    if i >= s.len() {
        None
    } else if !starts_token(s[i]) {
        next_token_at(s, i + 1)
    } else if is_letter(s[i]) {
        let j = ident_end(s, i);
        let text = s.subrange(i, j);
        if text == keyword_var() {
            Some((TokenModel::Keyword(text), j))
        } else {
            Some((TokenModel::Identifier(text), j))
        }
    } else if is_digit(s[i]) {
        let j = digits_end(s, i);
        Some((TokenModel::Number(digits_value(s, i, j)), j))
    } else if s[i] == '"' {
        let j = string_end(s, i + 1);
        if j < s.len() {
            Some((TokenModel::StringLiteral(s.subrange(i + 1, j)), j + 1))
        } else {
            Some((TokenModel::StringLiteral(s.subrange(i + 1, j)), j))
        }
    } else {
        Some((TokenModel::Punctuator(s[i]), i + 1))
    }
}

pub proof fn lemma_next_token_at_bounds(s: Seq<char>, i: int)
    requires
        0 <= i <= s.len(),
    ensures
        match next_token_at(s, i) {
            None => true,
            Some(tj) => i < tj.1 <= s.len(),
        },
    decreases s.len() - i,
{
    if i < s.len() {
        if !starts_token(s[i]) {
            lemma_next_token_at_bounds(s, i + 1);
        } else if is_letter(s[i]) {
            lemma_ident_end_bounds(s, i + 1);
        } else if is_digit(s[i]) {
            lemma_digits_end_bounds(s, i + 1);
        } else if s[i] == '"' {
            lemma_string_end_bounds(s, i + 1);
        }
    }
}

/// All tokens of `s` from position `i` on.
pub open spec fn spec_tokenize_from(s: Seq<char>, i: int) -> Seq<TokenModel>
    decreases s.len() - i
    when 0 <= i <= s.len()
    via spec_tokenize_from_dec
{
    match next_token_at(s, i) {
        None => Seq::empty(),
        Some(tj) => seq![tj.0] + spec_tokenize_from(s, tj.1),
    }
}

#[via_fn]
proof fn spec_tokenize_from_dec(s: Seq<char>, i: int) {
    lemma_next_token_at_bounds(s, i);
}

/// The token sequence of a whole source text.
pub open spec fn spec_tokenize(s: Seq<char>) -> Seq<TokenModel> {
    spec_tokenize_from(s, 0)
}

/// The lexer: scans source text into tokens, one per call of `next`, skipping
/// whitespace and unrecognized characters. Once handed out, a token is gone;
/// re-lexing takes a fresh lexer over the same text.
pub struct JsLexer {
    src: String,
    pos: usize,
}

impl View for JsLexer {
    type V = Seq<TokenModel>;

    /// A lexer's value is the sequence of tokens it has still to produce.
    closed spec fn view(&self) -> Seq<TokenModel> {
        spec_tokenize_from(self.src@, self.pos as int)
    }
}

impl JsLexer {
    /// The scan position never passes the end of the source.
    pub closed spec fn wf(&self) -> bool {
        self.pos <= self.src@.len()
    }

    pub fn new(src: String) -> (r: JsLexer)
        ensures
            r.wf(),
            r@ == spec_tokenize(src@),
    {
        JsLexer { src, pos: 0 }
    }

    /// Produce the next token, or `None` at end of input.
    pub fn next(&mut self) -> (t: Option<Token>)
        requires
            old(self).wf(),
        ensures
            final(self).wf(),
            t is Some <==> old(self)@.len() > 0,
            old(self)@.len() == 0 ==> final(self)@ == old(self)@,
            old(self)@.len() > 0 ==> t.unwrap()@ == old(self)@[0] && final(self)@ == old(self)@.drop_first(),
    {
        let ghost s = self.src@;
        let ghost p0 = self.pos as int;
        let len = self.src.as_str().unicode_len();
        loop
            invariant
                self.src@ == s,
                self.pos <= s.len(),
                len == s.len(),
                next_token_at(s, self.pos as int) == next_token_at(s, p0),
                spec_tokenize_from(s, self.pos as int) == spec_tokenize_from(s, p0),
            ensures
                self.src@ == s,
                len == s.len(),
                self.pos <= s.len(),
                next_token_at(s, self.pos as int) == next_token_at(s, p0),
                spec_tokenize_from(s, self.pos as int) == spec_tokenize_from(s, p0),
                self.pos == s.len() || starts_token(s[self.pos as int]),
            decreases s.len() - self.pos,
        {
            if self.pos >= len {
                break ;
            }
            let c = self.src.as_str().get_char(self.pos);
            let is_start = exec_is_ident_char(c) || c == '"' || exec_is_punctuator(c);
            if is_start {
                break ;
            }
            proof {
                assert(next_token_at(s, self.pos as int) == next_token_at(s, self.pos + 1));
                assert(spec_tokenize_from(s, self.pos as int) == spec_tokenize_from(
                    s,
                    self.pos + 1,
                ));
            }
            self.pos = self.pos + 1;
        }
        if self.pos >= len {
            return None;
        }
        let c = self.src.as_str().get_char(self.pos);
        let token: Token;
        if exec_is_letter(c) {
            let start = self.pos;
            let mut end = self.pos;
            loop
                invariant
                    self.src@ == s,
                    len == s.len(),
                    start <= end <= s.len(),
                    ident_end(s, start as int) == ident_end(s, end as int),
                ensures
                    start <= end <= s.len(),
                    end == ident_end(s, start as int),
                decreases s.len() - end,
            {
                if end >= len {
                    break ;
                }
                let c2 = self.src.as_str().get_char(end);
                if !exec_is_ident_char(c2) {
                    break ;
                }
                end = end + 1;
            }
            let text = self.src.as_str().substring_char(start, end).to_owned();
            let is_var = end - start == 3 && self.src.as_str().get_char(start) == 'v'
                && self.src.as_str().get_char(start + 1) == 'a' && self.src.as_str().get_char(
                start + 2,
            ) == 'r';
            proof {
                if is_var {
                    assert(text@ =~= keyword_var());
                } else if text@ == keyword_var() {
                    assert(text@.len() == 3);
                    assert(s[start as int] == text@[0] && text@[0] == 'v');
                    assert(s[start + 1] == text@[1] && text@[1] == 'a');
                    assert(s[start + 2] == text@[2] && text@[2] == 'r');
                    assert(false);
                }
            }
            if is_var {
                token = Token::Keyword(text);
            } else {
                token = Token::Identifier(text);
            }
            self.pos = end;
        } else if exec_is_digit(c) {
            let start = self.pos;
            let mut end = self.pos;
            let mut val: u64 = 0;
            loop
                invariant
                    self.src@ == s,
                    len == s.len(),
                    start <= end <= s.len(),
                    digits_end(s, start as int) == digits_end(s, end as int),
                    val == digits_value(s, start as int, end as int),
                ensures
                    start <= end <= s.len(),
                    end == digits_end(s, start as int),
                    val == digits_value(s, start as int, end as int),
                decreases s.len() - end,
            {
                if end >= len {
                    break ;
                }
                let c2 = self.src.as_str().get_char(end);
                if !exec_is_digit(c2) {
                    break ;
                }
                let d: u64 = ((c2 as u32) - ('0' as u32)) as u64;
                val = val.wrapping_mul(10).wrapping_add(d);
                end = end + 1;
            }
            token = Token::Number(val);
            self.pos = end;
        } else if c == '"' {
            let start = self.pos;
            let mut end = self.pos + 1;
            loop
                invariant
                    self.src@ == s,
                    len == s.len(),
                    start + 1 <= end <= s.len(),
                    string_end(s, start + 1) == string_end(s, end as int),
                ensures
                    start + 1 <= end <= s.len(),
                    end == string_end(s, start + 1),
                decreases s.len() - end,
            {
                if end >= len {
                    break ;
                }
                let c2 = self.src.as_str().get_char(end);
                if c2 == '"' {
                    break ;
                }
                end = end + 1;
            }
            let text = self.src.as_str().substring_char(start + 1, end).to_owned();
            token = Token::StringLiteral(text);
            if end < len {
                self.pos = end + 1;
            } else {
                self.pos = end;
            }
        } else {
            token = Token::Punctuator(c);
            self.pos = self.pos + 1;
        }
        proof {
            assert(old(self)@ == seq![token@] + spec_tokenize_from(s, self.pos as int));
            assert(old(self)@.drop_first() =~= spec_tokenize_from(s, self.pos as int));
            lemma_next_token_at_bounds(s, p0);
        }
        Some(token)
    }
}

} // verus!
