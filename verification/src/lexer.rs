//! Tokens, and the stream that hands them to the parser.

use vstd::prelude::*;
use vstd::string::{StringExecFns, StrSliceExecFns};
use crate::number::is_digit;

verus! {

/// The smallest lexical unit of a program.
#[derive(Debug)]
pub enum Token {
    /// A numeric literal, as written.
    Num(String),
    /// An identifier.
    Str(String),
    LParen,
    RParen,
    Comma,
    LBrace,
    RBrace,
    Eq,
    Plus,
    Minus,
    Slash,
    Star,
    SemiC,
    Let,
    Fn,
    Return,
    /// End of input.
    EOF,
    /// No token: what a lookahead window holds before it is filled, and what
    /// a character that starts no token becomes.
    Empty,
}

/// What a `Token` is, with its text as a sequence of characters.
pub enum TokenView {
    Num(Seq<char>),
    Str(Seq<char>),
    LParen,
    RParen,
    Comma,
    LBrace,
    RBrace,
    Eq,
    Plus,
    Minus,
    Slash,
    Star,
    SemiC,
    Let,
    Fn,
    Return,
    EOF,
    Empty,
}

impl View for Token {
    type V = TokenView;

    open spec fn view(&self) -> TokenView {
        match self {
            Token::Num(text) => TokenView::Num(text@),
            Token::Str(text) => TokenView::Str(text@),
            Token::LParen => TokenView::LParen,
            Token::RParen => TokenView::RParen,
            Token::Comma => TokenView::Comma,
            Token::LBrace => TokenView::LBrace,
            Token::RBrace => TokenView::RBrace,
            Token::Eq => TokenView::Eq,
            Token::Plus => TokenView::Plus,
            Token::Minus => TokenView::Minus,
            Token::Slash => TokenView::Slash,
            Token::Star => TokenView::Star,
            Token::SemiC => TokenView::SemiC,
            Token::Let => TokenView::Let,
            Token::Fn => TokenView::Fn,
            Token::Return => TokenView::Return,
            Token::EOF => TokenView::EOF,
            Token::Empty => TokenView::Empty,
        }
    }
}

impl Clone for Token {
    fn clone(&self) -> (r: Token)
        ensures
            r@ == self@,
    {
        match self {
            Token::Num(text) => Token::Num(text.clone()),
            Token::Str(text) => Token::Str(text.clone()),
            Token::LParen => Token::LParen,
            Token::RParen => Token::RParen,
            Token::Comma => Token::Comma,
            Token::LBrace => Token::LBrace,
            Token::RBrace => Token::RBrace,
            Token::Eq => Token::Eq,
            Token::Plus => Token::Plus,
            Token::Minus => Token::Minus,
            Token::Slash => Token::Slash,
            Token::Star => Token::Star,
            Token::SemiC => Token::SemiC,
            Token::Let => Token::Let,
            Token::Fn => Token::Fn,
            Token::Return => Token::Return,
            Token::EOF => Token::EOF,
            Token::Empty => Token::Empty,
        }
    }
}

impl PartialEq for Token {
    fn eq(&self, other: &Token) -> (r: bool) {
        match (self, other) {
            (Token::Num(a), Token::Num(b)) => *a == *b,
            (Token::Str(a), Token::Str(b)) => *a == *b,
            (Token::LParen, Token::LParen) => true,
            (Token::RParen, Token::RParen) => true,
            (Token::Comma, Token::Comma) => true,
            (Token::LBrace, Token::LBrace) => true,
            (Token::RBrace, Token::RBrace) => true,
            (Token::Eq, Token::Eq) => true,
            (Token::Plus, Token::Plus) => true,
            (Token::Minus, Token::Minus) => true,
            (Token::Slash, Token::Slash) => true,
            (Token::Star, Token::Star) => true,
            (Token::SemiC, Token::SemiC) => true,
            (Token::Let, Token::Let) => true,
            (Token::Fn, Token::Fn) => true,
            (Token::Return, Token::Return) => true,
            (Token::EOF, Token::EOF) => true,
            (Token::Empty, Token::Empty) => true,
            _ => false,
        }
    }
}

impl vstd::std_specs::cmp::PartialEqSpecImpl for Token {
    open spec fn obeys_eq_spec() -> bool {
        true
    }

    open spec fn eq_spec(&self, other: &Token) -> bool {
        self@ == other@
    }
}

/// How a token reads in a message.
pub open spec fn token_text(t: TokenView) -> Seq<char> {
    match t {
        TokenView::Num(text) => text,
        TokenView::Str(text) => text,
        TokenView::LParen => "("@,
        TokenView::RParen => ")"@,
        TokenView::Comma => ","@,
        TokenView::LBrace => "{"@,
        TokenView::RBrace => "}"@,
        TokenView::Eq => "="@,
        TokenView::Plus => "+"@,
        TokenView::Minus => "-"@,
        TokenView::Slash => "/"@,
        TokenView::Star => "*"@,
        TokenView::SemiC => ";"@,
        TokenView::Let => "let"@,
        TokenView::Fn => "fn"@,
        TokenView::Return => "return"@,
        TokenView::EOF => "end of input"@,
        TokenView::Empty => "nothing"@,
    }
}

impl Token {
    /// How the token reads in a message.
    pub fn text(&self) -> (r: String)
        ensures
            r@ == token_text(self@),
    {
        match self {
            Token::Num(text) => text.clone(),
            Token::Str(text) => text.clone(),
            Token::LParen => String::from_str("("),
            Token::RParen => String::from_str(")"),
            Token::Comma => String::from_str(","),
            Token::LBrace => String::from_str("{"),
            Token::RBrace => String::from_str("}"),
            Token::Eq => String::from_str("="),
            Token::Plus => String::from_str("+"),
            Token::Minus => String::from_str("-"),
            Token::Slash => String::from_str("/"),
            Token::Star => String::from_str("*"),
            Token::SemiC => String::from_str(";"),
            Token::Let => String::from_str("let"),
            Token::Fn => String::from_str("fn"),
            Token::Return => String::from_str("return"),
            Token::EOF => String::from_str("end of input"),
            Token::Empty => String::from_str("nothing"),
        }
    }
}

/// The views of a sequence of tokens, in order.
pub open spec fn tokens_view(tokens: Seq<Token>) -> Seq<TokenView> {
    Seq::new(tokens.len(), |i: int| tokens[i]@)
}

/// No token of `tokens` is `EOF`.
pub open spec fn no_eof(tokens: Seq<TokenView>) -> bool {
    forall|i: int| 0 <= i < tokens.len() ==> #[trigger] tokens[i] != TokenView::EOF
}

/// `stream` is `tokens` up to its first `EOF`, or all of it if it has none.
pub open spec fn ends_at_eof(stream: Seq<TokenView>, tokens: Seq<TokenView>) -> bool {
    &&& stream.len() <= tokens.len()
    &&& stream == tokens.take(stream.len() as int)
    &&& no_eof(stream)
    &&& stream.len() == tokens.len() || tokens[stream.len() as int] == TokenView::EOF
}

/// A blank, a tab, a line feed or a carriage return.
pub open spec fn is_space(c: char) -> bool {
    c == ' ' || c == '\t' || c == '\n' || c == '\r'
}

/// A character of a number token: a digit or a dot.
pub open spec fn is_number_char(c: char) -> bool {
    is_digit(c) || c == '.'
}

/// A character that starts a word: a letter or an underscore.
pub open spec fn is_word_start(c: char) -> bool {
    'a' <= c <= 'z' || 'A' <= c <= 'Z' || c == '_'
}

/// A character of a word: a letter, an underscore or a digit.
pub open spec fn is_word_char(c: char) -> bool {
    is_word_start(c) || is_digit(c)
}

/// How many characters at the start of `s` are number characters.
pub open spec fn number_run(s: Seq<char>) -> nat
    decreases s.len(),
{
    if s.len() > 0 && is_number_char(s[0]) {
        1 + number_run(s.skip(1))
    } else {
        0
    }
}

/// How many characters at the start of `s` are word characters.
pub open spec fn word_run(s: Seq<char>) -> nat
    decreases s.len(),
{
    if s.len() > 0 && is_word_char(s[0]) {
        1 + word_run(s.skip(1))
    } else {
        0
    }
}

/// The token that a word is: a keyword, or else an identifier.
pub open spec fn word_token(text: Seq<char>) -> TokenView {
    if text == seq!['l', 'e', 't'] {
        TokenView::Let
    } else if text == seq!['f', 'n'] {
        TokenView::Fn
    } else if text == seq!['r', 'e', 't', 'u', 'r', 'n'] {
        TokenView::Return
    } else {
        TokenView::Str(text)
    }
}

/// The token that a character by itself is. A character that no token
/// starts with gives `Empty`.
pub open spec fn mark_token(c: char) -> TokenView {
    if c == '(' {
        TokenView::LParen
    } else if c == ')' {
        TokenView::RParen
    } else if c == ',' {
        TokenView::Comma
    } else if c == '{' {
        TokenView::LBrace
    } else if c == '}' {
        TokenView::RBrace
    } else if c == '=' {
        TokenView::Eq
    } else if c == '+' {
        TokenView::Plus
    } else if c == '-' {
        TokenView::Minus
    } else if c == '/' {
        TokenView::Slash
    } else if c == '*' {
        TokenView::Star
    } else if c == ';' {
        TokenView::SemiC
    } else {
        TokenView::Empty
    }
}

/// The tokens of a text.
///
/// Blanks separate tokens and are dropped. A digit starts a number, which
/// runs as far as digits and dots go. A letter or an underscore starts a
/// word, which runs as far as letters, underscores and digits go. Any
/// other character is a token by itself.
pub open spec fn lex(s: Seq<char>) -> Seq<TokenView>
    decreases s.len(),
    via lex_decreases
{
    if s.len() == 0 {
        Seq::empty()
    } else if is_space(s[0]) {
        lex(s.skip(1))
    } else if is_digit(s[0]) {
        seq![TokenView::Num(s.take(number_run(s) as int))] + lex(s.skip(number_run(s) as int))
    } else if is_word_start(s[0]) {
        seq![word_token(s.take(word_run(s) as int))] + lex(s.skip(word_run(s) as int))
    } else {
        seq![mark_token(s[0])] + lex(s.skip(1))
    }
}

#[via_fn]
proof fn lex_decreases(s: Seq<char>) {
    lemma_number_run_bound(s);
    lemma_word_run_bound(s);
}

/// A run is no longer than the text.
pub proof fn lemma_number_run_bound(s: Seq<char>)
    ensures
        number_run(s) <= s.len(),
    decreases s.len(),
{
    if s.len() > 0 && is_number_char(s[0]) {
        lemma_number_run_bound(s.skip(1));
    }
}

/// A run is no longer than the text.
pub proof fn lemma_word_run_bound(s: Seq<char>)
    ensures
        word_run(s) <= s.len(),
    decreases s.len(),
{
    if s.len() > 0 && is_word_char(s[0]) {
        lemma_word_run_bound(s.skip(1));
    }
}

/// `n` number characters with none after them are the run.
proof fn lemma_number_run(s: Seq<char>, n: int)
    requires
        0 <= n <= s.len(),
        forall|k: int| 0 <= k < n ==> is_number_char(#[trigger] s[k]),
        n == s.len() || !is_number_char(s[n]),
    ensures
        number_run(s) == n,
    decreases n,
{
    if n > 0 {
        let t = s.skip(1);
        assert forall|k: int| 0 <= k < n - 1 implies is_number_char(#[trigger] t[k]) by {
            assert(t[k] == s[k + 1]);
        }
        lemma_number_run(t, n - 1);
    }
}

/// `n` word characters with none after them are the run.
proof fn lemma_word_run(s: Seq<char>, n: int)
    requires
        0 <= n <= s.len(),
        forall|k: int| 0 <= k < n ==> is_word_char(#[trigger] s[k]),
        n == s.len() || !is_word_char(s[n]),
    ensures
        word_run(s) == n,
    decreases n,
{
    if n > 0 {
        let t = s.skip(1);
        assert forall|k: int| 0 <= k < n - 1 implies is_word_char(#[trigger] t[k]) by {
            assert(t[k] == s[k + 1]);
        }
        lemma_word_run(t, n - 1);
    }
}

/// No token of a text is `EOF`.
pub proof fn lemma_lex_no_eof(s: Seq<char>)
    ensures
        no_eof(lex(s)),
    decreases s.len(),
{
    lemma_number_run_bound(s);
    lemma_word_run_bound(s);
    if s.len() == 0 {
    } else if is_space(s[0]) {
        lemma_lex_no_eof(s.skip(1));
    } else if is_digit(s[0]) {
        lemma_lex_no_eof(s.skip(number_run(s) as int));
    } else if is_word_start(s[0]) {
        lemma_lex_no_eof(s.skip(word_run(s) as int));
    } else {
        lemma_lex_no_eof(s.skip(1));
    }
}

/// The characters of `input`.
fn chars_of(input: &str) -> (chars: Vec<char>)
    ensures
        chars@ == input@,
{
    let mut chars: Vec<char> = Vec::new();
    for c in it: input.chars()
        invariant
            chars@ == it.seq().take(it.index() as int),
    {
        chars.push(c);
    }
    chars
}

/// Where the number characters that start at `from` end.
fn number_end(chars: &Vec<char>, from: usize) -> (end: usize)
    requires
        from <= chars.len(),
    ensures
        from <= end <= chars.len(),
        forall|k: int| from <= k < end ==> is_number_char(#[trigger] chars@[k]),
        end == chars.len() || !is_number_char(chars@[end as int]),
{
    let mut i: usize = from;
    while i < chars.len()
        invariant
            from <= i <= chars.len(),
            forall|k: int| from <= k < i ==> is_number_char(#[trigger] chars@[k]),
        decreases chars.len() - i,
    {
        let c = chars[i];
        if !(('0' <= c && c <= '9') || c == '.') {
            return i;
        }
        i += 1;
    }
    i
}

/// Where the word characters that start at `from` end.
fn word_end(chars: &Vec<char>, from: usize) -> (end: usize)
    requires
        from <= chars.len(),
    ensures
        from <= end <= chars.len(),
        forall|k: int| from <= k < end ==> is_word_char(#[trigger] chars@[k]),
        end == chars.len() || !is_word_char(chars@[end as int]),
{
    let mut i: usize = from;
    while i < chars.len()
        invariant
            from <= i <= chars.len(),
            forall|k: int| from <= k < i ==> is_word_char(#[trigger] chars@[k]),
        decreases chars.len() - i,
    {
        let c = chars[i];
        if !(('a' <= c && c <= 'z') || ('A' <= c && c <= 'Z') || c == '_' || ('0' <= c && c
            <= '9')) {
            return i;
        }
        i += 1;
    }
    i
}

/// The characters of `input` from `from` up to `to`.
fn text_between(input: &str, ascii: bool, from: usize, to: usize) -> (text: String)
    requires
        ascii == input.is_ascii(),
        from <= to <= input@.len(),
    ensures
        text@ == input@.subrange(from as int, to as int),
{
    if ascii {
        input.substring_ascii(from, to).to_owned()
    } else {
        input.substring_char(from, to).to_owned()
    }
}

/// The token that the word `text` is.
fn word(text: String) -> (token: Token)
    ensures
        token@ == word_token(text@),
{
    proof {
        reveal_strlit("let");
        reveal_strlit("fn");
        reveal_strlit("return");
        assert("let"@ =~= seq!['l', 'e', 't']);
        assert("fn"@ =~= seq!['f', 'n']);
        assert("return"@ =~= seq!['r', 'e', 't', 'u', 'r', 'n']);
    }
    if text == String::from_str("let") {
        Token::Let
    } else if text == String::from_str("fn") {
        Token::Fn
    } else if text == String::from_str("return") {
        Token::Return
    } else {
        Token::Str(text)
    }
}

/// The token that the character `c` is by itself.
fn mark(c: char) -> (token: Token)
    ensures
        token@ == mark_token(c),
{
    if c == '(' {
        Token::LParen
    } else if c == ')' {
        Token::RParen
    } else if c == ',' {
        Token::Comma
    } else if c == '{' {
        Token::LBrace
    } else if c == '}' {
        Token::RBrace
    } else if c == '=' {
        Token::Eq
    } else if c == '+' {
        Token::Plus
    } else if c == '-' {
        Token::Minus
    } else if c == '/' {
        Token::Slash
    } else if c == '*' {
        Token::Star
    } else if c == ';' {
        Token::SemiC
    } else {
        Token::Empty
    }
}

/// The tokens of `input`.
pub fn tokenize(input: &str) -> (tokens: Vec<Token>)
    ensures
        tokens_view(tokens@) == lex(input@),
{
    let chars = chars_of(input);
    let ascii = input.is_ascii();
    let ghost s = input@;
    let mut tokens: Vec<Token> = Vec::new();
    let mut i: usize = 0;
    proof {
        assert(s.skip(0) =~= s);
        assert(tokens_view(tokens@) + lex(s) =~= lex(s));
    }
    while i < chars.len()
        invariant
            i <= chars.len(),
            chars@ == s,
            s == input@,
            ascii == input.is_ascii(),
            lex(s) == tokens_view(tokens@) + lex(s.skip(i as int)),
        decreases chars.len() - i,
    {
        let ghost rest = s.skip(i as int);
        let ghost done = tokens_view(tokens@);
        let c = chars[i];
        assert(rest[0] == c);
        if c == ' ' || c == '\t' || c == '\n' || c == '\r' {
            assert(rest.skip(1) =~= s.skip(i + 1));
            i += 1;
        } else if '0' <= c && c <= '9' {
            let end = number_end(&chars, i + 1);
            let token = Token::Num(text_between(input, ascii, i, end));
            proof {
                assert forall|k: int| 0 <= k < end - i implies is_number_char(#[trigger] rest[k]) by {
                    assert(rest[k] == s[i + k]);
                }
                lemma_number_run(rest, end - i);
                assert(rest.take(end - i) =~= s.subrange(i as int, end as int));
                assert(rest.skip(end - i) =~= s.skip(end as int));
            }
            tokens.push(token);
            proof {
                assert(tokens_view(tokens@) =~= done.push(token@));
                assert(done + (seq![token@] + lex(s.skip(end as int))) =~= tokens_view(tokens@)
                    + lex(s.skip(end as int)));
            }
            i = end;
        } else if ('a' <= c && c <= 'z') || ('A' <= c && c <= 'Z') || c == '_' {
            let end = word_end(&chars, i + 1);
            let token = word(text_between(input, ascii, i, end));
            proof {
                assert forall|k: int| 0 <= k < end - i implies is_word_char(#[trigger] rest[k]) by {
                    assert(rest[k] == s[i + k]);
                }
                lemma_word_run(rest, end - i);
                assert(rest.take(end - i) =~= s.subrange(i as int, end as int));
                assert(rest.skip(end - i) =~= s.skip(end as int));
            }
            tokens.push(token);
            proof {
                assert(tokens_view(tokens@) =~= done.push(token@));
                assert(done + (seq![token@] + lex(s.skip(end as int))) =~= tokens_view(tokens@)
                    + lex(s.skip(end as int)));
            }
            i = end;
        } else {
            let token = mark(c);
            tokens.push(token);
            proof {
                assert(rest.skip(1) =~= s.skip(i + 1));
                assert(tokens_view(tokens@) =~= done.push(token@));
                assert(done + (seq![token@] + lex(s.skip(i + 1))) =~= tokens_view(tokens@) + lex(
                    s.skip(i + 1),
                ));
            }
            i += 1;
        }
    }
    proof {
        assert(tokens_view(tokens@) + Seq::<TokenView>::empty() =~= tokens_view(tokens@));
    }
    tokens
}

/// Where the first `EOF` of `tokens` is, or their number if they hold none.
fn first_eof(tokens: &Vec<Token>) -> (end: usize)
    ensures
        end <= tokens.len(),
        forall|j: int| 0 <= j < end ==> #[trigger] tokens@[j]@ != TokenView::EOF,
        end == tokens.len() || tokens@[end as int]@ == TokenView::EOF,
{
    let mut i: usize = 0;
    while i < tokens.len()
        invariant
            i <= tokens.len(),
            forall|j: int| 0 <= j < i ==> #[trigger] tokens@[j]@ != TokenView::EOF,
        decreases tokens.len() - i,
    {
        if tokens[i] == Token::EOF {
            return i;
        }
        i += 1;
    }
    i
}

/// A stream of tokens. It hands out its tokens one by one and then `EOF`,
/// as often as it is asked.
pub struct Tokenizer {
    tokens: Vec<Token>,
    pos: usize,
}

impl View for Tokenizer {
    type V = Seq<TokenView>;

    /// The tokens that have not been handed out.
    closed spec fn view(&self) -> Seq<TokenView> {
        tokens_view(self.tokens@).skip(self.pos as int)
    }
}

impl Tokenizer {
    /// The stream holds no `EOF`: it ends where its tokens end.
    pub closed spec fn wf(&self) -> bool {
        &&& self.pos <= self.tokens.len()
        &&& no_eof(tokens_view(self.tokens@))
    }

    /// No token that is left is `EOF`.
    pub proof fn lemma_no_eof(&self)
        requires
            self.wf(),
        ensures
            no_eof(self@),
    {
        assert forall|i: int| 0 <= i < self@.len() implies #[trigger] self@[i] != TokenView::EOF by {
            assert(self@[i] == tokens_view(self.tokens@)[self.pos + i]);
        }
    }

    /// The stream of the tokens of `input`.
    pub fn new(input: &str) -> (r: Tokenizer)
        ensures
            r.wf(),
            r@ == lex(input@),
    {
        let tokens = tokenize(input);
        let r = Tokenizer { tokens, pos: 0 };
        proof {
            lemma_lex_no_eof(input@);
            assert(r@ =~= lex(input@));
        }
        r
    }

    /// The stream of `tokens`, which ends at the first `EOF` among them.
    pub fn from_tokens(tokens: Vec<Token>) -> (r: Tokenizer)
        ensures
            r.wf(),
            ends_at_eof(r@, tokens_view(tokens@)),
    {
        let mut tokens = tokens;
        let ghost given = tokens_view(tokens@);
        let end = first_eof(&tokens);
        tokens.truncate(end);
        let r = Tokenizer { tokens, pos: 0 };
        proof {
            assert(tokens_view(r.tokens@) =~= given.take(end as int));
            assert(r@ =~= given.take(end as int));
        }
        r
    }

    /// The next token, or `EOF` when none is left.
    pub fn next(&mut self) -> (token: Token)
        requires
            old(self).wf(),
        ensures
            final(self).wf(),
            old(self)@.len() > 0 ==> token@ == old(self)@[0] && final(self)@ == old(self)@.skip(1),
            old(self)@.len() == 0 ==> token@ == TokenView::EOF && final(self)@ == old(self)@,
    {
        if self.pos < self.tokens.len() {
            let token = self.tokens[self.pos].clone();
            self.pos = self.pos + 1;
            proof {
                assert(final(self)@ =~= old(self)@.skip(1));
            }
            token
        } else {
            Token::EOF
        }
    }
}

} // verus!
