use q9::lexer::{tokenize, Token, Tokenizer};

fn word(text: &str) -> Token {
    Token::Str(text.to_string())
}

fn number(text: &str) -> Token {
    Token::Num(text.to_string())
}

#[test]
fn tokens_of_a_definition() {
    assert_eq!(tokenize("let x = 2"), vec![Token::Let, word("x"), Token::Eq, number("2")]);
}

#[test]
fn tokens_of_a_function() {
    assert_eq!(
        tokenize("fn add(a, b) { return a }"),
        vec![
            Token::Fn,
            word("add"),
            Token::LParen,
            word("a"),
            Token::Comma,
            word("b"),
            Token::RParen,
            Token::LBrace,
            Token::Return,
            word("a"),
            Token::RBrace,
        ]
    );
}

#[test]
fn every_mark_is_a_token() {
    assert_eq!(
        tokenize("(),{}=+-/*;"),
        vec![
            Token::LParen,
            Token::RParen,
            Token::Comma,
            Token::LBrace,
            Token::RBrace,
            Token::Eq,
            Token::Plus,
            Token::Minus,
            Token::Slash,
            Token::Star,
            Token::SemiC,
        ]
    );
}

#[test]
fn blanks_separate_and_vanish() {
    assert_eq!(tokenize(""), Vec::new());
    assert_eq!(tokenize(" \t\r\n"), Vec::new());
    assert_eq!(tokenize("a\tb\nc\rd  e"), vec![word("a"), word("b"), word("c"), word("d"), word("e")]);
}

#[test]
fn keywords_are_whole_words() {
    assert_eq!(tokenize("let fn return"), vec![Token::Let, Token::Fn, Token::Return]);
    assert_eq!(
        tokenize("lets fn1 returned Let _fn"),
        vec![word("lets"), word("fn1"), word("returned"), word("Let"), word("_fn")]
    );
}

#[test]
fn words_hold_letters_digits_and_underscores() {
    assert_eq!(tokenize("a_b2 _ __x9"), vec![word("a_b2"), word("_"), word("__x9")]);
    assert_eq!(tokenize("ab(cd"), vec![word("ab"), Token::LParen, word("cd")]);
}

#[test]
fn numbers_run_over_digits_and_dots() {
    assert_eq!(tokenize("12 3.5 1.2.3 7."), vec![number("12"), number("3.5"), number("1.2.3"), number("7.")]);
    assert_eq!(tokenize("12abc"), vec![number("12"), word("abc")]);
    assert_eq!(tokenize("1e3"), vec![number("1"), word("e3")]);
    assert_eq!(tokenize("-5"), vec![Token::Minus, number("5")]);
    assert_eq!(tokenize(".5"), vec![Token::Empty, number("5")]);
}

#[test]
fn other_characters_give_the_empty_token() {
    assert_eq!(tokenize("?"), vec![Token::Empty]);
    assert_eq!(tokenize("a $ b"), vec![word("a"), Token::Empty, word("b")]);
    assert_eq!(tokenize("."), vec![Token::Empty]);
}

#[test]
fn text_beyond_ascii_is_read_by_characters() {
    assert_eq!(
        tokenize("let é = 1 ü x"),
        vec![Token::Let, Token::Empty, Token::Eq, number("1"), Token::Empty, word("x")]
    );
    assert_eq!(tokenize("日本 abc"), vec![Token::Empty, Token::Empty, word("abc")]);
}

#[test]
fn stream_hands_out_tokens_then_end_of_input() {
    let mut stream = Tokenizer::new("x = 1");
    assert_eq!(stream.next(), word("x"));
    assert_eq!(stream.next(), Token::Eq);
    assert_eq!(stream.next(), number("1"));
    assert_eq!(stream.next(), Token::EOF);
    assert_eq!(stream.next(), Token::EOF);
    assert_eq!(stream.next(), Token::EOF);
}

#[test]
fn empty_stream_is_at_end_of_input() {
    let mut stream = Tokenizer::new("");
    assert_eq!(stream.next(), Token::EOF);
    let mut given = Tokenizer::from_tokens(Vec::new());
    assert_eq!(given.next(), Token::EOF);
}

#[test]
fn given_tokens_end_at_the_first_end_of_input() {
    let mut stream = Tokenizer::from_tokens(vec![word("a"), Token::EOF, word("b"), Token::EOF]);
    assert_eq!(stream.next(), word("a"));
    assert_eq!(stream.next(), Token::EOF);
    assert_eq!(stream.next(), Token::EOF);
    let mut whole = Tokenizer::from_tokens(vec![word("a"), Token::Empty, word("b")]);
    assert_eq!(whole.next(), word("a"));
    assert_eq!(whole.next(), Token::Empty);
    assert_eq!(whole.next(), word("b"));
    assert_eq!(whole.next(), Token::EOF);
}

#[test]
fn tokens_read_as_text() {
    let texts = [
        (number("1.5"), "1.5"),
        (word("abc"), "abc"),
        (Token::LParen, "("),
        (Token::RParen, ")"),
        (Token::Comma, ","),
        (Token::LBrace, "{"),
        (Token::RBrace, "}"),
        (Token::Eq, "="),
        (Token::Plus, "+"),
        (Token::Minus, "-"),
        (Token::Slash, "/"),
        (Token::Star, "*"),
        (Token::SemiC, ";"),
        (Token::Let, "let"),
        (Token::Fn, "fn"),
        (Token::Return, "return"),
        (Token::EOF, "end of input"),
        (Token::Empty, "nothing"),
    ];
    for (token, text) in texts {
        assert_eq!(token.text(), text);
    }
}

#[test]
fn tokens_compare_by_kind_and_text() {
    assert_eq!(word("a"), word("a"));
    assert_ne!(word("a"), word("b"));
    assert_ne!(word("1"), number("1"));
    assert_ne!(Token::LParen, Token::RParen);
    assert_eq!(word("a").clone(), word("a"));
    assert_eq!(Token::EOF.clone(), Token::EOF);
}
