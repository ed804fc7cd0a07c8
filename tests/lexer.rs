use monkey::lexer::{tokenize, Lexer};
use monkey::token::{Kind, Token};

#[test]
fn tokens() {
    let input: &'static str = r#"
            let five = 5;

            let ten = 10;
            
            let add = fn(a, b) {
                return a + b;
            };

            let result = add(five, ten);

            !-/*5;

            5 < 10 > 5;

            if (5 < 10) {
                return true;
            } else {
                return false;
            }

            5 == 5;
            5 != 10;
        "#;
    let want = vec![
        Token::new(Kind::Let, "let"),
        Token::new(Kind::Ident, "five"),
        Token::new(Kind::Assign, "="),
        Token::new(Kind::Int, "5"),
        Token::new(Kind::Semicolon, ";"),
        Token::new(Kind::Let, "let"),
        Token::new(Kind::Ident, "ten"),
        Token::new(Kind::Assign, "="),
        Token::new(Kind::Int, "10"),
        Token::new(Kind::Semicolon, ";"),
        Token::new(Kind::Let, "let"),
        Token::new(Kind::Ident, "add"),
        Token::new(Kind::Assign, "="),
        Token::new(Kind::Function, "fn"),
        Token::new(Kind::LeftParen, "("),
        Token::new(Kind::Ident, "a"),
        Token::new(Kind::Comma, ","),
        Token::new(Kind::Ident, "b"),
        Token::new(Kind::RightParen, ")"),
        Token::new(Kind::LeftBrace, "{"),
        Token::new(Kind::Return, "return"),
        Token::new(Kind::Ident, "a"),
        Token::new(Kind::Plus, "+"),
        Token::new(Kind::Ident, "b"),
        Token::new(Kind::Semicolon, ";"),
        Token::new(Kind::RightBrace, "}"),
        Token::new(Kind::Semicolon, ";"),
        Token::new(Kind::Let, "let"),
        Token::new(Kind::Ident, "result"),
        Token::new(Kind::Assign, "="),
        Token::new(Kind::Ident, "add"),
        Token::new(Kind::LeftParen, "("),
        Token::new(Kind::Ident, "five"),
        Token::new(Kind::Comma, ","),
        Token::new(Kind::Ident, "ten"),
        Token::new(Kind::RightParen, ")"),
        Token::new(Kind::Semicolon, ";"),
        Token::new(Kind::Bang, "!"),
        Token::new(Kind::Minus, "-"),
        Token::new(Kind::Slash, "/"),
        Token::new(Kind::Asterisk, "*"),
        Token::new(Kind::Int, "5"),
        Token::new(Kind::Semicolon, ";"),
        Token::new(Kind::Int, "5"),
        Token::new(Kind::ArrowLeft, "<"),
        Token::new(Kind::Int, "10"),
        Token::new(Kind::ArrowRight, ">"),
        Token::new(Kind::Int, "5"),
        Token::new(Kind::Semicolon, ";"),
        Token::new(Kind::If, "if"),
        Token::new(Kind::LeftParen, "("),
        Token::new(Kind::Int, "5"),
        Token::new(Kind::ArrowLeft, "<"),
        Token::new(Kind::Int, "10"),
        Token::new(Kind::RightParen, ")"),
        Token::new(Kind::LeftBrace, "{"),
        Token::new(Kind::Return, "return"),
        Token::new(Kind::Bool, "true"),
        Token::new(Kind::Semicolon, ";"),
        Token::new(Kind::RightBrace, "}"),
        Token::new(Kind::Else, "else"),
        Token::new(Kind::LeftBrace, "{"),
        Token::new(Kind::Return, "return"),
        Token::new(Kind::Bool, "false"),
        Token::new(Kind::Semicolon, ";"),
        Token::new(Kind::RightBrace, "}"),
        Token::new(Kind::Int, "5"),
        Token::new(Kind::Equal, "=="),
        Token::new(Kind::Int, "5"),
        Token::new(Kind::Semicolon, ";"),
        Token::new(Kind::Int, "5"),
        Token::new(Kind::NotEqual, "!="),
        Token::new(Kind::Int, "10"),
        Token::new(Kind::Semicolon, ";"),
    ];
    let got: Vec<Token> = Lexer::new(input).collect();
    if want.len() != got.len() {
        panic!("want={:?} \ngot={:?}", want, got);
    }
    for (ii, token) in want.into_iter().enumerate() {
        assert_eq!(token, got[ii]);
    }
}

#[test]
fn let_five_tokenizes_exactly() {
    let got = tokenize("let five = 5;");
    let want = vec![
        Token::new(Kind::Let, "let"),
        Token::new(Kind::Ident, "five"),
        Token::new(Kind::Assign, "="),
        Token::new(Kind::Int, "5"),
        Token::new(Kind::Semicolon, ";"),
    ];
    assert_eq!(got, want);
}

#[test]
fn empty_and_blank_input_give_no_tokens() {
    assert_eq!(tokenize(""), vec![]);
    assert_eq!(tokenize(" \t\r\n  "), vec![]);
}

#[test]
fn next_token_ends_with_none() {
    let mut lexer = Lexer::new("x");
    assert_eq!(lexer.next_token(), Some(Token::new(Kind::Ident, "x")));
    assert_eq!(lexer.next_token(), None);
    assert_eq!(lexer.next_token(), None);
}

#[test]
fn word_at_end_of_input_is_kept() {
    assert_eq!(tokenize("foo"), vec![Token::new(Kind::Ident, "foo")]);
    assert_eq!(tokenize("123"), vec![Token::new(Kind::Int, "123")]);
}

#[test]
fn illegal_characters_do_not_stop_tokenizing() {
    let got = tokenize("a @ \"b\"");
    let want = vec![
        Token::new(Kind::Ident, "a"),
        Token::new(Kind::Illegal, "@"),
        Token::new(Kind::Illegal, "\""),
        Token::new(Kind::Ident, "b"),
        Token::new(Kind::Illegal, "\""),
    ];
    assert_eq!(got, want);
    assert_eq!(tokenize("\0"), vec![Token::new(Kind::Illegal, "\0")]);
}

#[test]
fn two_character_operators_need_their_second_character() {
    let got = tokenize("= == ! != =");
    let want = vec![
        Token::new(Kind::Assign, "="),
        Token::new(Kind::Equal, "=="),
        Token::new(Kind::Bang, "!"),
        Token::new(Kind::NotEqual, "!="),
        Token::new(Kind::Assign, "="),
    ];
    assert_eq!(got, want);
    assert_eq!(tokenize("!"), vec![Token::new(Kind::Bang, "!")]);
}

#[test]
fn words_and_numbers_split_where_the_class_changes() {
    let got = tokenize("five5 12ab");
    let want = vec![
        Token::new(Kind::Ident, "five"),
        Token::new(Kind::Int, "5"),
        Token::new(Kind::Int, "12"),
        Token::new(Kind::Ident, "ab"),
    ];
    assert_eq!(got, want);
}

#[test]
fn keywords_are_recognised_only_whole() {
    let got = tokenize("fn fns let lets true truth false if else return");
    let kinds: Vec<Kind> = got.iter().map(|t| t.kind).collect();
    assert_eq!(
        kinds,
        vec![
            Kind::Function,
            Kind::Ident,
            Kind::Let,
            Kind::Ident,
            Kind::Bool,
            Kind::Ident,
            Kind::Bool,
            Kind::If,
            Kind::Else,
            Kind::Return,
        ]
    );
}

#[test]
fn unicode_letters_digits_and_spaces() {
    let got = tokenize("über\u{3000}٣४");
    let want = vec![Token::new(Kind::Ident, "über"), Token::new(Kind::Int, "٣४")];
    assert_eq!(got, want);
}

#[test]
fn every_unicode_space_separates_tokens() {
    let spaces = [
        '\t', '\n', '\u{b}', '\u{c}', '\r', ' ', '\u{85}', '\u{a0}', '\u{1680}', '\u{2000}', '\u{2005}',
        '\u{200a}', '\u{2028}', '\u{2029}', '\u{202f}', '\u{205f}', '\u{3000}',
    ];
    for space in spaces {
        let input = format!("a{}b", space);
        assert_eq!(
            tokenize(&input),
            vec![Token::new(Kind::Ident, "a"), Token::new(Kind::Ident, "b")],
            "{:?}",
            space
        );
    }
    assert_eq!(tokenize("\u{200b}"), vec![Token::new(Kind::Illegal, "\u{200b}")]);
}
