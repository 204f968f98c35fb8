use dragonbook::lexer::Lexer;
use dragonbook::token::{Tag, Token};

fn scan_all(lexer: &mut Lexer) -> Vec<Token> {
    let mut out = Vec::new();
    loop {
        match lexer.scan().unwrap() {
            Some(t) => out.push(t),
            None => return out,
        }
    }
}

#[test]
fn lexer_simple_test() {
    let program = "\
{
    abcde efghj klmno pqrst uvwxy z;
    123 456 789 012;
    1.23456789 0.00123456;
    < > <= >= != == true false;
    10>=20 30<=40 1<2 3>0 abc!=def;
}
        "
        .to_string();

    let mut lexer = Lexer::new(program);
    loop {
        if let Some(token) = lexer.scan().unwrap() {
            match token {
                Token::NumI32 { num } => println!("Num(i32): {}", num),
                Token::NumF32 { text } => println!("Num(f32): {}", text),
                Token::Word { tag: _, lexeme } => println!("Word: {}", lexeme),
            }
        } else {
            break;
        }
    }
}

#[test]
fn scan_single_identifier() {
    // Whitespace around a single identifier: exactly one word token
    // tagged as an identifier, then the end of the stream.
    let mut lexer = Lexer::new("  \t\n  x_1  \n".to_string());
    match lexer.scan().unwrap() {
        Some(Token::Word { tag, lexeme }) => {
            assert_eq!(tag, Tag::Id);
            assert_eq!(lexeme, "x_1");
        },
        other => panic!("expected an identifier, got {:?}", other),
    }
    assert!(lexer.scan().unwrap().is_none());
    assert!(lexer.scan().unwrap().is_none());
}

#[test]
fn scan_integer_literal() {
    let mut lexer = Lexer::new("1204".to_string());
    match lexer.scan().unwrap() {
        Some(Token::NumI32 { num }) => assert_eq!(num, 1204),
        other => panic!("expected an integer literal, got {:?}", other),
    }
    assert!(lexer.scan().unwrap().is_none());
}

#[test]
fn scan_float_literal() {
    // A literal with one decimal point and a nonzero fraction is a
    // floating-point literal; its text parses to the literal's value.
    let mut lexer = Lexer::new("1004.1204014".to_string());
    match lexer.scan().unwrap() {
        Some(Token::NumF32 { text }) => {
            assert_eq!(text, "1004.1204014");
            let parsed: f32 = text.parse().unwrap();
            assert_eq!(parsed, 1004.1204014f32);
        },
        other => panic!("expected a float literal, got {:?}", other),
    }
}

#[test]
fn scan_zero_fraction_is_integer() {
    // No fractional remainder: the literal is an integer.
    let mut lexer = Lexer::new("1.00 2. 0.5".to_string());
    match lexer.scan().unwrap() {
        Some(Token::NumI32 { num }) => assert_eq!(num, 1),
        other => panic!("expected an integer, got {:?}", other),
    }
    match lexer.scan().unwrap() {
        Some(Token::NumI32 { num }) => assert_eq!(num, 2),
        other => panic!("expected an integer, got {:?}", other),
    }
    match lexer.scan().unwrap() {
        Some(Token::NumF32 { text }) => assert_eq!(text, "0.5"),
        other => panic!("expected a float, got {:?}", other),
    }
}

#[test]
fn scan_integer_saturates() {
    let mut lexer = Lexer::new("99999999999".to_string());
    match lexer.scan().unwrap() {
        Some(Token::NumI32 { num }) => assert_eq!(num, i32::MAX),
        other => panic!("expected an integer, got {:?}", other),
    }
}

#[test]
fn reserve_round_trip() {
    // A reserved word comes back with the reserved tag, not as a fresh
    // identifier.
    let mut lexer = Lexer::new("i32".to_string());
    lexer.reserve(Token::new_word(Tag::Type, "i32"));
    match lexer.scan().unwrap() {
        Some(Token::Word { tag, lexeme }) => {
            assert_eq!(tag, Tag::Type);
            assert_eq!(lexeme, "i32");
        },
        other => panic!("expected the reserved word, got {:?}", other),
    }
}

#[test]
fn identifier_memoized_keeps_id_tag() {
    // An identifier is registered when first seen; a repeat occurrence
    // hits the table and still carries the identifier tag.
    let mut lexer = Lexer::new("foo foo".to_string());
    for _ in 0..2 {
        match lexer.scan().unwrap() {
            Some(Token::Word { tag, lexeme }) => {
                assert_eq!(tag, Tag::Id);
                assert_eq!(lexeme, "foo");
            },
            other => panic!("expected an identifier, got {:?}", other),
        }
    }
}

#[test]
fn maximal_munch_comparisons() {
    let mut lexer = Lexer::new("10>=20 1<2 a<=b c==d e!=f".to_string());
    let tokens = scan_all(&mut lexer);
    let words: Vec<(Tag, String)> = tokens
        .iter()
        .filter_map(|t| match t {
            Token::Word { tag, lexeme } => Some((*tag, lexeme.clone())),
            _ => None,
        })
        .collect();
    let expected = [
        (Tag::Comparison, ">="),
        (Tag::Comparison, "<"),
        (Tag::Id, "a"),
        (Tag::Comparison, "<="),
        (Tag::Id, "b"),
        (Tag::Id, "c"),
        (Tag::Comparison, "=="),
        (Tag::Id, "d"),
        (Tag::Id, "e"),
        (Tag::Comparison, "!="),
        (Tag::Id, "f"),
    ];
    assert_eq!(words.len(), expected.len());
    for (got, want) in words.iter().zip(expected.iter()) {
        assert_eq!(got.0, want.0);
        assert_eq!(got.1, want.1);
    }
}

#[test]
fn default_reserved_words() {
    let mut lexer = Lexer::new("true false { } ;".to_string());
    let expected = [
        (Tag::Primary, "true"),
        (Tag::Primary, "false"),
        (Tag::Symbol, "{"),
        (Tag::Symbol, "}"),
        (Tag::Symbol, ";"),
    ];
    for (tag, lexeme) in expected {
        match lexer.scan().unwrap() {
            Some(Token::Word { tag: t, lexeme: l }) => {
                assert_eq!(t, tag);
                assert_eq!(l, lexeme);
            },
            other => panic!("expected {:?}, got {:?}", lexeme, other),
        }
    }
    assert!(lexer.scan().unwrap().is_none());
}

#[test]
fn lexical_error_reports_line_and_char() {
    let mut lexer = Lexer::new("\n\n#".to_string());
    let err = lexer.scan().unwrap_err();
    assert_eq!(err.line, 3);
    assert_eq!(err.ch, '#');
}

#[test]
fn bare_exclamation_is_lexical_error() {
    // `!` opens an operator only when `=` follows; alone it fits no
    // lexical class.
    let mut lexer = Lexer::new("! x".to_string());
    let err = lexer.scan().unwrap_err();
    assert_eq!(err.line, 1);
    assert_eq!(err.ch, '!');
}

#[test]
fn empty_source_ends_at_once() {
    let mut lexer = Lexer::new("".to_string());
    assert!(lexer.scan().unwrap().is_none());
    assert!(lexer.scan().unwrap().is_none());
}

#[test]
fn sentinel_character_ends_stream() {
    // The sentinel terminator also ends the stream where the source
    // itself holds it.
    let mut lexer = Lexer::new("a@b".to_string());
    match lexer.scan().unwrap() {
        Some(Token::Word { lexeme, .. }) => assert_eq!(lexeme, "a"),
        other => panic!("expected a word, got {:?}", other),
    }
    assert!(lexer.scan().unwrap().is_none());
}
