use dragonbook::defparser::{DefParser, ParseError};
use dragonbook::lexer::Lexer;
use dragonbook::mtype::Type;
use dragonbook::symbol::SymbolTable;
use dragonbook::token::{Tag, Token};

fn parser_for(program: &str) -> DefParser {
    let mut lexer = Lexer::new(program.to_string());
    lexer.reserve(Token::new_word(Tag::Type, "i32"));
    lexer.reserve(Token::new_word(Tag::Type, "f32"));
    lexer.reserve(Token::new_word(Tag::Type, "char"));
    DefParser::new(lexer, SymbolTable::new())
}

fn rendered(parser: &DefParser) -> Vec<String> {
    parser.output().iter().map(|s| s.render()).collect()
}

#[test]
fn defparser_simple_test() {
    let program = "{ i32 x; i32 y; { f32 x; x; y; } x; y; }".to_string();
    let table = SymbolTable::new();
    let lexer = Lexer::new(program);
    let _ = DefParser::new(lexer, table);
}

#[test]
fn defparser_parse_test() {
    let table = SymbolTable::new();
    let mut lexer = Lexer::new("{ i32 a f32 b char c a b c }".to_string());
    lexer.reserve(Token::new_word(Tag::Type, "i32"));
    lexer.reserve(Token::new_word(Tag::Type, "f32"));
    lexer.reserve(Token::new_word(Tag::Type, "char"));
    let mut parser = DefParser::new(lexer, table);
    assert!(parser.blocks().is_ok());
    assert_eq!(rendered(&parser), vec!["a:i32", "b:f32", "c:char"]);
}

#[test]
fn nested_blocks_resolve_through_scopes() {
    let mut parser = parser_for("{ i32 x; i32 y; { f32 x; x; y; } x; y; }");
    assert!(parser.blocks().is_ok());
    assert_eq!(rendered(&parser), vec!["x:f32", "y:i32", "x:i32", "y:i32"]);
}

#[test]
fn scoping_inner_declaration_invisible_outside() {
    // `b` lives only inside the inner block: its use after the block
    // closes is an undefined symbol.
    let mut parser = parser_for("{ i32 a; { f32 b; } b; }");
    let err = parser.blocks().unwrap_err();
    assert_eq!(err, ParseError::UndefinedSymbol { name: "b".to_string() });
}

#[test]
fn scoping_outer_declaration_persists() {
    // `a` is declared in the outer scope and still resolves, as the
    // integer type, after the inner block closes.
    let mut parser = parser_for("{ i32 a; { f32 b; } a; }");
    assert!(parser.blocks().is_ok());
    assert_eq!(rendered(&parser), vec!["a:i32"]);
    assert_eq!(parser.output()[0].ty, Type::new_i32());
}

#[test]
fn shadowing_innermost_declaration_wins() {
    // Inside the inner block the inner `a` shadows the outer one: the
    // use resolves to the floating-point type, not the integer type.
    let mut parser = parser_for("{ i32 a; { f32 a; a; } }");
    assert!(parser.blocks().is_ok());
    assert_eq!(rendered(&parser), vec!["a:f32"]);
    assert_eq!(parser.output()[0].ty, Type::new_f32());
}

#[test]
fn malformed_missing_close_brace() {
    // The stream ends inside an open block: a malformed block, the
    // documented policy for a missing `}`.
    let mut parser = parser_for("{ i32 a");
    assert_eq!(parser.blocks().unwrap_err(), ParseError::MalformedBlock);
}

#[test]
fn unexpected_token_after_type_keyword() {
    // A type keyword demands an identifier next.
    let mut parser = parser_for("{ i32 ; }");
    assert_eq!(
        parser.blocks().unwrap_err(),
        ParseError::UnexpectedToken { expected: Tag::Id }
    );
}

#[test]
fn type_keyword_at_end_of_stream() {
    let mut parser = parser_for("{ i32");
    assert_eq!(
        parser.blocks().unwrap_err(),
        ParseError::UnexpectedToken { expected: Tag::Id }
    );
}

#[test]
fn block_must_open_with_brace() {
    // A number where a block must start: a word with the symbol tag was
    // demanded.
    let mut parser = parser_for("123");
    assert_eq!(
        parser.blocks().unwrap_err(),
        ParseError::UnexpectedToken { expected: Tag::Symbol }
    );
    // A symbol other than `{` there is a malformed block.
    let mut parser = parser_for("; { }");
    assert_eq!(parser.blocks().unwrap_err(), ParseError::MalformedBlock);
}

#[test]
fn close_brace_without_open_is_malformed() {
    let mut parser = parser_for("}");
    assert_eq!(parser.blocks().unwrap_err(), ParseError::MalformedBlock);
}

#[test]
fn lexical_error_propagates() {
    let mut parser = parser_for("{ # }");
    assert_eq!(
        parser.blocks().unwrap_err(),
        ParseError::Lexical { line: 1, ch: '#' }
    );
}

#[test]
fn empty_source_parses_to_nothing() {
    let mut parser = parser_for("");
    assert!(parser.blocks().is_ok());
    assert!(parser.output().is_empty());
}

#[test]
fn sibling_blocks_parse() {
    let mut parser = parser_for("{ i32 a; a; } { f32 b; b; }");
    assert!(parser.blocks().is_ok());
    assert_eq!(rendered(&parser), vec!["a:i32", "b:f32"]);
}

#[test]
fn unknown_type_keyword_falls_back_to_integer() {
    // A word reserved under the type tag but spelling no known type
    // falls defensively to the integer type.
    let mut lexer = Lexer::new("{ str s; s; }".to_string());
    lexer.reserve(Token::new_word(Tag::Type, "str"));
    let mut parser = DefParser::new(lexer, SymbolTable::new());
    assert!(parser.blocks().is_ok());
    assert_eq!(rendered(&parser), vec!["s:i32"]);
}

#[test]
fn lexical_error_counts_lines() {
    let mut parser = parser_for("{\n    i32 a;\n    $ }");
    assert_eq!(
        parser.blocks().unwrap_err(),
        ParseError::Lexical { line: 3, ch: '$' }
    );
}

#[test]
fn undefined_symbol_at_first_use() {
    let mut parser = parser_for("{ a; }");
    assert_eq!(
        parser.blocks().unwrap_err(),
        ParseError::UndefinedSymbol { name: "a".to_string() }
    );
}
