use dragonbook::mtype::Type;
use dragonbook::symbol::{Symbol, SymbolTable};
use dragonbook::token::{Tag, Token};

#[test]
fn type_new_test() {
    let _ = Type::new_i32();
    let _ = Type::new_f32();
    let _ = Type::new_char();
}

#[test]
fn type_names() {
    assert_eq!(Type::new_i32().name(), "i32");
    assert_eq!(Type::new_f32().name(), "f32");
    assert_eq!(Type::new_char().name(), "char");
}

#[test]
fn token_token_new_test() {
    let _ = Token::new_numi32(10);
    let _ = Token::new_numf32("12.04".to_string());
    let _ = Token::new_word(Tag::Id, "abcdefghijklmn");
}

#[test]
fn symbol_new_test() {
    let lexeme = "abcdefghijklmn".to_string();
    let ty = Type::new_i32();
    let _ = Symbol::new(lexeme, ty);
}

#[test]
fn symbol_render() {
    let s = Symbol::new("x".to_string(), Type::new_f32());
    assert_eq!(s.render(), "x:f32");
}

#[test]
fn symboltable_simple_test() {
    let table_a = SymbolTable::new();

    let mut table_b = SymbolTable::new_with_table(table_a);
    table_b.add(Symbol::new("a".to_string(), Type::new_i32()));
    table_b.add(Symbol::new("b".to_string(), Type::new_f32()));

    let mut table_c = SymbolTable::new_with_table(table_b);
    table_c.add(Symbol::new("c".to_string(), Type::new_i32()));
    table_c.add(Symbol::new("d".to_string(), Type::new_f32()));

    validate_symbol(table_c.search("a".to_string()), "a", Type::new_i32());
    validate_symbol(table_c.search("b".to_string()), "b", Type::new_f32());
    validate_symbol(table_c.search("c".to_string()), "c", Type::new_i32());
    validate_symbol(table_c.search("d".to_string()), "d", Type::new_f32());

    let table_b = table_c.release().unwrap();
    let _table_a = table_b.release().unwrap();
}

fn validate_symbol(symbol: Option<Symbol>, lexemec: &str, tyc: Type) {
    match symbol {
        Some(Symbol { lexeme, ty }) if lexeme == lexemec && ty == tyc => {},
        _ => panic!("test failed at [symboltable_simple_test] => {}", lexemec),
    }
}

#[test]
fn symboltable_shadowing_and_release() {
    let root = SymbolTable::new();
    let mut outer = SymbolTable::new_with_table(root);
    outer.add(Symbol::new("a".to_string(), Type::new_i32()));

    let mut inner = SymbolTable::new_with_table(outer);
    inner.add(Symbol::new("a".to_string(), Type::new_f32()));
    // The innermost declaration shadows the outer one.
    validate_symbol(inner.search("a".to_string()), "a", Type::new_f32());

    let outer = inner.release().unwrap();
    // After the inner scope is released, the outer declaration shows again.
    validate_symbol(outer.search("a".to_string()), "a", Type::new_i32());

    let root = outer.release().unwrap();
    assert!(root.search("a".to_string()).is_none());
    // Releasing the root scope hands nothing back.
    assert!(root.release().is_none());
}

#[test]
fn symboltable_search_idempotent() {
    let mut t = SymbolTable::new();
    t.add(Symbol::new("a".to_string(), Type::new_char()));
    let first = t.search("a".to_string());
    let second = t.search("a".to_string());
    assert_eq!(first, second);
    let first = t.search("missing".to_string());
    let second = t.search("missing".to_string());
    assert_eq!(first, second);
}

#[test]
fn symboltable_same_scope_overwrite() {
    let mut t = SymbolTable::new();
    t.add(Symbol::new("a".to_string(), Type::new_i32()));
    t.add(Symbol::new("a".to_string(), Type::new_char()));
    // Redeclaring a name in the same scope overwrites: the last write wins.
    validate_symbol(t.search("a".to_string()), "a", Type::new_char());
}
