//! The block parser: a recursive-descent consumer of the lexer's token
//! stream, realized as a machine over tokens with an explicit nesting
//! depth. A `{` opens a scope, a `}` closes one, a type keyword
//! declares the identifier after it in the innermost scope, and an
//! identifier use resolves through the scope chain and is emitted.
//!
//! A `{` is demanded wherever a block must start; a `}` that closes no
//! block, a missing `}` at the end of the stream, and an unbalanced
//! close are all malformed blocks.

use vstd::prelude::*;

use crate::lexer::{lemma_scan_step, lex_wf, scan_spec, Lexer, LexState, Scanned};
use crate::mtype::Type;
use crate::symbol::{chain_lookup, lemma_chain_scopes_len, Symbol, SymbolTable, SymbolView};
use crate::token::{Tag, Token, TokenView};

verus! {

/// The mathematical content of a [`ParseError`].
pub enum ParseErrorView {
    Lexical { line: nat, ch: char },
    UnexpectedToken { expected: Tag },
    UndefinedSymbol { name: Seq<char> },
    MalformedBlock,
}

/// Why a parse failed.
#[derive(Debug, PartialEq)]
pub enum ParseError {
    /// A character fit no lexical class: the scan aborted at this line.
    Lexical { line: usize, ch: char },
    /// A token with this tag was demanded, and the next token did not
    /// carry it or the stream ended where the token was demanded.
    UnexpectedToken { expected: Tag },
    /// A used identifier is declared in no scope of the chain.
    UndefinedSymbol { name: String },
    /// A `{` was demanded and something else stood there, a `}` closed
    /// no open block, or the stream ended inside an open block.
    MalformedBlock,
}

impl View for ParseError {
    type V = ParseErrorView;

    open spec fn view(&self) -> ParseErrorView {
        match self {
            ParseError::Lexical { line, ch } => (ParseErrorView::Lexical {
                line: *line as nat,
                ch: *ch,
            }),
            ParseError::UnexpectedToken { expected } => (ParseErrorView::UnexpectedToken {
                expected: *expected,
            }),
            ParseError::UndefinedSymbol { name } => (ParseErrorView::UndefinedSymbol {
                name: name@,
            }),
            ParseError::MalformedBlock => ParseErrorView::MalformedBlock,
        }
    }
}

/// The mathematical state of a [`DefParser`]: the lexer's state, the
/// scope chain, and the resolved uses emitted so far.
pub struct ParseState {
    pub lex: LexState,
    pub scopes: Seq<Map<Seq<char>, SymbolView>>,
    pub out: Seq<SymbolView>,
}

/// How an executable parse result realizes a model result.
pub open spec fn outcome_as(r: Result<(), ParseError>, m: Result<(), ParseErrorView>) -> bool {
    match m {
        Result::Ok(_) => r is Ok,
        Result::Err(ev) => r is Err && r.unwrap_err()@ == ev,
    }
}

/// The type a type keyword's text declares. Under a well-formed grammar
/// only the three keywords reach this; anything else falls defensively
/// to the integer type.
pub open spec fn type_of_lexeme(lexeme: Seq<char>) -> Type {
    if lexeme == "i32"@ {
        Type::I32(4)
    } else if lexeme == "f32"@ {
        Type::F32(4)
    } else if lexeme == "char"@ {
        Type::Char(1)
    } else {
        Type::I32(4)
    }
}

/// Whether a token opens a block.
pub open spec fn opens_block(tv: TokenView) -> bool {
    match tv {
        TokenView::Word { tag, lexeme } => tag == Tag::Symbol && lexeme == "{"@,
        _ => false,
    }
}

/// Whether a token closes a block.
pub open spec fn closes_block(tv: TokenView) -> bool {
    match tv {
        TokenView::Word { tag, lexeme } => tag == Tag::Symbol && lexeme == "}"@,
        _ => false,
    }
}

/// One statement, given its first token, already consumed: a type
/// keyword demands an identifier next and declares it in the innermost
/// scope; an identifier use resolves through the scope chain, innermost
/// first, and is emitted; every other token is passed over.
pub open spec fn stmt_step(s: ParseState, tv: TokenView) -> (ParseState, Result<
    (),
    ParseErrorView,
>) {
    match tv {
        TokenView::Word { tag: Tag::Type, lexeme } => {
            let (lex2, item2) = scan_spec(s.lex);
            let s2 = ParseState { lex: lex2, ..s };
            match item2 {
                Scanned::Fault { line, ch } => (
                    s2,
                    Result::Err(ParseErrorView::Lexical { line, ch }),
                ),
                Scanned::End => (
                    s2,
                    Result::Err(ParseErrorView::UnexpectedToken { expected: Tag::Id }),
                ),
                Scanned::Tok(tv2) => match tv2 {
                    TokenView::Word { tag: Tag::Id, lexeme: name } => (
                        ParseState {
                            scopes: s2.scopes.drop_last().push(
                                s2.scopes.last().insert(
                                    name,
                                    SymbolView { lexeme: name, ty: type_of_lexeme(lexeme) },
                                ),
                            ),
                            ..s2
                        },
                        Result::Ok(()),
                    ),
                    _ => (s2, Result::Err(ParseErrorView::UnexpectedToken { expected: Tag::Id })),
                },
            }
        },
        TokenView::Word { tag: Tag::Id, lexeme } => {
            match chain_lookup(s.scopes, lexeme) {
                Option::Some(sym) => (ParseState { out: s.out.push(sym), ..s }, Result::Ok(())),
                Option::None => (
                    s,
                    Result::Err(ParseErrorView::UndefinedSymbol { name: lexeme }),
                ),
            }
        },
        _ => (s, Result::Ok(())),
    }
}

/// A statement step keeps the source, never moves the cursor backward,
/// and keeps the lexer state well-formed.
pub proof fn lemma_stmt_step(s: ParseState, tv: TokenView)
    requires
        lex_wf(s.lex),
    ensures
        lex_wf(stmt_step(s, tv).0.lex),
        stmt_step(s, tv).0.lex.src == s.lex.src,
        s.lex.pos <= stmt_step(s, tv).0.lex.pos,
{
    match tv {
        TokenView::Word { tag: Tag::Type, lexeme } => {
            lemma_scan_step(s.lex);
        },
        _ => {},
    }
}

/// The whole parse from a state at a nesting depth. Tokens drive the
/// machine: a `{` opens a scope; a `}` closes the innermost one, and
/// closes no block only in error; between them statements run as
/// [`stmt_step`] says; the stream may end only at depth zero, where a
/// `{` is otherwise demanded. The first failure stops the parse.
pub open spec fn run_spec(s: ParseState, depth: nat) -> (ParseState, Result<(), ParseErrorView>)
    decreases s.lex.src.len() - s.lex.pos,
    when lex_wf(s.lex)
{
    let (lex1, item) = scan_spec(s.lex);
    let s1 = ParseState { lex: lex1, ..s };
    match item {
        Scanned::Fault { line, ch } => (s1, Result::Err(ParseErrorView::Lexical { line, ch })),
        Scanned::End => (
            s1,
            if depth == 0 {
                Result::Ok(())
            } else {
                Result::Err(ParseErrorView::MalformedBlock)
            },
        ),
        Scanned::Tok(tv) => {
            proof {
                lemma_scan_step(s.lex);
                lemma_stmt_step(s1, tv);
            }
            if opens_block(tv) {
                run_spec(
                    ParseState {
                        scopes: s1.scopes.push(Map::<Seq<char>, SymbolView>::empty()),
                        ..s1
                    },
                    depth + 1,
                )
            } else if closes_block(tv) {
                if depth == 0 {
                    (s1, Result::Err(ParseErrorView::MalformedBlock))
                } else {
                    run_spec(
                        ParseState { scopes: s1.scopes.drop_last(), ..s1 },
                        (depth - 1) as nat,
                    )
                }
            } else if depth == 0 {
                (
                    s1,
                    Result::Err(
                        match tv {
                            TokenView::Word { tag: Tag::Symbol, .. } => (
                                ParseErrorView::MalformedBlock
                            ),
                            _ => (ParseErrorView::UnexpectedToken { expected: Tag::Symbol }),
                        },
                    ),
                )
            } else {
                let (s2, r) = stmt_step(s1, tv);
                match r {
                    Result::Ok(_) => run_spec(s2, depth),
                    Result::Err(e) => (s2, Result::Err(e)),
                }
            }
        },
    }
}

/// The block parser: a lexer, the scope chain, and the resolved uses
/// emitted so far, in order.
pub struct DefParser {
    lexer: Lexer,
    table: SymbolTable,
    out: Vec<Symbol>,
}

impl View for DefParser {
    type V = ParseState;

    closed spec fn view(&self) -> ParseState {
        ParseState {
            lex: self.lexer@,
            scopes: self.table@,
            out: self.out@.map_values(|s: Symbol| s@),
        }
    }
}

impl DefParser {
    /// A well-formed parser: its lexer is well-formed and its scope
    /// chain is nonempty.
    pub closed spec fn wf(&self) -> bool {
        &&& self.lexer.wf()
        &&& self.table@.len() >= 1
    }

    /// A parser over a lexer and a symbol table, with nothing emitted.
    pub fn new(lexer: Lexer, table: SymbolTable) -> (p: DefParser)
        ensures
            p@.lex == lexer@,
            p@.scopes == table@,
            p@.out =~= Seq::<SymbolView>::empty(),
            lexer.wf() ==> p.wf(),
    {
        proof {
            lemma_chain_scopes_len(&table);
        }
        let p = DefParser { lexer, table, out: Vec::new() };
        proof {
            assert(p@.out =~= Seq::<SymbolView>::empty());
        }
        p
    }

    /// The resolved uses emitted so far, in the order they were read.
    pub fn output(&self) -> (r: &Vec<Symbol>)
        ensures
            r@.len() == self@.out.len(),
            forall|i: int| 0 <= i < r@.len() ==> r@[i]@ == self@.out[i],
    {
        &self.out
    }

    /// Demand the next token and a tag for it: the token is handed back
    /// only when it is a word carrying exactly that tag; the stream
    /// ending here, or any other token, is an unexpected-token error,
    /// and a lexical fault is fatal.
    fn except(&mut self, etag: Tag) -> (r: Result<Token, ParseError>)
        requires
            old(self).wf(),
        ensures
            final(self).wf(),
            final(self)@.lex == scan_spec(old(self)@.lex).0,
            final(self)@.scopes == old(self)@.scopes,
            final(self)@.out == old(self)@.out,
            match scan_spec(old(self)@.lex).1 {
                Scanned::Fault { line, ch } => r is Err && r.unwrap_err()@
                    == (ParseErrorView::Lexical { line, ch }),
                Scanned::End => r is Err && r.unwrap_err()@ == (ParseErrorView::UnexpectedToken {
                    expected: etag,
                }),
                Scanned::Tok(tv) => match tv {
                    TokenView::Word { tag, lexeme } => {
                        if tag == etag {
                            r is Ok && r.unwrap()@ == tv
                        } else {
                            r is Err && r.unwrap_err()@ == (ParseErrorView::UnexpectedToken {
                                expected: etag,
                            })
                        }
                    },
                    _ => r is Err && r.unwrap_err()@ == (ParseErrorView::UnexpectedToken {
                        expected: etag,
                    }),
                },
            },
    {
        match self.lexer.scan() {
            Err(e) => Err(ParseError::Lexical { line: e.line, ch: e.ch }),
            Ok(None) => Err(ParseError::UnexpectedToken { expected: etag }),
            Ok(Some(token)) => match token {
                Token::Word { tag, lexeme } => {
                    if tag == etag {
                        Ok(Token::Word { tag, lexeme })
                    } else {
                        Err(ParseError::UnexpectedToken { expected: etag })
                    }
                },
                _ => Err(ParseError::UnexpectedToken { expected: etag }),
            },
        }
    }

    /// Declare a symbol: map the type keyword's text to its type and
    /// put the identifier into the innermost scope under it.
    fn decl(&mut self, ty_t: Token, id_t: Token)
        requires
            old(self).wf(),
            ty_t@ is Word,
            id_t@ is Word,
        ensures
            final(self).wf(),
            final(self)@.lex == old(self)@.lex,
            final(self)@.out == old(self)@.out,
            final(self)@.scopes =~= old(self)@.scopes.drop_last().push(
                old(self)@.scopes.last().insert(
                    id_t@->Word_lexeme,
                    SymbolView {
                        lexeme: id_t@->Word_lexeme,
                        ty: type_of_lexeme(ty_t@->Word_lexeme),
                    },
                ),
            ),
    {
        if let Token::Word { lexeme, .. } = ty_t {
            let ty = if lexeme == "i32".to_owned() {
                Type::new_i32()
            } else if lexeme == "f32".to_owned() {
                Type::new_f32()
            } else if lexeme == "char".to_owned() {
                Type::new_char()
            } else {
                Type::new_i32()
            };
            if let Token::Word { lexeme: name, .. } = id_t {
                let ghost pre = self@;
                self.table.add(Symbol::new(name, ty));
                proof {
                    assert(self@.out =~= pre.out);
                }
            }
        }
    }

    /// Resolve an identifier use through the scope chain and emit the
    /// symbol found; an identifier declared in no scope is an
    /// undefined-symbol error.
    fn factor(&mut self, id_t: Token) -> (r: Result<(), ParseError>)
        requires
            old(self).wf(),
            id_t@ is Word,
        ensures
            final(self).wf(),
            final(self)@.lex == old(self)@.lex,
            final(self)@.scopes == old(self)@.scopes,
            match chain_lookup(old(self)@.scopes, id_t@->Word_lexeme) {
                Option::Some(sym) => r is Ok && final(self)@.out =~= old(self)@.out.push(sym),
                Option::None => {
                    &&& r is Err
                    &&& r.unwrap_err()@ == (ParseErrorView::UndefinedSymbol {
                        name: id_t@->Word_lexeme,
                    })
                    &&& final(self)@.out == old(self)@.out
                },
            },
    {
        if let Token::Word { lexeme, .. } = id_t {
            match self.table.search(lexeme.clone()) {
                Some(symbol) => {
                    let ghost pre = self@;
                    self.out.push(symbol);
                    proof {
                        assert(self@.out =~= pre.out.push(
                            chain_lookup(pre.scopes, lexeme@).unwrap(),
                        ));
                    }
                    Ok(())
                },
                None => Err(ParseError::UndefinedSymbol { name: lexeme }),
            }
        } else {
            proof {
                assert(false);
            }
            Ok(())
        }
    }

    /// One statement, given its first token: a type keyword demands an
    /// identifier and declares it; an identifier use resolves and is
    /// emitted; every other token is passed over.
    fn stmt(&mut self, token: Token) -> (r: Result<(), ParseError>)
        requires
            old(self).wf(),
        ensures
            final(self).wf(),
            final(self)@ == stmt_step(old(self)@, token@).0,
            outcome_as(r, stmt_step(old(self)@, token@).1),
    {
        let is_type = match &token {
            Token::Word { tag: Tag::Type, .. } => true,
            _ => false,
        };
        let is_id = match &token {
            Token::Word { tag: Tag::Id, .. } => true,
            _ => false,
        };
        if is_type {
            match self.except(Tag::Id) {
                Ok(id_t) => {
                    self.decl(token, id_t);
                    Ok(())
                },
                Err(e) => Err(e),
            }
        } else if is_id {
            self.factor(token)
        } else {
            Ok(())
        }
    }

    /// Enter a nested scope.
    fn push_scope(&mut self)
        requires
            old(self).wf(),
        ensures
            final(self).wf(),
            final(self)@.lex == old(self)@.lex,
            final(self)@.out == old(self)@.out,
            final(self)@.scopes =~= old(self)@.scopes.push(Map::<Seq<char>, SymbolView>::empty()),
    {
        let mut t = SymbolTable::new();
        core::mem::swap(&mut self.table, &mut t);
        self.table = SymbolTable::new_with_table(t);
    }

    /// Leave the innermost scope, handing the chain back to its parent.
    fn pop_scope(&mut self)
        requires
            old(self).wf(),
            old(self)@.scopes.len() >= 2,
        ensures
            final(self).wf(),
            final(self)@.lex == old(self)@.lex,
            final(self)@.out == old(self)@.out,
            final(self)@.scopes =~= old(self)@.scopes.drop_last(),
    {
        let mut t = SymbolTable::new();
        core::mem::swap(&mut self.table, &mut t);
        match t.release() {
            Some(parent) => {
                proof {
                    lemma_chain_scopes_len(&parent);
                }
                self.table = parent;
            },
            None => {
                proof {
                    assert(false);
                }
            },
        }
    }

    /// Parse blocks until the end of the stream, resolving uses as they
    /// are read. The call realizes exactly [`run_spec`] from the
    /// parser's state at depth zero: it succeeds on a balanced sequence
    /// of blocks, and the first lexical fault, unexpected token,
    /// undefined symbol or malformed block stops it.
    #[verifier::loop_isolation(false)]
    pub fn blocks(&mut self) -> (r: Result<(), ParseError>)
        requires
            old(self).wf(),
        ensures
            final(self).wf(),
            final(self)@ == run_spec(old(self)@, 0).0,
            outcome_as(r, run_spec(old(self)@, 0).1),
    {
        let ghost s_init = self@;
        let mut depth: usize = 0;
        loop
            invariant
                self.wf(),
                self@.lex.src == s_init.lex.src,
                depth <= self@.lex.pos,
                self@.scopes.len() == depth + s_init.scopes.len(),
                run_spec(s_init, 0) == run_spec(self@, depth as nat),
            decreases self@.lex.src.len() - self@.lex.pos,
        {
            let ghost s_pre = self@;
            let ghost d_pre = depth as nat;
            let scanned = self.lexer.scan();
            proof {
                lemma_scan_step(s_pre.lex);
            }
            match scanned {
                Err(e) => {
                    return Err(ParseError::Lexical { line: e.line, ch: e.ch });
                },
                Ok(None) => {
                    if depth == 0 {
                        return Ok(());
                    } else {
                        return Err(ParseError::MalformedBlock);
                    }
                },
                Ok(Some(token)) => {
                    proof {
                        lemma_stmt_step(self@, token@);
                    }
                    let is_symbol = match &token {
                        Token::Word { tag: Tag::Symbol, .. } => true,
                        _ => false,
                    };
                    let is_open = is_symbol && match &token {
                        Token::Word { lexeme, .. } => *lexeme == "{".to_owned(),
                        _ => false,
                    };
                    let is_close = is_symbol && match &token {
                        Token::Word { lexeme, .. } => *lexeme == "}".to_owned(),
                        _ => false,
                    };
                    if is_open {
                        self.push_scope();
                        depth = depth + 1;
                    } else if is_close {
                        if depth == 0 {
                            return Err(ParseError::MalformedBlock);
                        }
                        self.pop_scope();
                        depth = depth - 1;
                    } else if depth == 0 {
                        if is_symbol {
                            return Err(ParseError::MalformedBlock);
                        }
                        return Err(ParseError::UnexpectedToken { expected: Tag::Symbol });
                    } else {
                        match self.stmt(token) {
                            Ok(_) => {},
                            Err(e) => {
                                return Err(e);
                            },
                        }
                    }
                },
            }
        }
    }
}

} // verus!
