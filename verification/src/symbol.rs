//! The scoped symbol table: a chain of scopes, innermost last, each
//! mapping identifier text to a declared symbol. Lookup walks the chain
//! outward, so inner declarations shadow outer ones.

use vstd::prelude::*;

use crate::assoc::{kv_map, lemma_kv_map_contains, lemma_kv_map_index, lemma_kv_map_push};
use crate::mtype::Type;

verus! {

/// The mathematical content of a [`Symbol`].
pub struct SymbolView {
    pub lexeme: Seq<char>,
    pub ty: Type,
}

/// One declared identifier: its text and its declared type.
#[derive(Debug, PartialEq)]
pub struct Symbol {
    pub lexeme: String,
    pub ty: Type,
}

impl View for Symbol {
    type V = SymbolView;

    open spec fn view(&self) -> SymbolView {
        SymbolView { lexeme: self.lexeme@, ty: self.ty }
    }
}

impl Clone for Symbol {
    /// A clone is equal to the original, string contents included.
    fn clone(&self) -> (r: Self)
        ensures
            r == *self,
    {
        Symbol { lexeme: self.lexeme.clone(), ty: self.ty }
    }
}

impl Symbol {
    /// A symbol with the given text and type.
    pub fn new(lexeme: String, ty: Type) -> (s: Symbol)
        ensures
            s == (Symbol { lexeme, ty }),
    {
        Symbol { lexeme, ty }
    }

    /// The symbol rendered as `<lexeme>:<type-name>`.
    pub fn render(&self) -> (r: String)
        ensures
            r@ == self.lexeme@ + seq![':'] + self.ty.spec_name(),
    {
        proof {
            reveal_strlit(":");
            assert(":"@ =~= seq![':']);
        }
        let mut r = self.lexeme.clone();
        r.append(":");
        r.append(self.ty.name());
        r
    }
}

/// The entries of one scope, keyed by each symbol's text.
spec fn scope_entries(table: Seq<Symbol>) -> Seq<(Seq<char>, SymbolView)> {
    table.map_values(|s: Symbol| (s.lexeme@, s@))
}

/// The map denoted by one scope: the last declaration of a name wins.
spec fn scope_map(table: Seq<Symbol>) -> Map<Seq<char>, SymbolView> {
    kv_map(scope_entries(table))
}

/// The chain of scope maps of a table, outermost first, innermost last.
pub closed spec fn chain_scopes(t: SymbolTable) -> Seq<Map<Seq<char>, SymbolView>>
    decreases t,
{
    match t.prev {
        Option::None => seq![scope_map(t.table@)],
        Option::Some(p) => chain_scopes(*p).push(scope_map(t.table@)),
    }
}

/// Lookup over a scope chain: the innermost scope holding the name wins;
/// the result is nothing only when no scope holds it.
pub open spec fn chain_lookup(
    scopes: Seq<Map<Seq<char>, SymbolView>>,
    name: Seq<char>,
) -> Option<SymbolView>
    decreases scopes.len(),
{
    if scopes.len() == 0 {
        Option::None
    } else if scopes.last().contains_key(name) {
        Option::Some(scopes.last()[name])
    } else {
        chain_lookup(scopes.drop_last(), name)
    }
}

/// Idempotent lookup: a search returns the lookup over the scope chain
/// and never changes the chain, so the results of two searches for the
/// same name with no intervening addition are the same.
pub proof fn lemma_search_idempotent(
    scopes: Seq<Map<Seq<char>, SymbolView>>,
    name: Seq<char>,
    r1: Option<SymbolView>,
    r2: Option<SymbolView>,
)
    requires
        r1 == chain_lookup(scopes, name),
        r2 == chain_lookup(scopes, name),
    ensures
        r1 == r2,
{
}

/// Every symbol table is at least its own scope: the chain of scope
/// maps is never empty.
pub proof fn lemma_chain_scopes_len(t: &SymbolTable)
    ensures
        t@.len() >= 1,
{
    match &t.prev {
        Option::None => {},
        Option::Some(_) => {},
    }
}

/// A scoped symbol table. Its view is the chain of scope maps,
/// outermost first; the chain is never empty.
pub struct SymbolTable {
    prev: Option<Box<SymbolTable>>,
    table: Vec<Symbol>,
}

impl View for SymbolTable {
    type V = Seq<Map<Seq<char>, SymbolView>>;

    open spec fn view(&self) -> Seq<Map<Seq<char>, SymbolView>> {
        chain_scopes(*self)
    }
}

impl SymbolTable {
    /// The root table: a single empty scope, no parent.
    pub fn new() -> (t: SymbolTable)
        ensures
            t@ =~= seq![Map::<Seq<char>, SymbolView>::empty()],
    {
        let t = SymbolTable { prev: None, table: Vec::new() };
        proof {
            assert(scope_entries(t.table@) =~= Seq::<(Seq<char>, SymbolView)>::empty());
        }
        t
    }

    /// A fresh empty scope nested inside `prev`; `prev` becomes its parent.
    pub fn new_with_table(prev: SymbolTable) -> (t: SymbolTable)
        ensures
            t@ =~= prev@.push(Map::<Seq<char>, SymbolView>::empty()),
    {
        let t = SymbolTable { prev: Some(Box::new(prev)), table: Vec::new() };
        proof {
            assert(scope_entries(t.table@) =~= Seq::<(Seq<char>, SymbolView)>::empty());
        }
        t
    }

    /// Leave the innermost scope, handing back the parent table.
    /// On the root table there is no parent and nothing is returned.
    pub fn release(self) -> (r: Option<SymbolTable>)
        ensures
            self@.len() == 1 ==> r is None,
            self@.len() > 1 ==> r is Some && r.unwrap()@ =~= self@.drop_last(),
    {
        match self.prev {
            None => None,
            Some(b) => {
                proof {
                    assert(chain_scopes(*b).push(scope_map(self.table@)).drop_last() =~= chain_scopes(
                        *b,
                    ));
                }
                Some(*b)
            },
        }
    }

    /// Declare a symbol in the innermost scope, overwriting any earlier
    /// declaration of the same name in that scope.
    pub fn add(&mut self, symbol: Symbol)
        ensures
            final(self)@ =~= old(self)@.drop_last().push(
                old(self)@.last().insert(symbol.lexeme@, symbol@),
            ),
    {
        let ghost pre = *self;
        proof {
            assert(scope_entries(self.table@.push(symbol)) =~= scope_entries(self.table@).push(
                (symbol.lexeme@, symbol@),
            ));
            lemma_kv_map_push(scope_entries(self.table@), symbol.lexeme@, symbol@);
        }
        self.table.push(symbol);
        proof {
            match pre.prev {
                Option::None => {},
                Option::Some(p) => {
                    assert(chain_scopes(pre).drop_last() =~= chain_scopes(*p));
                },
            }
        }
    }

    /// Look a name up through the scope chain, innermost scope first.
    /// The result is the innermost declaration of the name, and nothing
    /// exactly when no scope in the chain declares it.
    pub fn search(&self, target: String) -> (r: Option<Symbol>)
        ensures
            match chain_lookup(self@, target@) {
                Option::None => r is None,
                Option::Some(sv) => r is Some && r.unwrap()@ == sv,
            },
    {
        Self::search_table(&target, self)
    }

    /// Recursive worker for [`Self::search`]: the current table's own
    /// scope first, then the parent chain.
    #[verifier::loop_isolation(false)]
    fn search_table(target: &String, symboltable: &SymbolTable) -> (r: Option<Symbol>)
        ensures
            match chain_lookup(symboltable@, target@) {
                Option::None => r is None,
                Option::Some(sv) => r is Some && r.unwrap()@ == sv,
            },
        decreases *symboltable,
    {
        proof {
            match &symboltable.prev {
                Option::None => {
                    assert(symboltable@ =~= seq![scope_map(symboltable.table@)]);
                },
                Option::Some(p) => {
                    assert(symboltable@ == chain_scopes(**p).push(scope_map(symboltable.table@)));
                },
            }
            assert(symboltable@.len() >= 1);
            assert(symboltable@.last() == scope_map(symboltable.table@));
        }
        let v = &symboltable.table;
        let mut i = v.len();
        while i > 0
            invariant
                i <= v.len(),
                forall|j: int| i <= j < v@.len() ==> v@[j].lexeme@ != target@,
            decreases i,
        {
            i = i - 1;
            if v[i].lexeme == *target {
                proof {
                    assert forall|j: int| i < j < scope_entries(v@).len() implies scope_entries(
                        v@,
                    )[j].0 != target@ by {
                        assert(v@[j].lexeme@ != target@);
                    }
                    lemma_kv_map_index(scope_entries(v@), target@, i as int);
                    assert(symboltable@.last() == scope_map(symboltable.table@));
                    assert(chain_lookup(symboltable@, target@) == Option::Some(v@[i as int]@));
                }
                return Some(v[i].clone());
            }
        }
        proof {
            assert forall|j: int| 0 <= j < scope_entries(v@).len() implies scope_entries(v@)[j].0
                != target@ by {
                assert(v@[j].lexeme@ != target@);
            }
            lemma_kv_map_contains(scope_entries(v@), target@);
            assert(!scope_map(v@).contains_key(target@));
            assert(symboltable@.last() == scope_map(symboltable.table@));
        }
        match &symboltable.prev {
            None => {
                proof {
                    assert(symboltable@.drop_last() =~= Seq::<Map<Seq<char>, SymbolView>>::empty());
                    assert(chain_lookup(symboltable@, target@) == chain_lookup(
                        symboltable@.drop_last(),
                        target@,
                    ));
                    assert(chain_lookup(symboltable@, target@) is None);
                }
                None
            },
            Some(p) => {
                proof {
                    assert(symboltable@.drop_last() =~= chain_scopes(**p));
                    assert(chain_lookup(symboltable@, target@) == chain_lookup(
                        chain_scopes(**p),
                        target@,
                    ));
                }
                Self::search_table(target, p)
            },
        }
    }
}

} // verus!
