//! Interned identifiers: a table from text to small integer handles and back,
//! kept in an `intaglio` symbol table.
use vstd::prelude::*;

verus! {

#[verifier::external_type_specification]
#[verifier::external_body]
#[verifier::reject_recursive_types(S)]
pub struct ExSymbolTable<S>(intaglio::SymbolTable<S>);

#[verifier::external_type_specification]
#[verifier::external_body]
pub struct ExSymbolOverflowError(intaglio::SymbolOverflowError);

/// The strings held by an `intaglio` symbol table, in the order of their
/// handles: the string of handle `i` stands at index `i`.
pub uninterp spec fn table_contents(t: intaglio::SymbolTable) -> Seq<Seq<char>>;

/// Relies on `intaglio::SymbolTable::new`: the new table holds no string.
#[verifier::external_body]
fn table_new() -> (r: intaglio::SymbolTable)
    ensures
        table_contents(r) == Seq::<Seq<char>>::empty(),
{
    intaglio::SymbolTable::new()
}

/// Relies on `intaglio::SymbolTable::intern`: a string already held gives back
/// its handle and leaves the table as it was; another one is appended and gets
/// the next handle, which fails when that handle does not fit in a `u32`.
#[verifier::external_body]
fn table_intern(t: &mut intaglio::SymbolTable, s: String) -> (r: Result<
    u32,
    intaglio::SymbolOverflowError,
>)
    ensures
        table_contents(*old(t)).contains(s@) ==> {
            &&& r is Ok
            &&& (r->Ok_0 as int) < table_contents(*old(t)).len()
            &&& table_contents(*old(t))[r->Ok_0 as int] == s@
            &&& table_contents(*final(t)) == table_contents(*old(t))
        },
        !table_contents(*old(t)).contains(s@) ==> {
            &&& r is Ok <==> table_contents(*old(t)).len() <= u32::MAX
            &&& r is Ok ==> r->Ok_0 as int == table_contents(*old(t)).len()
                && table_contents(*final(t)) == table_contents(*old(t)).push(s@)
            &&& r is Err ==> table_contents(*final(t)) == table_contents(*old(t))
        },
{
    t.intern(s).map(|sym| sym.id())
}

/// Relies on `intaglio::SymbolTable::get`: the string of a handle, if the table
/// holds that handle.
#[verifier::external_body]
fn table_get(t: &intaglio::SymbolTable, id: u32) -> (r: Option<String>)
    ensures
        r is Some <==> (id as int) < table_contents(*t).len(),
        r is Some ==> r->Some_0@ == table_contents(*t)[id as int],
{
    t.get(intaglio::Symbol::new(id)).map(|s| s.to_string())
}

/// A handle for an interned string; two symbols of one interner are equal
/// exactly when their strings are.
#[derive(Debug, Clone, Copy, PartialEq, Eq, Hash, Structural)]
pub struct Symbol {
    pub id: u32,
}

/// The interner ran out of handles: every `u32` is taken.
#[derive(Debug, Clone, Copy, PartialEq, Eq, Structural)]
pub struct InternError;

/// Where the string `s` stands in the table `v`, if it does.
pub open spec fn index_of(v: Seq<Seq<char>>, s: Seq<char>) -> Option<nat> {
    if v.contains(s) {
        Some(choose|i: nat| i < v.len() && v[i as int] == s)
    } else {
        None
    }
}

/// The table after interning `s` in `v`, and the handle that `s` gets.
pub open spec fn intern_spec(v: Seq<Seq<char>>, s: Seq<char>) -> (Seq<Seq<char>>, nat) {
    match index_of(v, s) {
        Some(i) => (v, i),
        None => (v.push(s), v.len()),
    }
}

/// The string of handle `id` in table `v`, if there is one.
pub open spec fn resolve_spec(v: Seq<Seq<char>>, id: nat) -> Option<Seq<char>> {
    if id < v.len() {
        Some(v[id as int])
    } else {
        None
    }
}

/// No string is held twice.
pub open spec fn distinct_entries(v: Seq<Seq<char>>) -> bool {
    forall|i: int, j: int| 0 <= i < v.len() && 0 <= j < v.len() && i != j ==> v[i] != v[j]
}

/// A table of interned strings, owned by one compilation.
pub struct Interner {
    table: intaglio::SymbolTable,
}

impl View for Interner {
    type V = Seq<Seq<char>>;

    closed spec fn view(&self) -> Seq<Seq<char>> {
        table_contents(self.table)
    }
}

proof fn lemma_index_of_unique(v: Seq<Seq<char>>, s: Seq<char>, k: nat)
    requires
        distinct_entries(v),
        k < v.len(),
        v[k as int] == s,
    ensures
        index_of(v, s) == Some(k),
{
    assert(v.contains(s));
    let i = choose|i: nat| i < v.len() && v[i as int] == s;
    assert(v[i as int] == s);
}

impl Interner {
    /// Every interner holds each string at most once.
    pub open spec fn wf(&self) -> bool {
        distinct_entries(self@)
    }

    pub fn new() -> (r: Interner)
        ensures
            r.wf(),
            r@ == Seq::<Seq<char>>::empty(),
    {
        Interner { table: table_new() }
    }

    /// The symbol of `text`, added to the table if it is not there yet.
    pub fn intern(&mut self, text: &str) -> (r: Result<Symbol, InternError>)
        requires
            old(self).wf(),
        ensures
            final(self).wf(),
            r is Err <==> (index_of(old(self)@, text@) is None && old(self)@.len() > u32::MAX),
            r is Ok ==> (final(self)@, r->Ok_0.id as nat) == intern_spec(old(self)@, text@),
            r is Err ==> final(self)@ == old(self)@,
            old(self)@.len() <= final(self)@.len(),
            forall|k: int| 0 <= k < old(self)@.len() ==> final(self)@[k] == old(self)@[k],
    {
        let ghost v = self@;
        let res = table_intern(&mut self.table, text.to_string());
        proof {
            if v.contains(text@) {
                lemma_index_of_unique(v, text@, res->Ok_0 as nat);
            } else if res is Ok {
                assert forall|i: int, j: int|
                    0 <= i < self@.len() && 0 <= j < self@.len() && i != j implies self@[i]
                    != self@[j] by {
                    if i == v.len() as int {
                        assert(v[j] == self@[j]);
                    } else if j == v.len() as int {
                        assert(v[i] == self@[i]);
                    } else {
                        assert(v[i] == self@[i] && v[j] == self@[j]);
                    }
                }
            }
        }
        match res {
            Ok(id) => Ok(Symbol { id }),
            Err(_) => Err(InternError),
        }
    }

    /// The text of `sym`, if this interner gave it out.
    pub fn resolve(&self, sym: Symbol) -> (r: Option<String>)
        ensures
            r is Some <==> resolve_spec(self@, sym.id as nat) is Some,
            r is Some ==> r->Some_0@ == resolve_spec(self@, sym.id as nat)->Some_0,
    {
        table_get(&self.table, sym.id)
    }
}

/// Interning is a round trip: the symbol of `s` resolves to `s`, and interning
/// `s` a second time gives the same symbol and leaves the table unchanged.
pub proof fn lemma_intern_resolve(v: Seq<Seq<char>>, s: Seq<char>)
    requires
        distinct_entries(v),
    ensures
        resolve_spec(intern_spec(v, s).0, intern_spec(v, s).1) == Some(s),
        intern_spec(intern_spec(v, s).0, s) == intern_spec(v, s),
        distinct_entries(intern_spec(v, s).0),
{
    let (w, id) = intern_spec(v, s);
    if v.contains(s) {
        let i = choose|i: nat| i < v.len() && v[i as int] == s;
        assert(v[i as int] == s);
    } else {
        assert(w[v.len() as int] == s);
        assert(w.contains(s));
        assert forall|i: int, j: int|
            0 <= i < w.len() && 0 <= j < w.len() && i != j implies w[i] != w[j] by {
            if i == v.len() as int {
                assert(v[j] == w[j]);
                assert(!v.contains(w[i]) ==> v[j] != s);
            } else if j == v.len() as int {
                assert(v[i] == w[i]);
            } else {
                assert(v[i] == w[i] && v[j] == w[j]);
            }
        }
        lemma_index_of_unique(w, s, v.len());
    }
}

} // verus!
