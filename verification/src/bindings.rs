//! Tables from bindings to what is known of them.
use crate::ast::Ident;
use crate::model::SpecIdent;
use crate::text::str_eq;
use vstd::prelude::*;

verus! {

/// A table from identifiers, told apart by symbol and scope, to values. The
/// latest entry of an identifier counts.
pub struct BindingTable<V: Copy> {
    entries: Vec<(Ident, V)>,
}

/// The table after its entries have been made one by one.
pub closed spec fn table_view<V>(entries: Seq<(Ident, V)>) -> Map<SpecIdent, V>
    decreases entries.len(),
{
    if entries.len() == 0 {
        Map::empty()
    } else {
        table_view(entries.drop_last()).insert(entries.last().0@, entries.last().1)
    }
}

impl<V: Copy> View for BindingTable<V> {
    type V = Map<SpecIdent, V>;

    closed spec fn view(&self) -> Map<SpecIdent, V> {
        table_view(self.entries@)
    }
}

/// Whether two identifiers name one binding.
pub fn same_binding(a: &Ident, b: &Ident) -> (r: bool)
    ensures
        r == (a@ == b@),
{
    a.ctxt == b.ctxt && str_eq(a.sym.as_str(), b.sym.as_str())
}

/// A copy of an identifier.
pub fn copy_ident(id: &Ident) -> (r: Ident)
    ensures
        r@ == id@,
{
    Ident { sym: id.sym.clone(), ctxt: id.ctxt }
}

/// An identifier is in the table exactly when it has an entry, and the last of
/// its entries says what it maps to.
proof fn lemma_last_entry_counts<V>(entries: Seq<(Ident, V)>, id: SpecIdent, n: int)
    requires
        0 <= n < entries.len(),
        entries[n].0@ == id,
        forall|j: int| n < j < entries.len() ==> (#[trigger] entries[j]).0@ != id,
    ensures
        table_view(entries).dom().contains(id),
        table_view(entries)[id] == entries[n].1,
    decreases entries.len(),
{
    if n < entries.len() - 1 {
        assert(entries.last().0@ != id);
        assert forall|j: int| n < j < entries.drop_last().len() implies (
        #[trigger] entries.drop_last()[j]).0@ != id by {
            assert(entries[j].0@ != id);
        }
        lemma_last_entry_counts(entries.drop_last(), id, n);
    }
}

proof fn lemma_no_entry<V>(entries: Seq<(Ident, V)>, id: SpecIdent)
    requires
        forall|j: int| 0 <= j < entries.len() ==> (#[trigger] entries[j]).0@ != id,
    ensures
        !table_view(entries).dom().contains(id),
    decreases entries.len(),
{
    if entries.len() > 0 {
        assert(entries.last().0@ != id);
        assert forall|j: int| 0 <= j < entries.drop_last().len() implies (
        #[trigger] entries.drop_last()[j]).0@ != id by {
            assert(entries[j].0@ != id);
        }
        lemma_no_entry(entries.drop_last(), id);
    }
}

proof fn lemma_has_entry<V>(entries: Seq<(Ident, V)>, n: int)
    requires
        0 <= n < entries.len(),
    ensures
        table_view(entries).dom().contains(entries[n].0@),
    decreases entries.len(),
{
    if n < entries.len() - 1 {
        lemma_has_entry(entries.drop_last(), n);
    }
}

proof fn lemma_entry_of<V>(entries: Seq<(Ident, V)>, id: SpecIdent) -> (n: int)
    requires
        table_view(entries).dom().contains(id),
    ensures
        0 <= n < entries.len(),
        entries[n].0@ == id,
    decreases entries.len(),
{
    if entries.last().0@ == id {
        entries.len() - 1
    } else {
        lemma_entry_of(entries.drop_last(), id)
    }
}

impl<V: Copy> BindingTable<V> {
    pub fn new() -> (r: Self)
        ensures
            r@ == Map::<SpecIdent, V>::empty(),
    {
        BindingTable { entries: Vec::new() }
    }

    /// Maps an identifier to a value, whatever it was mapped to before.
    pub fn insert(&mut self, id: Ident, value: V)
        ensures
            final(self)@ == old(self)@.insert(id@, value),
    {
        self.entries.push((id, value));
        assert(self.entries@.drop_last() =~= old(self).entries@);
    }

    /// What an identifier maps to.
    pub fn get(&self, id: &Ident) -> (r: Option<V>)
        ensures
            r == (if self@.dom().contains(id@) {
                Some(self@[id@])
            } else {
                None
            }),
    {
        let mut i: usize = self.entries.len();
        while i > 0
            invariant
                i <= self.entries@.len(),
                forall|j: int| i <= j < self.entries@.len() ==> (#[trigger] self.entries@[j]).0@
                    != id@,
            decreases i,
        {
            i -= 1;
            if same_binding(&self.entries[i].0, id) {
                proof {
                    lemma_last_entry_counts(self.entries@, id@, i as int);
                }
                return Some(self.entries[i].1);
            }
        }
        proof {
            lemma_no_entry(self.entries@, id@);
        }
        None
    }

    /// Whether some identifier of the table has the given symbol.
    pub fn has_sym(&self, sym: &str) -> (r: bool)
        ensures
            r == exists|id: SpecIdent| #[trigger] self@.dom().contains(id) && id.sym == sym@,
    {
        let mut i: usize = 0;
        while i < self.entries.len()
            invariant
                i <= self.entries@.len(),
                forall|j: int| 0 <= j < i ==> (#[trigger] self.entries@[j]).0@.sym != sym@,
            decreases self.entries.len() - i,
        {
            if str_eq(self.entries[i].0.sym.as_str(), sym) {
                proof {
                    lemma_has_entry(self.entries@, i as int);
                    assert(self@.dom().contains(self.entries@[i as int].0@));
                }
                return true;
            }
            i += 1;
        }
        assert forall|id: SpecIdent| #[trigger] self@.dom().contains(id) implies id.sym != sym@ by {
            let n = lemma_entry_of(self.entries@, id);
            assert(self.entries@[n].0@.sym != sym@);
        }
        false
    }

    pub fn len(&self) -> (r: usize)
        ensures
            r == self.size(),
    {
        self.entries.len()
    }

    /// The number of entries.
    pub closed spec fn size(&self) -> nat {
        self.entries@.len()
    }

    /// The identifier of entry `i`.
    pub closed spec fn key(&self, i: int) -> SpecIdent {
        self.entries@[i].0@
    }

    /// A copy of the identifier of entry `i`.
    pub fn key_at(&self, i: usize) -> (r: Ident)
        requires
            i < self.size(),
        ensures
            r@ == self.key(i as int),
    {
        copy_ident(&self.entries[i].0)
    }

    /// The keys of the entries are the identifiers of the table.
    pub proof fn lemma_keys(&self)
        ensures
            forall|i: int| 0 <= i < self.size() ==> self@.dom().contains(#[trigger] self.key(i)),
            forall|id: SpecIdent| #[trigger] self@.dom().contains(id) ==> exists|i: int|
                0 <= i < self.size() && #[trigger] self.key(i) == id,
    {
        assert forall|i: int| 0 <= i < self.size() implies self@.dom().contains(
            #[trigger] self.key(i),
        ) by {
            lemma_has_entry(self.entries@, i);
        }
        assert forall|id: SpecIdent| #[trigger] self@.dom().contains(id) implies exists|i: int|
            0 <= i < self.size() && #[trigger] self.key(i) == id by {
            let n = lemma_entry_of(self.entries@, id);
            assert(self.key(n) == id);
        }
    }
}

} // verus!
