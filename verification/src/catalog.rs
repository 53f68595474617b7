//! What the UI library exports: its CSS properties and its HTML factories.
use crate::text::str_eq;
use vstd::prelude::*;

verus! {

/// An HTML factory of the UI library.
#[derive(Debug)]
pub struct Factory {
    pub name: String,
    /// Whether the factory takes its children before its props.
    pub children_first: bool,
}

/// The tables generated from the UI library's own exports.
#[derive(Debug)]
pub struct Catalog {
    pub css_props: Vec<String>,
    pub factories: Vec<Factory>,
}

/// The tables as mathematical values.
pub struct SpecCatalog {
    pub css_props: Set<Seq<char>>,
    pub factories: Map<Seq<char>, bool>,
}

/// The factories of a table, where the first entry of a name counts.
pub open spec fn factories_view(table: Seq<Factory>) -> Map<Seq<char>, bool>
    decreases table.len(),
{
    if table.len() == 0 {
        Map::empty()
    } else {
        let rest = factories_view(table.drop_last());
        let name = table.last().name@;
        if rest.dom().contains(name) {
            rest
        } else {
            rest.insert(name, table.last().children_first)
        }
    }
}

impl View for Catalog {
    type V = SpecCatalog;

    open spec fn view(&self) -> SpecCatalog {
        SpecCatalog {
            css_props: Set::new(
                |name: Seq<char>|
                    exists|i: int|
                        0 <= i < self.css_props@.len() && (#[trigger] self.css_props@[i])@ == name,
            ),
            factories: factories_view(self.factories@),
        }
    }
}

impl Catalog {
    /// Whether `name` is a CSS property.
    pub fn is_css_prop(&self, name: &str) -> (r: bool)
        ensures
            r == self@.css_props.contains(name@),
    {
        let mut i: usize = 0;
        while i < self.css_props.len()
            invariant
                i <= self.css_props@.len(),
                forall|j: int| 0 <= j < i ==> (#[trigger] self.css_props@[j])@ != name@,
            decreases self.css_props.len() - i,
        {
            if str_eq(self.css_props[i].as_str(), name) {
                assert(self.css_props@[i as int]@ == name@);
                return true;
            }
            i += 1;
        }
        false
    }

    /// Whether the factory `name` takes its children first, or `None` where
    /// there is no such factory.
    pub fn factory_children_first(&self, name: &str) -> (r: Option<bool>)
        ensures
            r == (if self@.factories.dom().contains(name@) {
                Some(self@.factories[name@])
            } else {
                None
            }),
    {
        let mut i: usize = 0;
        while i < self.factories.len()
            invariant
                i <= self.factories@.len(),
                !factories_view(self.factories@.take(i as int)).dom().contains(name@),
            decreases self.factories.len() - i,
        {
            assert(self.factories@.take(i + 1).drop_last() == self.factories@.take(i as int));
            if str_eq(self.factories[i].name.as_str(), name) {
                proof {
                    lemma_first_entry_counts(self.factories@, i + 1, name@);
                }
                return Some(self.factories[i].children_first);
            }
            i += 1;
        }
        assert(self.factories@.take(i as int) == self.factories@);
        None
    }
}

/// Later entries of a table do not change what an earlier one says.
proof fn lemma_first_entry_counts(table: Seq<Factory>, n: int, name: Seq<char>)
    requires
        0 <= n <= table.len(),
        factories_view(table.take(n)).dom().contains(name),
    ensures
        factories_view(table).dom().contains(name),
        factories_view(table)[name] == factories_view(table.take(n))[name],
    decreases table.len(),
{
    if n == table.len() {
        assert(table.take(n) == table);
    } else {
        assert(table.drop_last().take(n) == table.take(n));
        lemma_first_entry_counts(table.drop_last(), n, name);
    }
}

/// A name is a factory exactly if it has an entry in the table. Of several
/// entries the first counts.
pub proof fn law_first_entry_counts(table: Seq<Factory>, name: Seq<char>)
    ensures
        factories_view(table).dom().contains(name) <==> exists|i: int|
            0 <= i < table.len() && (#[trigger] table[i]).name@ == name,
        forall|i: int|
            0 <= i < table.len() && (#[trigger] table[i]).name@ == name && (forall|j: int|
                0 <= j < i ==> (#[trigger] table[j]).name@ != name) ==> factories_view(table)[name]
                == table[i].children_first,
    decreases table.len(),
{
    if table.len() > 0 {
        let rest = table.drop_last();
        let n = table.len() - 1;
        law_first_entry_counts(rest, name);
        assert(table[n] == table.last());
        if factories_view(rest).dom().contains(name) {
            let i = choose|i: int| 0 <= i < rest.len() && (#[trigger] rest[i]).name@ == name;
            assert(table[i].name@ == name);
        }
        assert forall|i: int|
            0 <= i < table.len() && (#[trigger] table[i]).name@ == name && (forall|j: int|
                0 <= j < i ==> (#[trigger] table[j]).name@
                    != name) implies factories_view(table)[name] == table[i].children_first by {
            if i < n {
                assert(rest[i] == table[i]);
                assert forall|j: int| 0 <= j < i implies (#[trigger] rest[j]).name@ != name by {
                    assert(rest[j] == table[j]);
                }
            } else if factories_view(rest).dom().contains(name) {
                let j = choose|j: int| 0 <= j < rest.len() && (#[trigger] rest[j]).name@ == name;
                assert(table[j].name@ == name);
            }
        }
        if exists|i: int| 0 <= i < table.len() && (#[trigger] table[i]).name@ == name {
            let i = choose|i: int| 0 <= i < table.len() && (#[trigger] table[i]).name@ == name;
            if i < n {
                assert(rest[i] == table[i]);
            }
        }
    }
}

/// A name is a CSS property exactly if it is listed as one, wherever in the
/// list.
pub proof fn law_listed_css_props(catalog: Catalog, name: Seq<char>)
    ensures
        catalog@.css_props.contains(name) <==> exists|i: int|
            0 <= i < catalog.css_props@.len() && (#[trigger] catalog.css_props@[i])@ == name,
{
}

} // verus!
