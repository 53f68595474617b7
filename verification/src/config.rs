//! Compiler configuration.
use crate::text::str_eq;
use vstd::prelude::*;

verus! {

/// The configuration of the compiler. The default is to compile nothing
/// beyond the UI library's own factories.
#[derive(Debug, Clone, PartialEq, Eq)]
pub struct CompileConfig {
    /// Modules whose capitalized named exports are factories that take their
    /// props first. Other exports of such a module are ignored.
    pub factory_modules: Vec<String>,
}

impl View for CompileConfig {
    type V = Set<Seq<char>>;

    /// The names of the factory modules.
    open spec fn view(&self) -> Set<Seq<char>> {
        modules_view(self.factory_modules@)
    }
}

pub open spec fn modules_view(modules: Seq<String>) -> Set<Seq<char>> {
    Set::new(
        |name: Seq<char>|
            exists|i: int| 0 <= i < modules.len() && (#[trigger] modules[i])@ == name,
    )
}

impl Default for CompileConfig {
    fn default() -> (r: CompileConfig)
        ensures
            r.factory_modules@ == Seq::<String>::empty(),
            r@ == Set::<Seq<char>>::empty(),
    {
        let r = CompileConfig { factory_modules: Vec::new() };
        assert(r@ =~= Set::<Seq<char>>::empty());
        r
    }
}

impl CompileConfig {
    /// The configuration that a host hands over as JSON text, read with
    /// `parse`. Without a text, and where the text does not parse, this is the
    /// default: a bad configuration never fails a build.
    pub fn from_json<F: Fn(&str) -> Option<CompileConfig>>(json: Option<&str>, parse: F) -> (r:
        CompileConfig)
        requires
            json matches Some(text) ==> call_requires(parse, (text,)),
        ensures
            json is None ==> r.factory_modules@.len() == 0,
            json matches Some(text) ==> exists|parsed: Option<CompileConfig>| #[trigger]
                call_ensures(parse, (text,), parsed) && match parsed {
                    Some(config) => r == config,
                    None => r.factory_modules@.len() == 0,
                },
    {
        match json {
            Some(text) => match parse(text) {
                Some(config) => config,
                None => CompileConfig::default(),
            },
            None => CompileConfig::default(),
        }
    }

    /// Whether `name` is a factory module.
    pub fn is_factory_module(&self, name: &str) -> (r: bool)
        ensures
            r == self@.contains(name@),
    {
        let mut i: usize = 0;
        while i < self.factory_modules.len()
            invariant
                i <= self.factory_modules@.len(),
                forall|j: int| 0 <= j < i ==> (#[trigger] self.factory_modules@[j])@ != name@,
            decreases self.factory_modules.len() - i,
        {
            if str_eq(self.factory_modules[i].as_str(), name) {
                assert(self.factory_modules@[i as int]@ == name@);
                return true;
            }
            i += 1;
        }
        false
    }
}

/// A module counts exactly if it is listed, wherever in the list.
pub proof fn law_listed_modules(modules: Seq<String>, name: Seq<char>)
    ensures
        modules_view(modules).contains(name) <==> exists|i: int|
            0 <= i < modules.len() && (#[trigger] modules[i])@ == name,
{
}

} // verus!
