//! The set of discovered modules.
//!
//! A registry keeps its modules in the order in which they were inserted.
//! It holds at most one module per canonical path, and the identifier of a
//! module is its position.

use crate::module::{Module, ModuleView};
use vstd::prelude::*;

verus! {

/// Whether a module with canonical path `path` is among `modules`.
pub open spec fn known(modules: Seq<ModuleView>, path: Seq<char>) -> bool {
    exists|i: int| 0 <= i < modules.len() && (#[trigger] modules[i]).path == path
}

/// Identifiers are positions, and no canonical path occurs twice.
pub open spec fn well_formed(modules: Seq<ModuleView>) -> bool {
    &&& forall|i: int| 0 <= i < modules.len() ==> (#[trigger] modules[i]).id == i
    &&& forall|i: int, j: int|
        0 <= i < j < modules.len() ==> (#[trigger] modules[i]).path != (#[trigger] modules[j]).path
}

/// A well-formed registry stays so when a module with the next identifier
/// and a new canonical path is appended.
pub proof fn lemma_push_well_formed(modules: Seq<ModuleView>, module: ModuleView)
    requires
        well_formed(modules),
        module.id == modules.len(),
        !known(modules, module.path),
    ensures
        well_formed(modules.push(module)),
{
    let after = modules.push(module);
    assert forall|i: int, j: int| 0 <= i < j < after.len() implies (#[trigger] after[i]).path != (
    #[trigger] after[j]).path by {
        if j == modules.len() {
            assert(modules[i].path != module.path);
        }
    }
}

/// The identifiers of the modules, in order.
pub open spec fn identifiers(modules: Seq<ModuleView>) -> Seq<nat> {
    modules.map_values(|m: ModuleView| m.id)
}

/// The canonical paths of the modules, in order.
pub open spec fn paths(modules: Seq<ModuleView>) -> Seq<Seq<char>> {
    modules.map_values(|m: ModuleView| m.path)
}

/// Identifier contiguity: the identifiers of a well-formed registry of `n`
/// modules are exactly the numbers below `n`.
pub proof fn lemma_identifiers_contiguous(modules: Seq<ModuleView>)
    requires
        well_formed(modules),
    ensures
        identifiers(modules).to_set() == Set::new(|id: nat| id < modules.len()),
        identifiers(modules).no_duplicates(),
{
    let ids = identifiers(modules);
    assert forall|id: nat| ids.to_set().contains(id) <==> id < modules.len() by {
        if id < modules.len() {
            assert(ids[id as int] == id);
        }
    }
    assert(ids.to_set() =~= Set::new(|id: nat| id < modules.len()));
}

/// No duplicates: the canonical paths of a well-formed registry are pairwise
/// distinct, so there are as many distinct paths as modules.
pub proof fn lemma_paths_distinct(modules: Seq<ModuleView>)
    requires
        well_formed(modules),
    ensures
        paths(modules).no_duplicates(),
        paths(modules).to_set().len() == modules.len(),
        forall|path: Seq<char>| paths(modules).to_set().contains(path) <==> known(modules, path),
{
    let all = paths(modules);
    assert forall|i: int, j: int| 0 <= i < all.len() && 0 <= j < all.len() && i != j implies all[i]
        != all[j] by {
        if i < j {
            assert(modules[i].path != modules[j].path);
        } else {
            assert(modules[j].path != modules[i].path);
        }
    }
    all.unique_seq_to_set();
    assert forall|path: Seq<char>| all.to_set().contains(path) <==> known(modules, path) by {
        if all.to_set().contains(path) {
            let i = choose|i: int| 0 <= i < all.len() && all[i] == path;
            assert(modules[i].path == path);
        }
        if known(modules, path) {
            let i = choose|i: int| 0 <= i < modules.len() && (#[trigger] modules[i]).path == path;
            assert(all[i] == path);
        }
    }
}

/// The modules discovered so far.
pub struct Registry {
    modules: Vec<Module>,
}

impl View for Registry {
    type V = Seq<ModuleView>;

    closed spec fn view(&self) -> Seq<ModuleView> {
        self.modules@.map_values(|m: Module| m@)
    }
}

impl Registry {
    /// An empty registry.
    pub fn new() -> (registry: Registry)
        ensures
            registry@ == Seq::<ModuleView>::empty(),
            well_formed(registry@),
    {
        let registry = Registry { modules: Vec::new() };
        assert(registry@ =~= Seq::<ModuleView>::empty());
        registry
    }

    /// The number of modules.
    pub fn len(&self) -> (count: usize)
        ensures
            count == self@.len(),
    {
        self.modules.len()
    }

    /// The identifier that the next module to be inserted must carry.
    pub fn next_id(&self) -> (id: usize)
        ensures
            id == self@.len(),
    {
        self.modules.len()
    }

    /// Whether a module with this canonical path has been inserted.
    pub fn contains(&self, canonical_path: &str) -> (found: bool)
        ensures
            found == known(self@, canonical_path@),
    {
        let wanted = canonical_path.to_owned();
        let mut i: usize = 0;
        while i < self.modules.len()
            invariant
                i <= self.modules.len(),
                wanted@ == canonical_path@,
                forall|k: int| 0 <= k < i ==> (#[trigger] self@[k]).path != canonical_path@,
            decreases self.modules.len() - i,
        {
            if self.modules[i].path_name == wanted {
                assert(self@[i as int].path == canonical_path@);
                return true;
            }
            i = i + 1;
        }
        false
    }

    /// Adds `module` if it carries the next identifier and its canonical
    /// path is new; otherwise leaves the registry as it is. Says which.
    /// A well-formed registry stays well formed.
    pub fn insert(&mut self, module: Module) -> (inserted: bool)
        ensures
            inserted == (module@.id == old(self)@.len() && !known(old(self)@, module@.path)),
            inserted ==> final(self)@ == old(self)@.push(module@),
            !inserted ==> final(self)@ == old(self)@,
            well_formed(old(self)@) ==> well_formed(final(self)@),
    {
        if module.id != self.modules.len() || self.contains(module.path_name.as_str()) {
            return false;
        }
        let ghost before = self@;
        let ghost added = module@;
        self.modules.push(module);
        proof {
            assert(self@ =~= before.push(added));
            if well_formed(before) {
                lemma_push_well_formed(before, added);
            }
        }
        true
    }

    /// The module with identifier `id`, if there is one.
    pub fn get(&self, id: usize) -> (module: Option<&Module>)
        ensures
            match module {
                Some(m) => id < self@.len() && m@ == self@[id as int],
                None => id >= self@.len(),
            },
    {
        if id < self.modules.len() {
            Some(&self.modules[id])
        } else {
            None
        }
    }
}

} // verus!
