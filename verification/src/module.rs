//! A discovered module.
//!
//! The canonical path is the identity of a module: two modules are equal
//! when their paths are, whatever else they hold. The identifier orders
//! modules by discovery.

use crate::syntax::{SyntaxTree, SyntaxTreeView};
use core::cmp::Ordering;
use vstd::prelude::*;
use vstd::std_specs::cmp::{PartialEqSpecImpl, PartialOrdSpecImpl};

verus! {

/// One physical source file that has been discovered.
#[derive(Debug, Clone)]
pub struct Module {
    /// Position in the order of first discovery, counted from zero.
    pub id: usize,
    /// The absolute path of the file, with links and relative segments
    /// resolved.
    pub path_name: String,
    /// The parsed contents; absent in a module made only to be compared.
    pub ast: Option<SyntaxTree>,
}

pub struct ModuleView {
    pub id: nat,
    pub path: Seq<char>,
    pub tree: Option<SyntaxTreeView>,
}

impl View for Module {
    type V = ModuleView;

    open spec fn view(&self) -> ModuleView {
        ModuleView {
            id: self.id as nat,
            path: self.path_name@,
            tree: match self.ast {
                Some(tree) => Some(tree@),
                None => None,
            },
        }
    }
}

impl Module {
    /// The canonical path as a string of its own.
    pub fn path_name_as_str(&self) -> (path: String)
        ensures
            path@ == self@.path,
    {
        self.path_name.clone()
    }
}

impl PartialEq for Module {
    fn eq(&self, other: &Self) -> (same: bool) {
        self.path_name == other.path_name
    }
}

impl PartialEqSpecImpl for Module {
    open spec fn obeys_eq_spec() -> bool {
        true
    }

    open spec fn eq_spec(&self, other: &Self) -> bool {
        self.path_name@ == other.path_name@
    }
}

impl Eq for Module {

}

impl PartialOrd for Module {
    fn partial_cmp(&self, other: &Self) -> (order: Option<Ordering>) {
        if self.id < other.id {
            Some(Ordering::Less)
        } else if self.id == other.id {
            Some(Ordering::Equal)
        } else {
            Some(Ordering::Greater)
        }
    }
}

impl PartialOrdSpecImpl for Module {
    open spec fn obeys_partial_cmp_spec() -> bool {
        true
    }

    open spec fn partial_cmp_spec(&self, other: &Self) -> Option<Ordering> {
        if self.id < other.id {
            Some(Ordering::Less)
        } else if self.id == other.id {
            Some(Ordering::Equal)
        } else {
            Some(Ordering::Greater)
        }
    }
}

} // verus!
