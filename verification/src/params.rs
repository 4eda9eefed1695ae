//! Keys and map types for the parameter store.

use crate::assoc::AssocMap;
use crate::assoc::MapKey;
use crate::assoc::MapVal;
use vstd::prelude::*;

verus! {

/// Unique identity of a stored parameter value: a region and a name.
/// Two keys are equal iff both fields match exactly.
#[derive(Debug, Clone, PartialEq, Eq, Hash)]
pub struct SsmKey {
    pub region: String,
    pub name: String,
}

/// The mathematical identity of an [`SsmKey`].
pub struct SsmKeyView {
    pub region: Seq<char>,
    pub name: Seq<char>,
}

impl View for SsmKey {
    type V = SsmKeyView;

    open spec fn view(&self) -> SsmKeyView {
        SsmKeyView { region: self.region@, name: self.name@ }
    }
}

impl SsmKey {
    pub fn new(region: String, name: String) -> (r: Self)
        ensures
            r@ == (SsmKeyView { region: region@, name: name@ }),
    {
        SsmKey { region, name }
    }
}

impl MapKey for SsmKey {
    fn key_eq(&self, other: &Self) -> (r: bool) {
        self.region.eq(&other.region) && self.name.eq(&other.name)
    }

    fn key_dup(&self) -> (r: Self) {
        SsmKey { region: self.region.clone(), name: self.name.clone() }
    }
}

/// A mapping from parameter keys to their (opaque) string values.
pub type ParameterMap = AssocMap<SsmKey, String>;

/// A mapping from one name to another: template string to rendered name, or
/// source-rendered name to target-rendered name.
pub type NameMap = AssocMap<String, String>;

/// A mapping from region name to the parameters of that region.
pub type RegionMap = AssocMap<String, ParameterMap>;

impl MapVal for ParameterMap {
    fn val_eq(&self, other: &Self) -> (r: bool) {
        self.map_eq(other)
    }

    fn val_dup(&self) -> (r: Self) {
        self.dup()
    }
}

} // verus!
