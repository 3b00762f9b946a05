//! The registry: a name-keyed catalog of units.
//!
//! Entries are only ever added, never replaced or removed; a duplicate name
//! is rejected at insertion.  The registry's mathematical content is the map
//! from names to unit models.

use crate::errors::ArshinError;
use crate::strings::str_eq;
use crate::units::{unit_model_wf, Unit, UnitModel};
use vstd::prelude::*;

verus! {

/// A name-keyed store of units.
#[derive(Debug)]
pub struct UnitRegistry {
    pub units: Vec<Unit>,
}

/// The map from unit names to unit models held by a sequence of units;
/// later entries shadow earlier ones (a well-formed registry has no
/// duplicates to shadow).
pub open spec fn spec_registry_map(units: Seq<Unit>) -> Map<Seq<char>, UnitModel>
    decreases units.len(),
{
    if units.len() == 0 {
        Map::empty()
    } else {
        spec_registry_map(units.drop_last()).insert(units.last()@.name, units.last()@)
    }
}

impl View for UnitRegistry {
    type V = Map<Seq<char>, UnitModel>;

    open spec fn view(&self) -> Map<Seq<char>, UnitModel> {
        spec_registry_map(self.units@)
    }
}

/// A name is in the map exactly when some stored unit bears it.
pub proof fn lemma_registry_map_contains(units: Seq<Unit>, n: Seq<char>)
    ensures
        spec_registry_map(units).contains_key(n) <==> exists|i: int|
            0 <= i < units.len() && units[i]@.name == n,
    decreases units.len(),
{
    if units.len() > 0 {
        lemma_registry_map_contains(units.drop_last(), n);
        if spec_registry_map(units).contains_key(n) {
            if units.last()@.name != n {
                let i = choose|i: int|
                    0 <= i < units.drop_last().len() && units.drop_last()[i]@.name == n;
                assert(units[i]@.name == n);
            }
        }
        if exists|i: int| 0 <= i < units.len() && units[i]@.name == n {
            let i = choose|i: int| 0 <= i < units.len() && units[i]@.name == n;
            if i < units.len() - 1 {
                assert(units.drop_last()[i]@.name == n);
            }
        }
    }
}

/// Under unique names, the map sends each stored unit's name to its model.
pub proof fn lemma_registry_map_index(units: Seq<Unit>, i: int)
    requires
        0 <= i < units.len(),
        forall|p: int, q: int|
            0 <= p < q < units.len() ==> units[p]@.name != units[q]@.name,
    ensures
        spec_registry_map(units).contains_key(units[i]@.name),
        spec_registry_map(units)[units[i]@.name] == units[i]@,
    decreases units.len(),
{
    if i == units.len() - 1 {
    } else {
        lemma_registry_map_index(units.drop_last(), i);
        assert(units.drop_last()[i] == units[i]);
        assert(units[i]@.name != units.last()@.name);
    }
}

impl UnitRegistry {
    /// Well-formedness: all names distinct, every unit well formed.
    pub open spec fn wf(&self) -> bool {
        &&& forall|i: int, j: int|
            0 <= i < j < self.units@.len() ==> self.units@[i]@.name != self.units@[j]@.name
        &&& forall|i: int| 0 <= i < self.units@.len() ==> unit_model_wf(#[trigger] self.units@[i]@)
    }

    /// Every model in a well-formed registry's map is well formed.
    pub proof fn lemma_wf_values(&self, n: Seq<char>)
        requires
            self.wf(),
            self@.contains_key(n),
        ensures
            unit_model_wf(self@[n]),
            self@[n].name == n,
    {
        lemma_registry_map_contains(self.units@, n);
        let i = choose|i: int| 0 <= i < self.units@.len() && self.units@[i]@.name == n;
        lemma_registry_map_index(self.units@, i);
    }

    /// An empty registry.
    pub fn new() -> (r: UnitRegistry)
        ensures
            r.wf(),
            r@ == Map::<Seq<char>, UnitModel>::empty(),
            r.units@.len() == 0,
    {
        UnitRegistry { units: Vec::new() }
    }

    /// The names of all registered units, in insertion order.
    pub fn unit_names(&self) -> (r: Vec<String>)
        requires
            self.wf(),
        ensures
            r@.len() == self.units@.len(),
            forall|i: int| 0 <= i < r@.len() ==> r@[i]@ == self.units@[i]@.name,
            forall|i: int| 0 <= i < r@.len() ==> self@.contains_key(#[trigger] r@[i]@),
    {
        let mut names: Vec<String> = Vec::new();
        let n = self.units.len();
        let mut i: usize = 0;
        while i < n
            invariant
                0 <= i <= n,
                n == self.units@.len(),
                names@.len() == i,
                forall|j: int| 0 <= j < i ==> names@[j]@ == self.units@[j]@.name,
            decreases n - i,
        {
            names.push(self.units[i].name.clone());
            i = i + 1;
        }
        proof {
            assert forall|i: int| 0 <= i < names@.len() implies self@.contains_key(
                #[trigger] names@[i]@,
            ) by {
                lemma_registry_map_contains(self.units@, names@[i]@);
            }
        }
        names
    }

    /// Registers a unit.  Fails with `DuplicateUnitName`, leaving the
    /// registry unchanged, exactly when a unit of that name already exists.
    pub fn register(&mut self, unit: Unit) -> (r: Result<(), ArshinError>)
        requires
            old(self).wf(),
            unit.wf(),
        ensures
            final(self).wf(),
            r is Ok <==> !old(self)@.contains_key(unit@.name),
            r is Ok ==> final(self)@ == old(self)@.insert(unit@.name, unit@)
                && final(self).units@ == old(self).units@.push(unit),
            r matches Err(e) ==> final(self)@ == old(self)@ && final(self).units@ == old(
                self,
            ).units@ && (e matches ArshinError::DuplicateUnitName { name } && name@ == unit@.name),
    {
        if self.contains(unit.name.as_str()) {
            let name = unit.name.clone();
            Err(ArshinError::DuplicateUnitName { name })
        } else {
            proof {
                lemma_registry_map_contains(self.units@, unit@.name);
                assert(self.units@.push(unit).drop_last() =~= self.units@);
            }
            self.units.push(unit);
            Ok(())
        }
    }

    /// True exactly when a unit of this name is registered.
    pub fn contains(&self, name: &str) -> (b: bool)
        ensures
            b == self@.contains_key(name@),
    {
        let n = self.units.len();
        let mut i: usize = 0;
        while i < n
            invariant
                0 <= i <= n,
                n == self.units@.len(),
                forall|j: int| 0 <= j < i ==> self.units@[j]@.name != name@,
            decreases n - i,
        {
            if str_eq(self.units[i].name.as_str(), name) {
                proof {
                    lemma_registry_map_contains(self.units@, name@);
                    assert(exists|j: int|
                        0 <= j < self.units@.len() && self.units@[j]@.name == name@) by {
                        assert(self.units@[i as int]@.name == name@);
                    }
                }
                return true;
            }
            i = i + 1;
        }
        proof {
            lemma_registry_map_contains(self.units@, name@);
        }
        false
    }

    /// Looks a unit up by name; absent names yield `None`.
    pub fn get(&self, name: &str) -> (r: Option<&Unit>)
        requires
            self.wf(),
        ensures
            r is Some <==> self@.contains_key(name@),
            r matches Some(u) ==> u@ == self@[name@] && u@.name == name@,
    {
        let n = self.units.len();
        let mut i: usize = 0;
        while i < n
            invariant
                0 <= i <= n,
                n == self.units@.len(),
                self.wf(),
                forall|j: int| 0 <= j < i ==> self.units@[j]@.name != name@,
            decreases n - i,
        {
            if str_eq(self.units[i].name.as_str(), name) {
                proof {
                    lemma_registry_map_contains(self.units@, name@);
                    lemma_registry_map_index(self.units@, i as int);
                }
                return Some(&self.units[i]);
            }
            i = i + 1;
        }
        proof {
            lemma_registry_map_contains(self.units@, name@);
        }
        None
    }
}

} // verus!
