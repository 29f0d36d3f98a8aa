//! The buildings of a machine taken together: whether they are well
//! formed, and the count of the processors that run.

use crate::building::{Building, BuildingData};
use crate::catalog::Catalog;
use vstd::prelude::*;

verus! {

/// The number of running processors among the first `n` buildings.
pub open spec fn running_among(buildings: Seq<Building>, n: int) -> int
    decreases n,
{
    if n <= 0 {
        0
    } else {
        running_among(buildings, n - 1) + if buildings[n - 1].running() {
            1int
        } else {
            0
        }
    }
}

/// The count of running processors among the first `n` buildings does not
/// depend on the buildings from `n` on.
pub proof fn lemma_running_prefix(a: Seq<Building>, b: Seq<Building>, n: int)
    requires
        n <= a.len(),
        n <= b.len(),
        forall|i: int| 0 <= i < n ==> a[i].running() == b[i].running(),
    ensures
        running_among(a, n) == running_among(b, n),
    decreases n,
{
    if n > 0 {
        lemma_running_prefix(a, b, n - 1);
    }
}

/// The count of running processors is between none and all.
pub proof fn lemma_running_bounds(a: Seq<Building>, n: int)
    requires
        0 <= n,
    ensures
        0 <= running_among(a, n) <= n,
    decreases n,
{
    if n > 0 {
        lemma_running_bounds(a, n - 1);
    }
}

/// How the count changes where the building at `i` changes.
pub proof fn lemma_running_update(a: Seq<Building>, b: Seq<Building>, i: int, n: int)
    requires
        0 <= i < n <= a.len(),
        a.len() == b.len(),
        forall|j: int| 0 <= j < n && j != i ==> a[j].running() == b[j].running(),
    ensures
        running_among(b, n) == running_among(a, n) - (if a[i].running() {
            1int
        } else {
            0
        }) + (if b[i].running() {
            1int
        } else {
            0
        }),
    decreases n,
{
    if n - 1 == i {
        lemma_running_prefix(a, b, n - 1);
    } else {
        lemma_running_update(a, b, i, n - 1);
    }
}

/// Whether every building is well formed for a catalog and is a
/// processor, or none is one, as `processor` says.
pub fn check_buildings(buildings: &Vec<Building>, processor: bool, catalog: &Catalog) -> (ok: bool)
    requires
        catalog.wf(),
    ensures
        ok == (forall|i: int|
            0 <= i < buildings@.len() ==> (#[trigger] buildings@[i]).wf(catalog)
                && buildings@[i].is_processor() == processor),
{
    let n: usize = buildings.len();
    let mut i: usize = 0;
    while i < n
        invariant
            i <= n == buildings@.len(),
            catalog.wf(),
            forall|j: int|
                0 <= j < i ==> (#[trigger] buildings@[j]).wf(catalog)
                    && buildings@[j].is_processor() == processor,
        decreases n - i,
    {
        let b = &buildings[i];
        let is: bool = match &b.data {
            BuildingData::Processor(_) => true,
            BuildingData::Unknown { .. } => false,
        };
        if is != processor || !b.check(catalog) {
            return false;
        }
        i = i + 1;
    }
    true
}

/// The number of running processors among the buildings.
pub fn count_running(buildings: &Vec<Building>) -> (count: usize)
    ensures
        count == running_among(buildings@, buildings@.len() as int),
{
    let n: usize = buildings.len();
    let mut count: usize = 0;
    let mut i: usize = 0;
    while i < n
        invariant
            i <= n == buildings@.len(),
            count == running_among(buildings@, i as int),
            count <= i,
        decreases n - i,
    {
        let runs: bool = match &buildings[i].data {
            BuildingData::Processor(p) => p.enabled(),
            BuildingData::Unknown { .. } => false,
        };
        assert(runs == buildings@[i as int].running());
        assert(running_among(buildings@, i + 1) == running_among(buildings@, i as int) + if runs {
            1int
        } else {
            0
        });
        if runs {
            count = count + 1;
        }
        i = i + 1;
    }
    count
}

} // verus!
