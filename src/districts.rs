//! District and state master data, and the merging of Berlin's districts
//! into one.

use vstd::prelude::*;

use crate::context::{DistrictId, StateId};
use crate::records::GeoCaseKey;

verus! {

/// The state id of Berlin.
pub const BERLIN_STATE_ID: StateId = 11;

/// The district id under which Berlin is counted as a whole.
pub const BERLIN_DISTRICT_ID: DistrictId = 11000;

#[derive(Debug)]
pub struct StateInfo {
    pub id: StateId,
    pub name: String,
}

#[derive(Debug)]
pub struct DistrictInfo {
    pub id: DistrictId,
    pub name: String,
    pub state: StateInfo,
    pub population: u64,
}

/// One row of the district master data.
#[derive(Debug)]
pub struct RawDistrictRow {
    pub state_id: StateId,
    pub state_name: String,
    pub district_id: DistrictId,
    pub district_name: String,
    pub population: u64,
}

/// Whether a district id is one of Berlin's boroughs (or Berlin as a whole).
pub open spec fn in_berlin(id: DistrictId) -> bool {
    11000 <= id < 12000
}

/// The district a district's counts are kept under: Berlin as a whole for
/// its boroughs, the district itself otherwise.
pub fn remap_berlin(id: DistrictId) -> (r: DistrictId)
    ensures
        r == (if in_berlin(id) { BERLIN_DISTRICT_ID } else { id }),
{
    if id >= 11000 && id < 12000 {
        BERLIN_DISTRICT_ID
    } else {
        id
    }
}

/// The keys of the districts of Berlin's state, in order.
pub open spec fn berlin_keys(ds: Seq<DistrictInfo>) -> Seq<GeoCaseKey>
    decreases ds.len(),
{
    if ds.len() == 0 {
        Seq::empty()
    } else {
        let d = ds.last();
        berlin_keys(ds.drop_last()) + if d.state.id == BERLIN_STATE_ID {
            seq![GeoCaseKey { state_id: d.state.id, district_id: d.id }]
        } else {
            Seq::empty()
        }
    }
}

/// The keys of every district that belongs to Berlin's state.
pub fn find_berlin_districts(districts: &Vec<DistrictInfo>) -> (r: Vec<GeoCaseKey>)
    ensures
        r@ == berlin_keys(districts@),
{
    let mut result: Vec<GeoCaseKey> = Vec::new();
    let mut i: usize = 0;
    while i < districts.len()
        invariant
            i <= districts@.len(),
            result@ == berlin_keys(districts@.subrange(0, i as int)),
        decreases districts@.len() - i,
    {
        let d = &districts[i];
        if d.state.id == BERLIN_STATE_ID {
            result.push(GeoCaseKey { state_id: d.state.id, district_id: d.id });
        }
        proof {
            let next = districts@.subrange(0, i + 1);
            assert(next.drop_last() =~= districts@.subrange(0, i as int));
            assert(result@ =~= berlin_keys(next));
        }
        i = i + 1;
    }
    assert(districts@.subrange(0, districts@.len() as int) =~= districts@);
    result
}

/// The population of the districts in Berlin's id range.
pub open spec fn berlin_population(ds: Seq<DistrictInfo>) -> int
    decreases ds.len(),
{
    if ds.len() == 0 {
        0
    } else {
        berlin_population(ds.drop_last()) + if in_berlin(ds.last().id) { ds.last().population as int } else { 0 }
    }
}

/// The districts other than Berlin as a whole.
pub open spec fn without_berlin(ds: Seq<DistrictInfo>) -> Seq<DistrictInfo>
    decreases ds.len(),
{
    if ds.len() == 0 {
        Seq::empty()
    } else {
        without_berlin(ds.drop_last()) + if ds.last().id == BERLIN_DISTRICT_ID {
            Seq::empty()
        } else {
            seq![ds.last()]
        }
    }
}

/// Adds Berlin as a whole (id 11000, `SK Berlin`) to the districts, with
/// the population of every district in Berlin's id range and (a copy of)
/// the first state record of Berlin's id, replacing an earlier entry of
/// that id.
pub fn inject_berlin(states: &Vec<StateInfo>, districts: &mut Vec<DistrictInfo>)
    requires
        exists|j: int| 0 <= j < states@.len() && (#[trigger] states@[j]).id == BERLIN_STATE_ID,
        berlin_population(old(districts)@) <= u64::MAX,
    ensures
        final(districts)@.len() == without_berlin(old(districts)@).len() + 1,
        final(districts)@.drop_last() == without_berlin(old(districts)@),
        final(districts)@.last().id == BERLIN_DISTRICT_ID,
        final(districts)@.last().population == berlin_population(old(districts)@),
        final(districts)@.last().state.id == BERLIN_STATE_ID,
        final(districts)@.last().name@ == "SK Berlin"@,
        exists|j: int| 0 <= j < states@.len() && (#[trigger] states@[j]).id == BERLIN_STATE_ID
            && (forall|q: int| 0 <= q < j ==> (#[trigger] states@[q]).id != BERLIN_STATE_ID)
            && final(districts)@.last().state.name@ == states@[j].name@,
{
    let mut total: u64 = 0;
    let mut i: usize = 0;
    while i < districts.len()
        invariant
            i <= districts@.len(),
            berlin_population(districts@) <= u64::MAX,
            total == berlin_population(districts@.subrange(0, i as int)),
        decreases districts@.len() - i,
    {
        proof {
            let next = districts@.subrange(0, i + 1);
            assert(next.drop_last() =~= districts@.subrange(0, i as int));
            lemma_berlin_population_prefix(districts@, i + 1);
        }
        if districts[i].id >= 11000 && districts[i].id < 12000 {
            total = total + districts[i].population;
        }
        i = i + 1;
    }
    assert(districts@.subrange(0, districts@.len() as int) =~= districts@);
    let mut j: usize = 0;
    while j < states.len()
        invariant
            j <= states@.len(),
            exists|q: int| j <= q < states@.len() && (#[trigger] states@[q]).id == BERLIN_STATE_ID,
            forall|q: int| 0 <= q < j ==> (#[trigger] states@[q]).id != BERLIN_STATE_ID,
        ensures
            j < states@.len() && states@[j as int].id == BERLIN_STATE_ID,
            forall|q: int| 0 <= q < j ==> (#[trigger] states@[q]).id != BERLIN_STATE_ID,
        decreases states@.len() - j,
    {
        if states[j].id == BERLIN_STATE_ID {
            break;
        }
        j = j + 1;
    }
    let state = StateInfo { id: states[j].id, name: states[j].name.clone() };
    let ghost old_ds = districts@;
    let ghost mut c: int = 0;
    let mut i: usize = 0;
    while i < districts.len()
        invariant
            0 <= c <= old_ds.len(),
            districts@ == without_berlin(old_ds.subrange(0, c)) + old_ds.subrange(c, old_ds.len() as int),
            i == without_berlin(old_ds.subrange(0, c)).len(),
        decreases old_ds.len() - c,
    {
        proof {
            assert(districts@[i as int] == old_ds[c]);
            let next = old_ds.subrange(0, c + 1);
            assert(next.drop_last() =~= old_ds.subrange(0, c));
            assert(next.last() == old_ds[c]);
        }
        if districts[i].id == BERLIN_DISTRICT_ID {
            let _gone = districts.remove(i);
        } else {
            i = i + 1;
        }
        proof {
            c = c + 1;
            assert(districts@ =~= without_berlin(old_ds.subrange(0, c)) + old_ds.subrange(c, old_ds.len() as int));
        }
    }
    proof {
        assert(c == old_ds.len()) by {
            if c < old_ds.len() {
                assert(districts@.len() > i);
            }
        }
        assert(old_ds.subrange(0, c) =~= old_ds);
        assert(districts@ =~= without_berlin(old_ds));
    }
    let name: String = "SK Berlin".to_owned();
    districts.push(DistrictInfo { id: BERLIN_DISTRICT_ID, name, state, population: total });
    proof {
        assert(districts@.drop_last() =~= without_berlin(old_ds));
    }
}

proof fn lemma_berlin_population_prefix(ds: Seq<DistrictInfo>, n: int)
    requires
        0 <= n <= ds.len(),
    ensures
        0 <= berlin_population(ds.subrange(0, n)) <= berlin_population(ds),
    decreases ds.len() - n,
{
    lemma_berlin_population_nonneg(ds.subrange(0, n));
    if n < ds.len() {
        lemma_berlin_population_prefix(ds, n + 1);
        assert(ds.subrange(0, n + 1).drop_last() =~= ds.subrange(0, n));
    } else {
        assert(ds.subrange(0, n) =~= ds);
    }
}

proof fn lemma_berlin_population_nonneg(ds: Seq<DistrictInfo>)
    ensures
        0 <= berlin_population(ds),
    decreases ds.len(),
{
    if ds.len() > 0 {
        lemma_berlin_population_nonneg(ds.drop_last());
    }
}

} // verus!
