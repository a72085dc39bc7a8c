//! The list of running jobs.
use std::collections::HashMap;
use vstd::prelude::*;

verus! {

broadcast use vstd::std_specs::hash::group_hash_axioms;

/// Something for each running job, by job id.
#[derive(Debug)]
pub struct RunList<V> {
    rundata: HashMap<u64, V>,
}

impl<V> View for RunList<V> {
    type V = Map<u64, V>;

    closed spec fn view(&self) -> Map<u64, V> {
        self.rundata@
    }
}

/// Whether a list of running jobs has room for one more where at most `max` are wanted.
pub open spec fn space_for_one<V>(list: Map<u64, V>, max: usize) -> bool {
    list.len() < max
}

impl<V> RunList<V> {
    /// An empty list.
    pub fn new() -> (r: Self)
        ensures
            r@ == Map::<u64, V>::empty(),
    {
        RunList { rundata: HashMap::new() }
    }

    /// The number of running jobs.
    pub fn size(&self) -> (r: usize)
        ensures
            r == self@.len(),
            self@.dom().finite(),
    {
        self.rundata.len()
    }

    /// Whether there are less then max jobs running
    pub fn has_space(&self, max: usize) -> (r: bool)
        ensures
            r == space_for_one(self@, max),
    {
        self.rundata.len() < max
    }

    /// Notes that a job runs.
    pub fn insert(&mut self, id: u64, data: V)
        ensures
            final(self)@ == old(self)@.insert(id, data),
    {
        self.rundata.insert(id, data);
    }

    /// Notes that a job has ended.
    pub fn remove(&mut self, id: u64)
        ensures
            final(self)@ == old(self)@.remove(id),
    {
        self.rundata.remove(&id);
    }

    /// What was noted for a job, if it runs.
    pub fn lookup(&self, id: u64) -> (r: Option<&V>)
        ensures
            r is Some == self@.contains_key(id),
            r matches Some(v) ==> *v == self@[id],
    {
        self.rundata.get(&id)
    }
}

/// A job that runs is counted once, and not at all after it has ended.
pub proof fn law_running_jobs_are_counted<V>(list: Map<u64, V>, id: u64, data: V)
    requires
        list.dom().finite(),
        !list.contains_key(id),
    ensures
        list.insert(id, data).len() == list.len() + 1,
        list.insert(id, data).insert(id, data).len() == list.len() + 1,
        list.insert(id, data).remove(id) == list,
{
    assert(list.insert(id, data).insert(id, data) =~= list.insert(id, data));
    assert(list.insert(id, data).remove(id) =~= list);
}

/// There is room for a first job exactly if no job runs.
pub proof fn law_drained_means_empty<V>(list: Map<u64, V>)
    requires
        list.dom().finite(),
    ensures
        space_for_one(list, 1) <==> list == Map::<u64, V>::empty(),
{
    if list.len() == 0 {
        assert(list.dom() =~= Set::empty());
        assert(list =~= Map::empty());
    }
}

/// There is room exactly if one more job is still no more than wanted.
pub proof fn law_room_for_one_more<V>(list: Map<u64, V>, max: usize, id: u64, data: V)
    requires
        list.dom().finite(),
        !list.contains_key(id),
    ensures
        space_for_one(list, max) <==> list.insert(id, data).len() <= max,
{
}

} // verus!
