use vstd::prelude::*;
use crate::merge::{merge_dict, settings_map_merge, strs_view};
use crate::object::SettingsObject;
use crate::settings::Settings;
use crate::store::{SettingsMap, StoreVal};

verus! {

/// What a store holds: its current map, and how many commits it has taken.
pub struct StoreState {
    pub map: Seq<(Seq<char>, StoreVal)>,
    pub commits: nat,
}

/// The outcome of a compare-and-store of `map` against a snapshot taken
/// after `baseline` commits: it succeeds, and counts one commit more, only
/// where no commit came in between.
pub open spec fn commit_spec(s: StoreState, baseline: nat, map: Seq<(Seq<char>, StoreVal)>) -> (bool, StoreState) {
    if baseline == s.commits {
        (true, StoreState { map, commits: s.commits + 1 })
    } else {
        (false, s)
    }
}

/// The persistent settings store, shared by every writer. A writer loads a
/// snapshot, computes, and commits only if nobody committed in between.
pub struct SettingsStore {
    map: SettingsMap,
    commits: u64,
}

/// A copy of the store's map, taken after a number of commits.
pub struct Snapshot {
    pub map: SettingsMap,
    pub commits: u64,
}

impl View for SettingsStore {
    type V = StoreState;

    closed spec fn view(&self) -> StoreState {
        StoreState { map: self.map@, commits: self.commits as nat }
    }
}

impl SettingsStore {
    /// A store that holds `map` and has taken no commit.
    pub fn new(map: SettingsMap) -> (r: SettingsStore)
        ensures
            r@ == (StoreState { map: map@, commits: 0 }),
    {
        SettingsStore { map, commits: 0 }
    }

    /// A snapshot of the current map.
    pub fn load(&self) -> (r: Snapshot)
        ensures
            r.map@ == self@.map,
            r.commits == self@.commits,
    {
        Snapshot { map: self.map.copy(), commits: self.commits }
    }

    /// Stores `map` as the new current map if no commit came in since
    /// `baseline` was loaded; says whether it did.
    pub fn store_if_unchanged(&mut self, baseline: &Snapshot, map: SettingsMap) -> (r: bool)
        requires
            old(self)@.commits < u64::MAX,
        ensures
            (r, final(self)@) == commit_spec(old(self)@, baseline.commits as nat, map@),
    {
        if baseline.commits == self.commits {
            self.map = map;
            self.commits = self.commits + 1;
            true
        } else {
            false
        }
    }
}

impl SettingsObject {
    /// The store's current map.
    pub fn load(store: &SettingsStore) -> (r: SettingsObject)
        ensures
            r@ == StoreVal::Dict(store@.map),
    {
        SettingsObject::Dict(store.load().map)
    }

    /// Loads a snapshot, merges `new` into it, and commits the result if the
    /// store did not change meanwhile: the merged map, or `None` where the
    /// commit lost a race and the caller should try again.
    pub fn load_merge_store<S: Settings>(store: &mut SettingsStore, new: &S, keys: &[&str], elems: &[&str]) -> (r: Option<SettingsObject>)
        requires
            old(store)@.commits < u64::MAX,
        ensures
            ({
                let merged = merge_dict::<S>(old(store)@.map, new@, strs_view(keys@), strs_view(elems@), keys.len() as nat);
                let (ok, after) = commit_spec(old(store)@, old(store)@.commits, merged);
                &&& r is Some == ok
                &&& final(store)@ == after
                &&& r matches Some(o) ==> o@ == StoreVal::Dict(merged)
            }),
    {
        let old = store.load();
        let merged = settings_map_merge(Some(old.map.copy()), new, keys, elems);
        let result = merged.copy();
        if store.store_if_unchanged(&old, merged) {
            Some(SettingsObject::Dict(result))
        } else {
            None
        }
    }

    /// Retries `load_merge_store` until a commit goes through, and returns
    /// the map committed.
    pub fn wait_load_merge_store<S: Settings>(store: &mut SettingsStore, new: &S, keys: &[&str], elems: &[&str]) -> (r: SettingsObject)
        requires
            old(store)@.commits < u64::MAX,
        ensures
            ({
                let merged = merge_dict::<S>(old(store)@.map, new@, strs_view(keys@), strs_view(elems@), keys.len() as nat);
                &&& final(store)@ == (StoreState { map: merged, commits: old(store)@.commits + 1 })
                &&& r@ == StoreVal::Dict(merged)
            }),
    {
        let ghost start = store@;
        let mut outcome = SettingsObject::load_merge_store(store, new, keys, elems);
        loop
            invariant
                start == old(store)@,
                outcome is Some,
                ({
                    let merged = merge_dict::<S>(start.map, new@, strs_view(keys@), strs_view(elems@), keys.len() as nat);
                    &&& store@ == (StoreState { map: merged, commits: start.commits + 1 })
                    &&& outcome matches Some(o) ==> o@ == StoreVal::Dict(merged)
                }),
            decreases 0nat,
        {
            match outcome {
                Some(o) => {
                    return o;
                },
                None => {
                    outcome = SettingsObject::load_merge_store(store, new, keys, elems);
                },
            }
        }
    }
}

/// Commit race: of two writers that loaded the same state, the first to
/// commit succeeds and the second fails, leaving the store as the first
/// left it; the second, retrying against a fresh load, then succeeds.
pub proof fn law_commit_race(s: StoreState, first: Seq<(Seq<char>, StoreVal)>, second: Seq<(Seq<char>, StoreVal)>, retry: Seq<(Seq<char>, StoreVal)>)
    ensures
        ({
            let (ok1, s1) = commit_spec(s, s.commits, first);
            let (ok2, s2) = commit_spec(s1, s.commits, second);
            let (ok3, s3) = commit_spec(s2, s2.commits, retry);
            &&& ok1 && s1.map == first
            &&& !ok2 && s2 == s1
            &&& ok3 && s3.map == retry
        }),
{
}

} // verus!
