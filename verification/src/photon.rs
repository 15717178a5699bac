//! In-memory directory of active game sessions ("instances").
//!
//! The directory assigns each session a process-unique non-negative id,
//! always the smallest one not currently in use, and keeps the sessions
//! in insertion order.
use crate::text::str_eq;
use vstd::prelude::*;
use vstd::seq_lib::group_seq_lib_default;
use vstd::set_lib::{lemma_int_range, lemma_len_subset, set_int_range};

verus! {

broadcast use group_seq_lib_default;

/// A matchmaking-allocated game room descriptor tracked by the directory.
pub struct Instance {
    pub region: String,
    pub photon_id: String,
    pub activity_id: String,
    pub in_progress: bool,
    pub game_version: String,
    pub private: bool,
    pub player_count: u32,
    pub capacity: u32,
}

impl Clone for Instance {
    fn clone(&self) -> (r: Self)
        ensures
            r == *self,
    {
        Instance {
            region: self.region.clone(),
            photon_id: self.photon_id.clone(),
            activity_id: self.activity_id.clone(),
            in_progress: self.in_progress,
            game_version: self.game_version.clone(),
            private: self.private,
            player_count: self.player_count,
            capacity: self.capacity,
        }
    }
}

/// A session can admit one more player exactly when it is public and one
/// more occupant still fits under its capacity; the activity and client
/// version must agree with the request.
pub open spec fn instance_matches(inst: Instance, activity: Seq<char>, game_version: Seq<char>) -> bool {
    &&& !inst.private
    &&& inst.player_count + 1 <= inst.capacity
    &&& inst.activity_id@ == activity
    &&& inst.game_version@ == game_version
}

/// A session at capacity is never matched by `reserve`: the capacity
/// boundary `occupancy + 1 <= capacity` excludes it.
pub proof fn lemma_full_instance_never_matched(
    inst: Instance,
    activity: Seq<char>,
    game_version: Seq<char>,
)
    requires
        inst.player_count >= inst.capacity,
    ensures
        !instance_matches(inst, activity, game_version),
{
}

/// Decides whether `x` occurs in `ids`.
pub fn contains_id(ids: &Vec<i32>, x: i32) -> (r: bool)
    ensures
        r == ids@.contains(x),
{
    let mut j: usize = 0;
    while j < ids.len()
        invariant
            j <= ids@.len(),
            forall|t: int| 0 <= t < j ==> ids@[t] != x,
        decreases ids@.len() - j,
    {
        if ids[j] == x {
            return true;
        }
        j = j + 1;
    }
    false
}

/// Among the identifiers `0..=n` at least one is free: a sequence of
/// length `n` cannot hold `n + 1` distinct values.
proof fn lemma_free_id_exists(ids: Seq<i32>, n: int)
    requires
        0 <= n < i32::MAX,
        ids.len() == n,
    ensures
        exists|k: i32| 0 <= k <= n && !ids.contains(k),
{
    if forall|k: i32| 0 <= k <= n ==> ids.contains(k) {
        let ints = ids.map_values(|x: i32| x as int);
        assert forall|v: int| set_int_range(0, n + 1).contains(v) implies ints.to_set().contains(
            v,
        ) by {
            assert(ids.contains(v as i32));
            let w = choose|w: int| 0 <= w < ids.len() && ids[w] == v as i32;
            assert(ints[w] == v);
            assert(ints.contains(v));
        }
        lemma_int_range(0, n + 1);
        ints.lemma_cardinality_of_set();
        lemma_len_subset(set_int_range(0, n + 1), ints.to_set());
    }
}

/// Returns the smallest non-negative identifier that does not occur in
/// `ids`: the directory's "lowest free id wins" allocation rule.
pub fn smallest_free_id(ids: &Vec<i32>) -> (r: i32)
    requires
        ids@.len() < i32::MAX as int,
    ensures
        r >= 0,
        !ids@.contains(r),
        forall|k: i32| 0 <= k < r ==> ids@.contains(k),
{
    let n = ids.len();
    proof {
        lemma_free_id_exists(ids@, n as int);
    }
    let ghost f: i32 = choose|k: i32| 0 <= k <= n && !ids@.contains(k);
    let mut idx: usize = 0;
    loop
        invariant
            idx as int <= f as int,
            0 <= f <= n,
            n == ids@.len() < i32::MAX as int,
            !ids@.contains(f),
            forall|k: i32| 0 <= k < idx ==> ids@.contains(k),
        decreases f as int - idx as int,
    {
        let cand = idx as i32;
        if !contains_id(ids, cand) {
            return cand;
        }
        idx = idx + 1;
    }
}

/// The process-wide table of active game sessions, keyed by session id.
/// Sessions are kept in insertion order; ids are unique and are never
/// freed for the lifetime of the process.
pub struct InstanceMap {
    entries: Vec<(i32, Instance)>,
}

impl InstanceMap {
    /// The sessions in insertion order, each with its id.
    pub closed spec fn entries_seq(self) -> Seq<(i32, Instance)> {
        self.entries@
    }

    /// The session ids in insertion order.
    pub open spec fn ids(self) -> Seq<i32> {
        self.entries_seq().map_values(|e: (i32, Instance)| e.0)
    }

    pub open spec fn len(self) -> nat {
        self.entries_seq().len()
    }

    /// Ids are pairwise distinct, and every capacity fits the signed
    /// 32-bit range the wire format reports capacities in.
    pub open spec fn wf(self) -> bool {
        &&& forall|i: int, j: int|
            0 <= i < j < self.ids().len() ==> self.ids()[i] != self.ids()[j]
        &&& forall|i: int|
            0 <= i < self.len() ==> (#[trigger] self.entries_seq()[i]).1.capacity <= i32::MAX
    }

    pub open spec fn contains_session(self, id: i32) -> bool {
        self.ids().contains(id)
    }

    pub fn new() -> (r: Self)
        ensures
            r.wf(),
            r.len() == 0,
    {
        InstanceMap { entries: Vec::new() }
    }

    pub fn session_count(&self) -> (r: usize)
        ensures
            r == self.len(),
    {
        self.entries.len()
    }

    /// A copy of the entry at position `i` in insertion order.
    pub fn entry_at(&self, i: usize) -> (r: (i32, Instance))
        requires
            i < self.len(),
        ensures
            r.0 == self.entries_seq()[i as int].0,
            r.1 == self.entries_seq()[i as int].1,
    {
        let e = &self.entries[i];
        (e.0, e.1.clone())
    }

    fn collect_ids(&self) -> (r: Vec<i32>)
        ensures
            r@ == self.ids(),
    {
        let mut out: Vec<i32> = Vec::new();
        let mut j: usize = 0;
        while j < self.entries.len()
            invariant
                j <= self.entries@.len(),
                out@ =~= self.entries@.take(j as int).map_values(|e: (i32, Instance)| e.0),
            decreases self.entries@.len() - j,
        {
            out.push(self.entries[j].0);
            proof {
                assert(self.entries@.take(j + 1).map_values(|e: (i32, Instance)| e.0) =~= self
                    .entries@.take(j as int).map_values(|e: (i32, Instance)| e.0).push(
                    self.entries@[j as int].0,
                ));
            }
            j = j + 1;
        }
        proof {
            assert(self.entries@.take(self.entries@.len() as int) =~= self.entries@);
        }
        out
    }

    /// Inserts a new session under the smallest free id and returns that id.
    pub fn insert_new(&mut self, inst: Instance) -> (id: i32)
        requires
            old(self).wf(),
            old(self).len() < i32::MAX as nat,
            inst.capacity <= i32::MAX,
        ensures
            final(self).wf(),
            id >= 0,
            !old(self).contains_session(id),
            forall|k: i32| 0 <= k < id ==> old(self).ids().contains(k),
            final(self).entries_seq() == old(self).entries_seq().push((id, inst)),
    {
        let ids_vec = self.collect_ids();
        let id = smallest_free_id(&ids_vec);
        self.entries.push((id, inst));
        proof {
            let f = |e: (i32, Instance)| e.0;
            let oldids = old(self).ids();
            assert(self.ids() =~= oldids.push(id));
            assert forall|i: int, j: int|
                0 <= i < j < self.ids().len() implies self.ids()[i] != self.ids()[j] by {
                if j == self.ids().len() - 1 {
                    if oldids[i] == id {
                        assert(oldids.contains(id));
                    }
                }
            }
        }
        id
    }

    /// Scans the directory in insertion order and returns the position of
    /// the first session that can admit one more player for this activity
    /// and client version, if any.
    pub fn find_match(&self, activity_id: &str, game_version: &str) -> (r: Option<usize>)
        ensures
            match r {
                Some(i) => {
                    &&& i < self.len()
                    &&& instance_matches(self.entries_seq()[i as int].1, activity_id@, game_version@)
                    &&& forall|j: int|
                        0 <= j < i ==> !instance_matches(
                            self.entries_seq()[j].1,
                            activity_id@,
                            game_version@,
                        )
                },
                None => forall|j: int|
                    0 <= j < self.len() ==> !instance_matches(
                        self.entries_seq()[j].1,
                        activity_id@,
                        game_version@,
                    ),
            },
    {
        let mut i: usize = 0;
        while i < self.entries.len()
            invariant
                i <= self.entries@.len(),
                forall|j: int|
                    0 <= j < i ==> !instance_matches(
                        self.entries@[j].1,
                        activity_id@,
                        game_version@,
                    ),
            decreases self.entries@.len() - i,
        {
            let inst = &self.entries[i].1;
            if !inst.private && inst.player_count < inst.capacity && str_eq(
                inst.activity_id.as_str(),
                activity_id,
            ) && str_eq(inst.game_version.as_str(), game_version) {
                return Some(i);
            }
            i = i + 1;
        }
        None
    }
}

} // verus!
