//! The process-wide shared state: the connection registry, the session
//! directory, and the ad-hoc hosting configuration, with the presence
//! broadcaster and the two session-allocation operations.
use crate::get_capacity_for_activity;
use crate::jsonout::envelope;
use crate::photon::{instance_matches, Instance, InstanceMap};
use crate::registry::{DeliveryError, Registry};
use crate::spec_capacity;
use vstd::prelude::*;

verus! {

/// The identity and client version established from a verified token.
pub struct Player {
    pub account_id: i32,
    pub game_ver: String,
}

/// Relies on uuid::Uuid::new_v4 and Uuid::hyphenated: a freshly generated
/// random room identifier in the hyphenated form, which is 36 characters.
/// The value is random, so nothing is assumed beyond its length.
#[verifier::external_body]
fn new_room_id() -> (r: String)
    ensures
        r@.len() == 36,
{
    uuid::Uuid::new_v4().hyphenated().to_string()
}

/// The fields every newly created session starts with: the preferred
/// region, the requested activity and client version, a fresh 36-character
/// room identifier, no occupants, not in progress, and the activity's
/// configured capacity.
pub open spec fn new_instance_fields(
    inst: Instance,
    activity: Seq<char>,
    version: Seq<char>,
    region: Seq<char>,
) -> bool {
    &&& inst.region@ == region
    &&& inst.activity_id@ == activity
    &&& inst.game_version@ == version
    &&& !inst.in_progress
    &&& inst.player_count == 0
    &&& inst.capacity == spec_capacity(activity)
    &&& inst.photon_id@.len() == 36
}

/// A fresh id is the smallest non-negative integer not present in the
/// directory, and the new session is appended in insertion order.
/// Two successive fresh allocations therefore never share an id
/// (`lemma_fresh_allocations_distinct`).
pub open spec fn fresh_allocation(
    pre: InstanceMap,
    post: InstanceMap,
    id: i32,
    inst: Instance,
) -> bool {
    &&& id >= 0
    &&& !pre.contains_session(id)
    &&& (forall|k: i32| 0 <= k < id ==> pre.ids().contains(k))
    &&& post.entries_seq() == pre.entries_seq().push((id, inst))
}

/// What reserve-or-join owes: the first compatible session in insertion
/// order when one exists (directory untouched), else a brand-new public
/// session in the preferred region under the smallest free id.
pub open spec fn reserve_outcome(
    pre: InstanceMap,
    post: InstanceMap,
    r: (i32, Instance),
    activity: Seq<char>,
    version: Seq<char>,
    region: Seq<char>,
) -> bool {
    if exists|i: int| 0 <= i < pre.len() && instance_matches(#[trigger] pre.entries_seq()[i].1, activity, version) {
        &&& post == pre
        &&& exists|i: int|
            {
                &&& 0 <= i < pre.len()
                &&& instance_matches(#[trigger] pre.entries_seq()[i].1, activity, version)
                &&& forall|j: int|
                    0 <= j < i ==> !instance_matches(pre.entries_seq()[j].1, activity, version)
                &&& r.0 == pre.entries_seq()[i].0
                &&& r.1 == pre.entries_seq()[i].1
            }
    } else {
        &&& new_instance_fields(r.1, activity, version, region)
        &&& !r.1.private
        &&& fresh_allocation(pre, post, r.0, r.1)
    }
}

/// Two sessions allocated one after the other always get distinct ids:
/// the first id is in the directory when the second is chosen.
pub proof fn lemma_fresh_allocations_distinct(
    pre: InstanceMap,
    mid: InstanceMap,
    post: InstanceMap,
    id1: i32,
    inst1: Instance,
    id2: i32,
    inst2: Instance,
)
    requires
        fresh_allocation(pre, mid, id1, inst1),
        fresh_allocation(mid, post, id2, inst2),
    ensures
        id1 != id2,
{
    let n = pre.entries_seq().len();
    assert(mid.entries_seq()[n as int] == (id1, inst1));
    assert(mid.ids()[n as int] == id1);
    assert(mid.ids().contains(id1));
}

/// The process-wide shared state of the real-time subsystem.
pub struct Global {
    pub player_map: Registry,
    pub sessions: InstanceMap,
    pub ad_hoc_hosting: bool,
    pub ad_hoc_region: String,
}

impl Global {
    pub open spec fn wf(self) -> bool {
        self.player_map.wf() && self.sessions.wf()
    }

    pub fn new(ad_hoc_hosting: bool, ad_hoc_region: String) -> (r: Global)
        ensures
            r.wf(),
            r.player_map.rel() =~= Map::<i32, Seq<i32>>::empty(),
            r.sessions.len() == 0,
            r.ad_hoc_hosting == ad_hoc_hosting,
            r.ad_hoc_region == ad_hoc_region,
    {
        Global {
            player_map: Registry::new(),
            sessions: InstanceMap::new(),
            ad_hoc_hosting,
            ad_hoc_region,
        }
    }

    /// Wraps the payload in the `{Id, Msg}` envelope and hands it to every
    /// identity subscribed to `account_id`, best effort: one refused
    /// channel does not keep later subscribers from being attempted. The
    /// subscribers whose channel refused the frame are returned. Fails
    /// only when `account_id` itself has no live record.
    pub fn send_msg_to_subscribed(&mut self, msg_id: i32, msg_json: &str, account_id: i32) -> (r:
        Result<Vec<i32>, DeliveryError>)
        requires
            old(self).wf(),
        ensures
            final(self).wf(),
            final(self).sessions == old(self).sessions,
            final(self).ad_hoc_hosting == old(self).ad_hoc_hosting,
            final(self).ad_hoc_region == old(self).ad_hoc_region,
            final(self).player_map.rel() =~= old(self).player_map.rel(),
            final(self).player_map.versions() =~= old(self).player_map.versions(),
            r is Err <==> !old(self).player_map.contains_id(account_id),
            r is Err ==> r == Err::<Vec<i32>, DeliveryError>(DeliveryError::TargetNotRegistered),
            r matches Ok(failed) ==> forall|t: int|
                0 <= t < failed@.len() ==> old(self).player_map.subs(account_id).contains(
                    #[trigger] failed@[t],
                ),
    {
        let frame = envelope(msg_id, msg_json);
        let targets = match self.player_map.lookup_subscribers(account_id) {
            Some(t) => t,
            None => {
                return Err(DeliveryError::TargetNotRegistered);
            },
        };
        let ghost subs = old(self).player_map.subs(account_id);
        let mut failed: Vec<i32> = Vec::new();
        let mut i: usize = 0;
        while i < targets.len()
            invariant
                i <= targets@.len(),
                targets@ == subs,
                self.player_map.wf(),
                self.player_map.rel() =~= old(self).player_map.rel(),
                self.player_map.versions() =~= old(self).player_map.versions(),
                self.sessions == old(self).sessions,
                self.ad_hoc_hosting == old(self).ad_hoc_hosting,
                self.ad_hoc_region == old(self).ad_hoc_region,
                forall|t: int| 0 <= t < failed@.len() ==> subs.contains(#[trigger] failed@[t]),
            decreases targets@.len() - i,
        {
            let target = targets[i];
            match self.player_map.deliver(target, frame.clone()) {
                Ok(_) => {},
                Err(_) => {
                    failed.push(target);
                },
            }
            i = i + 1;
        }
        Ok(failed)
    }

    /// Reserve-or-join: scans the directory in insertion order for the
    /// first public session with room for one more player on the same
    /// activity and client version, and returns it; when none matches,
    /// creates a new public session in the preferred region under the
    /// smallest free id. Occupancy is never updated here: the directory
    /// models session existence only.
    pub fn reserve_photon_instance(
        &mut self,
        activity_id: &str,
        game_version: &str,
        pref_region: &str,
    ) -> (r: (i32, Instance))
        requires
            old(self).wf(),
            old(self).sessions.len() < i32::MAX as nat,
        ensures
            final(self).wf(),
            final(self).player_map == old(self).player_map,
            final(self).ad_hoc_hosting == old(self).ad_hoc_hosting,
            final(self).ad_hoc_region == old(self).ad_hoc_region,
            reserve_outcome(
                old(self).sessions,
                final(self).sessions,
                r,
                activity_id@,
                game_version@,
                pref_region@,
            ),
    {
        match self.sessions.find_match(activity_id, game_version) {
            Some(i) => {
                let e = self.sessions.entry_at(i);
                proof {
                    let w = i as int;
                    assert(0 <= w < old(self).sessions.len() && instance_matches(
                        old(self).sessions.entries_seq()[w].1,
                        activity_id@,
                        game_version@,
                    ));
                }
                return (e.0, e.1);
            },
            None => {},
        }
        let inst = Instance {
            region: pref_region.to_owned(),
            photon_id: new_room_id(),
            activity_id: activity_id.to_owned(),
            in_progress: false,
            game_version: game_version.to_owned(),
            private: false,
            player_count: 0,
            capacity: get_capacity_for_activity(activity_id),
        };
        let copy = inst.clone();
        let id = self.sessions.insert_new(inst);
        (id, copy)
    }

    /// Always creates a new session, honoring the caller-supplied privacy
    /// flag, under the same allocation and default-field rules as
    /// reserve-or-join's creation path.
    pub fn create_photon_instance(
        &mut self,
        activity_id: &str,
        game_version: &str,
        pref_region: &str,
        private: bool,
    ) -> (r: (i32, Instance))
        requires
            old(self).wf(),
            old(self).sessions.len() < i32::MAX as nat,
        ensures
            final(self).wf(),
            final(self).player_map == old(self).player_map,
            final(self).ad_hoc_hosting == old(self).ad_hoc_hosting,
            final(self).ad_hoc_region == old(self).ad_hoc_region,
            new_instance_fields(r.1, activity_id@, game_version@, pref_region@),
            r.1.private == private,
            fresh_allocation(old(self).sessions, final(self).sessions, r.0, r.1),
    {
        let inst = Instance {
            region: pref_region.to_owned(),
            photon_id: new_room_id(),
            activity_id: activity_id.to_owned(),
            in_progress: false,
            game_version: game_version.to_owned(),
            private,
            player_count: 0,
            capacity: get_capacity_for_activity(activity_id),
        };
        let copy = inst.clone();
        let id = self.sessions.insert_new(inst);
        (id, copy)
    }
}

} // verus!
