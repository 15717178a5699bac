//! The matchmaking entry points invoked by the REST layer: reserve-or-join
//! and explicit session creation, with the presence notification that
//! follows, and the wire form of a game session.
#![allow(non_snake_case)]
use crate::global::{fresh_allocation, new_instance_fields, reserve_outcome, Global, Player};
use crate::jsonout::{
    append_bool, append_i64, append_quoted, spec_bool_str, spec_i64_str, spec_quoted,
};
use crate::photon::Instance;
use vstd::prelude::*;

verus! {

/// Message-kind code of a presence update envelope.
pub const MSG_UPDATE_PRESENCE: i32 = 12;

/// One candidate region with its reported round-trip time.
pub struct CloudRegionPing {
    pub RegionId: String,
    pub Ping: i32,
}

/// A reserve-or-join request: candidate activities and regions.
pub struct JoinRandomRoomRequest {
    pub ActivityLevelIds: Vec<String>,
    pub ExpectedPlayerIds: Vec<i64>,
    pub RegionPings: Vec<CloudRegionPing>,
}

/// An explicit session-creation request.
pub struct CreateRoomRequest {
    pub ActivityLevelId: String,
    pub ExpectedPlayerIds: Vec<i64>,
    pub RegionPings: Vec<CloudRegionPing>,
}

/// The outcome reported back for a join or create request.
pub struct JoinResponse {
    pub Result: i32,
    pub GameSession: Option<GameSession>,
}

/// A client's report of how joining the allocated session went.
pub struct JoinResult {
    pub GameSessionId: i64,
    pub RegionId: String,
    pub RoomId: String,
    pub Result: i32,
}

/// A session as reported to clients. `IsFull` is derived from the
/// directory record on read, never stored.
pub struct GameSession {
    pub GameSessionId: i64,
    pub RegionId: String,
    pub RoomId: String,
    pub EventId: Option<i64>,
    pub CreatorPlayerId: Option<i64>,
    pub Name: String,
    pub ActivityLevelId: String,
    pub Private: bool,
    pub GameInProgress: bool,
    pub MaxCapacity: i32,
    pub IsFull: bool,
}

impl Clone for GameSession {
    fn clone(&self) -> (r: Self)
        ensures
            r == *self,
    {
        GameSession {
            GameSessionId: self.GameSessionId,
            RegionId: self.RegionId.clone(),
            RoomId: self.RoomId.clone(),
            EventId: self.EventId,
            CreatorPlayerId: self.CreatorPlayerId,
            Name: self.Name.clone(),
            ActivityLevelId: self.ActivityLevelId.clone(),
            Private: self.Private,
            GameInProgress: self.GameInProgress,
            MaxCapacity: self.MaxCapacity,
            IsFull: self.IsFull,
        }
    }
}

/// How a `GameSession` mirrors a directory record: the id, region, room,
/// activity, version-independent flags and capacity carry over, and
/// `IsFull` is computed as occupancy having reached capacity.
pub open spec fn session_of_instance(
    g: GameSession,
    session_id: i32,
    inst: Instance,
    creator: Option<i32>,
) -> bool {
    &&& g.GameSessionId == session_id as i64
    &&& g.RegionId == inst.region
    &&& g.RoomId == inst.photon_id
    &&& g.EventId is None
    &&& g.CreatorPlayerId == (match creator {
        Some(c) => Some(c as i64),
        None => None::<i64>,
    })
    &&& g.Name@ == Seq::<char>::empty()
    &&& g.ActivityLevelId == inst.activity_id
    &&& g.Private == inst.private
    &&& g.GameInProgress == inst.in_progress
    &&& g.MaxCapacity == inst.capacity as i32
    &&& g.IsFull == (inst.player_count >= inst.capacity)
}

impl GameSession {
    /// Builds the client-facing session record from a directory record.
    pub fn from_photon_instance(session_id: i32, instance: Instance, creator: Option<i32>) -> (g:
        GameSession)
        requires
            instance.capacity <= i32::MAX,
        ensures
            session_of_instance(g, session_id, instance, creator),
    {
        GameSession {
            GameSessionId: session_id as i64,
            RegionId: instance.region,
            RoomId: instance.photon_id,
            EventId: None,
            CreatorPlayerId: match creator {
                Some(c) => Some(c as i64),
                None => None,
            },
            Name: String::new(),
            ActivityLevelId: instance.activity_id,
            Private: instance.private,
            GameInProgress: instance.in_progress,
            MaxCapacity: instance.capacity as i32,
            IsFull: instance.player_count >= instance.capacity,
        }
    }
}

/// `null` or the decimal form of the value.
pub open spec fn spec_opt_i64_str(o: Option<i64>) -> Seq<char> {
    match o {
        None => "null"@,
        Some(v) => spec_i64_str(v as int),
    }
}

/// The JSON form of a session, fields in wire order.
pub open spec fn spec_game_session_json(g: GameSession) -> Seq<char> {
    "{\"GameSessionId\":"@ + spec_i64_str(g.GameSessionId as int) + ",\"RegionId\":"@
        + spec_quoted(g.RegionId@) + ",\"RoomId\":"@ + spec_quoted(g.RoomId@) + ",\"EventId\":"@
        + spec_opt_i64_str(g.EventId) + ",\"CreatorPlayerId\":"@ + spec_opt_i64_str(
        g.CreatorPlayerId,
    ) + ",\"Name\":"@ + spec_quoted(g.Name@) + ",\"ActivityLevelId\":"@ + spec_quoted(
        g.ActivityLevelId@,
    ) + ",\"Private\":"@ + spec_bool_str(g.Private) + ",\"GameInProgress\":"@ + spec_bool_str(
        g.GameInProgress,
    ) + ",\"MaxCapacity\":"@ + spec_i64_str(g.MaxCapacity as int) + ",\"IsFull\":"@
        + spec_bool_str(g.IsFull) + "}"@
}

fn append_opt_i64(out: &mut String, o: &Option<i64>)
    ensures
        final(out)@ == old(out)@ + spec_opt_i64_str(*o),
{
    match o {
        None => {
            out.append("null");
        },
        Some(v) => {
            append_i64(out, *v);
        },
    }
}

impl GameSession {
    /// Serializes the session for the wire.
    pub fn to_json(&self) -> (r: String)
        ensures
            r@ == spec_game_session_json(*self),
    {
        let mut out = String::from_str("{\"GameSessionId\":");
        append_i64(&mut out, self.GameSessionId);
        out.append(",\"RegionId\":");
        append_quoted(&mut out, self.RegionId.as_str());
        out.append(",\"RoomId\":");
        append_quoted(&mut out, self.RoomId.as_str());
        out.append(",\"EventId\":");
        append_opt_i64(&mut out, &self.EventId);
        out.append(",\"CreatorPlayerId\":");
        append_opt_i64(&mut out, &self.CreatorPlayerId);
        out.append(",\"Name\":");
        append_quoted(&mut out, self.Name.as_str());
        out.append(",\"ActivityLevelId\":");
        append_quoted(&mut out, self.ActivityLevelId.as_str());
        out.append(",\"Private\":");
        append_bool(&mut out, self.Private);
        out.append(",\"GameInProgress\":");
        append_bool(&mut out, self.GameInProgress);
        out.append(",\"MaxCapacity\":");
        append_i64(&mut out, self.MaxCapacity as i64);
        out.append(",\"IsFull\":");
        append_bool(&mut out, self.IsFull);
        out.append("}");
        proof {
            assert(out@ =~= spec_game_session_json(*self));
        }
        out
    }
}

/// The payload of a presence-update envelope.
pub open spec fn spec_presence_json(player_id: int, is_online: bool, g: GameSession) -> Seq<
    char,
> {
    "{\"PlayerId\":"@ + spec_i64_str(player_id) + ",\"IsOnline\":"@ + spec_bool_str(is_online)
        + ",\"GameSession\":"@ + spec_game_session_json(g) + "}"@
}

/// Serializes a presence update announcing `player_id`'s session.
pub fn presence_update_json(player_id: i32, is_online: bool, session: &GameSession) -> (r: String)
    ensures
        r@ == spec_presence_json(player_id as int, is_online, *session),
{
    let mut out = String::from_str("{\"PlayerId\":");
    append_i64(&mut out, player_id as i64);
    out.append(",\"IsOnline\":");
    append_bool(&mut out, is_online);
    out.append(",\"GameSession\":");
    let gs = session.to_json();
    out.append(gs.as_str());
    out.append("}");
    proof {
        assert(out@ =~= spec_presence_json(player_id as int, is_online, *session));
    }
    out
}

/// `region` is the candidate with the least reported round-trip time (the
/// earliest such candidate when tied), or the default when there are no
/// candidates.
pub open spec fn is_picked_region(
    pings: Seq<CloudRegionPing>,
    default: Seq<char>,
    region: Seq<char>,
) -> bool {
    if pings.len() == 0 {
        region == default
    } else {
        exists|i: int|
            {
                &&& 0 <= i < pings.len()
                &&& region == (#[trigger] pings[i]).RegionId@
                &&& forall|j: int| 0 <= j < pings.len() ==> pings[i].Ping <= (#[trigger] pings[j]).Ping
                &&& forall|j: int| 0 <= j < i ==> (#[trigger] pings[j]).Ping > pings[i].Ping
            }
    }
}

/// Picks the preferred region: the candidate with the minimum reported
/// round-trip time, falling back to `default_region` for an empty list.
pub fn pick_region<'a>(pings: &'a Vec<CloudRegionPing>, default_region: &'a str) -> (r: &'a str)
    ensures
        is_picked_region(pings@, default_region@, r@),
{
    if pings.len() == 0 {
        return default_region;
    }
    let mut best: usize = 0;
    let mut i: usize = 1;
    while i < pings.len()
        invariant
            best < i <= pings@.len(),
            forall|j: int| 0 <= j < i ==> pings@[best as int].Ping <= (#[trigger] pings@[j]).Ping,
            forall|j: int| 0 <= j < best ==> (#[trigger] pings@[j]).Ping > pings@[best as int].Ping,
        decreases pings@.len() - i,
    {
        if pings[i].Ping < pings[best].Ping {
            best = i;
        }
        i = i + 1;
    }
    pings[best].RegionId.as_str()
}

/// Relies on rand::Rng::gen_range over rand::thread_rng: a random index
/// below `n`. The value is random; only its bound is assumed.
#[verifier::external_body]
fn random_index(n: usize) -> (r: usize)
    requires
        n > 0,
    ensures
        r < n,
{
    rand::Rng::gen_range(&mut rand::thread_rng(), 0..n)
}

/// What an ad-hoc-hosted response session looks like: the configured
/// ad-hoc region, a fixed id, and a synthesized room name.
pub open spec fn adhoc_session(
    g: GameSession,
    region: Seq<char>,
    room: Seq<char>,
    activity: Seq<char>,
) -> bool {
    &&& g.GameSessionId == 567
    &&& g.RegionId@ == region
    &&& g.RoomId@ == room
    &&& g.EventId is None
    &&& g.CreatorPlayerId is None
    &&& g.Name@ == Seq::<char>::empty()
    &&& g.ActivityLevelId@ == activity
    &&& !g.Private
    &&& !g.GameInProgress
    &&& g.MaxCapacity == 40
    &&& !g.IsFull
}

/// What a reserve-or-join request does for one chosen activity: under
/// ad-hoc hosting a fixed session in the configured region, otherwise the
/// directory's reserve-or-join against the picked region, reflected into
/// the client-facing record.
pub open spec fn join_outcome(
    pre: Global,
    post: Global,
    g: GameSession,
    activity: Seq<char>,
    version: Seq<char>,
    pings: Seq<CloudRegionPing>,
) -> bool {
    if pre.ad_hoc_hosting {
        &&& adhoc_session(g, pre.ad_hoc_region@, "public "@ + activity, activity)
        &&& post.sessions == pre.sessions
    } else {
        exists|id: i32, inst: Instance, region: Seq<char>|
            {
                &&& #[trigger] is_picked_region(pings, "us"@, region)
                &&& reserve_outcome(pre.sessions, post.sessions, (id, inst), activity, version, region)
                &&& #[trigger] session_of_instance(g, id, inst, None)
            }
    }
}

/// Serves a reserve-or-join request: picks one of the requested
/// activities at random, reserves or creates a session for it, then
/// notifies the caller's subscribers of the new presence state.
/// An empty activity list is refused; a caller without a live connection
/// record gets the player-not-online outcome (the session, if one was
/// created, stays in the directory).
pub fn join_random(player: &Player, state: &mut Global, request: &JoinRandomRoomRequest) -> (r:
    JoinResponse)
    requires
        old(state).wf(),
        old(state).sessions.len() < i32::MAX as nat,
    ensures
        final(state).wf(),
        final(state).ad_hoc_hosting == old(state).ad_hoc_hosting,
        final(state).ad_hoc_region == old(state).ad_hoc_region,
        final(state).player_map.rel() =~= old(state).player_map.rel(),
        final(state).player_map.versions() =~= old(state).player_map.versions(),
        request.ActivityLevelIds@.len() == 0 ==> r.Result == 1 && r.GameSession is None
            && *final(state) == *old(state),
        request.ActivityLevelIds@.len() > 0 ==> {
            &&& (r.Result == 0 <==> old(state).player_map.contains_id(player.account_id))
            &&& (r.Result == 0 || r.Result == 2)
            &&& (r.GameSession is Some <==> r.Result == 0)
            &&& exists|i: int, g: GameSession|
                {
                    &&& 0 <= i < request.ActivityLevelIds@.len()
                    &&& #[trigger] join_outcome(
                        *old(state),
                        *final(state),
                        g,
                        request.ActivityLevelIds@[i]@,
                        player.game_ver@,
                        request.RegionPings@,
                    )
                    &&& r.Result == 0 ==> r.GameSession == Some(g)
                }
        },
{
    if request.ActivityLevelIds.len() == 0 {
        return JoinResponse { Result: 1, GameSession: None };
    }
    let idx = random_index(request.ActivityLevelIds.len());
    let activity = &request.ActivityLevelIds[idx];
    let ghost pre = *state;
    let session: GameSession;
    if state.ad_hoc_hosting {
        let mut room = String::from_str("public ");
        room.append(activity.as_str());
        session = GameSession {
            GameSessionId: 567,
            RegionId: state.ad_hoc_region.clone(),
            RoomId: room,
            EventId: None,
            CreatorPlayerId: None,
            Name: String::new(),
            ActivityLevelId: activity.clone(),
            Private: false,
            GameInProgress: false,
            MaxCapacity: 40,
            IsFull: false,
        };
    } else {
        let region = pick_region(&request.RegionPings, "us");
        let (id, instance) = state.reserve_photon_instance(
            activity.as_str(),
            player.game_ver.as_str(),
            region,
        );
        session = GameSession::from_photon_instance(id, instance, None);
    }
    let msg = presence_update_json(player.account_id, true, &session);
    let ghost mid = *state;
    let sent = state.send_msg_to_subscribed(MSG_UPDATE_PRESENCE, msg.as_str(), player.account_id);
    proof {
        assert(join_outcome(
            pre,
            *state,
            session,
            request.ActivityLevelIds@[idx as int]@,
            player.game_ver@,
            request.RegionPings@,
        ));
    }
    match sent {
        Ok(_) => JoinResponse { Result: 0, GameSession: Some(session) },
        Err(_) => JoinResponse { Result: 2, GameSession: None },
    }
}

/// What an explicit create request does: under ad-hoc hosting a fixed
/// session in the configured region, otherwise a brand-new session in the
/// picked region under the smallest free id, attributed to its creator.
pub open spec fn create_outcome(
    pre: Global,
    post: Global,
    g: GameSession,
    activity: Seq<char>,
    version: Seq<char>,
    pings: Seq<CloudRegionPing>,
    creator: i32,
) -> bool {
    if pre.ad_hoc_hosting {
        &&& adhoc_session(g, pre.ad_hoc_region@, "custom "@ + activity, activity)
        &&& post.sessions == pre.sessions
    } else {
        exists|id: i32, inst: Instance, region: Seq<char>|
            {
                &&& #[trigger] is_picked_region(pings, "us"@, region)
                &&& new_instance_fields(inst, activity, version, region)
                &&& !inst.private
                &&& fresh_allocation(pre.sessions, post.sessions, id, inst)
                &&& #[trigger] session_of_instance(g, id, inst, Some(creator))
            }
    }
}

/// Serves an explicit session-creation request, then notifies the
/// caller's subscribers of the new presence state.
pub fn create(player: &Player, state: &mut Global, request: &CreateRoomRequest) -> (r:
    JoinResponse)
    requires
        old(state).wf(),
        old(state).sessions.len() < i32::MAX as nat,
    ensures
        final(state).wf(),
        final(state).ad_hoc_hosting == old(state).ad_hoc_hosting,
        final(state).ad_hoc_region == old(state).ad_hoc_region,
        final(state).player_map.rel() =~= old(state).player_map.rel(),
        final(state).player_map.versions() =~= old(state).player_map.versions(),
        r.Result == 0 <==> old(state).player_map.contains_id(player.account_id),
        r.Result == 0 || r.Result == 2,
        r.GameSession is Some <==> r.Result == 0,
        exists|g: GameSession|
            {
                &&& #[trigger] create_outcome(
                    *old(state),
                    *final(state),
                    g,
                    request.ActivityLevelId@,
                    player.game_ver@,
                    request.RegionPings@,
                    player.account_id,
                )
                &&& r.Result == 0 ==> r.GameSession == Some(g)
            },
{
    let ghost pre = *state;
    let session: GameSession;
    if state.ad_hoc_hosting {
        let mut room = String::from_str("custom ");
        room.append(request.ActivityLevelId.as_str());
        session = GameSession {
            GameSessionId: 567,
            RegionId: state.ad_hoc_region.clone(),
            RoomId: room,
            EventId: None,
            CreatorPlayerId: None,
            Name: String::new(),
            ActivityLevelId: request.ActivityLevelId.clone(),
            Private: false,
            GameInProgress: false,
            MaxCapacity: 40,
            IsFull: false,
        };
    } else {
        let region = pick_region(&request.RegionPings, "us");
        let (id, instance) = state.create_photon_instance(
            request.ActivityLevelId.as_str(),
            player.game_ver.as_str(),
            region,
            false,
        );
        proof {
            assert(instance.capacity == crate::spec_capacity(request.ActivityLevelId@));
        }
        session = GameSession::from_photon_instance(id, instance, Some(player.account_id));
    }
    let msg = presence_update_json(player.account_id, true, &session);
    let sent = state.send_msg_to_subscribed(MSG_UPDATE_PRESENCE, msg.as_str(), player.account_id);
    proof {
        assert(create_outcome(
            pre,
            *state,
            session,
            request.ActivityLevelId@,
            player.game_ver@,
            request.RegionPings@,
            player.account_id,
        ));
    }
    match sent {
        Ok(_) => JoinResponse { Result: 0, GameSession: Some(session) },
        Err(_) => JoinResponse { Result: 2, GameSession: None },
    }
}

/// Accepts a client's join report. Nothing is recorded for it yet.
pub fn report_join_result(_player: &Player, _result: JoinResult) {
}

/// The directory keeps no public event listing; the list is empty.
pub fn list_public_events() -> (r: Vec<GameSession>)
    ensures
        r@.len() == 0,
{
    Vec::new()
}

} // verus!
