use tencer::gamesessions::{
    create, join_random, pick_region, CloudRegionPing, CreateRoomRequest, JoinRandomRoomRequest,
};
use tencer::get_capacity_for_activity;
use tencer::global::{Global, Player};
use tencer::photon::{smallest_free_id, Instance, InstanceMap};

fn ping(region: &str, ms: i32) -> CloudRegionPing {
    CloudRegionPing { RegionId: region.to_string(), Ping: ms }
}

fn full_instance(activity: &str, version: &str) -> Instance {
    Instance {
        region: "eu".to_string(),
        photon_id: "room-full".to_string(),
        activity_id: activity.to_string(),
        in_progress: false,
        game_version: version.to_string(),
        private: false,
        player_count: 40,
        capacity: 40,
    }
}

#[test]
fn capacity_is_constant_forty() {
    assert_eq!(get_capacity_for_activity("charades"), 40);
    assert_eq!(get_capacity_for_activity("anything"), 40);
}

#[test]
fn smallest_free_id_starts_at_zero() {
    assert_eq!(smallest_free_id(&vec![]), 0);
    assert_eq!(smallest_free_id(&vec![0, 1, 2]), 3);
}

#[test]
fn smallest_free_id_reuses_freed_id() {
    // ids 0, 1, 2 existed and 1 was freed: the next allocation returns 1.
    assert_eq!(smallest_free_id(&vec![0, 2]), 1);
    assert_eq!(smallest_free_id(&vec![2, 0, 5]), 1);
}

#[test]
fn directory_allocates_lowest_ids_in_order() {
    let mut map = InstanceMap::new();
    let a = map.insert_new(full_instance("a", "1"));
    let b = map.insert_new(full_instance("b", "1"));
    let c = map.insert_new(full_instance("c", "1"));
    assert_eq!((a, b, c), (0, 1, 2));
    assert_eq!(map.session_count(), 3);
}

#[test]
fn full_session_is_never_rejoined() {
    // A session already at occupancy == capacity must not be matched: the
    // reservation creates a fresh session instead.
    let mut global = Global::new(false, "us".to_string());
    let id0 = global.sessions.insert_new(full_instance("charades", "1.0"));
    assert_eq!(id0, 0);
    let (id, inst) = global.reserve_photon_instance("charades", "1.0", "eu");
    assert_ne!(id, id0);
    assert_eq!(inst.player_count, 0);
    assert_ne!(inst.photon_id, "room-full");
}

#[test]
fn compatible_session_is_rejoined_first() {
    let mut global = Global::new(false, "us".to_string());
    let (first_id, first) = global.reserve_photon_instance("charades", "1.0", "eu");
    let (again_id, again) = global.reserve_photon_instance("charades", "1.0", "jp");
    assert_eq!(first_id, again_id);
    assert_eq!(first.photon_id, again.photon_id);
    // region is not part of the match predicate: the session keeps "eu"
    assert_eq!(again.region, "eu");
    assert_eq!(global.sessions.session_count(), 1);
}

#[test]
fn mismatched_activity_or_version_is_not_joined() {
    let mut global = Global::new(false, "us".to_string());
    let (a, _) = global.reserve_photon_instance("charades", "1.0", "eu");
    let (b, _) = global.reserve_photon_instance("dodgeball", "1.0", "eu");
    let (c, _) = global.reserve_photon_instance("charades", "2.0", "eu");
    assert_eq!(a, 0);
    assert_eq!(b, 1);
    assert_eq!(c, 2);
}

#[test]
fn private_session_is_not_joined() {
    let mut global = Global::new(false, "us".to_string());
    let (pid, pinst) = global.create_photon_instance("charades", "1.0", "eu", true);
    assert!(pinst.private);
    let (jid, jinst) = global.reserve_photon_instance("charades", "1.0", "us");
    assert_ne!(jid, pid);
    assert!(!jinst.private);
}

#[test]
fn create_twice_yields_distinct_sessions() {
    // create_session("charades","1.0","eu",false) twice: two distinct ids,
    // distinct room identifiers, both region "eu", capacity 40, occupancy 0.
    let mut global = Global::new(false, "us".to_string());
    let (id1, s1) = global.create_photon_instance("charades", "1.0", "eu", false);
    let (id2, s2) = global.create_photon_instance("charades", "1.0", "eu", false);
    assert_ne!(id1, id2);
    assert_ne!(s1.photon_id, s2.photon_id);
    assert_eq!(s1.photon_id.len(), 36);
    assert_eq!(s2.photon_id.len(), 36);
    assert_eq!(s1.region, "eu");
    assert_eq!(s2.region, "eu");
    assert_eq!(s1.capacity, 40);
    assert_eq!(s2.capacity, 40);
    assert_eq!(s1.player_count, 0);
    assert_eq!(s2.player_count, 0);
    assert!(!s1.private && !s2.private);
    assert!(!s1.in_progress && !s2.in_progress);
}

#[test]
fn empty_region_list_falls_back_to_default() {
    let regions: Vec<CloudRegionPing> = vec![];
    assert_eq!(pick_region(&regions, "us"), "us");
    let mut global = Global::new(false, "us".to_string());
    let player = Player { account_id: 9, game_ver: "1.0".to_string() };
    let request = JoinRandomRoomRequest {
        ActivityLevelIds: vec!["charades".to_string()],
        ExpectedPlayerIds: vec![],
        RegionPings: vec![],
    };
    let _ = join_random(&player, &mut global, &request);
    assert_eq!(global.sessions.session_count(), 1);
    assert_eq!(global.sessions.entry_at(0).1.region, "us");
}

#[test]
fn region_with_lowest_ping_wins() {
    let regions = vec![ping("eu", 80), ping("us", 35), ping("jp", 120)];
    assert_eq!(pick_region(&regions, "us"), "us");
    let tied = vec![ping("eu", 50), ping("jp", 50)];
    assert_eq!(pick_region(&tied, "us"), "eu");
}

#[test]
fn join_random_refuses_empty_activity_list() {
    let mut global = Global::new(false, "us".to_string());
    let player = Player { account_id: 9, game_ver: "1.0".to_string() };
    let request = JoinRandomRoomRequest {
        ActivityLevelIds: vec![],
        ExpectedPlayerIds: vec![],
        RegionPings: vec![],
    };
    let response = join_random(&player, &mut global, &request);
    assert_eq!(response.Result, 1);
    assert!(response.GameSession.is_none());
    assert_eq!(global.sessions.session_count(), 0);
}

#[test]
fn join_random_reports_offline_caller() {
    let mut global = Global::new(false, "us".to_string());
    let player = Player { account_id: 9, game_ver: "1.0".to_string() };
    let request = JoinRandomRoomRequest {
        ActivityLevelIds: vec!["charades".to_string()],
        ExpectedPlayerIds: vec![],
        RegionPings: vec![ping("eu", 40)],
    };
    let response = join_random(&player, &mut global, &request);
    assert_eq!(response.Result, 2);
    assert!(response.GameSession.is_none());
}

#[test]
fn join_random_succeeds_for_connected_caller() {
    let mut global = Global::new(false, "us".to_string());
    let (tx, _rx) = futures::channel::mpsc::channel::<String>(64);
    assert!(global.player_map.register(9, tx, "1.0".to_string()));
    let player = Player { account_id: 9, game_ver: "1.0".to_string() };
    let request = JoinRandomRoomRequest {
        ActivityLevelIds: vec!["charades".to_string()],
        ExpectedPlayerIds: vec![],
        RegionPings: vec![ping("eu", 40)],
    };
    let response = join_random(&player, &mut global, &request);
    assert_eq!(response.Result, 0);
    let session = response.GameSession.expect("session expected on success");
    assert_eq!(session.ActivityLevelId, "charades");
    assert_eq!(session.RegionId, "eu");
    assert_eq!(session.MaxCapacity, 40);
    assert!(!session.IsFull);
    assert_eq!(session.GameSessionId, 0);
}

#[test]
fn ad_hoc_hosting_returns_fixed_session() {
    let mut global = Global::new(true, "local".to_string());
    let (tx, _rx) = futures::channel::mpsc::channel::<String>(64);
    assert!(global.player_map.register(9, tx, "1.0".to_string()));
    let player = Player { account_id: 9, game_ver: "1.0".to_string() };
    let request = JoinRandomRoomRequest {
        ActivityLevelIds: vec!["charades".to_string()],
        ExpectedPlayerIds: vec![],
        RegionPings: vec![],
    };
    let response = join_random(&player, &mut global, &request);
    assert_eq!(response.Result, 0);
    let session = response.GameSession.unwrap();
    assert_eq!(session.GameSessionId, 567);
    assert_eq!(session.RegionId, "local");
    assert_eq!(session.RoomId, "public charades");
    assert_eq!(global.sessions.session_count(), 0);
}

#[test]
fn create_notifies_and_attributes_creator() {
    let mut global = Global::new(false, "us".to_string());
    let (tx, _rx) = futures::channel::mpsc::channel::<String>(64);
    assert!(global.player_map.register(11, tx, "1.0".to_string()));
    let player = Player { account_id: 11, game_ver: "1.0".to_string() };
    let request = CreateRoomRequest {
        ActivityLevelId: "dodgeball".to_string(),
        ExpectedPlayerIds: vec![],
        RegionPings: vec![ping("jp", 12)],
    };
    let response = create(&player, &mut global, &request);
    assert_eq!(response.Result, 0);
    let session = response.GameSession.unwrap();
    assert_eq!(session.CreatorPlayerId, Some(11));
    assert_eq!(session.RegionId, "jp");
    assert_eq!(session.ActivityLevelId, "dodgeball");
}
