use tencer::gamesessions::{presence_update_json, GameSession};
use tencer::jsonout::{envelope, i64_to_string};
use tencer::rest::{versioncheck_v3, Account, CachedLogin, Profile};

fn sample_session() -> GameSession {
    GameSession {
        GameSessionId: 3,
        RegionId: "eu".to_string(),
        RoomId: "room-1".to_string(),
        EventId: None,
        CreatorPlayerId: Some(42),
        Name: "".to_string(),
        ActivityLevelId: "charades".to_string(),
        Private: false,
        GameInProgress: false,
        MaxCapacity: 40,
        IsFull: false,
    }
}

#[test]
fn decimal_formatting() {
    assert_eq!(i64_to_string(0), "0");
    assert_eq!(i64_to_string(7), "7");
    assert_eq!(i64_to_string(567), "567");
    assert_eq!(i64_to_string(-13), "-13");
    assert_eq!(i64_to_string(i64::MAX), "9223372036854775807");
    assert_eq!(i64_to_string(i64::MIN), "-9223372036854775808");
}

#[test]
fn envelope_wraps_payload() {
    assert_eq!(envelope(12, "{}"), "{\"Id\":12,\"Msg\":{}}");
    assert_eq!(envelope(-1, "null"), "{\"Id\":-1,\"Msg\":null}");
}

#[test]
fn game_session_json_is_exact() {
    let expected = "{\"GameSessionId\":3,\"RegionId\":\"eu\",\"RoomId\":\"room-1\",\"EventId\":null,\"CreatorPlayerId\":42,\"Name\":\"\",\"ActivityLevelId\":\"charades\",\"Private\":false,\"GameInProgress\":false,\"MaxCapacity\":40,\"IsFull\":false}";
    assert_eq!(sample_session().to_json(), expected);
}

#[test]
fn presence_json_embeds_session() {
    let json = presence_update_json(42, true, &sample_session());
    assert!(json.starts_with("{\"PlayerId\":42,\"IsOnline\":true,\"GameSession\":{"));
    assert!(json.ends_with("}}"));
}

#[test]
fn json_strings_are_escaped() {
    let mut session = sample_session();
    session.ActivityLevelId = "a\"b\\c\nd".to_string();
    let json = session.to_json();
    assert!(json.contains("\"ActivityLevelId\":\"a\\\"b\\\\c\\u000ad\""));
}

#[test]
fn versioncheck_accepts_known_versions_only() {
    assert_eq!(versioncheck_v3("20171027_EA"), "{\"ValidVersion\":true}");
    assert_eq!(versioncheck_v3("20171103_EA"), "{\"ValidVersion\":true}");
    assert_eq!(versioncheck_v3("20171117_EA"), "{\"ValidVersion\":true}");
    assert_eq!(versioncheck_v3("20180101_EA"), "{\"ValidVersion\":false}");
    assert_eq!(versioncheck_v3(""), "{\"ValidVersion\":false}");
}

#[test]
fn profile_mirrors_account() {
    let account = Account {
        id: 5,
        username: "5".to_string(),
        displayname: "Ace".to_string(),
        xp: 120,
    };
    let profile = Profile::from_account(&account);
    assert_eq!(profile.Id, 5);
    assert_eq!(profile.Username, "5");
    assert_eq!(profile.DisplayName, "Ace");
    assert_eq!(profile.XP, 120);
    assert_eq!(profile.Level, 99);
    assert!(profile.Verified);
    assert_eq!(profile.EmailEnteredAt, 0);
    assert!(profile.PlatformIds.is_empty());

    let login = CachedLogin::from_account(&account);
    assert_eq!(login.Id, 5);
    assert_eq!(login.RegistrationStatus, 2);
    assert_eq!(login.DisplayName, "Ace");
}
