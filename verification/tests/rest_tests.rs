use tencer::gamesessions::{list_public_events, report_join_result, JoinResult};
use tencer::global::Player;
use tencer::rest::{
    bulk_ignore_platform_users, Avatar, BanDetails, Equipment, Event, Gift, Message,
    Relationship, ResultResponse, Setting, UnlockedItem, Word,
};

fn player() -> Player {
    Player { account_id: 3, game_ver: "1.0".to_string() }
}

#[test]
fn stub_endpoints_accept_calls() {
    tencer::rest::set(player());
    bulk_ignore_platform_users(player());
    report_join_result(
        &player(),
        JoinResult {
            GameSessionId: 0,
            RegionId: "eu".to_string(),
            RoomId: "room".to_string(),
            Result: 0,
        },
    );
    assert!(list_public_events().is_empty());
}

#[test]
fn resource_records_hold_their_fields() {
    let word = Word { EN_US: "cat".to_string(), Difficulty: 1 };
    assert_eq!(word.EN_US, "cat");
    let avatar = Avatar {
        OutfitSelections: "o".to_string(),
        SkinColor: "s".to_string(),
        HairColor: "h".to_string(),
    };
    assert_eq!(avatar.SkinColor, "s");
    let gift = Gift {
        Id: 1,
        AvatarItemDesc: None,
        Xp: 0,
        GiftRarity: 0,
        Message: "hi".to_string(),
        EquipmentPrefabName: None,
        EquipmentModificationGuid: None,
        GiftContext: 0,
    };
    assert_eq!(gift.Id, 1);
    let item = UnlockedItem { AvatarItemDesc: "hat".to_string(), UnlockedLevel: 2 };
    assert_eq!(item.UnlockedLevel, 2);
    let equipment = Equipment {
        PrefabName: "bat".to_string(),
        ModificationGuid: "g".to_string(),
        UnlockedLevel: 1,
        Favorited: true,
    };
    assert!(equipment.Favorited);
    let event = Event {
        EventId: 9,
        Name: "n".to_string(),
        Description: "d".to_string(),
        StartTime: 0,
        EndTime: 1,
        PosterImageName: "p".to_string(),
        CreatorPlayerId: 3,
    };
    assert_eq!(event.EventId, 9);
    let message = Message {
        Id: 4,
        FromPlayerId: 5,
        SentTime: 6,
        Type: 7,
        Data: "x".to_string(),
    };
    assert_eq!(message.FromPlayerId, 5);
    let response = ResultResponse { Success: true, Message: None };
    assert!(response.Success);
    let ban = BanDetails {
        ReportCategory: 0,
        Duration: 0,
        GameSessionId: 0,
        Message: "".to_string(),
    };
    assert_eq!(ban.Duration, 0);
    let _ = Relationship {};
    let setting = Setting { Key: "Recroom.OOBE".to_string(), Value: "100".to_string() };
    assert_eq!(setting.Value, "100");
}
