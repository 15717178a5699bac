//! Data shapes of the request/response REST resources around the core,
//! and the few pieces of their logic that are pure: version checking and
//! the mapping from a stored account row to the client-facing profile
//! records. The store itself and the HTTP plumbing live outside the
//! library.
#![allow(non_snake_case)]
use crate::global::Player;
use crate::jsonout::{append_bool, spec_bool_str};
use crate::text::str_eq;
use vstd::prelude::*;

verus! {

/// A charades prompt word.
pub struct Word {
    pub EN_US: String,
    pub Difficulty: i32,
}

/// A player's avatar configuration, stored as opaque selection strings.
pub struct Avatar {
    pub OutfitSelections: String,
    pub SkinColor: String,
    pub HairColor: String,
}

/// A pending avatar gift.
pub struct Gift {
    pub Id: i64,
    pub AvatarItemDesc: Option<String>,
    pub Xp: i32,
    pub GiftRarity: i32,
    pub Message: String,
    pub EquipmentPrefabName: Option<String>,
    pub EquipmentModificationGuid: Option<String>,
    pub GiftContext: i32,
}

/// An unlocked avatar item.
pub struct UnlockedItem {
    pub AvatarItemDesc: String,
    pub UnlockedLevel: i32,
}

/// An unlocked piece of equipment.
pub struct Equipment {
    pub PrefabName: String,
    pub ModificationGuid: String,
    pub UnlockedLevel: i32,
    pub Favorited: bool,
}

/// A scheduled public event.
pub struct Event {
    pub EventId: i64,
    pub Name: String,
    pub Description: String,
    pub StartTime: i64,
    pub EndTime: i64,
    pub PosterImageName: String,
    pub CreatorPlayerId: i64,
}

/// An inbox message.
pub struct Message {
    pub Id: i64,
    pub FromPlayerId: i64,
    /// seconds since 1970 (utc)
    pub SentTime: i64,
    pub Type: i32,
    pub Data: String,
}

/// A generic success/failure response body.
pub struct ResultResponse {
    pub Success: bool,
    pub Message: Option<String>,
}

/// Details of a moderation block.
pub struct BanDetails {
    pub ReportCategory: i32,
    pub Duration: i32,
    pub GameSessionId: i64,
    pub Message: String,
}

/// A relationship record; the resource currently reports none.
pub struct Relationship {}

/// One key/value client setting.
pub struct Setting {
    pub Key: String,
    pub Value: String,
}

/// Accepts a settings update. Nothing is stored for it yet.
pub fn set(_player: Player) {
}

/// Accepts a bulk-ignore request. Nothing is recorded for it yet.
pub fn bulk_ignore_platform_users(_player: Player) {
}

/// The client versions the backend accepts.
pub open spec fn is_valid_version(v: Seq<char>) -> bool {
    ||| v == "20171027_EA"@
    ||| v == "20171103_EA"@
    ||| v == "20171117_EA"@
}

/// Answers a version check with the JSON body
/// `{"ValidVersion":<bool>}`, true exactly for the accepted versions.
pub fn versioncheck_v3(v: &str) -> (r: String)
    ensures
        r@ == "{\"ValidVersion\":"@ + spec_bool_str(is_valid_version(v@)) + "}"@,
{
    let is_valid = str_eq(v, "20171027_EA") || str_eq(v, "20171103_EA") || str_eq(
        v,
        "20171117_EA",
    );
    let mut out = String::from_str("{\"ValidVersion\":");
    append_bool(&mut out, is_valid);
    out.append("}");
    proof {
        assert(out@ =~= "{\"ValidVersion\":"@ + spec_bool_str(is_valid_version(v@)) + "}"@);
    }
    out
}

/// An account row as the store holds it; the creation timestamp stays in
/// the store and is not part of what the profile mappings read.
pub struct Account {
    pub id: i32,
    pub username: String,
    pub displayname: String,
    pub xp: i32,
}

/// A platform/platform-id pair linked to an account.
pub struct PlatformIdPair {
    pub Platform: String,
    pub PlatformId: String,
}

/// A player's reputation counters.
pub struct PlayerNoteriety {
    pub Noteriety: i32,
    pub CheerGeneral: i32,
    pub CheerHelpful: i32,
    pub CheerGreatHost: i32,
    pub CheerSportsman: i32,
    pub CheerCreative: i32,
    pub CheerCredit: i32,
    pub SelectedCheer: Option<i32>,
}

impl Default for PlayerNoteriety {
    fn default() -> (r: Self)
        ensures
            r.Noteriety == 0,
            r.CheerGeneral == 0,
            r.CheerHelpful == 0,
            r.CheerGreatHost == 0,
            r.CheerSportsman == 0,
            r.CheerCreative == 0,
            r.CheerCredit == 0,
            r.SelectedCheer is None,
    {
        PlayerNoteriety {
            Noteriety: 0,
            CheerGeneral: 0,
            CheerHelpful: 0,
            CheerGreatHost: 0,
            CheerSportsman: 0,
            CheerCreative: 0,
            CheerCredit: 0,
            SelectedCheer: None,
        }
    }
}

/// The full profile record reported for an account. The email timestamp
/// is carried as seconds since 1970.
pub struct Profile {
    pub Id: i64,
    pub Username: String,
    pub DisplayName: String,
    pub XP: i32,
    pub Level: i32,
    pub Verified: bool,
    pub Developer: bool,
    pub HasEmail: bool,
    pub CanReceiveInvites: bool,
    pub ProfileImageName: String,
    pub JuniorProfile: bool,
    pub ForceJuniorImages: bool,
    pub PendingJunior: bool,
    pub HasBirthday: bool,
    pub AvoidJuniors: bool,
    pub EmailEnteredAt: i64,
    pub PlayerReputation: PlayerNoteriety,
    pub PlatformIds: Vec<PlatformIdPair>,
}

impl Profile {
    /// Builds the profile reported for a stored account: the account's own
    /// fields carry over and every capability is granted.
    pub fn from_account(account: &Account) -> (r: Profile)
        ensures
            r.Id == account.id as i64,
            r.Username == account.username,
            r.DisplayName == account.displayname,
            r.XP == account.xp,
            r.Level == 99,
            r.Verified,
            r.Developer,
            r.HasEmail,
            r.CanReceiveInvites,
            r.ProfileImageName@ == "no"@,
            !r.JuniorProfile,
            !r.ForceJuniorImages,
            !r.PendingJunior,
            r.HasBirthday,
            r.AvoidJuniors,
            r.EmailEnteredAt == 0,
            r.PlatformIds@.len() == 0,
    {
        Profile {
            Id: account.id as i64,
            Username: account.username.clone(),
            DisplayName: account.displayname.clone(),
            XP: account.xp,
            Level: 99,
            Verified: true,
            Developer: true,
            HasEmail: true,
            CanReceiveInvites: true,
            ProfileImageName: String::from_str("no"),
            JuniorProfile: false,
            ForceJuniorImages: false,
            PendingJunior: false,
            HasBirthday: true,
            AvoidJuniors: true,
            EmailEnteredAt: 0,
            PlayerReputation: PlayerNoteriety::default(),
            PlatformIds: vec![],
        }
    }
}

/// The shorter profile record used for cached logins.
pub struct CachedLogin {
    pub Id: i64,
    pub Username: String,
    pub DisplayName: String,
    pub XP: i32,
    pub Level: i32,
    pub RegistrationStatus: i32,
    pub Developer: bool,
    pub CanReceiveInvites: bool,
    pub ProfileImageName: String,
    pub JuniorProfile: bool,
    pub ForceJuniorImages: bool,
    pub PendingJunior: bool,
    pub HasBirthday: bool,
    pub AvoidJuniors: bool,
    pub PlayerReputation: PlayerNoteriety,
    pub PlatformIds: Vec<PlatformIdPair>,
}

impl CachedLogin {
    /// Builds the cached-login record for a stored account; the account
    /// counts as fully registered.
    pub fn from_account(account: &Account) -> (r: CachedLogin)
        ensures
            r.Id == account.id as i64,
            r.Username == account.username,
            r.DisplayName == account.displayname,
            r.XP == account.xp,
            r.Level == 99,
            r.RegistrationStatus == 2,
            r.Developer,
            r.CanReceiveInvites,
            r.ProfileImageName@ == "no"@,
            !r.JuniorProfile,
            !r.ForceJuniorImages,
            !r.PendingJunior,
            r.HasBirthday,
            r.AvoidJuniors,
            r.PlatformIds@.len() == 0,
    {
        CachedLogin {
            Id: account.id as i64,
            Username: account.username.clone(),
            DisplayName: account.displayname.clone(),
            XP: account.xp,
            Level: 99,
            RegistrationStatus: 2,
            Developer: true,
            CanReceiveInvites: true,
            ProfileImageName: String::from_str("no"),
            JuniorProfile: false,
            ForceJuniorImages: false,
            PendingJunior: false,
            HasBirthday: true,
            AvoidJuniors: true,
            PlayerReputation: PlayerNoteriety::default(),
            PlatformIds: vec![],
        }
    }
}

} // verus!
