use rust_pearl_stasis_bot::chests::{
    add_bounty_with, add_ledger_chest_with, add_shop_item_with, delete_ledger_chest, find_ledger_chest,
    normalize_bounty_status, normalize_ledger_purpose, normalize_shop_reward_type, NewBountyEntry,
    NewLedgerChestEntry, NewShopItemEntry,
};
use rust_pearl_stasis_bot::records::{
    add_pearl_with, add_waypoint, add_waypoint_with, delete_pearl, delete_waypoint, find_visible_pearl, find_waypoint,
    normalize_waypoint_category, update_waypoint, visible_pearls, NewPearlEntry, NewWaypointEntry, RecordError,
};
use rust_pearl_stasis_bot::users::{
    add_user, default_users, delete_user, find_user, normalize_permissions, public_users, update_user, verify_user,
    NewUserRequest, UpdateUserRequest, UserError, UserRole,
};
use rust_pearl_stasis_bot::viewport::{cached_viewport_blocks, merge_viewport_cache, viewport_window, ViewportBlock};

fn strings(v: &[&str]) -> Vec<String> {
    v.iter().map(|s| s.to_string()).collect()
}

fn new_user(name: &str, password: &str) -> NewUserRequest {
    NewUserRequest {
        username: name.to_string(),
        password: password.to_string(),
        role: UserRole::User,
        minecraft_name: None,
        discord_name: Some("disc".to_string()),
        permissions: strings(&[" Bank ", "shop", "bank", "root"]),
    }
}

#[test]
fn default_admin_account() {
    let users = default_users();
    assert_eq!(users.len(), 1);
    assert_eq!(users[0].username, "admin");
    assert_eq!(users[0].password, "change-me");
    assert_eq!(users[0].role, UserRole::Owner);
}

#[test]
fn permissions_are_normalized() {
    assert_eq!(normalize_permissions(strings(&[" Bank ", "shop", "BANK", "root", "bounty"])), strings(&["bank", "shop", "bounty"]));
}

#[test]
fn faq_and_record_permissions_are_kept() {
    assert_eq!(
        normalize_permissions(strings(&[" FAQ_Whisper ", "public", "archive", "public_admin", "chronicles:write", "nope:write", ":write"])),
        strings(&["faq_whisper", "public", "archive", "public_admin", "chronicles:write"])
    );
    let mut users = default_users();
    let mut input = new_user("editor", "pw");
    input.permissions = strings(&["faq_whisper"]);
    let p = add_user(&mut users, input).ok().unwrap();
    assert_eq!(p.permissions, strings(&["faq_whisper"]));
}

#[test]
fn added_users_can_log_in() {
    let mut users = default_users();
    let p = add_user(&mut users, new_user("  Steve ", "pw")).ok().unwrap();
    assert_eq!(p.username, "steve");
    assert_eq!(p.permissions, strings(&["bank", "shop"]));
    assert!(verify_user(&users, "Steve", "pw").is_some());
    assert!(verify_user(&users, "steve", "wrong").is_none());
    assert_eq!(find_user(&users, " STEVE ").unwrap().discord_name, "disc");
    assert_eq!(public_users(&users).len(), 2);
}

#[test]
fn user_errors() {
    let mut users = default_users();
    assert!(matches!(add_user(&mut users, new_user(" ", "pw")), Err(UserError::MissingCredentials)));
    assert!(matches!(add_user(&mut users, new_user("ADMIN", "pw")), Err(UserError::AlreadyExists)));
    assert!(matches!(delete_user(&mut users, "Admin"), Err(UserError::PrimaryOwner)));
    assert_eq!(UserError::AlreadyExists.message(), "user already exists");
    assert_eq!(UserError::MissingCredentials.message(), "username and password are required");
    assert_eq!(UserError::PrimaryOwner.message(), "the primary admin owner account cannot be deleted");
}

#[test]
fn users_are_updated_and_deleted() {
    let mut users = default_users();
    add_user(&mut users, new_user("steve", "pw")).ok().unwrap();
    let changes = UpdateUserRequest {
        password: Some(String::new()),
        role: Some(UserRole::Owner),
        minecraft_name: Some("SteveMC".to_string()),
        discord_name: None,
        permissions: Some(strings(&["book_writer"])),
    };
    let p = update_user(&mut users, "Steve", changes).unwrap();
    assert_eq!(p.role, UserRole::Owner);
    assert_eq!(p.minecraft_name, "SteveMC");
    assert_eq!(p.permissions, strings(&["book_writer"]));
    assert!(verify_user(&users, "steve", "pw").is_some());
    let keep_admin = UpdateUserRequest {
        password: None,
        role: Some(UserRole::User),
        minecraft_name: None,
        discord_name: None,
        permissions: None,
    };
    assert_eq!(update_user(&mut users, "admin", keep_admin).unwrap().role, UserRole::Owner);
    assert_eq!(delete_user(&mut users, "steve").ok(), Some(true));
    assert_eq!(delete_user(&mut users, "steve").ok(), Some(false));
    assert!(find_user(&users, "steve").is_none());
}

fn waypoint_input(label: &str) -> NewWaypointEntry {
    NewWaypointEntry {
        label: label.to_string(),
        category: "  ".to_string(),
        bot_name: " UtilityBot ".to_string(),
        x: 1,
        y: 64,
        z: -2,
        notes: None,
    }
}

#[test]
fn waypoints_are_added_found_and_deleted() {
    let mut ws = Vec::new();
    let w = add_waypoint_with(&mut ws, waypoint_input(" Base "), 7, "T".to_string()).ok().unwrap();
    assert_eq!(w.label, "Base");
    assert_eq!(w.category, "Uncategorized");
    assert_eq!(w.bot_name, "UtilityBot");
    assert_eq!(find_waypoint(ws.iter().map(|w| w.duplicate()).collect(), 7).unwrap().label, "Base");
    let changed = update_waypoint(&mut ws, 7, waypoint_input("Home")).ok().unwrap().unwrap();
    assert_eq!(changed.label, "Home");
    assert_eq!(changed.created_at, "T");
    assert!(update_waypoint(&mut ws, 8, waypoint_input("Home")).ok().unwrap().is_none());
    assert!(matches!(add_waypoint_with(&mut ws, waypoint_input("  "), 9, String::new()), Err(RecordError::WaypointLabelRequired)));
    assert!(delete_waypoint(&mut ws, 7));
    assert!(!delete_waypoint(&mut ws, 7));
    assert!(find_waypoint(ws, 7).is_none());
    assert_eq!(normalize_waypoint_category(" Bases "), "Bases");
}

fn pearl_input(player: &str) -> NewPearlEntry {
    NewPearlEntry {
        player: player.to_string(),
        label: "Chamber".to_string(),
        category: String::new(),
        stasis_kind: " ".to_string(),
        item_name: String::new(),
        inventory_slot: 50,
        bot_name: String::new(),
        x: 0,
        y: 0,
        z: 0,
        notes: Some("n".to_string()),
        allowed_users: strings(&[" Alex "]),
    }
}

#[test]
fn pearls_are_seen_by_their_people() {
    let mut pearls = Vec::new();
    let p = add_pearl_with(&mut pearls, pearl_input("ignored"), "Steve", &UserRole::User, 1, "T".to_string());
    assert_eq!(p.player, "steve");
    assert_eq!(p.owner_user, "steve");
    assert_eq!(p.stasis_kind, "block");
    assert_eq!(p.inventory_slot, 35);
    assert_eq!(p.allowed_users, strings(&["alex"]));
    add_pearl_with(&mut pearls, pearl_input("Bob"), "admin", &UserRole::Owner, 2, "T".to_string());
    let copy = |v: &Vec<rust_pearl_stasis_bot::records::PearlEntry>| v.iter().map(|p| p.duplicate()).collect::<Vec<_>>();
    assert_eq!(visible_pearls(copy(&pearls), "alex", &UserRole::User).len(), 2);
    assert_eq!(visible_pearls(copy(&pearls), "bob", &UserRole::User).len(), 1);
    assert_eq!(visible_pearls(copy(&pearls), "anyone", &UserRole::Owner).len(), 2);
    assert!(find_visible_pearl(copy(&pearls), 2, "steve", &UserRole::User).is_none());
    assert!(find_visible_pearl(copy(&pearls), 1, "STEVE", &UserRole::User).is_some());
    assert!(!delete_pearl(&mut pearls, 2, "steve", &UserRole::User));
    assert!(delete_pearl(&mut pearls, 1, "steve", &UserRole::User));
    assert_eq!(pearls.len(), 1);
}

#[test]
fn chest_and_shop_records() {
    assert_eq!(normalize_ledger_purpose(" Books "), "writing");
    assert_eq!(normalize_ledger_purpose("anything"), "banking");
    assert_eq!(normalize_shop_reward_type("Role"), "discord_role");
    assert_eq!(normalize_shop_reward_type("x"), "manual");
    assert_eq!(normalize_bounty_status("In-Progress"), "in_progress");
    assert_eq!(normalize_bounty_status("done"), "completed");
    assert_eq!(normalize_bounty_status("?"), "open");
    let mut chests = Vec::new();
    let input = NewLedgerChestEntry {
        purpose: "book".to_string(),
        label: " Vault ".to_string(),
        category: String::new(),
        bot_name: String::new(),
        chest_x: 0,
        chest_y: 0,
        chest_z: 0,
        processed_chest_x: None,
        processed_chest_y: None,
        processed_chest_z: None,
        allowed_players: strings(&["Steve", " "]),
        min_credits: 1,
        max_credits: 10,
        remove_processed_book: false,
    };
    let c = add_ledger_chest_with(&mut chests, input, 5, "T".to_string()).ok().unwrap();
    assert_eq!(c.label, "Vault");
    assert_eq!(c.purpose, "writing");
    assert!(find_ledger_chest(chests.iter().map(|c| c.duplicate()).collect(), 5).is_some());
    assert!(delete_ledger_chest(&mut chests, 5));
    let mut items = Vec::new();
    let bad = NewShopItemEntry {
        name: "Hat".to_string(),
        description: String::new(),
        price: 0,
        command_hint: String::new(),
        reward_type: String::new(),
        discord_role_id: String::new(),
        discord_role_name: String::new(),
        enabled: true,
    };
    assert!(matches!(add_shop_item_with(&mut items, bad, 1, String::new()), Err(RecordError::ShopItemPriceTooLow)));
    let mut bounties = Vec::new();
    let b = NewBountyEntry { target: " Griefer ".to_string(), reward: 50, note: String::new(), status: "active".to_string() };
    let e = add_bounty_with(&mut bounties, b, "admin".to_string(), 3, "T".to_string()).ok().unwrap();
    assert_eq!(e.target, "Griefer");
    assert_eq!(e.status, "in_progress");
    assert_eq!(RecordError::BountyRewardTooLow.message(), "bounty reward must be at least 1 Credits");
}

fn block(x: i32, z: i32, kind: &str) -> ViewportBlock {
    ViewportBlock { x, y: 64, z, kind: kind.to_string() }
}

#[test]
fn viewport_cache_keeps_the_newest_block_per_column() {
    let cache = vec![block(2, 0, "stone"), block(0, 0, "dirt")];
    let blocks = vec![block(0, 0, "grass"), block(1, 5, "sand"), block(0, 0, "snow")];
    let merged = merge_viewport_cache(cache, &blocks).unwrap();
    let kinds: Vec<(i32, i32, String)> = merged.iter().map(|b| (b.x, b.z, b.kind.clone())).collect();
    assert_eq!(
        kinds,
        vec![(0, 0, "snow".to_string()), (1, 5, "sand".to_string()), (2, 0, "stone".to_string())]
    );
    assert!(merge_viewport_cache(vec![block(0, 0, "x")], &Vec::new()).is_none());
}

#[test]
fn viewport_area_filter() {
    let cache = vec![block(0, 0, "a"), block(5, 5, "b"), block(-3, 2, "c")];
    let inside = cached_viewport_blocks(cache, -3, 1, 0, 2);
    let kinds: Vec<String> = inside.iter().map(|b| b.kind.clone()).collect();
    assert_eq!(kinds, vec!["a".to_string(), "c".to_string()]);
}

#[test]
fn viewport_window_is_chunks_around_the_bot() {
    let w = viewport_window(100, -50, 2);
    assert_eq!((w.chunks, w.start_x, w.end_x, w.start_z, w.end_z), (2, 84, 115, -66, -35));
    let w = viewport_window(0, 0, 0);
    assert_eq!((w.chunks, w.start_x, w.end_x), (1, -8, 7));
    let w = viewport_window(0, 0, 200);
    assert_eq!((w.chunks, w.start_z, w.end_z), (32, -256, 255));
}

#[test]
fn an_added_user_verifies_with_its_password_only() {
    let mut users = default_users();
    add_user(&mut users, new_user(" MixedCase ", "secret")).ok().unwrap();
    let u = verify_user(&users, " MixedCase ", "secret").unwrap();
    assert_eq!(u.username, "mixedcase");
    assert!(verify_user(&users, "MIXEDCASE", "secret").is_some());
    assert!(verify_user(&users, " MixedCase ", "Secret").is_none());
    assert!(verify_user(&users, " MixedCase ", "").is_none());
}

#[test]
fn a_merged_cache_reads_back_the_newest_block_per_column() {
    let cache = vec![block(0, 0, "a"), block(9, 9, "far")];
    let blocks = vec![block(1, 1, "b"), block(0, 0, "c"), block(1, 1, "d")];
    let merged = merge_viewport_cache(cache, &blocks).unwrap();
    let read = cached_viewport_blocks(merged, 0, 1, 0, 1);
    let kinds: Vec<(i32, i32, String)> = read.iter().map(|b| (b.x, b.z, b.kind.clone())).collect();
    assert_eq!(kinds, vec![(0, 0, "c".to_string()), (1, 1, "d".to_string())]);
}

#[test]
fn added_records_get_a_version_four_id_and_a_utc_stamp() {
    let mut list = Vec::new();
    let w = add_waypoint(&mut list, waypoint_input("Home")).ok().unwrap();
    assert_eq!((w.id >> 76) & 0xf, 4);
    assert_eq!((w.id >> 62) & 0x3, 2);
    assert!(w.created_at.len() >= 25);
    assert!(w.created_at.ends_with("+00:00"));
}
