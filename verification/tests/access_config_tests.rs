use rust_pearl_stasis_bot::access::{
    butler_chest_waypoint, butler_destination_waypoint, butler_started_response, chest_walk_response, cookie_token,
    feature_any_check, feature_check, find_bot_account, ledger_chest_waypoint, ledger_purpose_check,
    ledger_started_response, owner_check, waypoint_walk_response, AccessError,
};
use rust_pearl_stasis_bot::chests::{ButlerChestEntry, ButlerWaypointEntry, LedgerChestEntry};
use rust_pearl_stasis_bot::config::{
    default_waypoint_categories, BotAccountConfig, BotConfig, ChestLedgerConfig,
};
use rust_pearl_stasis_bot::records::WaypointEntry;
use rust_pearl_stasis_bot::users::{AppUser, UserRole};

fn user(role: UserRole, perms: &[&str]) -> AppUser {
    AppUser {
        username: "u".to_string(),
        password: "p".to_string(),
        role,
        minecraft_name: String::new(),
        discord_name: String::new(),
        permissions: perms.iter().map(|p| p.to_string()).collect(),
    }
}

fn ledger(purpose: &str) -> LedgerChestEntry {
    LedgerChestEntry {
        id: 9,
        purpose: purpose.to_string(),
        label: "Vault".to_string(),
        category: "Ledger Chests".to_string(),
        bot_name: "UtilityBot".to_string(),
        chest_x: 10,
        chest_y: 64,
        chest_z: -3,
        processed_chest_x: Some(1),
        processed_chest_y: None,
        processed_chest_z: None,
        allowed_players: vec!["steve".to_string()],
        min_credits: 1,
        max_credits: 500,
        remove_processed_book: true,
        created_at: "T".to_string(),
    }
}

#[test]
fn session_cookie() {
    assert_eq!(cookie_token("a=1; ps_session=abc123; b=2"), Some("abc123".to_string()));
    assert_eq!(cookie_token("ps_session="), Some(String::new()));
    assert_eq!(cookie_token("other=1"), None);
    assert_eq!(cookie_token(""), None);
}

#[test]
fn page_checks() {
    let owner = user(UserRole::Owner, &[]);
    let banker = user(UserRole::User, &["Bank"]);
    let plain = user(UserRole::User, &[]);
    assert!(owner_check(&owner).is_ok());
    assert!(matches!(owner_check(&banker), Err(AccessError::OwnerRequired)));
    assert!(feature_check(&banker, "bank").is_ok());
    match feature_check(&plain, "bank") {
        Err(e) => assert_eq!(e.message(), "bank permission required"),
        Ok(_) => panic!("plain user has no bank permission"),
    }
    assert!(feature_any_check(&banker, &vec!["book_writer", "bank"]).is_ok());
    match feature_any_check(&plain, &vec!["book_writer", "bank"]) {
        Err(e) => assert_eq!(e.message(), "required page permission missing"),
        Ok(_) => panic!("plain user has neither permission"),
    }
    assert_eq!(AccessError::LoginRequired.message(), "login required");
    assert_eq!(AccessError::LoginExpired.message(), "login expired");
    assert_eq!(AccessError::OwnerRequired.message(), "owner login required");
}

#[test]
fn bot_accounts_by_name() {
    let accounts = vec![
        BotAccountConfig {
            name: " UtilityBot ".to_string(),
            host: "h".to_string(),
            port: 1,
            username_or_email: "e".to_string(),
            auth_mode: "offline".to_string(),
            enabled: true,
        },
        BotAccountConfig {
            name: "backup".to_string(),
            host: "h2".to_string(),
            port: 2,
            username_or_email: "e2".to_string(),
            auth_mode: "offline".to_string(),
            enabled: false,
        },
    ];
    let a = find_bot_account(accounts.iter().map(|a| a.duplicate()).collect(), " BACKUP ").ok().unwrap();
    assert_eq!(a.port, 2);
    match find_bot_account(accounts, "Missing") {
        Err(m) => assert_eq!(m, "bot account 'missing' not found"),
        Ok(_) => panic!("no such account"),
    }
}

#[test]
fn walk_answers() {
    let w = WaypointEntry {
        id: 1,
        label: "Base".to_string(),
        category: "Bases".to_string(),
        bot_name: "UtilityBot".to_string(),
        x: 1,
        y: 2,
        z: 3,
        notes: String::new(),
        created_at: String::new(),
    };
    let r = waypoint_walk_response(&w);
    assert_eq!(r.mesadmin, "Started walking 'Base' in the background. Watch bot status/log output for progress.");
    assert_eq!((r.x, r.y, r.z), (1, 2, 3));
    let r = chest_walk_response(&w);
    assert!(r.mesadmin.starts_with("Started walking to 'Base'"));
}

#[test]
fn chest_waypoints() {
    let w = ledger_chest_waypoint(ledger("banking"));
    assert_eq!(w.label, "Vault chest");
    assert_eq!(w.category, "Ledger Chests");
    assert_eq!(w.notes, "banking chest waypoint");
    assert_eq!((w.x, w.y, w.z), (10, 64, -3));
    let b = ButlerChestEntry {
        id: 2,
        label: "Src".to_string(),
        category: "Bank Butler".to_string(),
        bot_name: "b".to_string(),
        chest_x: 0,
        chest_y: 0,
        chest_z: 0,
        created_at: String::new(),
    };
    assert_eq!(butler_chest_waypoint(b).label, "Src source chest");
    let d = ButlerWaypointEntry {
        id: 3,
        label: "Dst".to_string(),
        category: "Bank Butler".to_string(),
        bot_name: "b".to_string(),
        chest_x: 0,
        chest_y: 0,
        chest_z: 0,
        created_at: String::new(),
    };
    let w = butler_destination_waypoint(d);
    assert_eq!(w.label, "Dst destination chest");
    assert_eq!(w.notes, "bank butler destination chest waypoint");
}

#[test]
fn ledger_runs_need_a_banking_chest() {
    assert!(ledger_purpose_check(&ledger("Banking")).is_ok());
    match ledger_purpose_check(&ledger("writer")) {
        Err(m) => assert_eq!(m, "this saved chest is a writer chest; choose a banking chest to run the ledger"),
        Ok(_) => panic!("writer chest"),
    }
    let r = ledger_started_response("Vault");
    assert_eq!(
        r.mesadmin,
        "Started bank ledger 'Vault' in the background. Watch bot status/log output for processed/skipped details."
    );
    let b = butler_started_response("Box");
    assert_eq!(b.shulker_name, "Box");
    assert!(b.bot_name.is_empty());
}

#[test]
fn default_configuration() {
    let c = BotConfig::default();
    assert_eq!(c.gui_host, "0.0.0.0");
    assert_eq!(c.gui_port, 8081);
    assert_eq!(c.faq_whisper_cooldown_seconds, 60);
    assert_eq!(c.login_greeter_cooldown_seconds, 300);
    assert_eq!(c.accounts.len(), 1);
    assert_eq!(c.accounts[0].name, "UtilityBot");
    assert_eq!(c.waypoint_categories, default_waypoint_categories());
    assert_eq!(c.waypoint_categories.len(), 7);
}

#[test]
fn legacy_configuration_has_one_account() {
    let mut c = BotConfig::default();
    c.accounts = Vec::new();
    c.host = "play.example.net".to_string();
    let a = c.normalized_accounts();
    assert_eq!(a.len(), 1);
    assert_eq!(a[0].name, "UtilityBot");
    assert_eq!(a[0].host, "play.example.net");
    assert!(a[0].enabled);
}

#[test]
fn ledger_settings() {
    let d = ChestLedgerConfig::default();
    assert_eq!(d.label, "Credits Bank");
    assert_eq!(d.max_credits, 100_000_000);
    let c: ChestLedgerConfig = ledger("banking").into();
    assert_eq!(c.label, "Vault");
    assert_eq!(c.processed_chest_x, Some(1));
    assert_eq!(c.max_credits, 500);
}
