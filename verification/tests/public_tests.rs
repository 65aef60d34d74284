use rust_pearl_stasis_bot::public::{
    allowed_public_collection, deletion_entry, public_add, public_collection_label, public_collections, public_delete,
    public_file, public_touch, public_update, public_update_at, readable_collections, record_matches_query, require_public_read,
    require_public_write, touched_row, JsonField, PublicRow, PublicValue,
};
use rust_pearl_stasis_bot::users::{AppUser, UserRole};

fn user(role: UserRole, perms: &[&str]) -> AppUser {
    AppUser {
        username: "u".to_string(),
        password: "p".to_string(),
        role,
        minecraft_name: String::new(),
        discord_name: String::new(),
        permissions: perms.iter().map(|p| p.to_string()).collect(),
    }
}

fn text(row: &PublicRow, key: &str) -> Option<String> {
    row.text(key)
}

fn row_with(pairs: &[(&str, &str)]) -> PublicRow {
    let mut r = PublicRow::new();
    for (k, v) in pairs {
        r.set(k, JsonField::Text(v.to_string()));
    }
    r
}

#[test]
fn there_are_fifty_five_collections() {
    let c = public_collections();
    assert_eq!(c.len(), 55);
    assert_eq!(c[0], "chronicles");
    assert_eq!(c[54], "login_greeters");
}

#[test]
fn collection_names_and_labels() {
    assert!(allowed_public_collection("faqs"));
    assert!(!allowed_public_collection("expeditions"));
    assert_eq!(public_collection_label("library"), "Server Library");
    assert_eq!(public_collection_label("faqs"), "FAQ Database");
    assert_eq!(public_collection_label("nope"), "Server Records");
}

#[test]
fn record_permissions() {
    let owner = user(UserRole::Owner, &[]);
    let reader = user(UserRole::User, &["Archive"]);
    let editor = user(UserRole::User, &["chronicles:write"]);
    let nobody = user(UserRole::User, &["bank"]);
    assert!(require_public_read(&owner, "faqs"));
    assert!(require_public_read(&reader, "faqs"));
    assert!(!require_public_read(&nobody, "faqs"));
    assert!(require_public_write(&owner, "faqs"));
    assert!(require_public_write(&editor, "chronicles"));
    assert!(!require_public_write(&editor, "faqs"));
    assert!(!require_public_write(&reader, "faqs"));
    assert_eq!(readable_collections(&owner).len(), 55);
    assert_eq!(readable_collections(&nobody).len(), 0);
    assert_eq!(readable_collections(&owner)[1], ("library", "Server Library"));
}

#[test]
fn new_row_ids_are_hyphenated_lowercase_hex() {
    let r = public_touch(PublicValue::Object(PublicRow::new()), "admin", true);
    let id = r.text("id").unwrap();
    assert_eq!(id.len(), 36);
    for (i, c) in id.chars().enumerate() {
        if [8, 13, 18, 23].contains(&i) {
            assert_eq!(c, '-');
        } else {
            assert!(c.is_ascii_hexdigit() && !c.is_ascii_uppercase());
        }
    }
    let again = public_touch(PublicValue::Object(PublicRow::new()), "admin", true);
    assert_ne!(again.text("id"), Some(id));
}

#[test]
fn new_rows_are_stamped() {
    let r = touched_row(PublicValue::Object(row_with(&[("title", "Hello")])), "admin", true, "id-1", "T0");
    assert_eq!(text(&r, "id"), Some("id-1".to_string()));
    assert_eq!(text(&r, "created_at"), Some("T0".to_string()));
    assert_eq!(text(&r, "created_by"), Some("admin".to_string()));
    assert_eq!(text(&r, "updated_at"), Some("T0".to_string()));
    assert_eq!(text(&r, "updated_by"), Some("admin".to_string()));
    assert_eq!(text(&r, "title"), Some("Hello".to_string()));
}

#[test]
fn stamping_keeps_an_existing_id() {
    let r = touched_row(PublicValue::Object(row_with(&[("id", "mine")])), "admin", true, "fresh", "T0");
    assert_eq!(text(&r, "id"), Some("mine".to_string()));
}

#[test]
fn single_values_become_objects() {
    let r = touched_row(PublicValue::Single(JsonField::Int(5)), "admin", false, "x", "T1");
    assert!(matches!(r.get("value"), Some(JsonField::Int(5))));
    assert_eq!(r.get("id").is_none(), true);
    assert_eq!(text(&r, "updated_at"), Some("T1".to_string()));
}

#[test]
fn random_stamps_fill_the_id() {
    let r = public_touch(PublicValue::Object(PublicRow::new()), "admin", true);
    let id = text(&r, "id").unwrap();
    assert_eq!(id.len(), 36);
    assert_eq!(id.chars().nth(8), Some('-'));
}

#[test]
fn add_update_delete_rows() {
    let mut rows: Vec<PublicRow> = Vec::new();
    let mut log: Vec<PublicRow> = Vec::new();
    let added = public_add(&mut rows, PublicValue::Object(row_with(&[("title", "A")])), "admin");
    let id = text(&added, "id").unwrap();
    assert_eq!(rows.len(), 1);
    let updated =
        public_update_at(&mut rows, &id, PublicValue::Object(row_with(&[("title", "B")])), "editor", "T2").unwrap();
    assert_eq!(text(&updated, "id"), Some(id.clone()));
    assert_eq!(text(&updated, "title"), Some("B".to_string()));
    assert_eq!(text(&updated, "updated_by"), Some("editor".to_string()));
    assert_eq!(text(&rows[0], "title"), Some("B".to_string()));
    assert!(public_update(&mut rows, "missing", PublicValue::Object(PublicRow::new()), "x").is_none());
    assert!(!public_delete(&mut rows, &mut log, "chronicles", "missing", "admin"));
    assert!(log.is_empty());
    assert!(public_delete(&mut rows, &mut log, "chronicles", &id, "admin"));
    assert!(rows.is_empty());
    assert_eq!(log.len(), 1);
    assert_eq!(text(&log[0], "kind"), Some("delete".to_string()));
    assert_eq!(text(&log[0], "collection"), Some("chronicles".to_string()));
    assert_eq!(text(&log[0], "record_id"), Some(id));
}

#[test]
fn deletion_entry_names_the_record() {
    match deletion_entry("faqs", "abc") {
        PublicValue::Object(r) => {
            assert_eq!(text(&r, "record_id"), Some("abc".to_string()));
        }
        _ => panic!("expected an object"),
    }
}

#[test]
fn rows_round_trip_through_pairs() {
    let r = PublicRow::from_pairs(vec![
        ("a".to_string(), JsonField::Flag(true)),
        ("b".to_string(), JsonField::Other("[1,2]".to_string())),
        ("a".to_string(), JsonField::Flag(false)),
    ]);
    assert!(!r.flag_or_true("a"));
    assert!(r.flag_or_true("missing"));
    assert_eq!(r.to_pairs().len(), 2);
    assert_eq!(r.int_or_zero("b"), 0);
}

#[test]
fn search_matches_lowercased_text() {
    assert!(record_matches_query("{\"title\":\"Great Wall\"}", "great"));
    assert!(!record_matches_query("{\"title\":\"Great Wall\"}", "   "));
    assert!(!record_matches_query("{\"title\":\"Great Wall\"}", "tower"));
}

#[test]
fn collections_are_stored_in_public_files() {
    assert_eq!(public_file("chronicles"), "public_chronicles.json");
    assert_eq!(public_file("a/b/c"), "public_a_b_c.json");
    assert_eq!(public_file(""), "public_.json");
}

#[test]
fn new_ids_are_version_four_and_stamps_are_utc() {
    for _ in 0..20 {
        let r = public_touch(PublicValue::Object(PublicRow::new()), "admin", true);
        let id: Vec<char> = text(&r, "id").unwrap().chars().collect();
        assert_eq!(id[14], '4');
        assert!("89ab".contains(id[19]));
        let at = text(&r, "updated_at").unwrap();
        assert!(at.len() >= 25);
        assert!(at.ends_with("+00:00"));
    }
}
