use rust_pearl_stasis_bot::faq::{
    answer_faq_query, delete_faq_number, enabled_faq_rows, faq_id_for_number, faq_number_for_id, faq_reply,
    faq_text, format_faq_answer, pick_login_greeter_mesadmin, set_faq_number,
};
use rust_pearl_stasis_bot::public::{JsonField, PublicRow};

fn faq(id: &str, text: &str, enabled: bool) -> PublicRow {
    let mut r = PublicRow::new();
    r.set("id", JsonField::Text(id.to_string()));
    r.set("text", JsonField::Text(text.to_string()));
    r.set("enabled", JsonField::Flag(enabled));
    r
}

fn greeter(target: Option<&str>, msg: &str, priority: Option<i64>) -> PublicRow {
    let mut r = PublicRow::new();
    if let Some(t) = target {
        r.set("target", JsonField::Text(t.to_string()));
    }
    r.set("mesadmin", JsonField::Text(msg.to_string()));
    if let Some(p) = priority {
        r.set("priority", JsonField::Int(p));
    }
    r
}

#[test]
fn faq_text_forms() {
    assert_eq!(faq_text(&faq("1", "  Pull with the GUI.  ", true)), "Pull with the GUI.");
    let mut qa = PublicRow::new();
    qa.set("question", JsonField::Text("How?".to_string()));
    qa.set("answer", JsonField::Text(" Like this ".to_string()));
    assert_eq!(faq_text(&qa), "How? - Like this");
    assert_eq!(faq_text(&PublicRow::new()), "Empty FAQ entry.");
    assert_eq!(format_faq_answer(3, &faq("1", "Hi", true)), "[FAQ #3] Hi");
}

#[test]
fn disabled_faqs_are_skipped() {
    let rows = vec![faq("a", "One", true), faq("b", "Two", false), faq("c", "Three", true)];
    let enabled = enabled_faq_rows(rows);
    assert_eq!(enabled.len(), 2);
    assert_eq!(enabled[1].text("id"), Some("c".to_string()));
}

#[test]
fn faq_list_and_numbers() {
    let rows = vec![faq("a", "One", true), faq("b", "Two", false), faq("c", "Three", true)];
    assert_eq!(
        answer_faq_query(&rows, " list "),
        "Server FAQ list: | #1 One | #2 Three | Use ?faq #number, for example ?faq #1."
    );
    assert_eq!(answer_faq_query(&rows, "#2"), "[FAQ #2] Three");
    assert_eq!(answer_faq_query(&rows, "2"), "[FAQ #2] Three");
    assert_eq!(answer_faq_query(&rows, "#9"), "No Server FAQ #9. Use ?faq list.");
    assert_eq!(answer_faq_query(&rows, "pearls"), "Use ?faq list, then ask by number like ?faq #1.");
    assert_eq!(answer_faq_query(&Vec::new(), "list"), "No Server FAQs are currently available.");
}

#[test]
fn long_faqs_are_cut_in_the_list() {
    let long = "x".repeat(90);
    let rows = vec![faq("a", &long, true)];
    let expected = format!("Server FAQ list: | #1 {}... | Use ?faq #number, for example ?faq #1.", "x".repeat(77));
    assert_eq!(answer_faq_query(&rows, "list"), expected);
}

#[test]
fn a_cut_inside_a_character_is_refused() {
    let text = format!("{}{}", "x".repeat(76), "é".repeat(10));
    let rows = vec![faq("a", &text, true)];
    assert!(faq_reply(&rows, "list").is_none());
    assert_eq!(faq_reply(&rows, "#1"), Some(format!("[FAQ #1] {text}")));
}

#[test]
fn faq_numbers_and_ids() {
    let rows = vec![faq("a", "One", true), faq("b", "Two", false), faq("c", "Three", true)];
    assert_eq!(faq_number_for_id(&rows, "c"), Some(2));
    assert_eq!(faq_number_for_id(&rows, "b"), None);
    assert_eq!(faq_number_for_id(&rows, ""), None);
    assert_eq!(faq_id_for_number(&rows, 2), Some("c".to_string()));
    assert_eq!(faq_id_for_number(&rows, 0), None);
    assert_eq!(faq_id_for_number(&rows, 3), None);
}

#[test]
fn editing_a_faq_by_number() {
    let mut rows = vec![faq("a", "One", true), faq("c", "Three", true)];
    assert_eq!(set_faq_number(&mut rows, 2, "  New text ", "Steve"), "Server FAQ #2 updated.");
    assert_eq!(rows[1].text("text"), Some("New text".to_string()));
    assert_eq!(rows[1].text("source"), Some("Minecraft command from Steve".to_string()));
    assert_eq!(rows[1].text("id"), Some("c".to_string()));
    assert_eq!(set_faq_number(&mut rows, 7, "x", "Steve"), "No Server FAQ #7. Use ?faq list.");
}

#[test]
fn deleting_a_faq_by_number() {
    let mut rows = vec![faq("a", "One", true), faq("c", "Three", true)];
    let mut log = Vec::new();
    assert_eq!(delete_faq_number(&mut rows, &mut log, 1, "Steve"), "Server FAQ #1 deleted.");
    assert_eq!(rows.len(), 1);
    assert_eq!(log.len(), 1);
    assert_eq!(delete_faq_number(&mut rows, &mut log, 5, "Steve"), "No Server FAQ #5. Use ?faq list.");
}

#[test]
fn greeting_picks_the_highest_priority() {
    let rows = vec![
        greeter(None, "Hello {player}!", Some(1)),
        greeter(Some("steve"), "Welcome back, {Player}.", Some(5)),
        greeter(Some("alex"), "Hi Alex", Some(9)),
    ];
    assert_eq!(pick_login_greeter_mesadmin(&rows, "Steve"), Some("Welcome back, Steve.".to_string()));
    assert_eq!(pick_login_greeter_mesadmin(&rows, "Bob"), Some("Hello Bob!".to_string()));
}

#[test]
fn greeting_falls_back_to_a_welcome() {
    assert_eq!(
        pick_login_greeter_mesadmin(&Vec::new(), "Bob"),
        Some("Welcome, Bob. The Server remembers.".to_string())
    );
}

#[test]
fn later_greeting_wins_a_tie() {
    let rows = vec![greeter(Some("*"), "first", None), greeter(Some("ALL"), "second {PLAYER}", None)];
    assert_eq!(pick_login_greeter_mesadmin(&rows, "Bob"), Some("second Bob".to_string()));
}

#[test]
fn faq_numbers_read_like_usize_after_the_hashes() {
    let rows = vec![faq("a", "One", true), faq("b", "Two", true)];
    assert_eq!(answer_faq_query(&rows, "##1"), "[FAQ #1] One");
    assert_eq!(answer_faq_query(&rows, "+2"), "[FAQ #2] Two");
    assert_eq!(answer_faq_query(&rows, "#0"), "No Server FAQ #0. Use ?faq list.");
    assert_eq!(answer_faq_query(&rows, "#-1"), "Use ?faq list, then ask by number like ?faq #1.");
}
