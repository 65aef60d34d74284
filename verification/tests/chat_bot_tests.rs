use rust_pearl_stasis_bot::bank::Balances;
use rust_pearl_stasis_bot::chat_bot::{configured_reply, handle_chat_line, Cooldowns};
use rust_pearl_stasis_bot::config::BotConfig;
use rust_pearl_stasis_bot::public::{JsonField, PublicRow};

fn faq(id: &str, text: &str) -> PublicRow {
    let mut r = PublicRow::new();
    r.set("id", JsonField::Text(id.to_string()));
    r.set("text", JsonField::Text(text.to_string()));
    r.set("enabled", JsonField::Flag(true));
    r
}

#[test]
fn replies_follow_the_output_mode() {
    assert_eq!(configured_reply("whisper", "Steve", "hi"), "/msg Steve hi");
    assert_eq!(configured_reply("PUBLIC", "Steve", "hi"), "hi");
    assert_eq!(configured_reply("chat", "Steve", "hi"), "hi");
}

#[test]
fn cooldowns_remember_the_last_use() {
    let mut cd = Cooldowns::new();
    assert_eq!(cd.get("steve"), None);
    cd.set("steve", 10);
    cd.set("alex", 12);
    cd.set("steve", 30);
    assert_eq!(cd.get("steve"), Some(30));
    assert_eq!(cd.get("alex"), Some(12));
}

#[test]
fn faq_query_in_chat_is_whispered() {
    let config = BotConfig::default();
    let mut faqs = vec![faq("a", "Pearls live in the stasis room.")];
    let mut log = Vec::new();
    let mut bank = Balances::new();
    let mut faq_cd = Cooldowns::new();
    let mut greet_cd = Cooldowns::new();
    let out = handle_chat_line(
        "<Steve> ?faq #1",
        &config,
        &Vec::new(),
        &mut faqs,
        &mut log,
        &Vec::new(),
        Vec::new(),
        Vec::new(),
        &mut bank,
        &mut faq_cd,
        &mut greet_cd,
        100,
    )
    .unwrap();
    assert_eq!(out.say, vec!["/msg Steve [FAQ #1] Pearls live in the stasis room.".to_string()]);
    assert!(out.pull.is_none());
}

#[test]
fn casino_command_in_chat_is_answered() {
    let config = BotConfig::default();
    let mut faqs = Vec::new();
    let mut log = Vec::new();
    let mut bank = Balances::new();
    let mut faq_cd = Cooldowns::new();
    let mut greet_cd = Cooldowns::new();
    let out = handle_chat_line(
        "<Steve> !credits",
        &config,
        &Vec::new(),
        &mut faqs,
        &mut log,
        &Vec::new(),
        Vec::new(),
        Vec::new(),
        &mut bank,
        &mut faq_cd,
        &mut greet_cd,
        100,
    )
    .unwrap();
    assert_eq!(out.say, vec!["/msg Steve steve has 1000 Credits in the Server Project treasury.".to_string()]);
}

#[test]
fn plain_chat_gets_no_answer() {
    let config = BotConfig::default();
    let mut faqs = Vec::new();
    let mut log = Vec::new();
    let mut bank = Balances::new();
    let mut faq_cd = Cooldowns::new();
    let mut greet_cd = Cooldowns::new();
    let out = handle_chat_line(
        "<Steve> hello there",
        &config,
        &Vec::new(),
        &mut faqs,
        &mut log,
        &Vec::new(),
        Vec::new(),
        Vec::new(),
        &mut bank,
        &mut faq_cd,
        &mut greet_cd,
        100,
    )
    .unwrap();
    assert!(out.say.is_empty());
    assert!(out.pull.is_none());
}
