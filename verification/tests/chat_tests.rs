use rust_pearl_stasis_bot::text::char_is_whitespace;
use rust_pearl_stasis_bot::casino_chat::{parse_casino_chat_command, CasinoCommand};
use rust_pearl_stasis_bot::chat::{
    infer_chat_sender, is_reasonable_minecraft_name, normalize_incoming_chat_line, parse_bet, parse_faq_add_command,
    parse_faq_delete_command, parse_faq_query_command, parse_faq_set_command, parse_login_greeter_player,
    parse_whisper_pull_command, parse_whisper_sender,
};

#[test]
fn senders_are_found_before_the_command() {
    assert_eq!(infer_chat_sender("<Steve> "), Some("Steve".to_string()));
    assert_eq!(infer_chat_sender("[Admin] Alex_99: "), Some("Alex_99".to_string()));
    assert_eq!(infer_chat_sender("Notch whispers to you: "), Some("you".to_string()));
    assert_eq!(infer_chat_sender("From Herobrine: "), Some("Herobrine".to_string()));
    assert_eq!(infer_chat_sender("<<>> "), None);
}

#[test]
fn bets_parse_as_integers() {
    assert_eq!(parse_bet(Some("50")), Some(50));
    assert_eq!(parse_bet(Some("-5")), Some(-5));
    assert_eq!(parse_bet(Some("ten")), None);
    assert_eq!(parse_bet(None), None);
}

#[test]
fn minecraft_names() {
    assert!(is_reasonable_minecraft_name(" Steve_1 "));
    assert!(!is_reasonable_minecraft_name(""));
    assert!(!is_reasonable_minecraft_name("has space"));
    assert!(!is_reasonable_minecraft_name(&"a".repeat(33)));
}

#[test]
fn chat_lines_lose_log_prefix_and_escapes() {
    assert_eq!(normalize_incoming_chat_line("  chat[UtilityBot]: admin joined the server.  "), "admin joined the server.");
    assert_eq!(normalize_incoming_chat_line("\u{1b}[32mSteve\u{1b}[0m joined"), "Steve joined");
    assert_eq!(normalize_incoming_chat_line("plain"), "plain");
}

#[test]
fn join_lines_name_the_player() {
    assert_eq!(parse_login_greeter_player("Steve joined the game"), Some("Steve".to_string()));
    assert_eq!(parse_login_greeter_player("chat[UtilityBot]: admin joined the server."), Some("admin".to_string()));
    assert_eq!(parse_login_greeter_player("Alex Joined"), Some("Alex".to_string()));
    assert_eq!(parse_login_greeter_player("two words joined the game"), None);
    assert_eq!(parse_login_greeter_player(""), None);
}

#[test]
fn whisper_senders() {
    assert_eq!(parse_whisper_sender("Steve whispers to you: hi"), Some("hi".to_string()));
    assert_eq!(parse_whisper_sender("<Steve> hi"), None);
}

#[test]
fn faq_query_commands() {
    assert_eq!(parse_faq_query_command("<Steve> ?faq #2"), Some(("Steve".to_string(), "#2".to_string())));
    assert_eq!(parse_faq_query_command("<Steve> ?FAQ"), Some(("Steve".to_string(), "list".to_string())));
    assert_eq!(parse_faq_query_command("?faq   "), Some(("Player".to_string(), "list".to_string())));
    assert_eq!(parse_faq_query_command("<Steve> ?faqadd text"), None);
    assert_eq!(parse_faq_query_command("<Steve> hello"), None);
}

#[test]
fn faq_add_commands() {
    assert_eq!(
        parse_faq_add_command("<Steve> ?faqadd  Pull with the GUI "),
        Some(("Steve".to_string(), "Pull with the GUI".to_string()))
    );
    assert_eq!(parse_faq_add_command("<Steve> ?addfaq x"), Some(("Steve".to_string(), "x".to_string())));
    assert_eq!(parse_faq_add_command("<Steve> ?faqadd"), None);
}

#[test]
fn faq_set_commands() {
    assert_eq!(
        parse_faq_set_command("<Steve> ?faqset #3 | New text"),
        Some(("Steve".to_string(), 3, "New text".to_string()))
    );
    assert_eq!(parse_faq_set_command("<Steve> ?faqset 3 New text"), None);
    assert_eq!(parse_faq_set_command("<Steve> ?faqset x | New text"), None);
    assert_eq!(parse_faq_set_command("<Steve> ?faqset 3 |  "), None);
}

#[test]
fn faq_delete_commands() {
    assert_eq!(parse_faq_delete_command("<Steve> ?faqdel #4"), Some(("Steve".to_string(), 4)));
    assert_eq!(parse_faq_delete_command("<Steve> ?faqdel"), None);
}

#[test]
fn whispered_pull_commands() {
    assert_eq!(
        parse_whisper_pull_command("Steve whispers: !pull  home base "),
        Some(("Steve".to_string(), Some("home base".to_string())))
    );
    assert_eq!(parse_whisper_pull_command("[msg] <Steve> !pull"), Some(("Steve".to_string(), None)));
    assert_eq!(parse_whisper_pull_command("<Steve> !pull"), None);
    assert_eq!(parse_whisper_pull_command("msg Steve pulled it"), None);
}

#[test]
fn casino_commands_parse() {
    match parse_casino_chat_command("<Steve> !Roulette 25 red") {
        Some((who, CasinoCommand::Roulette(Some(25), Some(c)))) => {
            assert_eq!(who, "Steve");
            assert_eq!(c, "red");
        }
        _ => panic!("expected a roulette command"),
    }
    assert!(matches!(parse_casino_chat_command("<Steve> !slots x"), Some((_, CasinoCommand::Slots(None)))));
    assert!(matches!(parse_casino_chat_command("<Steve> !balance"), Some((_, CasinoCommand::Credits))));
    assert!(parse_casino_chat_command("!credits").is_none());
}

#[test]
fn the_whitespace_table_agrees_with_std() {
    for n in 0u32..=0x3100 {
        if let Some(c) = char::from_u32(n) {
            assert_eq!(char_is_whitespace(c), c.is_whitespace(), "U+{n:04X}");
        }
    }
    assert!(!char_is_whitespace('\u{200B}'));
    assert!(!char_is_whitespace('\u{10FFFF}'));
}
