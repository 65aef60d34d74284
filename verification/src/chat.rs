//! Reading in-game chat: who spoke, and which command a line carries.
//!
//! Markers such as "?faq" or " joined" are found without regard to ASCII
//! case, as the bot finds them in the lowercased line.
use vstd::prelude::*;
use crate::num::{parse_i64, parse_i64_seq, parse_usize, parse_usize_seq};
use crate::text::{
    append, blank_out, blank_out_chars, chars_of, find_char, find_char_seq, find_seq, find_str, is_ws, lit, lower_of,
    replace_all, replace_seq, slice_vec, split_words, starts_with, starts_with_seq, str_eq, string_of_all, to_lower,
    trim_chars, trim_seq, words, contains_seq, contains_str, occurs_at,
};

verus! {

// ---------------------------------------------------------------------------
// Names
// ---------------------------------------------------------------------------
/// A character of a Minecraft name: ASCII letter or digit, '_' or '-'.
pub open spec fn is_name_char(c: char) -> bool {
    ('a' <= c && c <= 'z') || ('A' <= c && c <= 'Z') || ('0' <= c && c <= '9') || c == '_' || c == '-'
}

/// Every character is a name character.
pub open spec fn is_name(w: Seq<char>) -> bool {
    forall|i: int| 0 <= i < w.len() ==> is_name_char(#[trigger] w[i])
}

fn name_char(c: char) -> (r: bool)
    ensures
        r == is_name_char(c),
{
    ('a' <= c && c <= 'z') || ('A' <= c && c <= 'Z') || ('0' <= c && c <= '9') || c == '_' || c == '-'
}

fn all_name_chars(w: &Vec<char>) -> (r: bool)
    ensures
        r == is_name(w@),
{
    let mut i: usize = 0;
    while i < w.len()
        invariant
            i <= w.len(),
            forall|k: int| 0 <= k < i ==> is_name_char(#[trigger] w@[k]),
        decreases w.len() - i,
    {
        if !name_char(w[i]) {
            return false;
        }
        i += 1;
    }
    true
}

/// A plausible Minecraft name once trimmed: 1 to 32 name characters.
pub open spec fn reasonable_name(n: Seq<char>) -> bool {
    let t = trim_seq(n);
    t.len() > 0 && t.len() <= 32 && is_name(t)
}

/// Whether `name`, trimmed, looks like a Minecraft name.
pub fn is_reasonable_minecraft_name(name: &str) -> (r: bool)
    ensures
        r == reasonable_name(name@),
{
    let t = trim_chars(&chars_of(name));
    t.len() > 0 && t.len() <= 32 && all_name_chars(&t)
}

// ---------------------------------------------------------------------------
// The sender of a line
// ---------------------------------------------------------------------------
/// The prefix of a chat line with brackets and the words "whispers",
/// "whispered", "from" and "From" blanked out.
pub open spec fn sender_cleaned(p: Seq<char>) -> Seq<char> {
    replace_seq(
        replace_seq(
            replace_seq(replace_seq(blank_out(p, "<>[]():"@), "whispers"@, " "@), "whispered"@, " "@),
            "from"@,
            " "@,
        ),
        "From"@,
        " "@,
    )
}

/// The last of the words that are names.
pub open spec fn last_name_word(ws: Seq<Seq<char>>) -> Option<Seq<char>>
    decreases ws.len(),
{
    if ws.len() == 0 {
        None
    } else if is_name(ws.last()) {
        Some(ws.last())
    } else {
        last_name_word(ws.drop_last())
    }
}

/// Who sent a line, judged from the text before the command: the last word
/// made of name characters once brackets and "from"/"whispers" are gone.
pub open spec fn sender_of(p: Seq<char>) -> Option<Seq<char>> {
    last_name_word(words(sender_cleaned(p)))
}

fn sender_chars(p: &Vec<char>) -> (r: Option<Vec<char>>)
    ensures
        r matches Some(w) ==> sender_of(p@) == Some(w@),
        r is None ==> sender_of(p@) is None,
{
    proof {
        reveal_strlit("whispers");
        reveal_strlit("whispered");
        reveal_strlit("from");
        reveal_strlit("From");
    }
    let c0 = blank_out_chars(p, "<>[]():");
    let c1 = replace_all(&c0, "whispers", " ");
    let c2 = replace_all(&c1, "whispered", " ");
    let c3 = replace_all(&c2, "from", " ");
    let c4 = replace_all(&c3, "From", " ");
    let ws = split_words(&c4);
    let ghost wv = ws.deep_view();
    let mut i: usize = ws.len();
    assert(wv.take(i as int) =~= wv);
    while i > 0
        invariant
            i <= ws.len(),
            wv == ws.deep_view(),
            wv == words(sender_cleaned(p@)),
            last_name_word(wv.take(i as int)) == last_name_word(wv),
        decreases i,
    {
        assert(wv.take(i as int).last() == ws@[i - 1]@);
        assert(wv.take(i as int).drop_last() == wv.take(i - 1));
        if all_name_chars(&ws[i - 1]) {
            let w = slice_vec(&ws[i - 1], 0, ws[i - 1].len());
            assert(w@ =~= ws@[i - 1]@);
            return Some(w);
        }
        i -= 1;
    }
    assert(wv.take(0) =~= Seq::<Seq<char>>::empty());
    None
}

/// Who sent a line, from the text before the command.
pub fn infer_chat_sender(prefix: &str) -> (r: Option<String>)
    ensures
        r matches Some(s) ==> sender_of(prefix@) == Some(s@),
        r is None ==> sender_of(prefix@) is None,
{
    let p = chars_of(prefix);
    match sender_chars(&p) {
        Some(w) => Some(string_of_all(&w)),
        None => None,
    }
}

/// A bet as typed: `str::parse::<i64>`.
pub fn parse_bet(input: Option<&str>) -> (r: Option<i64>)
    ensures
        r == (match input {
            Some(s) => parse_i64_seq(s@),
            None => None,
        }),
{
    match input {
        Some(s) => parse_i64(&chars_of(s)),
        None => None,
    }
}

// ---------------------------------------------------------------------------
// Cleaning incoming lines
// ---------------------------------------------------------------------------
/// An ASCII letter.
pub open spec fn is_ascii_alpha(c: char) -> bool {
    ('a' <= c && c <= 'z') || ('A' <= c && c <= 'Z')
}

/// The index just past the first ASCII letter at or after `j` (the end of an
/// escape sequence), or the length when there is none.
pub open spec fn escape_end(s: Seq<char>, j: int) -> int
    decreases s.len() - j,
{
    if j < 0 || j >= s.len() {
        s.len() as int
    } else if is_ascii_alpha(s[j]) {
        j + 1
    } else {
        escape_end(s, j + 1)
    }
}

pub proof fn lemma_escape_end(s: Seq<char>, j: int)
    requires
        0 <= j <= s.len(),
    ensures
        j <= escape_end(s, j) <= s.len(),
    decreases s.len() - j,
{
    if j < s.len() && !is_ascii_alpha(s[j]) {
        lemma_escape_end(s, j + 1);
    }
}

/// `s[i..]` without its ANSI escape sequences: each ESC character and
/// everything up to and including the next ASCII letter is dropped.
pub open spec fn strip_escapes_from(s: Seq<char>, i: int) -> Seq<char>
    decreases s.len() - i,
{
    if i < 0 || i >= s.len() {
        Seq::empty()
    } else if s[i] == '\u{1b}' {
        proof {
            lemma_escape_end(s, i + 1);
        }
        strip_escapes_from(s, escape_end(s, i + 1))
    } else {
        seq![s[i]] + strip_escapes_from(s, i + 1)
    }
}

/// The line without a leading "chat[...]:" log prefix.
pub open spec fn without_log_prefix(c: Seq<char>) -> Seq<char> {
    if starts_with_seq(lower_of(c), "chat["@, false) {
        match find_char_seq(c, ':') {
            Some(k) => trim_seq(c.skip(k + 1)),
            None => c,
        }
    } else {
        c
    }
}

/// A chat line as the parsers read it: trimmed, without the log prefix and
/// without ANSI escapes.
pub open spec fn normalized_line(line: Seq<char>) -> Seq<char> {
    trim_seq(strip_escapes_from(without_log_prefix(trim_seq(line)), 0))
}

fn strip_escapes(v: &Vec<char>) -> (r: Vec<char>)
    ensures
        r@ == strip_escapes_from(v@, 0),
{
    let mut out: Vec<char> = Vec::new();
    let mut i: usize = 0;
    while i < v.len()
        invariant
            i <= v.len(),
            out@ + strip_escapes_from(v@, i as int) == strip_escapes_from(v@, 0),
        decreases v.len() - i,
    {
        if v[i] == '\u{1b}' {
            let mut j: usize = i + 1;
            while j < v.len() && !(('a' <= v[j] && v[j] <= 'z') || ('A' <= v[j] && v[j] <= 'Z'))
                invariant
                    i < j <= v.len(),
                    escape_end(v@, i + 1) == escape_end(v@, j as int),
                decreases v.len() - j,
            {
                j += 1;
            }
            let next = if j < v.len() { j + 1 } else { v.len() };
            assert(next == escape_end(v@, i + 1));
            i = next;
        } else {
            let ghost before = out@;
            out.push(v[i]);
            assert(out@ + strip_escapes_from(v@, i + 1) =~= before + strip_escapes_from(v@, i as int));
            i += 1;
        }
    }
    assert(out@ + Seq::<char>::empty() == out@);
    out
}

fn normalized_chars(line: &str) -> (r: Vec<char>)
    ensures
        r@ == normalized_line(line@),
{
    let c0 = trim_chars(&chars_of(line));
    let lower = chars_of(to_lower(string_of_all(&c0).as_str()).as_str());
    let c1 = if starts_with(&lower, "chat[", false) {
        match find_char(&c0, ':') {
            Some(k) => trim_chars(&slice_vec(&c0, k + 1, c0.len())),
            None => c0,
        }
    } else {
        c0
    };
    assert(c1@ == without_log_prefix(trim_seq(line@))) by {
        if starts_with_seq(lower_of(trim_seq(line@)), "chat["@, false) {
            if let Some(k) = find_char_seq(trim_seq(line@), ':') {
                assert(trim_seq(line@).skip(k + 1) == trim_seq(line@).subrange(k + 1, trim_seq(line@).len() as int));
            }
        }
    }
    trim_chars(&strip_escapes(&c1))
}

/// A chat line as the parsers read it.
pub fn normalize_incoming_chat_line(line: &str) -> (r: String)
    ensures
        r@ == normalized_line(line@),
{
    string_of_all(&normalized_chars(line))
}

// ---------------------------------------------------------------------------
// Joins and whispers
// ---------------------------------------------------------------------------
/// The name before `marker` in `t`, if the marker occurs and what comes
/// before it is a plausible name.
pub open spec fn name_before(t: Seq<char>, marker: Seq<char>) -> Option<Seq<char>> {
    match find_seq(t, marker, true) {
        Some(i) => if reasonable_name(trim_seq(t.take(i))) {
            Some(trim_seq(t.take(i)))
        } else {
            None
        },
        None => None,
    }
}

/// The player that a join line announces.
pub open spec fn joined_player(line: Seq<char>) -> Option<Seq<char>> {
    let t = trim_seq(normalized_line(line));
    if t.len() == 0 {
        None
    } else if name_before(t, " joined the game"@) is Some {
        name_before(t, " joined the game"@)
    } else if name_before(t, " joined the server."@) is Some {
        name_before(t, " joined the server."@)
    } else if name_before(t, " joined the server"@) is Some {
        name_before(t, " joined the server"@)
    } else {
        name_before(t, " joined"@)
    }
}

fn name_before_exec(t: &Vec<char>, marker: &str) -> (r: Option<Vec<char>>)
    ensures
        r matches Some(n) ==> name_before(t@, marker@) == Some(n@),
        r is None ==> name_before(t@, marker@) is None,
{
    match find_str(t, marker, true) {
        Some(i) => {
            proof {
                crate::text::lemma_find_seq(t@, marker@, true);
            }
            let c = trim_chars(&slice_vec(t, 0, i));
            assert(t@.subrange(0, i as int) == t@.take(i as int));
            if is_reasonable_minecraft_name(string_of_all(&c).as_str()) {
                Some(c)
            } else {
                None
            }
        },
        None => None,
    }
}

/// The player that a join line ("Name joined the game") announces.
pub fn parse_login_greeter_player(line: &str) -> (r: Option<String>)
    ensures
        r matches Some(p) ==> joined_player(line@) == Some(p@),
        r is None ==> joined_player(line@) is None,
{
    let t = trim_chars(&normalized_chars(line));
    if t.len() == 0 {
        return None;
    }
    if let Some(n) = name_before_exec(&t, " joined the game") {
        return Some(string_of_all(&n));
    }
    if let Some(n) = name_before_exec(&t, " joined the server.") {
        return Some(string_of_all(&n));
    }
    if let Some(n) = name_before_exec(&t, " joined the server") {
        return Some(string_of_all(&n));
    }
    match name_before_exec(&t, " joined") {
        Some(n) => Some(string_of_all(&n)),
        None => None,
    }
}

/// The line looks like a whisper.
pub open spec fn looks_whispered(line: Seq<char>) -> bool {
    contains_seq(line, "whisper"@, true) || contains_seq(line, " whispers "@, true) || contains_seq(line, "msg"@, true)
}

fn whispered(v: &Vec<char>) -> (r: bool)
    ensures
        r == looks_whispered(v@),
{
    contains_str(v, "whisper", true) || contains_str(v, " whispers ", true) || contains_str(v, "msg", true)
}

/// Who whispered a line, when it looks like a whisper.
pub fn parse_whisper_sender(line: &str) -> (r: Option<String>)
    ensures
        r matches Some(s) ==> looks_whispered(line@) && sender_of(line@) == Some(s@),
        r is None ==> !looks_whispered(line@) || sender_of(line@) is None,
{
    let v = chars_of(line);
    if !whispered(&v) {
        return None;
    }
    infer_chat_sender(line)
}

// ---------------------------------------------------------------------------
// Commands
// ---------------------------------------------------------------------------
/// What follows the first space of `s`, if it has one (`split_once(' ')`).
pub open spec fn after_space(s: Seq<char>) -> Option<Seq<char>> {
    match find_char_seq(s, ' ') {
        Some(i) => Some(s.skip(i + 1)),
        None => None,
    }
}

fn after_space_exec(v: &Vec<char>) -> (r: Option<Vec<char>>)
    ensures
        r matches Some(w) ==> after_space(v@) == Some(w@),
        r is None ==> after_space(v@) is None,
{
    match find_char(v, ' ') {
        Some(i) => {
            let w = slice_vec(v, i + 1, v.len());
            assert(w@ == v@.skip(i + 1));
            Some(w)
        },
        None => None,
    }
}

/// Where the first of two markers starts: the first, else the second.
pub open spec fn find_either(line: Seq<char>, a: Seq<char>, b: Seq<char>) -> Option<int> {
    match find_seq(line, a, true) {
        Some(i) => Some(i),
        None => find_seq(line, b, true),
    }
}

fn find_either_exec(v: &Vec<char>, a: &str, b: &str) -> (r: Option<usize>)
    ensures
        r matches Some(i) ==> find_either(v@, a@, b@) == Some(i as int) && i <= v.len(),
        r is None ==> find_either(v@, a@, b@) is None,
{
    proof {
        crate::text::lemma_find_seq(v@, a@, true);
        crate::text::lemma_find_seq(v@, b@, true);
    }
    match find_str(v, a, true) {
        Some(i) => Some(i),
        None => find_str(v, b, true),
    }
}

/// The sender named before position `start`, or "Player".
pub open spec fn sender_or_player(line: Seq<char>, start: int) -> Seq<char> {
    match sender_of(line.take(start)) {
        Some(s) => s,
        None => "Player"@,
    }
}

fn sender_or_player_exec(v: &Vec<char>, start: usize) -> (r: String)
    requires
        start <= v.len(),
    ensures
        r@ == sender_or_player(v@, start as int),
{
    let p = slice_vec(v, 0, start);
    assert(p@ == v@.take(start as int));
    match sender_chars(&p) {
        Some(w) => string_of_all(&w),
        None => lit("Player"),
    }
}

/// "?faq [query]": the sender and the query ("list" when none is given).
/// Lines with "?faqadd", "?addfaq", "?faqset" or "?faqdel" are other commands.
pub open spec fn faq_query_command(line: Seq<char>) -> Option<(Seq<char>, Seq<char>)> {
    match find_seq(line, "?faq"@, true) {
        None => None,
        Some(start) => {
            let tail = line.skip(start);
            if starts_with_seq(tail, "?faqadd"@, true) || starts_with_seq(tail, "?addfaq"@, true) || starts_with_seq(
                tail,
                "?faqset"@,
                true,
            ) || starts_with_seq(tail, "?faqdel"@, true) || starts_with_seq(tail, "?faqdelete"@, true) {
                None
            } else {
                let command = trim_seq(line.skip(start));
                let query = match after_space(command) {
                    Some(rest) => trim_seq(rest),
                    None => "list"@,
                };
                Some((sender_or_player(line, start), if query.len() == 0 { "list"@ } else { query }))
            }
        },
    }
}

/// Reads a "?faq" command.
pub fn parse_faq_query_command(line: &str) -> (r: Option<(String, String)>)
    ensures
        r matches Some(p) ==> faq_query_command(line@) == Some((p.0@, p.1@)),
        r is None ==> faq_query_command(line@) is None,
{
    let v = chars_of(line);
    let start = match find_str(&v, "?faq", true) {
        Some(s) => s,
        None => return None,
    };
    proof {
        crate::text::lemma_find_seq(v@, "?faq"@, true);
    }
    let tail = slice_vec(&v, start, v.len());
    assert(tail@ == v@.skip(start as int));
    if starts_with(&tail, "?faqadd", true) || starts_with(&tail, "?addfaq", true) || starts_with(&tail, "?faqset", true)
        || starts_with(&tail, "?faqdel", true) || starts_with(&tail, "?faqdelete", true) {
        return None;
    }
    let sender = sender_or_player_exec(&v, start);
    let command = trim_chars(&tail);
    let query = match after_space_exec(&command) {
        Some(rest) => trim_chars(&rest),
        None => chars_of("list"),
    };
    let q = if query.len() == 0 { lit("list") } else { string_of_all(&query) };
    Some((sender, q))
}

/// "?faqadd text" (or "?addfaq text"): the sender and the trimmed text,
/// which must not be empty.
pub open spec fn faq_add_command(line: Seq<char>) -> Option<(Seq<char>, Seq<char>)> {
    match find_either(line, "?faqadd"@, "?addfaq"@) {
        None => None,
        Some(start) => {
            let command = trim_seq(line.skip(start));
            let text = match after_space(command) {
                Some(rest) => trim_seq(rest),
                None => Seq::empty(),
            };
            if text.len() == 0 {
                None
            } else {
                Some((sender_or_player(line, start), text))
            }
        },
    }
}

/// Reads a "?faqadd" command.
pub fn parse_faq_add_command(line: &str) -> (r: Option<(String, String)>)
    ensures
        r matches Some(p) ==> faq_add_command(line@) == Some((p.0@, p.1@)),
        r is None ==> faq_add_command(line@) is None,
{
    let v = chars_of(line);
    let start = match find_either_exec(&v, "?faqadd", "?addfaq") {
        Some(s) => s,
        None => return None,
    };
    let tail = slice_vec(&v, start, v.len());
    assert(tail@ == v@.skip(start as int));
    let command = trim_chars(&tail);
    let text = match after_space_exec(&command) {
        Some(rest) => trim_chars(&rest),
        None => Vec::new(),
    };
    if text.len() == 0 {
        return None;
    }
    Some((sender_or_player_exec(&v, start), string_of_all(&text)))
}

/// `s` without its leading `c` characters: index of the first other one.
pub open spec fn skip_leading(s: Seq<char>, c: char, i: int) -> int
    decreases s.len() - i,
{
    if i < 0 || i >= s.len() {
        if i < 0 { 0 } else { s.len() as int }
    } else if s[i] != c {
        i
    } else {
        skip_leading(s, c, i + 1)
    }
}

/// `s.trim_start_matches(c)`.
pub open spec fn strip_leading(s: Seq<char>, c: char) -> Seq<char> {
    s.skip(skip_leading(s, c, 0))
}

fn strip_leading_exec(v: &Vec<char>, c: char) -> (r: Vec<char>)
    ensures
        r@ == strip_leading(v@, c),
{
    let mut h: usize = 0;
    while h < v.len() && v[h] == c
        invariant
            h <= v.len(),
            skip_leading(v@, c, 0) == skip_leading(v@, c, h as int),
        decreases v.len() - h,
    {
        h += 1;
    }
    let r = slice_vec(v, h, v.len());
    assert(r@ == v@.skip(h as int));
    r
}

/// "?faqset n | text" (or "?faqedit"): the sender, the number and the
/// trimmed text, which must not be empty.
pub open spec fn faq_set_command(line: Seq<char>) -> Option<(Seq<char>, usize, Seq<char>)> {
    match find_either(line, "?faqset"@, "?faqedit"@) {
        None => None,
        Some(start) => match after_space(trim_seq(line.skip(start))) {
            None => None,
            Some(rest) => {
                let body = trim_seq(rest);
                match find_char_seq(body, '|') {
                    None => None,
                    Some(k) => match parse_usize_seq(strip_leading(trim_seq(body.take(k)), '#')) {
                        None => None,
                        Some(n) => {
                            let text = trim_seq(body.skip(k + 1));
                            if text.len() == 0 {
                                None
                            } else {
                                Some((sender_or_player(line, start), n, text))
                            }
                        },
                    },
                }
            },
        },
    }
}

/// Reads a "?faqset" command.
pub fn parse_faq_set_command(line: &str) -> (r: Option<(String, usize, String)>)
    ensures
        r matches Some(p) ==> faq_set_command(line@) == Some((p.0@, p.1, p.2@)),
        r is None ==> faq_set_command(line@) is None,
{
    let v = chars_of(line);
    let start = match find_either_exec(&v, "?faqset", "?faqedit") {
        Some(s) => s,
        None => return None,
    };
    let tail = slice_vec(&v, start, v.len());
    assert(tail@ == v@.skip(start as int));
    let rest = match after_space_exec(&trim_chars(&tail)) {
        Some(r) => r,
        None => return None,
    };
    let body = trim_chars(&rest);
    let k = match find_char(&body, '|') {
        Some(k) => k,
        None => return None,
    };
    let num = trim_chars(&slice_vec(&body, 0, k));
    assert(body@.subrange(0, k as int) == body@.take(k as int));
    let n = match parse_usize(&strip_leading_exec(&num, '#')) {
        Some(n) => n,
        None => return None,
    };
    let after = slice_vec(&body, k + 1, body.len());
    assert(after@ == body@.skip(k + 1));
    let text = trim_chars(&after);
    if text.len() == 0 {
        return None;
    }
    Some((sender_or_player_exec(&v, start), n, string_of_all(&text)))
}

/// "?faqdel n" (or "?faqdelete n"): the sender and the number.
pub open spec fn faq_delete_command(line: Seq<char>) -> Option<(Seq<char>, usize)> {
    match find_either(line, "?faqdel"@, "?faqdelete"@) {
        None => None,
        Some(start) => match after_space(trim_seq(line.skip(start))) {
            None => None,
            Some(rest) => match parse_usize_seq(strip_leading(trim_seq(rest), '#')) {
                None => None,
                Some(n) => Some((sender_or_player(line, start), n)),
            },
        },
    }
}

/// Reads a "?faqdel" command.
pub fn parse_faq_delete_command(line: &str) -> (r: Option<(String, usize)>)
    ensures
        r matches Some(p) ==> faq_delete_command(line@) == Some((p.0@, p.1)),
        r is None ==> faq_delete_command(line@) is None,
{
    let v = chars_of(line);
    let start = match find_either_exec(&v, "?faqdel", "?faqdelete") {
        Some(s) => s,
        None => return None,
    };
    let tail = slice_vec(&v, start, v.len());
    assert(tail@ == v@.skip(start as int));
    let rest = match after_space_exec(&trim_chars(&tail)) {
        Some(r) => r,
        None => return None,
    };
    let n = match parse_usize(&strip_leading_exec(&trim_chars(&rest), '#')) {
        Some(n) => n,
        None => return None,
    };
    Some((sender_or_player_exec(&v, start), n))
}

/// Words joined by single spaces.
pub open spec fn join_spaced(ws: Seq<Seq<char>>) -> Seq<char>
    decreases ws.len(),
{
    if ws.len() == 0 {
        Seq::empty()
    } else if ws.len() == 1 {
        ws[0]
    } else {
        join_spaced(ws.drop_last()) + " "@ + ws.last()
    }
}

/// A whispered "!pull [query]" (or "pull", "stasis"): the sender and the
/// query, if one was given.
pub open spec fn whisper_pull_command(line: Seq<char>) -> Option<(Seq<char>, Option<Seq<char>>)> {
    if !looks_whispered(line) {
        None
    } else {
        match find_either(line, "!pull"@, " pull"@) {
            None => None,
            Some(start) => match sender_of(line.take(start)) {
                None => None,
                Some(sender) => {
                    let parts = words(trim_seq(line.skip(start)));
                    if parts.len() == 0 {
                        None
                    } else {
                        let verb = lower_of(strip_leading(parts[0], '!'));
                        if verb != "pull"@ && verb != "stasis"@ {
                            None
                        } else {
                            let query = trim_seq(join_spaced(parts.skip(1)));
                            Some((sender, if query.len() == 0 { None } else { Some(query) }))
                        }
                    }
                },
            },
        }
    }
}

/// Reads a whispered pull request.
pub fn parse_whisper_pull_command(line: &str) -> (r: Option<(String, Option<String>)>)
    ensures
        r matches Some(p) ==> whisper_pull_command(line@) == Some(
            (
                p.0@,
                match p.1 {
                    Some(q) => Some(q@),
                    None => None,
                },
            ),
        ),
        r is None ==> whisper_pull_command(line@) is None,
{
    let v = chars_of(line);
    if !whispered(&v) {
        return None;
    }
    let start = match find_either_exec(&v, "!pull", " pull") {
        Some(s) => s,
        None => return None,
    };
    let p = slice_vec(&v, 0, start);
    assert(p@ == v@.take(start as int));
    let sender = match sender_chars(&p) {
        Some(w) => string_of_all(&w),
        None => return None,
    };
    let tail = slice_vec(&v, start, v.len());
    assert(tail@ == v@.skip(start as int));
    let parts = split_words(&trim_chars(&tail));
    let ghost pv = parts.deep_view();
    if parts.len() == 0 {
        return None;
    }
    assert(pv[0] == parts@[0]@);
    let verb = to_lower(string_of_all(&strip_leading_exec(&parts[0], '!')).as_str());
    if !str_eq(verb.as_str(), "pull") && !str_eq(verb.as_str(), "stasis") {
        return None;
    }
    let mut joined: Vec<char> = Vec::new();
    let mut i: usize = 1;
    assert(pv.skip(1).take(0) =~= Seq::<Seq<char>>::empty());
    while i < parts.len()
        invariant
            1 <= i <= parts.len(),
            pv == parts.deep_view(),
            joined@ == join_spaced(pv.skip(1).take(i - 1)),
        decreases parts.len() - i,
    {
        let ghost before = joined@;
        if i > 1 {
            joined.push(' ');
        }
        let mut k: usize = 0;
        let ghost mid = joined@;
        assert(i > 1 ==> mid == before.push(' '));
        assert(i <= 1 ==> mid == before);
        while k < parts[i].len()
            invariant
                k <= parts[i as int]@.len(),
                i < parts.len(),
                joined@ == mid + parts@[i as int]@.take(k as int),
            decreases parts[i as int]@.len() - k,
        {
            joined.push(parts[i][k]);
            assert(parts@[i as int]@.take(k + 1) == parts@[i as int]@.take(k as int).push(parts@[i as int]@[k as int]));
            k += 1;
        }
        proof {
            reveal_strlit(" ");
            assert(parts@[i as int]@.take(k as int) == parts@[i as int]@);
            let s = pv.skip(1).take(i as int);
            assert(s.drop_last() == pv.skip(1).take(i - 1));
            assert(s.last() == pv[i as int]);
            assert(pv[i as int] == parts@[i as int]@);
            if i > 1 {
                assert(joined@ =~= before + " "@ + parts@[i as int]@);
            } else {
                assert(s.len() == 1);
                assert(joined@ =~= parts@[i as int]@);
            }
        }
        i += 1;
    }
    assert(pv.skip(1).take(i - 1) == pv.skip(1));
    let q = trim_chars(&joined);
    if q.len() == 0 {
        Some((sender, None))
    } else {
        Some((sender, Some(string_of_all(&q))))
    }
}

} // verus!
