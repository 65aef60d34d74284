//! Answers of the in-game `?faq` commands and the login greeting, taken from
//! the "faqs" and "login_greeters" collections of server records.
use vstd::prelude::*;
use crate::num::{nat_digits, parse_usize, parse_usize_seq, u64_text};
use crate::public::{
    first_with_text_id, flag_or_true, public_delete, public_update, rows_view, rows_wf, text_of, update_outcome,
    FieldView, JsonField, PublicRow, PublicValue, id_other_than, touch_spec, deletion_record, uuid_hyphenated,
    int_or_zero, value_map, value_wf,
};
use crate::text::{
    append, chars_of, eq_ci, eq_ignore_case, lit, lower_of, replace_all, replace_seq, str_eq, string_of_all, to_lower,
    trim, trim_chars, trim_seq,
};

use crate::records::{is_v4, utc_stamp};

verus! {

// ---------------------------------------------------------------------------
// Enabled rows and their text
// ---------------------------------------------------------------------------
/// A row is shown unless its "enabled" field is the boolean `false`.
pub open spec fn enabled_pred() -> spec_fn(Map<Seq<char>, FieldView>) -> bool {
    |m: Map<Seq<char>, FieldView>| flag_or_true(m, "enabled"@)
}

/// The rows that are enabled, in order.
pub fn enabled_faq_rows(rows: Vec<PublicRow>) -> (r: Vec<PublicRow>)
    requires
        rows_wf(rows@),
    ensures
        rows_wf(r@),
        rows_view(r@) == rows_view(rows@).filter(enabled_pred()),
{
    let ghost pred = enabled_pred();
    let ghost orig_rows = rows@;
    let ghost orig = rows_view(rows@);
    let n = rows.len();
    let mut rest = rows;
    let mut kept: Vec<PublicRow> = Vec::new();
    let mut i: usize = 0;
    assert(orig_rows.skip(0) == orig_rows);
    while i < n
        invariant
            i <= n,
            n == orig.len(),
            orig == rows_view(orig_rows),
            rows_wf(orig_rows),
            rest@ == orig_rows.skip(i as int),
            pred == enabled_pred(),
            rows_wf(kept@),
            rows_view(kept@) == orig.take(i as int).filter(pred),
        decreases n - i,
    {
        proof {
            assert(orig.take(i + 1) == orig.take(i as int).push(orig[i as int]));
            orig.take(i as int).lemma_filter_push(orig[i as int], pred);
        }
        let row = rest.remove(0);
        assert(rest@ =~= orig_rows.skip(i + 1));
        assert(row == orig_rows[i as int]);
        if row.flag_or_true("enabled") {
            let ghost before = kept@;
            kept.push(row);
            assert(rows_view(kept@) =~= rows_view(before).push(row@));
        }
        i += 1;
    }
    assert(orig.take(n as int) == orig);
    kept
}

/// The string under `k`, or the empty string.
pub open spec fn text_or_empty(m: Map<Seq<char>, FieldView>, k: Seq<char>) -> Seq<char> {
    match text_of(m, k) {
        Some(t) => t,
        None => Seq::empty(),
    }
}

/// The text of an FAQ row: its "text", trimmed; else its trimmed "question"
/// and "answer" joined by " - ", or whichever of them is not empty.
pub open spec fn faq_text_spec(m: Map<Seq<char>, FieldView>) -> Seq<char> {
    match text_of(m, "text"@) {
        Some(t) => trim_seq(t),
        None => {
            let q = trim_seq(text_or_empty(m, "question"@));
            let a = trim_seq(text_or_empty(m, "answer"@));
            if q.len() > 0 && a.len() > 0 {
                q + " - "@ + a
            } else if q.len() > 0 {
                q
            } else if a.len() > 0 {
                a
            } else {
                "Empty FAQ entry."@
            }
        },
    }
}

/// The text of an FAQ row.
pub fn faq_text(row: &PublicRow) -> (r: String)
    requires
        row.wf(),
    ensures
        r@ == faq_text_spec(row@),
{
    if let Some(t) = row.text("text") {
        return trim(t.as_str());
    }
    let q = match row.text("question") {
        Some(t) => trim(t.as_str()),
        None => String::new(),
    };
    let a = match row.text("answer") {
        Some(t) => trim(t.as_str()),
        None => String::new(),
    };
    assert(Seq::<char>::empty() == trim_seq(Seq::<char>::empty())) by {
        reveal_with_fuel(crate::text::skip_ws, 1);
        reveal_with_fuel(crate::text::trim_end_at, 1);
    }
    let qe = q.as_str().is_empty();
    let ae = a.as_str().is_empty();
    if !qe && !ae {
        let mut s = q;
        append(&mut s, " - ");
        append(&mut s, a.as_str());
        s
    } else if !qe {
        q
    } else if !ae {
        a
    } else {
        lit("Empty FAQ entry.")
    }
}

/// `[FAQ #n] text`.
pub open spec fn faq_answer_spec(number: nat, m: Map<Seq<char>, FieldView>) -> Seq<char> {
    "[FAQ #"@ + nat_digits(number) + "] "@ + faq_text_spec(m)
}

/// The answer line for FAQ number `number`.
pub fn format_faq_answer(number: usize, row: &PublicRow) -> (r: String)
    requires
        row.wf(),
    ensures
        r@ == faq_answer_spec(number as nat, row@),
{
    let mut s = lit("[FAQ #");
    append(&mut s, u64_text(number as u64).as_str());
    append(&mut s, "] ");
    append(&mut s, faq_text(row).as_str());
    s
}

// ---------------------------------------------------------------------------
// UTF-8 length and the list preview
// ---------------------------------------------------------------------------
/// Bytes that `c` takes in UTF-8.
pub open spec fn char_utf8_len(c: char) -> int {
    if (c as u32) < 0x80 {
        1
    } else if (c as u32) < 0x800 {
        2
    } else if (c as u32) < 0x10000 {
        3
    } else {
        4
    }
}

/// Bytes that `s` takes in UTF-8 (`str::len`).
pub open spec fn utf8_len(s: Seq<char>) -> int
    decreases s.len(),
{
    if s.len() == 0 {
        0
    } else {
        utf8_len(s.drop_last()) + char_utf8_len(s.last())
    }
}

/// The fewest leading characters of `s`, from `k` on, that take at least `b`
/// bytes (all of `s` when it is shorter).
pub open spec fn chars_reaching(s: Seq<char>, b: int, k: int) -> int
    decreases s.len() - k,
{
    if k < 0 || k >= s.len() || utf8_len(s.take(k)) >= b {
        k
    } else {
        chars_reaching(s, b, k + 1)
    }
}

/// `String::truncate(b)` would not panic: byte `b` starts a character.
pub open spec fn cuts_at_boundary(s: Seq<char>, b: int) -> bool {
    utf8_len(s.take(chars_reaching(s, b, 0))) == b
}

/// The preview of an FAQ text in the list: above 80 bytes it is cut to 77
/// bytes and "..." is added.
pub open spec fn preview_spec(t: Seq<char>) -> Seq<char> {
    if utf8_len(t) > 80 {
        t.take(chars_reaching(t, 77, 0)) + "..."@
    } else {
        t
    }
}

fn char_bytes(c: char) -> (r: usize)
    ensures
        r == char_utf8_len(c),
{
    if (c as u32) < 0x80 {
        1
    } else if (c as u32) < 0x800 {
        2
    } else if (c as u32) < 0x10000 {
        3
    } else {
        4
    }
}

proof fn lemma_utf8_take(s: Seq<char>, k: int)
    requires
        0 <= k < s.len(),
    ensures
        utf8_len(s.take(k + 1)) == utf8_len(s.take(k)) + char_utf8_len(s[k]),
{
    assert(s.take(k + 1).drop_last() == s.take(k));
}

proof fn lemma_utf8_nonneg(s: Seq<char>)
    ensures
        utf8_len(s) >= s.len(),
    decreases s.len(),
{
    if s.len() > 0 {
        lemma_utf8_nonneg(s.drop_last());
    }
}

/// Whether `utf8_len(v) > limit`, counting no further than needed.
fn utf8_longer_than(v: &Vec<char>, limit: usize) -> (r: bool)
    requires
        limit < 1000,
    ensures
        r == (utf8_len(v@) > limit),
{
    let mut count: usize = 0;
    let mut i: usize = 0;
    while i < v.len()
        invariant
            i <= v.len(),
            limit < 1000,
            count == utf8_len(v@.take(i as int)),
            count <= limit,
        decreases v.len() - i,
    {
        proof {
            lemma_utf8_take(v@, i as int);
        }
        count = count + char_bytes(v[i]);
        i += 1;
        if count > limit {
            proof {
                lemma_utf8_prefix_le(v@, i as int);
            }
            return true;
        }
    }
    assert(v@.take(i as int) == v@);
    false
}

proof fn lemma_utf8_prefix_le(s: Seq<char>, k: int)
    requires
        0 <= k <= s.len(),
    ensures
        utf8_len(s.take(k)) <= utf8_len(s),
    decreases s.len() - k,
{
    if k < s.len() {
        lemma_utf8_take(s, k);
        lemma_utf8_prefix_le(s, k + 1);
    } else {
        assert(s.take(k) == s);
    }
}

/// The number of leading characters of `v` that reach `b` bytes, and the
/// bytes they take.
fn reaching_prefix(v: &Vec<char>, b: usize) -> (r: (usize, usize))
    requires
        b < 1000,
    ensures
        r.0 == chars_reaching(v@, b as int, 0),
        r.1 == utf8_len(v@.take(r.0 as int)),
        r.0 <= v.len(),
{
    let mut count: usize = 0;
    let mut i: usize = 0;
    assert(v@.take(0) =~= Seq::<char>::empty());
    while i < v.len() && count < b
        invariant
            i <= v.len(),
            b < 1000,
            count == utf8_len(v@.take(i as int)),
            count < b + 4,
            chars_reaching(v@, b as int, 0) == chars_reaching(v@, b as int, i as int),
        decreases v.len() - i,
    {
        proof {
            lemma_utf8_take(v@, i as int);
        }
        count = count + char_bytes(v[i]);
        i += 1;
    }
    (i, count)
}

/// The list preview of a text; `None` where cutting it would split a
/// character (where `String::truncate` panics).
fn preview(t: &str) -> (r: Option<String>)
    ensures
        r is Some <==> (utf8_len(t@) > 80 ==> cuts_at_boundary(t@, 77)),
        r matches Some(p) ==> p@ == preview_spec(t@),
{
    let v = chars_of(t);
    if !utf8_longer_than(&v, 80) {
        return Some(t.to_owned());
    }
    let (k, bytes) = reaching_prefix(&v, 77);
    if bytes != 77 {
        return None;
    }
    let mut s = string_of_all(&crate::text::slice_vec(&v, 0, k));
    append(&mut s, "...");
    Some(s)
}

// ---------------------------------------------------------------------------
// Answering "?faq"
// ---------------------------------------------------------------------------
/// How many FAQs the list shows.
pub open spec fn list_count(n: nat) -> nat {
    if n < 12 {
        n
    } else {
        12
    }
}

/// The items of the list answer for the first `n` rows.
pub open spec fn list_items(s: Seq<Map<Seq<char>, FieldView>>, n: nat) -> Seq<char>
    decreases n,
{
    if n == 0 {
        Seq::empty()
    } else {
        list_items(s, (n - 1) as nat) + " | #"@ + nat_digits(n) + " "@ + preview_spec(faq_text_spec(s[n - 1]))
    }
}

/// The list can be previewed without splitting a character.
pub open spec fn previews_fit(s: Seq<Map<Seq<char>, FieldView>>) -> bool {
    forall|i: int|
        0 <= i < list_count(s.len()) ==> (utf8_len(faq_text_spec(#[trigger] s[i])) > 80 ==> cuts_at_boundary(
            faq_text_spec(s[i]),
            77,
        ))
}

/// Index of the first character of `s` at or after `i` that is not '#'.
pub open spec fn skip_hashes(s: Seq<char>, i: int) -> int
    decreases s.len() - i,
{
    if i < 0 || i >= s.len() {
        if i < 0 { 0 } else { s.len() as int }
    } else if s[i] != '#' {
        i
    } else {
        skip_hashes(s, i + 1)
    }
}

/// `s` without its leading '#' characters (`trim_start_matches('#')`).
pub open spec fn strip_hashes(s: Seq<char>) -> Seq<char> {
    s.skip(skip_hashes(s, 0))
}

/// The query asks for the list.
pub open spec fn asks_list(q: Seq<char>) -> bool {
    eq_ci(q, "list"@) || eq_ci(q, "help"@) || q.len() == 0
}

/// The reply to "?faq query", given the enabled FAQ rows.
pub open spec fn faq_answer(s: Seq<Map<Seq<char>, FieldView>>, query: Seq<char>) -> Seq<char> {
    let q = trim_seq(query);
    if s.len() == 0 {
        "No Server FAQs are currently available."@
    } else if asks_list(q) {
        "Server FAQ list:"@ + list_items(s, list_count(s.len())) + " | Use ?faq #number, for example ?faq #1."@
    } else {
        match parse_usize_seq(strip_hashes(q)) {
            Some(n) => if 1 <= n <= s.len() {
                faq_answer_spec(n as nat, s[n - 1])
            } else {
                "No Server FAQ #"@ + nat_digits(n as nat) + ". Use ?faq list."@
            },
            None => "Use ?faq list, then ask by number like ?faq #1."@,
        }
    }
}

/// The reply to "?faq query" over the stored FAQ rows. A list answer whose
/// preview would cut a character in two is left out (`String::truncate`
/// panics there).
pub fn answer_faq_query(faqs: &Vec<PublicRow>, query: &str) -> (r: String)
    requires
        rows_wf(faqs@),
        rows_view(faqs@).filter(enabled_pred()).len() > 0 && asks_list(trim_seq(query@)) ==> previews_fit(
            rows_view(faqs@).filter(enabled_pred()),
        ),
    ensures
        r@ == faq_answer(rows_view(faqs@).filter(enabled_pred()), query@),
{
    match faq_reply(faqs, query) {
        Some(r) => r,
        None => String::new(),
    }
}

fn copy_rows(rows: &Vec<PublicRow>) -> (r: Vec<PublicRow>)
    requires
        rows_wf(rows@),
    ensures
        rows_wf(r@),
        rows_view(r@) == rows_view(rows@),
{
    let mut r: Vec<PublicRow> = Vec::new();
    let mut i: usize = 0;
    while i < rows.len()
        invariant
            i <= rows.len(),
            rows_wf(rows@),
            rows_wf(r@),
            rows_view(r@) == rows_view(rows@.take(i as int)),
        decreases rows.len() - i,
    {
        let row = rows[i].duplicate();
        let ghost before = r@;
        r.push(row);
        assert(rows@.take(i + 1) == rows@.take(i as int).push(rows@[i as int]));
        assert(rows_view(r@) =~= rows_view(before).push(row@));
        assert(rows_view(rows@.take(i + 1)) =~= rows_view(rows@.take(i as int)).push(rows@[i as int]@));
        i += 1;
    }
    assert(rows@.take(rows@.len() as int) == rows@);
    r
}

/// The reply to "?faq query", or `None` where the list preview would cut a
/// character in two.
pub fn faq_reply(faqs: &Vec<PublicRow>, query: &str) -> (r: Option<String>)
    requires
        rows_wf(faqs@),
    ensures
        ({
            let s = rows_view(faqs@).filter(enabled_pred());
            let fits = s.len() > 0 && asks_list(trim_seq(query@)) ==> previews_fit(s);
            &&& r is Some <==> fits
            &&& r matches Some(t) ==> t@ == faq_answer(s, query@)
        }),
{
    let rows = enabled_faq_rows(copy_rows(faqs));
    let ghost s = rows_view(rows@);
    if rows.len() == 0 {
        return Some(lit("No Server FAQs are currently available."));
    }
    let q = trim(query);
    let qv = chars_of(q.as_str());
    if eq_ignore_case(q.as_str(), "list") || eq_ignore_case(q.as_str(), "help") || qv.len() == 0 {
        assert(asks_list(trim_seq(query@)));
        let mut out = lit("Server FAQ list:");
        let limit: usize = if rows.len() < 12 { rows.len() } else { 12 };
        let mut idx: usize = 0;
        while idx < limit
            invariant
                idx <= limit,
                limit == list_count(s.len()),
                limit <= rows.len(),
                s == rows_view(rows@),
                s == rows_view(faqs@).filter(enabled_pred()),
                asks_list(trim_seq(query@)),
                rows_wf(rows@),
                out@ == "Server FAQ list:"@ + list_items(s, idx as nat),
                forall|j: int| 0 <= j < idx ==> (utf8_len(faq_text_spec(#[trigger] s[j])) > 80 ==> cuts_at_boundary(
                    faq_text_spec(s[j]),
                    77,
                )),
            decreases limit - idx,
        {
            let text = faq_text(&rows[idx]);
            assert(s[idx as int] == rows@[idx as int]@);
            match preview(text.as_str()) {
                Some(p) => {
                    let ghost before = out@;
                    append(&mut out, " | #");
                    append(&mut out, u64_text((idx + 1) as u64).as_str());
                    append(&mut out, " ");
                    append(&mut out, p.as_str());
                    assert(out@ == "Server FAQ list:"@ + list_items(s, (idx + 1) as nat));
                },
                None => {
                    assert(!(utf8_len(faq_text_spec(s[idx as int])) > 80 ==> cuts_at_boundary(
                        faq_text_spec(s[idx as int]),
                        77,
                    )));
                    assert(!previews_fit(s));
                    assert(asks_list(trim_seq(query@)));
                    return None;
                },
            }
            idx += 1;
        }
        append(&mut out, " | Use ?faq #number, for example ?faq #1.");
        return Some(out);
    }
    let mut h: usize = 0;
    while h < qv.len() && qv[h] == '#'
        invariant
            h <= qv.len(),
            skip_hashes(qv@, 0) == skip_hashes(qv@, h as int),
        decreases qv.len() - h,
    {
        h += 1;
    }
    let digits = crate::text::slice_vec(&qv, h, qv.len());
    assert(digits@ == strip_hashes(qv@));
    match parse_usize(&digits) {
        Some(n) => {
            if n >= 1 && n <= rows.len() {
                assert(s[n - 1] == rows@[n - 1]@);
                Some(format_faq_answer(n, &rows[n - 1]))
            } else {
                let mut out = lit("No Server FAQ #");
                append(&mut out, u64_text(n as u64).as_str());
                append(&mut out, ". Use ?faq list.");
                Some(out)
            }
        },
        None => Some(lit("Use ?faq list, then ask by number like ?faq #1.")),
    }
}


// ---------------------------------------------------------------------------
// FAQ numbers, edits and deletions
// ---------------------------------------------------------------------------
/// The number (from 1) that the list gives the enabled FAQ with id `id`.
pub open spec fn faq_number_spec(s: Seq<Map<Seq<char>, FieldView>>, id: Seq<char>) -> Option<nat> {
    if id.len() == 0 {
        None
    } else {
        match first_with_text_id(s, id, 0) {
            Some(i) => Some((i + 1) as nat),
            None => None,
        }
    }
}

/// The id of enabled FAQ number `number`, if it has one.
pub open spec fn faq_id_spec(s: Seq<Map<Seq<char>, FieldView>>, number: nat) -> Option<Seq<char>> {
    if number == 0 || number > s.len() {
        None
    } else {
        text_of(s[number - 1], "id"@)
    }
}

/// The number of the enabled FAQ with id `id`.
pub fn faq_number_for_id(faqs: &Vec<PublicRow>, id: &str) -> (r: Option<usize>)
    requires
        rows_wf(faqs@),
    ensures
        r matches Some(n) ==> faq_number_spec(rows_view(faqs@).filter(enabled_pred()), id@) == Some(n as nat),
        r is None ==> faq_number_spec(rows_view(faqs@).filter(enabled_pred()), id@) is None,
{
    if id.is_empty() {
        return None;
    }
    let rows = enabled_faq_rows(copy_rows(faqs));
    let ghost s = rows_view(rows@);
    let mut i: usize = 0;
    while i < rows.len()
        invariant
            i <= rows.len(),
            s == rows_view(rows@),
            s == rows_view(faqs@).filter(enabled_pred()),
            id@.len() > 0,
            rows_wf(rows@),
            first_with_text_id(s, id@, 0) == first_with_text_id(s, id@, i as int),
        decreases rows.len() - i,
    {
        let found = match rows[i].text("id") {
            Some(t) => str_eq(t.as_str(), id),
            None => false,
        };
        assert(s[i as int] == rows@[i as int]@);
        if found {
            return Some(i + 1);
        }
        i += 1;
    }
    None
}

/// The id of enabled FAQ number `number`.
pub fn faq_id_for_number(faqs: &Vec<PublicRow>, number: usize) -> (r: Option<String>)
    requires
        rows_wf(faqs@),
    ensures
        r matches Some(t) ==> faq_id_spec(rows_view(faqs@).filter(enabled_pred()), number as nat) == Some(t@),
        r is None ==> faq_id_spec(rows_view(faqs@).filter(enabled_pred()), number as nat) is None,
{
    if number == 0 {
        return None;
    }
    let rows = enabled_faq_rows(copy_rows(faqs));
    if number > rows.len() {
        return None;
    }
    assert(rows_view(rows@)[number - 1] == rows@[number - 1]@);
    rows[number - 1].text("id")
}

/// The row that "?faqset" writes.
pub open spec fn faq_edit_map(text: Seq<char>, user: Seq<char>) -> Map<Seq<char>, FieldView> {
    Map::<Seq<char>, FieldView>::empty().insert("text"@, FieldView::Text(trim_seq(text))).insert(
        "category"@,
        FieldView::Text("Edited by Command"@),
    ).insert("enabled"@, FieldView::Flag(true)).insert(
        "source"@,
        FieldView::Text("Minecraft command from "@ + user),
    )
}

/// The value that "?faqset" writes.
pub fn faq_edit_value(text: &str, user: &str) -> (r: PublicValue)
    ensures
        value_wf(r),
        value_map(r) == faq_edit_map(text@, user@),
{
    let mut row = PublicRow::new();
    row.set("text", JsonField::Text(trim(text)));
    row.set("category", JsonField::Text(lit("Edited by Command")));
    row.set("enabled", JsonField::Flag(true));
    let mut source = lit("Minecraft command from ");
    append(&mut source, user);
    row.set("source", JsonField::Text(source));
    PublicValue::Object(row)
}

/// "No Server FAQ #n. Use ?faq list."
pub open spec fn no_faq_list(number: nat) -> Seq<char> {
    "No Server FAQ #"@ + nat_digits(number) + ". Use ?faq list."@
}

/// "No Server FAQ #n."
pub open spec fn no_faq(number: nat) -> Seq<char> {
    "No Server FAQ #"@ + nat_digits(number) + "."@
}

/// What "?faqset n | text" leaves: nothing changed when there is no enabled
/// FAQ number `n`; else the update of the row with its id, at some time.
pub open spec fn set_faq_outcome(
    before: Seq<PublicRow>,
    after: Seq<PublicRow>,
    number: nat,
    text: Seq<char>,
    user: Seq<char>,
    reply: Seq<char>,
) -> bool {
    match faq_id_spec(rows_view(before).filter(enabled_pred()), number) {
        None => reply == no_faq_list(number) && after == before,
        Some(id) => {
            &&& reply == set_faq_reply(number, first_with_text_id(rows_view(before), id, 0) is Some)
            &&& exists|now: Seq<char>, row: Option<PublicRow>|
                #[trigger] update_outcome(before, after, id, faq_edit_map(text, user), user, now, row)
        },
    }
}

/// What "?faqset" answers once the update was tried.
pub open spec fn set_faq_reply(number: nat, done: bool) -> Seq<char> {
    if done {
        "Server FAQ #"@ + nat_digits(number) + " updated."@
    } else {
        no_faq(number)
    }
}

fn faq_message(prefix: &str, number: usize, suffix: &str) -> (r: String)
    ensures
        r@ == prefix@ + nat_digits(number as nat) + suffix@,
{
    let mut out = lit(prefix);
    append(&mut out, u64_text(number as u64).as_str());
    append(&mut out, suffix);
    out
}

/// "?faqset n | text": replaces enabled FAQ number `number` by the edited
/// text (stamped by `user`) and says what happened.
pub fn set_faq_number(faqs: &mut Vec<PublicRow>, number: usize, text: &str, user: &str) -> (r: String)
    requires
        rows_wf(old(faqs)@),
    ensures
        rows_wf(final(faqs)@),
        set_faq_outcome(old(faqs)@, final(faqs)@, number as nat, text@, user@, r@),
{
    match faq_id_for_number(faqs, number) {
        None => faq_message("No Server FAQ #", number, ". Use ?faq list."),
        Some(id) => {
            let v = faq_edit_value(text, user);
            let ghost before = faqs@;
            let updated = public_update(faqs, id.as_str(), v, user);
            let ghost now = choose|now: Seq<char>| #[trigger] update_outcome(before, faqs@, id@, value_map(v), user@, now, updated);
            assert(update_outcome(before, faqs@, id@, faq_edit_map(text@, user@), user@, now, updated));
            let msg = match updated {
                Some(_) => faq_message("Server FAQ #", number, " updated."),
                None => faq_message("No Server FAQ #", number, "."),
            };
            assert(msg@ == set_faq_reply(number as nat, updated is Some));
            assert(faq_id_spec(rows_view(before).filter(enabled_pred()), number as nat) == Some(id@));
            assert(update_outcome(before, faqs@, id@, faq_edit_map(text@, user@), user@, now, updated));
            assert(updated is Some <==> first_with_text_id(rows_view(before), id@, 0) is Some);
            assert(set_faq_outcome(before, faqs@, number as nat, text@, user@, msg@));
            msg
        },
    }
}

/// What "?faqdel n" leaves: nothing changed when there is no enabled FAQ
/// number `n`; else every row with its id removed and the deletion logged.
pub open spec fn delete_outcome(
    faqs0: Seq<PublicRow>,
    faqs1: Seq<PublicRow>,
    log0: Seq<PublicRow>,
    log1: Seq<PublicRow>,
    number: nat,
    user: Seq<char>,
    reply: Seq<char>,
) -> bool {
    match faq_id_spec(rows_view(faqs0).filter(enabled_pred()), number) {
            None => reply == no_faq_list(number) && faqs1 == faqs0 && log1 == log0,
            Some(id) => {
                let removed = rows_view(faqs0).filter(id_other_than(id)).len() != faqs0.len();
                &&& rows_view(faqs1) == rows_view(faqs0).filter(id_other_than(id))
                &&& reply == (if removed {
                    "Server FAQ #"@ + nat_digits(number) + " deleted."@
                } else {
                    no_faq(number)
                })
                &&& removed ==> exists|row: Map<Seq<char>, FieldView>, rid: u128, now: Seq<char>|
                    is_v4(rid) && utc_stamp(now) && rows_view(log1) == rows_view(log0).push(row) && row == touch_spec(
                        deletion_record("faqs"@, id),
                        user,
                        true,
                        uuid_hyphenated(rid),
                        now,
                    )
                &&& !removed ==> log1 == log0
            },
        }
}

/// "?faqdel n": deletes enabled FAQ number `number` (every row with its id),
/// logging the deletion in `log`, and says what happened.
pub fn delete_faq_number(faqs: &mut Vec<PublicRow>, log: &mut Vec<PublicRow>, number: usize, user: &str) -> (r: String)
    requires
        rows_wf(old(faqs)@),
        rows_wf(old(log)@),
    ensures
        rows_wf(final(faqs)@),
        rows_wf(final(log)@),
        delete_outcome(old(faqs)@, final(faqs)@, old(log)@, final(log)@, number as nat, user@, r@),
{
    match faq_id_for_number(faqs, number) {
        None => faq_message("No Server FAQ #", number, ". Use ?faq list."),
        Some(id) => {
            if public_delete(faqs, log, "faqs", id.as_str(), user) {
                faq_message("Server FAQ #", number, " deleted.")
            } else {
                faq_message("No Server FAQ #", number, ".")
            }
        },
    }
}

// ---------------------------------------------------------------------------
// Login greetings
// ---------------------------------------------------------------------------
/// The value under the first of `a`, `b`, `c` that `m` has.
pub open spec fn pick3(m: Map<Seq<char>, FieldView>, a: Seq<char>, b: Seq<char>, c: Seq<char>) -> Option<FieldView> {
    if m.dom().contains(a) {
        Some(m[a])
    } else if m.dom().contains(b) {
        Some(m[b])
    } else if m.dom().contains(c) {
        Some(m[c])
    } else {
        None
    }
}

/// Who a greeting is for: "target", "target_player" or "player" (the first
/// present, if a string; "All" otherwise), trimmed and lowercased.
pub open spec fn greeter_target(m: Map<Seq<char>, FieldView>) -> Seq<char> {
    let t = match pick3(m, "target"@, "target_player"@, "player"@) {
        Some(FieldView::Text(t)) => t,
        _ => "All"@,
    };
    lower_of(trim_seq(t))
}

/// The greeting text: "mesadmin", "greeting" or "text" (the first present, if
/// a string; empty otherwise), trimmed.
pub open spec fn greeter_message(m: Map<Seq<char>, FieldView>) -> Seq<char> {
    let t = match pick3(m, "mesadmin"@, "greeting"@, "text"@) {
        Some(FieldView::Text(t)) => t,
        _ => Seq::empty(),
    };
    trim_seq(t)
}

/// The greeting with `{player}`, `{Player}` and `{PLAYER}` filled in.
pub open spec fn render_greeting(msg: Seq<char>, player: Seq<char>) -> Seq<char> {
    replace_seq(replace_seq(replace_seq(msg, "{player}"@, player), "{Player}"@, player), "{PLAYER}"@, player)
}

/// The `(priority, greeting)` that a row offers `player`, if it applies.
pub open spec fn greeter_candidate(m: Map<Seq<char>, FieldView>, player: Seq<char>) -> Option<(i64, Seq<char>)> {
    let target = greeter_target(m);
    if !flag_or_true(m, "enabled"@) {
        None
    } else if target != "all"@ && target != "*"@ && target != lower_of(player) {
        None
    } else if greeter_message(m).len() == 0 {
        None
    } else {
        Some((int_or_zero(m, "priority"@), render_greeting(greeter_message(m), player)))
    }
}

/// The best candidate among the first `n` rows: the highest priority, the
/// later row among equals.
pub open spec fn best_greeting(s: Seq<Map<Seq<char>, FieldView>>, n: int, player: Seq<char>) -> Option<(i64, Seq<char>)>
    decreases n,
{
    if n <= 0 {
        None
    } else {
        let before = best_greeting(s, n - 1, player);
        match greeter_candidate(s[n - 1], player) {
            None => before,
            Some(c) => match before {
                Some(b) => if b.0 > c.0 {
                    before
                } else {
                    Some(c)
                },
                None => Some(c),
            },
        }
    }
}

/// The greeting for `player`: the best row's, else the default welcome.
pub open spec fn greeting_for(s: Seq<Map<Seq<char>, FieldView>>, player: Seq<char>) -> Seq<char> {
    match best_greeting(s, s.len() as int, player) {
        Some(b) => b.1,
        None => "Welcome, "@ + player + ". The Server remembers."@,
    }
}

fn pick3_exec(row: &PublicRow, a: &str, b: &str, c: &str) -> (r: Option<JsonField>)
    requires
        row.wf(),
    ensures
        r matches Some(f) ==> pick3(row@, a@, b@, c@) == Some(f@),
        r is None ==> pick3(row@, a@, b@, c@) is None,
{
    match row.get(a) {
        Some(f) => Some(f),
        None => match row.get(b) {
            Some(f) => Some(f),
            None => row.get(c),
        },
    }
}

fn greeter_offer(row: &PublicRow, player: &str, player_l: &str) -> (r: Option<(i64, String)>)
    requires
        row.wf(),
        player_l@ == lower_of(player@),
    ensures
        r matches Some(c) ==> greeter_candidate(row@, player@) == Some((c.0, c.1@)),
        r is None ==> greeter_candidate(row@, player@) is None,
{
    if !row.flag_or_true("enabled") {
        return None;
    }
    let target_raw = match pick3_exec(row, "target", "target_player", "player") {
        Some(JsonField::Text(t)) => t,
        _ => lit("All"),
    };
    let target = to_lower(trim(target_raw.as_str()).as_str());
    if !str_eq(target.as_str(), "all") && !str_eq(target.as_str(), "*") && !str_eq(target.as_str(), player_l) {
        return None;
    }
    let msg_raw = match pick3_exec(row, "mesadmin", "greeting", "text") {
        Some(JsonField::Text(t)) => t,
        _ => String::new(),
    };
    let msg = trim(msg_raw.as_str());
    if msg.as_str().is_empty() {
        return None;
    }
    let priority = row.int_or_zero("priority");
    let v = chars_of(msg.as_str());
    proof {
        reveal_strlit("{player}");
        reveal_strlit("{Player}");
        reveal_strlit("{PLAYER}");
    }
    let v1 = replace_all(&v, "{player}", player);
    let v2 = replace_all(&v1, "{Player}", player);
    let v3 = replace_all(&v2, "{PLAYER}", player);
    Some((priority, string_of_all(&v3)))
}

/// The greeting to send when `player` joins, from the greeter rows.
pub fn pick_login_greeter_mesadmin(rows: &Vec<PublicRow>, player: &str) -> (r: Option<String>)
    requires
        rows_wf(rows@),
    ensures
        r matches Some(t) && t@ == greeting_for(rows_view(rows@), player@),
{
    let ghost s = rows_view(rows@);
    let player_l = to_lower(player);
    let mut best: Option<(i64, String)> = None;
    let mut i: usize = 0;
    while i < rows.len()
        invariant
            i <= rows.len(),
            s == rows_view(rows@),
            rows_wf(rows@),
            player_l@ == lower_of(player@),
            match best {
                Some(b) => best_greeting(s, i as int, player@) == Some((b.0, b.1@)),
                None => best_greeting(s, i as int, player@) is None,
            },
        decreases rows.len() - i,
    {
        assert(s[i as int] == rows@[i as int]@);
        match greeter_offer(&rows[i], player, player_l.as_str()) {
            Some(c) => {
                let keep = match &best {
                    Some(b) => b.0 > c.0,
                    None => false,
                };
                if !keep {
                    best = Some(c);
                }
            },
            None => {},
        }
        i += 1;
    }
    match best {
        Some(b) => Some(b.1),
        None => {
            let mut out = lit("Welcome, ");
            append(&mut out, player);
            append(&mut out, ". The Server remembers.");
            Some(out)
        },
    }
}

} // verus!
