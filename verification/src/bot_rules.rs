//! Decisions of the in-game bot that need no world: names, the world clock,
//! doors, permissions, and which pearl a whisper asks for.
use vstd::prelude::*;
use crate::config::{BotConfig, WorldClockStatus};
use crate::num::{nat_digits, two_digits, two_digit_text, u64_text};
use crate::records::{same_pearl, PearlEntry, WaypointEntry, find_waypoint, first_with_id};
use crate::text::{
    is_ws,
    append, chars_of, contains_seq, contains_str, eq_ci, eq_ignore_case, ends_with, ends_with_seq, lit, lower_of,
    split_words, str_eq, string_of_all, to_lower, trim, trim_seq, words, slice_vec,
};
use crate::users::{AppUser, UserRole};

verus! {

// ---------------------------------------------------------------------------
// Bot names and book slots
// ---------------------------------------------------------------------------
/// The display name of a bot: "main" and "iosbot" (any ASCII case) are
/// shown as "UtilityBot"; other names are trimmed.
pub open spec fn bot_display_name(name: Seq<char>) -> Seq<char> {
    let t = trim_seq(name);
    if eq_ci(t, "main"@) || eq_ci(t, "iosbot"@) {
        "UtilityBot"@
    } else {
        t
    }
}

/// The display name of a bot.
pub fn clean_bot_name(name: &str) -> (r: String)
    ensures
        r@ == bot_display_name(name@),
{
    let t = trim(name);
    if eq_ignore_case(t.as_str(), "main") || eq_ignore_case(t.as_str(), "iosbot") {
        lit("UtilityBot")
    } else {
        t
    }
}

/// The container slots to try when editing the book in hotbar slot `slot`
/// (at most 8): the hotbar slot itself and its slot in the player inventory.
pub fn book_edit_slot_candidates(hotbar_slot: u8) -> (r: Vec<u32>)
    ensures
        r@ == seq![
            if hotbar_slot < 8 { hotbar_slot as u32 } else { 8u32 },
            (36 + if hotbar_slot < 8 { hotbar_slot as u32 } else { 8u32 }) as u32,
        ],
{
    let s: u8 = if hotbar_slot < 8 { hotbar_slot } else { 8 };
    let mut r: Vec<u32> = Vec::new();
    r.push(s as u32);
    r.push(36 + s as u32);
    assert(r@ =~= seq![s as u32, (36 + s) as u32]);
    r
}

/// The slots to try on attempt `attempt`: the first one on the first two
/// attempts, all of them after.
pub fn edit_slots_for_attempt(edit_slots: &Vec<u32>, attempt: usize) -> (r: Vec<u32>)
    ensures
        (attempt == 1 || attempt == 2) ==> r@ == edit_slots@.take(if edit_slots@.len() > 0 { 1int } else { 0int }),
        !(attempt == 1 || attempt == 2) ==> r@ == edit_slots@,
{
    if attempt == 1 || attempt == 2 {
        let mut r: Vec<u32> = Vec::new();
        if edit_slots.len() > 0 {
            r.push(edit_slots[0]);
        }
        assert(r@ =~= edit_slots@.take(if edit_slots@.len() > 0 { 1int } else { 0int }));
        r
    } else {
        let mut r: Vec<u32> = Vec::new();
        let mut i: usize = 0;
        while i < edit_slots.len()
            invariant
                i <= edit_slots.len(),
                r@ == edit_slots@.take(i as int),
            decreases edit_slots.len() - i,
        {
            r.push(edit_slots[i]);
            assert(edit_slots@.take(i + 1) == edit_slots@.take(i as int).push(edit_slots@[i as int]));
            i += 1;
        }
        assert(edit_slots@.take(edit_slots@.len() as int) == edit_slots@);
        r
    }
}

/// A block id of a door or fence gate that a hand can open: any "_door" or
/// "_fence_gate" except the iron door.
pub open spec fn hand_openable(id: Seq<char>) -> bool {
    id != "iron_door"@ && (ends_with_seq(id, "_door"@, false) || ends_with_seq(id, "_fence_gate"@, false))
}

/// Whether a block with this id can be opened by hand.
pub fn is_hand_openable_pasadmin_id(id: &str) -> (r: bool)
    ensures
        r == hand_openable(id@),
{
    if str_eq(id, "iron_door") {
        return false;
    }
    let v = chars_of(id);
    ends_with(&v, "_door", false) || ends_with(&v, "_fence_gate", false)
}

/// A block next to a step of a walk: where it is, its id, and its "open"
/// state when it has one.
pub struct BlockSeen {
    pub pos: (i32, i32, i32),
    pub id: String,
    pub open: Option<bool>,
}

/// Index of the first block, from `i` on, that a hand can open.
pub open spec fn first_openable(blocks: Seq<BlockSeen>, i: int) -> Option<int>
    decreases blocks.len() - i,
{
    if i < 0 || i >= blocks.len() {
        None
    } else if hand_openable(blocks[i].id@) {
        Some(i)
    } else {
        first_openable(blocks, i + 1)
    }
}

/// The door or gate to deal with at a step: the first hand-openable block
/// of `blocks` (the step, the block above it, the block below it), unless
/// it was dealt with before; with it, whether it is shut and must be opened.
pub open spec fn door_choice(blocks: Seq<BlockSeen>, handled: Seq<(i32, i32, i32)>) -> Option<((i32, i32, i32), bool)> {
    match first_openable(blocks, 0) {
        None => None,
        Some(i) => if handled.contains(blocks[i].pos) {
            None
        } else {
            Some((blocks[i].pos, blocks[i].open == Some(false)))
        },
    }
}

/// Picks the door or gate to deal with at a step (see `door_choice`).
pub fn door_for_step(blocks: &Vec<BlockSeen>, handled: &Vec<(i32, i32, i32)>) -> (r: Option<((i32, i32, i32), bool)>)
    ensures
        r == door_choice(blocks@, handled@),
{
    let mut i: usize = 0;
    while i < blocks.len()
        invariant
            i <= blocks.len(),
            first_openable(blocks@, 0) == first_openable(blocks@, i as int),
        decreases blocks.len() - i,
    {
        if is_hand_openable_pasadmin_id(blocks[i].id.as_str()) {
            let pos = blocks[i].pos;
            let mut k: usize = 0;
            while k < handled.len()
                invariant
                    k <= handled.len(),
                    i < blocks.len(),
                    pos == blocks@[i as int].pos,
                    hand_openable(blocks@[i as int].id@),
                    first_openable(blocks@, 0) == first_openable(blocks@, i as int),
                    forall|j: int| 0 <= j < k ==> handled@[j] != pos,
                decreases handled.len() - k,
            {
                let h = handled[k];
                if h.0 == pos.0 && h.1 == pos.1 && h.2 == pos.2 {
                    assert(first_openable(blocks@, i as int) == Some(i as int));
                    assert(handled@[k as int] == pos);
                    assert(handled@.contains(pos));
                    return None;
                }
                k += 1;
            }
            let shut = match blocks[i].open {
                Some(b) => !b,
                None => false,
            };
            assert(first_openable(blocks@, i as int) == Some(i as int));
            assert(!handled@.contains(pos));
            return Some((pos, shut));
        }
        i += 1;
    }
    None
}

// ---------------------------------------------------------------------------
// The world clock
// ---------------------------------------------------------------------------
/// The part of the day that tick `t` (below 24000) falls in.
pub open spec fn day_phase(t: int) -> Seq<char> {
    if t < 1000 {
        "Sunrise"@
    } else if t < 6000 {
        "Morning"@
    } else if t < 12000 {
        "Day"@
    } else if t < 13000 {
        "Sunset"@
    } else if t < 18000 {
        "Night"@
    } else if t < 23000 {
        "Midnight"@
    } else {
        "Dawn"@
    }
}

/// "Phase HH:MM (t ticks)" for a time of day in ticks; tick 0 is 06:00.
pub open spec fn time_label_spec(time_of_day: u64) -> Seq<char> {
    let t = time_of_day % 24000;
    let hour = ((t / 1000) + 6) % 24;
    let minute = ((t % 1000) * 60) / 1000;
    day_phase(t as int) + " "@ + two_digits(hour as nat) + ":"@ + two_digits(minute as nat) + " ("@ + nat_digits(
        t as nat,
    ) + " ticks)"@
}

fn phase_name(t: u64) -> (r: &'static str)
    ensures
        r@ == day_phase(t as int),
{
    if t < 1000 {
        "Sunrise"
    } else if t < 6000 {
        "Morning"
    } else if t < 12000 {
        "Day"
    } else if t < 13000 {
        "Sunset"
    } else if t < 18000 {
        "Night"
    } else if t < 23000 {
        "Midnight"
    } else {
        "Dawn"
    }
}

/// The label of a time of day, such as "Day 12:00 (6000 ticks)".
pub fn minecraft_time_label(time_of_day: u64) -> (r: String)
    ensures
        r@ == time_label_spec(time_of_day),
{
    let t = time_of_day % 24000;
    let hour = ((t / 1000) + 6) % 24;
    let minute = ((t % 1000) * 60) / 1000;
    let mut s = lit(phase_name(t));
    append(&mut s, " ");
    append(&mut s, two_digit_text(hour).as_str());
    append(&mut s, ":");
    append(&mut s, two_digit_text(minute).as_str());
    append(&mut s, " (");
    append(&mut s, u64_text(t).as_str());
    append(&mut s, " ticks)");
    s
}

/// The world time the server last sent: the day time, the time of day and
/// its label.
pub struct WorldTimeSnapshot {
    pub day_time: u64,
    pub time_of_day: u64,
    pub time_label: String,
}

/// The world time `elapsed_millis` after `snapshot` was received: 20 ticks
/// a second, the day time saturating at `u64::MAX`.
pub fn estimate_world_time(snapshot: &WorldTimeSnapshot, elapsed_millis: u64) -> (r: WorldTimeSnapshot)
    requires
        elapsed_millis * 20 <= u64::MAX,
    ensures
        r.day_time == (if snapshot.day_time + (elapsed_millis * 20) / 1000 > u64::MAX {
            u64::MAX as int
        } else {
            snapshot.day_time + (elapsed_millis * 20) / 1000
        }),
        r.time_of_day == r.day_time % 24000,
        r.time_label@ == time_label_spec(r.time_of_day),
{
    let elapsed_ticks = (elapsed_millis * 20) / 1000;
    let day_time = snapshot.day_time.saturating_add(elapsed_ticks);
    let time_of_day = day_time % 24000;
    WorldTimeSnapshot { day_time, time_of_day, time_label: minecraft_time_label(time_of_day) }
}

/// The clock the status page shows for a time snapshot: the same times (as
/// signed numbers, wrapping as `as` does) and label, and day while the time
/// of day is under 12000 ticks.
pub fn world_clock(snapshot: &WorldTimeSnapshot) -> (r: WorldClockStatus)
    ensures
        r.day_time == snapshot.day_time as i64,
        r.time_of_day == snapshot.time_of_day as i64,
        r.time_label@ == snapshot.time_label@,
        r.is_day == (snapshot.time_of_day < 12000),
{
    WorldClockStatus {
        day_time: snapshot.day_time as i64,
        time_of_day: snapshot.time_of_day as i64,
        time_label: snapshot.time_label.clone(),
        is_day: snapshot.time_of_day < 12000,
    }
}

// ---------------------------------------------------------------------------
// Identifiers
// ---------------------------------------------------------------------------
/// The Unicode uppercase mapping of one character (the answer of
/// `char::to_uppercase`).
pub uninterp spec fn upper_of(c: char) -> Seq<char>;

/// Calls `char::to_uppercase` and collects the characters. The contract
/// names the result `upper_of(c)` and states the ASCII part: a lowercase
/// ASCII letter becomes its capital, any other ASCII character stays.
#[verifier::external_body]
fn char_upper(c: char) -> (r: String)
    ensures
        r@ == upper_of(c),
        ('a' <= c && c <= 'z') ==> r@ == seq![((c as u32) - 32) as char],
        ((c as u32) < 128 && !('a' <= c && c <= 'z')) ==> r@ == seq![c],
{
    c.to_uppercase().to_string()
}

/// The last ':'-separated part of `s` (all of `s` without ':').
pub open spec fn after_last_colon(s: Seq<char>) -> Seq<char>
    decreases s.len(),
{
    if s.len() == 0 {
        s
    } else if s.last() == ':' {
        Seq::empty()
    } else {
        after_last_colon(s.drop_last()).push(s.last())
    }
}

/// A word with its first character uppercased.
pub open spec fn capitalized(w: Seq<char>) -> Seq<char> {
    if w.len() == 0 {
        Seq::empty()
    } else {
        upper_of(w[0]) + w.skip(1)
    }
}

/// Words joined by single spaces.
pub open spec fn join_words(ws: Seq<Seq<char>>) -> Seq<char>
    decreases ws.len(),
{
    if ws.len() == 0 {
        Seq::empty()
    } else if ws.len() == 1 {
        ws[0]
    } else {
        join_words(ws.drop_last()) + " "@ + ws.last()
    }
}

/// "minecraft:oak_door" as "Oak Door": the part after the last ':', with
/// '_' as spaces and each word capitalized.
pub open spec fn humanized(identifier: Seq<char>) -> Seq<char> {
    let raw = after_last_colon(identifier).map_values(|c: char| if c == '_' { ' ' } else { c });
    join_words(words(raw).map_values(|w: Seq<char>| capitalized(w)))
}

/// A readable name for a block or item identifier.
pub fn humanize_identifier(identifier: &str) -> (r: String)
    ensures
        r@ == humanized(identifier@),
{
    let v = chars_of(identifier);
    let mut start: usize = v.len();
    proof {
        assert(v@.take(v@.len() as int) == v@);
        assert(v@.skip(v@.len() as int) =~= Seq::<char>::empty());
        assert(after_last_colon(v@) + Seq::<char>::empty() == after_last_colon(v@));
    }
    while start > 0 && v[start - 1] != ':'
        invariant
            start <= v.len(),
            after_last_colon(v@) == after_last_colon(v@.take(start as int)) + v@.skip(start as int),
        decreases start,
    {
        proof {
            let t = v@.take(start as int);
            assert(t.drop_last() == v@.take(start - 1));
            assert(t.last() == v@[start - 1]);
            assert(v@.skip(start - 1) == seq![v@[start - 1]] + v@.skip(start as int));
        }
        start -= 1;
    }
    proof {
        if start > 0 {
            let t = v@.take(start as int);
            assert(t.last() == ':');
        } else {
            assert(v@.take(0) =~= Seq::<char>::empty());
        }
        assert(v@.take(v@.len() as int) == v@);
        assert(v@.skip(v@.len() as int) =~= Seq::<char>::empty());
    }
    let mut raw: Vec<char> = Vec::new();
    let mut i: usize = start;
    let ghost tail = v@.skip(start as int);
    let ghost f = |c: char| if c == '_' { ' ' } else { c };
    while i < v.len()
        invariant
            start <= i <= v.len(),
            tail == v@.skip(start as int),
            raw@ == tail.take(i - start).map_values(f),
            f == (|c: char| if c == '_' { ' ' } else { c }),
        decreases v.len() - i,
    {
        let c = v[i];
        raw.push(if c == '_' { ' ' } else { c });
        assert(tail.take(i + 1 - start) == tail.take(i - start).push(c));
        assert(raw@ =~= tail.take(i + 1 - start).map_values(f));
        i += 1;
    }
    assert(tail.take(i - start) == tail);
    let ws = split_words(&raw);
    let ghost wv = ws.deep_view();
    let ghost cap = |w: Seq<char>| capitalized(w);
    let mut out = String::new();
    let mut k: usize = 0;
    while k < ws.len()
        invariant
            k <= ws.len(),
            wv == ws.deep_view(),
            cap == (|w: Seq<char>| capitalized(w)),
            out@ == join_words(wv.take(k as int).map_values(cap)),
        decreases ws.len() - k,
    {
        let ghost before = out@;
        if k > 0 {
            append(&mut out, " ");
        }
        assert(wv[k as int] == ws@[k as int]@);
        if ws[k].len() > 0 {
            append(&mut out, char_upper(ws[k][0]).as_str());
            let rest = string_of_all(&slice_vec(&ws[k], 1, ws[k].len()));
            append(&mut out, rest.as_str());
            assert(ws@[k as int]@.subrange(1, ws@[k as int]@.len() as int) == ws@[k as int]@.skip(1));
        }
        proof {
            reveal_strlit(" ");
            let s = wv.take(k + 1).map_values(cap);
            assert(wv.take(k + 1).map_values(cap).drop_last() == wv.take(k as int).map_values(cap));
            assert(s.last() == capitalized(wv[k as int]));
            if k == 0 {
                assert(s.len() == 1);
                assert(out@ =~= s[0]);
            } else {
                assert(out@ =~= before + " "@ + s.last());
            }
        }
        k += 1;
    }
    assert(wv.take(ws.len() as int) == wv);
    out
}

// ---------------------------------------------------------------------------
// Permissions
// ---------------------------------------------------------------------------
/// The user holds `permission` or "faq_admin", up to ASCII case.
pub open spec fn holds_permission(u: AppUser, permission: Seq<char>) -> bool {
    exists|i: int|
        0 <= i < u.permissions@.len() && (eq_ci(#[trigger] u.permissions@[i]@, permission) || eq_ci(
            u.permissions@[i]@,
            "faq_admin"@,
        ))
}

/// The in-game player `player` is a user (by username or Minecraft name,
/// up to ASCII case, after trimming and lowercasing) who is an owner or holds
/// the permission.
pub open spec fn player_may(users: Seq<AppUser>, player: Seq<char>, permission: Seq<char>) -> bool {
    let p = lower_of(trim_seq(player));
    exists|i: int|
        0 <= i < users.len() && (eq_ci((#[trigger] users[i]).username@, p) || eq_ci(users[i].minecraft_name@, p)) && (
        users[i].role == UserRole::Owner || holds_permission(users[i], permission))
}

fn user_holds(u: &AppUser, permission: &str) -> (r: bool)
    ensures
        r == holds_permission(*u, permission@),
{
    let mut i: usize = 0;
    while i < u.permissions.len()
        invariant
            i <= u.permissions.len(),
            forall|j: int| 0 <= j < i ==> !(eq_ci(#[trigger] u.permissions@[j]@, permission@) || eq_ci(
                u.permissions@[j]@,
                "faq_admin"@,
            )),
        decreases u.permissions.len() - i,
    {
        if eq_ignore_case(u.permissions[i].as_str(), permission) || eq_ignore_case(u.permissions[i].as_str(), "faq_admin") {
            return true;
        }
        i += 1;
    }
    false
}

/// Whether the in-game player may use a command that needs `permission`.
pub fn minecraft_user_has_permission(users: &Vec<AppUser>, player: &str, permission: &str) -> (r: bool)
    ensures
        r == player_may(users@, player@, permission@),
{
    let p = to_lower(trim(player).as_str());
    let mut i: usize = 0;
    while i < users.len()
        invariant
            i <= users.len(),
            p@ == lower_of(trim_seq(player@)),
            forall|j: int| 0 <= j < i ==> !((eq_ci((#[trigger] users@[j]).username@, p@) || eq_ci(
                users@[j].minecraft_name@,
                p@,
            )) && (users@[j].role == UserRole::Owner || holds_permission(users@[j], permission@))),
        decreases users.len() - i,
    {
        let u = &users[i];
        let name_match = eq_ignore_case(u.username.as_str(), p.as_str()) || eq_ignore_case(
            u.minecraft_name.as_str(),
            p.as_str(),
        );
        if name_match && (u.role == UserRole::Owner || user_holds(u, permission)) {
            return true;
        }
        i += 1;
    }
    false
}

// ---------------------------------------------------------------------------
// Pulling pearls on request
// ---------------------------------------------------------------------------
/// The waypoint to walk back to after pulling `pearl`: the configured home
/// waypoint, if walking home is on and it exists, driven by the pearl's bot
/// when the pearl names one.
pub open spec fn return_waypoint(
    config: BotConfig,
    waypoints: Seq<WaypointEntry>,
    pearl: PearlEntry,
    r: Option<WaypointEntry>,
) -> bool {
    if !config.auto_walk_home_after_pearl {
        r is None
    } else {
        match config.auto_walk_home_waypoint_id {
            None => r is None,
            Some(id) => match first_with_id(waypoints, id, 0) {
                None => r is None,
                Some(i) => r matches Some(w) && w.id == waypoints[i].id && w.label == waypoints[i].label
                    && w.category == waypoints[i].category && w.x == waypoints[i].x && w.y == waypoints[i].y
                    && w.z == waypoints[i].z && w.notes == waypoints[i].notes && w.created_at
                    == waypoints[i].created_at && w.bot_name@ == (if trim_seq(pearl.bot_name@).len() > 0 {
                    pearl.bot_name@
                } else {
                    waypoints[i].bot_name@
                }),
            },
        }
    }
}

/// The waypoint to walk back to after pulling `pearl`.
pub fn auto_return_waypoint_for_pearl(config: &BotConfig, waypoints: Vec<WaypointEntry>, pearl: &PearlEntry) -> (r:
    Option<WaypointEntry>)
    ensures
        return_waypoint(*config, waypoints@, *pearl, r),
{
    if !config.auto_walk_home_after_pearl {
        return None;
    }
    let home_id = match config.auto_walk_home_waypoint_id {
        Some(id) => id,
        None => return None,
    };
    let ghost ws = waypoints@;
    let mut home = match find_waypoint(waypoints, home_id) {
        Some(w) => w,
        None => return None,
    };
    if !trim(pearl.bot_name.as_str()).as_str().is_empty() {
        home.bot_name = pearl.bot_name.clone();
    }
    Some(home)
}


/// Why a whispered pull could not be served.
pub enum PullError {
    /// No pearl matched; the query, when one was given.
    NoMatch(Option<String>),
    /// More than one pearl matched.
    Ambiguous,
}

/// The message of a pull error.
pub open spec fn pull_error_text(e: PullError) -> Seq<char> {
    match e {
        PullError::NoMatch(None) => "no allowed stasis pearl matched"@,
        PullError::NoMatch(Some(q)) => "no allowed stasis pearl matched '"@ + q@ + "'"@,
        PullError::Ambiguous => "multiple pearls matched; whisper !pull <exact label or player>"@,
    }
}

impl PullError {
    /// The message shown to the player.
    pub fn message(&self) -> (r: String)
        ensures
            r@ == pull_error_text(*self),
    {
        match self {
            PullError::NoMatch(None) => lit("no allowed stasis pearl matched"),
            PullError::NoMatch(Some(q)) => {
                let mut s = lit("no allowed stasis pearl matched '");
                append(&mut s, q.as_str());
                append(&mut s, "'");
                s
            },
            PullError::Ambiguous => lit("multiple pearls matched; whisper !pull <exact label or player>"),
        }
    }
}

/// `sk` (a lowercased sender) may pull `p`, which matches the lowercased
/// query `qk`: a block (or both-ways) chamber of the sender, its owner or an
/// allowed user, whose label or player is the query or whose label holds it.
pub open spec fn pullable(p: PearlEntry, sk: Seq<char>, qk: Seq<char>) -> bool {
    let kind = lower_of(trim_seq(p.stasis_kind@));
    &&& (kind.len() == 0 || kind == "block"@ || kind == "both"@)
    &&& (eq_ci(p.player@, sk) || eq_ci(p.owner_user@, sk) || exists|i: int|
        0 <= i < p.allowed_users@.len() && eq_ci(#[trigger] p.allowed_users@[i]@, sk))
    &&& (qk.len() == 0 || eq_ci(p.label@, qk) || eq_ci(p.player@, qk) || contains_seq(lower_of(p.label@), qk, false))
}

/// Holds of the pearls that `sk` may pull with query `qk`.
pub open spec fn pullable_by(sk: Seq<char>, qk: Seq<char>) -> spec_fn(PearlEntry) -> bool {
    |p: PearlEntry| pullable(p, sk, qk)
}

/// The lowercased, trimmed query (empty when none is given).
pub open spec fn query_key(query: Option<Seq<char>>) -> Seq<char> {
    match query {
        Some(q) => lower_of(trim_seq(q)),
        None => lower_of(trim_seq(Seq::<char>::empty())),
    }
}

fn is_pullable(p: &PearlEntry, sk: &str, qk: &str) -> (r: bool)
    ensures
        r == pullable(*p, sk@, qk@),
{
    let kind = to_lower(trim(p.stasis_kind.as_str()).as_str());
    let ks = kind.as_str();
    if !(ks.is_empty() || str_eq(ks, "block") || str_eq(ks, "both")) {
        return false;
    }
    let mut allowed = eq_ignore_case(p.player.as_str(), sk) || eq_ignore_case(p.owner_user.as_str(), sk);
    let mut i: usize = 0;
    while i < p.allowed_users.len() && !allowed
        invariant
            i <= p.allowed_users.len(),
            allowed ==> (eq_ci(p.player@, sk@) || eq_ci(p.owner_user@, sk@) || exists|j: int|
                0 <= j < p.allowed_users@.len() && eq_ci(#[trigger] p.allowed_users@[j]@, sk@)),
            !allowed ==> !(eq_ci(p.player@, sk@) || eq_ci(p.owner_user@, sk@)) && forall|j: int|
                0 <= j < i ==> !eq_ci(#[trigger] p.allowed_users@[j]@, sk@),
        decreases p.allowed_users.len() - i,
    {
        if eq_ignore_case(p.allowed_users[i].as_str(), sk) {
            allowed = true;
        }
        i += 1;
    }
    if !allowed {
        return false;
    }
    qk.is_empty() || eq_ignore_case(p.label.as_str(), qk) || eq_ignore_case(p.player.as_str(), qk) || contains_str(
        &chars_of(to_lower(p.label.as_str()).as_str()),
        qk,
        false,
    )
}

/// The answer to a whispered pull: the one pearl that matches, or why
/// there is none.
pub open spec fn pull_choice(
    pearls: Seq<PearlEntry>,
    sender: Seq<char>,
    query: Option<Seq<char>>,
    r: Result<PearlEntry, PullError>,
) -> bool {
    let m = pearls.filter(pullable_by(lower_of(trim_seq(sender)), query_key(query)));
    if m.len() == 0 {
        r matches Err(PullError::NoMatch(q)) && match query {
            Some(t) => if trim_seq(t).len() > 0 {
                q matches Some(qs) && qs@ == t
            } else {
                q is None
            },
            None => q is None,
        }
    } else if m.len() == 1 {
        r matches Ok(p) && p == m[0]
    } else {
        r matches Err(PullError::Ambiguous)
    }
}

/// The pearl that `sender` asks to pull with a whisper, by its optional
/// query.
pub fn pearl_for_whisper_pull(pearls: Vec<PearlEntry>, sender: &str, query: Option<&str>) -> (r: Result<
    PearlEntry,
    PullError,
>)
    ensures
        pull_choice(
            pearls@,
            sender@,
            match query {
                Some(q) => Some(q@),
                None => None,
            },
            r,
        ),
{
    let ghost qv = match query {
        Some(q) => Some(q@),
        None => None::<Seq<char>>,
    };
    let sk = to_lower(trim(sender).as_str());
    let qraw = match query {
        Some(q) => q,
        None => "",
    };
    proof {
        reveal_strlit("");
    }
    let qk = to_lower(trim(qraw).as_str());
    assert(qk@ == query_key(qv));
    let ghost pred = pullable_by(sk@, qk@);
    let ghost orig = pearls@;
    let n = pearls.len();
    let mut rest = pearls;
    let mut kept: Vec<PearlEntry> = Vec::new();
    let mut i: usize = 0;
    assert(orig.skip(0) == orig);
    while i < n
        invariant
            i <= n,
            n == orig.len(),
            rest@ == orig.skip(i as int),
            pred == pullable_by(sk@, qk@),
            kept@ == orig.take(i as int).filter(pred),
        decreases n - i,
    {
        proof {
            assert(orig.take(i + 1) == orig.take(i as int).push(orig[i as int]));
            orig.take(i as int).lemma_filter_push(orig[i as int], pred);
        }
        let p = rest.remove(0);
        assert(rest@ =~= orig.skip(i + 1));
        if is_pullable(&p, sk.as_str(), qk.as_str()) {
            kept.push(p);
        }
        i += 1;
    }
    assert(orig.take(n as int) == orig);
    if kept.len() == 0 {
        let q = match query {
            Some(t) => if trim(t).as_str().is_empty() {
                None
            } else {
                Some(t.to_owned())
            },
            None => None,
        };
        Err(PullError::NoMatch(q))
    } else if kept.len() == 1 {
        let ghost k = kept@;
        let p = kept.remove(0);
        assert(p == k[0]);
        Ok(p)
    } else {
        Err(PullError::Ambiguous)
    }
}

// ---------------------------------------------------------------------------
// Credits books
// ---------------------------------------------------------------------------
/// `s` cut at each '\n' (one more piece than there are line feeds).
pub open spec fn split_newlines(s: Seq<char>) -> Seq<Seq<char>>
    decreases s.len(),
{
    if s.len() == 0 {
        seq![Seq::<char>::empty()]
    } else if s.last() == '\n' {
        split_newlines(s.drop_last()).push(Seq::<char>::empty())
    } else {
        let p = split_newlines(s.drop_last());
        p.update(p.len() - 1, p.last().push(s.last()))
    }
}

pub proof fn lemma_split_newlines_len(s: Seq<char>)
    ensures
        split_newlines(s).len() >= 1,
    decreases s.len(),
{
    if s.len() > 0 {
        lemma_split_newlines_len(s.drop_last());
    }
}

/// A line that ended with a line feed, without a carriage return before it.
pub open spec fn strip_cr(l: Seq<char>) -> Seq<char> {
    if l.len() > 0 && l.last() == '\r' {
        l.drop_last()
    } else {
        l
    }
}

/// The lines of `s` (`str::lines`): cut at line feeds, a carriage return
/// before a line feed dropped, and no empty last line after a final line
/// feed.
pub open spec fn lines_of(s: Seq<char>) -> Seq<Seq<char>> {
    let p = split_newlines(s);
    let full = p.take(p.len() - 1).map_values(|l: Seq<char>| strip_cr(l));
    if p.last().len() == 0 {
        full
    } else {
        full.push(p.last())
    }
}

fn strip_cr_exec(v: Vec<char>) -> (r: Vec<char>)
    ensures
        r@ == strip_cr(v@),
{
    let mut v = v;
    if v.len() > 0 && v[v.len() - 1] == '\r' {
        v.pop();
    }
    v
}

/// `str::lines`, each line as characters.
pub fn split_lines(v: &Vec<char>) -> (r: Vec<Vec<char>>)
    ensures
        r.deep_view() == lines_of(v@),
{
    let mut done: Vec<Vec<char>> = Vec::new();
    let mut cur: Vec<char> = Vec::new();
    let mut i: usize = 0;
    while i < v.len()
        invariant
            i <= v.len(),
            done.deep_view().push(cur@) == split_newlines(v@.take(i as int)),
        decreases v.len() - i,
    {
        proof {
            assert(v@.take(i + 1).drop_last() == v@.take(i as int));
            assert(v@.take(i + 1).last() == v@[i as int]);
        }
        if v[i] == '\n' {
            let ghost before = done;
            let c = cur;
            done.push(c);
            cur = Vec::new();
            proof {
                crate::text::lemma_deep_view_push(before, done, c);
            }
            assert(done.deep_view().push(cur@) =~= split_newlines(v@.take(i + 1)));
        } else {
            cur.push(v[i]);
            assert(done.deep_view().push(cur@) =~= split_newlines(v@.take(i + 1)));
        }
        i += 1;
    }
    assert(v@.take(v@.len() as int) == v@);
    let ghost p = split_newlines(v@);
    let ghost f = |l: Seq<char>| strip_cr(l);
    let ghost dv = done.deep_view();
    assert(p.take(p.len() - 1) == dv);
    let mut out: Vec<Vec<char>> = Vec::new();
    let m = done.len();
    let mut k: usize = 0;
    while k < m
        invariant
            k <= m,
            m == done@.len(),
            dv == done.deep_view(),
            out.deep_view() == dv.take(k as int).map_values(f),
            f == (|l: Seq<char>| strip_cr(l)),
        decreases m - k,
    {
        let ghost before = out;
        let line = slice_vec(&done[k], 0, done[k].len());
        proof {
            crate::text::lemma_chars_deep_view(done@[k as int]);
            assert(line@ =~= dv[k as int]);
        }
        let stripped = strip_cr_exec(line);
        out.push(stripped);
        proof {
            crate::text::lemma_deep_view_push(before, out, stripped);
        }
        assert(dv.take(k + 1) == dv.take(k as int).push(dv[k as int]));
        assert(out.deep_view() =~= dv.take(k + 1).map_values(f));
        k += 1;
    }
    assert(dv.take(m as int) == dv);
    if cur.len() > 0 {
        let ghost before = out;
        let c = cur;
        out.push(c);
        proof {
            crate::text::lemma_deep_view_push(before, out, c);
        }
    }
    out
}

/// A character that a recipient name is trimmed of: '-', '=' or whitespace.
pub open spec fn is_rule_char(c: char) -> bool {
    c == '-' || c == '=' || is_ws(c)
}

/// Index of the first character at or after `i` that is not a rule character.
pub open spec fn skip_rule(s: Seq<char>, i: int) -> int
    decreases s.len() - i,
{
    if i < 0 || i >= s.len() {
        if i < 0 { 0 } else { s.len() as int }
    } else if !is_rule_char(s[i]) {
        i
    } else {
        skip_rule(s, i + 1)
    }
}

/// End of `s[..j]` once trailing rule characters are dropped, not before `a`.
pub open spec fn rule_end(s: Seq<char>, a: int, j: int) -> int
    decreases j - a,
{
    if j <= a {
        a
    } else if !is_rule_char(s[j - 1]) {
        j
    } else {
        rule_end(s, a, j - 1)
    }
}

/// `s` trimmed of rule characters at both ends (`trim_matches`).
pub open spec fn trim_rule(s: Seq<char>) -> Seq<char> {
    let a = skip_rule(s, 0);
    s.subrange(a, rule_end(s, a, s.len() as int))
}

pub proof fn lemma_skip_rule(s: Seq<char>, i: int)
    requires
        0 <= i <= s.len(),
    ensures
        i <= skip_rule(s, i) <= s.len(),
    decreases s.len() - i,
{
    if i < s.len() && is_rule_char(s[i]) {
        lemma_skip_rule(s, i + 1);
    }
}

pub proof fn lemma_rule_end(s: Seq<char>, a: int, j: int)
    requires
        0 <= a <= j <= s.len(),
    ensures
        a <= rule_end(s, a, j) <= j,
    decreases j - a,
{
    if j > a && is_rule_char(s[j - 1]) {
        lemma_rule_end(s, a, j - 1);
    }
}

fn trim_rule_exec(v: &Vec<char>) -> (r: Vec<char>)
    ensures
        r@ == trim_rule(v@),
{
    let mut a: usize = 0;
    while a < v.len() && (v[a] == '-' || v[a] == '=' || crate::text::char_is_whitespace(v[a]))
        invariant
            a <= v.len(),
            skip_rule(v@, 0) == skip_rule(v@, a as int),
        decreases v.len() - a,
    {
        a += 1;
    }
    let mut b: usize = v.len();
    while b > a && (v[b - 1] == '-' || v[b - 1] == '=' || crate::text::char_is_whitespace(v[b - 1]))
        invariant
            a <= b <= v.len(),
            a == skip_rule(v@, 0),
            rule_end(v@, a as int, v@.len() as int) == rule_end(v@, a as int, b as int),
        decreases b,
    {
        b -= 1;
    }
    slice_vec(v, a, b)
}

/// The non-blank lines of `s`, trimmed.
pub open spec fn trimmed_nonblank(ls: Seq<Seq<char>>) -> Seq<Seq<char>>
    decreases ls.len(),
{
    if ls.len() == 0 {
        Seq::empty()
    } else {
        let rest = trimmed_nonblank(ls.drop_last());
        if trim_seq(ls.last()).len() == 0 {
            rest
        } else {
            rest.push(trim_seq(ls.last()))
        }
    }
}

/// The recipient that a Credits book names on its second non-blank line:
/// the text after ':' if there is one, trimmed of '-', '=' and whitespace.
pub open spec fn book_recipient(text: Seq<char>) -> Option<Seq<char>> {
    let ls = trimmed_nonblank(lines_of(text));
    if ls.len() < 2 {
        None
    } else {
        let line = ls[1];
        let value = match crate::text::find_char_seq(line, ':') {
            Some(k) => trim_seq(line.skip(k + 1)),
            None => line,
        };
        let v = trim_seq(trim_rule(value));
        if v.len() == 0 {
            None
        } else {
            Some(v)
        }
    }
}

/// The recipient named in a Credits book.
pub fn parse_book_recipient(text: &str) -> (r: Option<String>)
    ensures
        r matches Some(t) ==> book_recipient(text@) == Some(t@),
        r is None ==> book_recipient(text@) is None,
{
    let lines = split_lines(&chars_of(text));
    let ghost lv = lines.deep_view();
    let mut ls: Vec<Vec<char>> = Vec::new();
    let mut i: usize = 0;
    while i < lines.len()
        invariant
            i <= lines.len(),
            lv == lines.deep_view(),
            ls.deep_view() == trimmed_nonblank(lv.take(i as int)),
        decreases lines.len() - i,
    {
        let t = crate::text::trim_chars(&lines[i]);
        proof {
            assert(lv.take(i + 1).drop_last() == lv.take(i as int));
            assert(lv.take(i + 1).last() == lines@[i as int]@);
        }
        if t.len() > 0 {
            let ghost before = ls;
            ls.push(t);
            proof {
                crate::text::lemma_deep_view_push(before, ls, t);
                crate::text::lemma_chars_deep_view(lines@[i as int]);
            }
        }
        i += 1;
    }
    assert(lv.take(lines.len() as int) == lv);
    if ls.len() < 2 {
        return None;
    }
    let line = slice_vec(&ls[1], 0, ls[1].len());
    assert(line@ =~= ls.deep_view()[1]);
    let value = match crate::text::find_char(&line, ':') {
        Some(k) => {
            let after = slice_vec(&line, k + 1, line.len());
            assert(after@ == line@.skip(k + 1));
            crate::text::trim_chars(&after)
        },
        None => line,
    };
    let v = crate::text::trim_chars(&trim_rule_exec(&value));
    if v.len() == 0 {
        None
    } else {
        Some(string_of_all(&v))
    }
}

/// One step of reading the first integer: `cur` is the run read so far.
pub open spec fn integer_scan(s: Seq<char>, i: int, cur: Seq<char>) -> Option<i64>
    decreases s.len() - i,
{
    if i < 0 || i >= s.len() {
        if cur.len() == 0 || cur == seq!['-'] {
            None
        } else {
            crate::num::parse_i64_seq(cur)
        }
    } else {
        let ch = s[i];
        if crate::num::is_digit(ch) || (ch == '-' && cur.len() == 0) {
            integer_scan(s, i + 1, cur.push(ch))
        } else if cur.len() > 0 && cur != seq!['-'] {
            crate::num::parse_i64_seq(cur)
        } else {
            integer_scan(s, i + 1, Seq::empty())
        }
    }
}

/// The first integer in `text`: the first run of digits, with a '-' right
/// before it; `None` when there is none or it does not fit in `i64`.
pub open spec fn first_integer_spec(text: Seq<char>) -> Option<i64> {
    integer_scan(text, 0, Seq::empty())
}

fn is_minus_only(cur: &Vec<char>) -> (r: bool)
    ensures
        r == (cur@ == seq!['-']),
{
    let r = cur.len() == 1 && cur[0] == '-';
    assert(r ==> cur@ =~= seq!['-']);
    r
}

fn first_integer_chars(v: &Vec<char>) -> (r: Option<i64>)
    ensures
        r == first_integer_spec(v@),
{
    let mut cur: Vec<char> = Vec::new();
    let mut i: usize = 0;
    while i < v.len()
        invariant
            i <= v.len(),
            integer_scan(v@, 0, Seq::empty()) == integer_scan(v@, i as int, cur@),
        decreases v.len() - i,
    {
        let ch = v[i];
        if ('0' <= ch && ch <= '9') || (ch == '-' && cur.len() == 0) {
            cur.push(ch);
        } else if cur.len() > 0 && !is_minus_only(&cur) {
            return crate::num::parse_i64(&cur);
        } else {
            cur = Vec::new();
        }
        i += 1;
    }
    if cur.len() == 0 || is_minus_only(&cur) {
        None
    } else {
        crate::num::parse_i64(&cur)
    }
}

/// The first integer in `text`.
pub fn first_integer(text: &str) -> (r: Option<i64>)
    ensures
        r == first_integer_spec(text@),
{
    first_integer_chars(&chars_of(text))
}

/// A line that names the amount: it mentions "credits", "amount" or
/// "value" once lowercased.
pub open spec fn names_amount(line: Seq<char>) -> bool {
    let l = lower_of(line);
    contains_seq(l, "credits"@, false) || contains_seq(l, "amount"@, false) || contains_seq(l, "value"@, false)
}

/// The amount from the first of the lines `ls[i..]` that names an amount and
/// holds an integer, else the first integer of the whole text.
pub open spec fn amount_from(ls: Seq<Seq<char>>, i: int, text: Seq<char>) -> Option<i64>
    decreases ls.len() - i,
{
    if i < 0 || i >= ls.len() {
        first_integer_spec(text)
    } else if names_amount(ls[i]) && first_integer_spec(ls[i]) is Some {
        first_integer_spec(ls[i])
    } else {
        amount_from(ls, i + 1, text)
    }
}

/// The Credits amount of a book's text.
pub open spec fn credits_amount(text: Seq<char>) -> Option<i64> {
    amount_from(lines_of(text), 0, text)
}

/// The amount from the first of the lines `ls[i..]` that names an amount and
/// holds an integer, if any.
pub open spec fn labeled_from(ls: Seq<Seq<char>>, i: int) -> Option<i64>
    decreases ls.len() - i,
{
    if i < 0 || i >= ls.len() {
        None
    } else if names_amount(ls[i]) && first_integer_spec(ls[i]) is Some {
        first_integer_spec(ls[i])
    } else {
        labeled_from(ls, i + 1)
    }
}

/// The labelled amount of a text ("Credits: 250", "Amount 250", "Value
/// 250"), if any.
pub open spec fn labeled_amount(text: Seq<char>) -> Option<i64> {
    labeled_from(lines_of(text), 0)
}

/// The Credits amount of a book: a labelled value in its pages, else one in
/// its title; only where neither has one, the first number of the pages,
/// else of the title.
pub open spec fn book_amount(pages: Seq<char>, title: Seq<char>) -> Option<i64> {
    match labeled_amount(pages) {
        Some(a) => Some(a),
        None => match labeled_amount(title) {
            Some(a) => Some(a),
            None => match first_integer_spec(pages) {
                Some(a) => Some(a),
                None => first_integer_spec(title),
            },
        },
    }
}

/// The labelled amount of a text, if any.
fn labeled_credits_amount(text: &str) -> (r: Option<i64>)
    ensures
        r == labeled_amount(text@),
{
    let v = chars_of(text);
    let lines = split_lines(&v);
    let ghost lv = lines.deep_view();
    let mut i: usize = 0;
    while i < lines.len()
        invariant
            i <= lines.len(),
            lv == lines.deep_view(),
            lv == lines_of(text@),
            labeled_from(lv, 0) == labeled_from(lv, i as int),
        decreases lines.len() - i,
    {
        assert(lv[i as int] == lines@[i as int]@);
        let lower = chars_of(to_lower(string_of_all(&lines[i]).as_str()).as_str());
        if contains_str(&lower, "credits", false) || contains_str(&lower, "amount", false) || contains_str(
            &lower,
            "value",
            false,
        ) {
            if let Some(a) = first_integer_chars(&lines[i]) {
                proof {
                    crate::text::lemma_chars_deep_view(lines@[i as int]);
                    assert(names_amount(lv[i as int]));
                }
                return Some(a);
            }
        }
        i += 1;
    }
    None
}

/// The Credits amount written in a book's text.
pub fn parse_credits_amount(text: &str) -> (r: Option<i64>)
    ensures
        r == credits_amount(text@),
{
    let v = chars_of(text);
    let lines = split_lines(&v);
    let ghost lv = lines.deep_view();
    let mut i: usize = 0;
    while i < lines.len()
        invariant
            i <= lines.len(),
            lv == lines.deep_view(),
            v@ == text@,
            lv == lines_of(text@),
            amount_from(lv, 0, text@) == amount_from(lv, i as int, text@),
        decreases lines.len() - i,
    {
        assert(lv[i as int] == lines@[i as int]@);
        let lower = chars_of(to_lower(string_of_all(&lines[i]).as_str()).as_str());
        if contains_str(&lower, "credits", false) || contains_str(&lower, "amount", false) || contains_str(
            &lower,
            "value",
            false,
        ) {
            if let Some(a) = first_integer_chars(&lines[i]) {
                proof {
                    crate::text::lemma_chars_deep_view(lines@[i as int]);
                    assert(names_amount(lv[i as int]));
                }
                return Some(a);
            }
        }
        i += 1;
    }
    first_integer_chars(&v)
}

/// What the bot finds in a chest slot.
pub enum BookStack {
    /// An empty slot.
    Empty,
    /// A written book, with its signed content if it has any.
    Written(Option<WrittenBook>),
    /// Any other item.
    Other,
}

/// The signed content of a written book.
pub struct WrittenBook {
    pub author: String,
    pub title: String,
    pub pages: Vec<String>,
}

/// A Credits book that may be paid out: its author (trimmed), the recipient
/// named on its second line (empty where there is none), title, amount and
/// text.
pub struct CreditsBook {
    pub author: String,
    pub recipient: String,
    pub title: String,
    pub amount: i64,
    pub page_text: String,
}

/// Texts joined by line feeds.
pub open spec fn join_lines(ws: Seq<Seq<char>>) -> Seq<char>
    decreases ws.len(),
{
    if ws.len() == 0 {
        Seq::empty()
    } else if ws.len() == 1 {
        ws[0]
    } else {
        join_lines(ws.drop_last()) + seq!['\n'] + ws.last()
    }
}

/// "slot n: " before each complaint about a book.
pub open spec fn slot_prefix(slot: usize) -> Seq<char> {
    "slot "@ + nat_digits(slot as nat) + ": "@
}

/// What reading the book in `slot` gives: nothing for a slot that holds no
/// written book, the book's Credits when it is acceptable, or why not.
pub open spec fn credits_book_spec(
    book: BookStack,
    slot: usize,
    allowed: Seq<Seq<char>>,
    min_credits: i64,
    max_credits: i64,
) -> Result<Option<(Seq<char>, Seq<char>, Seq<char>, i64, Seq<char>)>, Seq<char>> {
    match book {
        BookStack::Empty => Ok(None),
        BookStack::Other => Ok(None),
        BookStack::Written(None) => Err(slot_prefix(slot) + "written book had no signed-book content"@),
        BookStack::Written(Some(content)) => {
            let author = trim_seq(content.author@);
            let page_text = join_lines(content.pages.deep_view());
            if allowed.len() > 0 && !allowed.contains(lower_of(author)) {
                Err(slot_prefix(slot) + "writer/signer '"@ + author + "' is not on the allowed list"@)
            } else {
                let recipient = match book_recipient(page_text) {
                    Some(r) => r,
                    None => Seq::empty(),
                };
                match book_amount(page_text, content.title@) {
                    None => Err(slot_prefix(slot) + "no Credits amount found in book"@),
                    Some(a) => if a < min_credits || a > max_credits {
                        Err(
                            slot_prefix(slot) + "amount "@ + crate::num::int_decimal(a as int)
                                + " outside allowed range "@ + crate::num::int_decimal(min_credits as int)
                                + "-"@ + crate::num::int_decimal(max_credits as int),
                        )
                    } else {
                        Ok(Some((author, recipient, content.title@, a, page_text)))
                    },
                }
            }
        },
    }
}

fn join_page_texts(pages: &Vec<String>) -> (r: String)
    ensures
        r@ == join_lines(pages.deep_view()),
{
    let mut out = String::new();
    let mut i: usize = 0;
    while i < pages.len()
        invariant
            i <= pages.len(),
            out@ == join_lines(pages.deep_view().take(i as int)),
        decreases pages.len() - i,
    {
        let ghost before = out@;
        if i > 0 {
            append(&mut out, "\n");
        }
        append(&mut out, pages[i].as_str());
        proof {
            reveal_strlit("\n");
            let s = pages.deep_view().take(i + 1);
            assert(s.drop_last() == pages.deep_view().take(i as int));
            assert(s.last() == pages@[i as int]@);
            if i == 0 {
                assert(s.len() == 1);
                assert(out@ =~= s[0]);
            } else {
                assert(out@ =~= before + seq!['\n'] + s.last());
            }
        }
        i += 1;
    }
    assert(pages.deep_view().take(pages.len() as int) == pages.deep_view());
    out
}

fn slot_message(slot: usize, tail: &str) -> (r: String)
    ensures
        r@ == slot_prefix(slot) + tail@,
{
    let mut s = lit("slot ");
    append(&mut s, u64_text(slot as u64).as_str());
    append(&mut s, ": ");
    append(&mut s, tail);
    s
}

/// Reads the book in chest slot `slot` as a Credits book. `allowed` holds the
/// lowercased names of the accepted writers (empty: anyone).
pub fn read_credits_book(
    book: &BookStack,
    slot: usize,
    allowed: &Vec<String>,
    min_credits: i64,
    max_credits: i64,
) -> (r: Result<Option<CreditsBook>, String>)
    ensures
        match credits_book_spec(*book, slot, allowed.deep_view(), min_credits, max_credits) {
            Ok(None) => r matches Ok(None),
            Ok(Some(b)) => r matches Ok(Some(c)) && c.author@ == b.0 && c.recipient@ == b.1 && c.title@ == b.2
                && c.amount == b.3 && c.page_text@ == b.4,
            Err(m) => r matches Err(e) && e@ == m,
        },
{
    let content = match book {
        BookStack::Empty => return Ok(None),
        BookStack::Other => return Ok(None),
        BookStack::Written(None) => return Err(slot_message(slot, "written book had no signed-book content")),
        BookStack::Written(Some(c)) => c,
    };
    let author = trim(content.author.as_str());
    if allowed.len() > 0 {
        let key = to_lower(author.as_str());
        let mut found = false;
        let mut i: usize = 0;
        while i < allowed.len() && !found
            invariant
                i <= allowed.len(),
                found ==> allowed.deep_view().contains(key@),
                !found ==> forall|j: int| 0 <= j < i ==> allowed@[j]@ != key@,
            decreases allowed.len() - i,
        {
            if str_eq(allowed[i].as_str(), key.as_str()) {
                found = true;
                assert(allowed.deep_view()[i as int] == key@);
            }
            i += 1;
        }
        if !found {
            proof {
                if allowed.deep_view().contains(key@) {
                    let j = choose|j: int| 0 <= j < allowed.deep_view().len() && allowed.deep_view()[j] == key@;
                    assert(allowed@[j]@ == key@);
                }
            }
            let mut s = slot_message(slot, "writer/signer '");
            append(&mut s, author.as_str());
            append(&mut s, "' is not on the allowed list");
            return Err(s);
        }
    }
    let page_text = join_page_texts(&content.pages);
    let recipient = match parse_book_recipient(page_text.as_str()) {
        Some(r) => r,
        None => String::new(),
    };
    let found = match labeled_credits_amount(page_text.as_str()) {
        Some(a) => Some(a),
        None => match labeled_credits_amount(content.title.as_str()) {
            Some(a) => Some(a),
            None => match first_integer(page_text.as_str()) {
                Some(a) => Some(a),
                None => first_integer(content.title.as_str()),
            },
        },
    };
    let amount = match found {
        Some(a) => a,
        None => return Err(slot_message(slot, "no Credits amount found in book")),
    };
    if amount < min_credits || amount > max_credits {
        let mut s = slot_message(slot, "amount ");
        append(&mut s, crate::num::i64_text(amount).as_str());
        append(&mut s, " outside allowed range ");
        append(&mut s, crate::num::i64_text(min_credits).as_str());
        append(&mut s, "-");
        append(&mut s, crate::num::i64_text(max_credits).as_str());
        return Err(s);
    }
    Ok(Some(CreditsBook { author, recipient, title: content.title.clone(), amount, page_text }))
}

} // verus!
