//! What the bot answers to a line of in-game chat: FAQ lookups and edits,
//! login greetings, whispered pearl pulls and casino commands, with the
//! per-player cooldowns of FAQ additions and greetings.
use vstd::prelude::*;
use crate::bank::Balances;
use crate::bot_rules::{
    auto_return_waypoint_for_pearl, minecraft_user_has_permission, pearl_for_whisper_pull, player_may, pull_choice,
    pull_error_text, return_waypoint,
};
use crate::casino::user_key;
use crate::casino_chat::{sender_has_headroom, sender_headroom, casino_command, casino_reply_spec, handle_casino_chat_command};
use crate::chat::{
    faq_add_command, faq_delete_command, faq_query_command, faq_set_command, joined_player, looks_whispered,
    normalize_incoming_chat_line, normalized_line, parse_faq_add_command, parse_faq_delete_command,
    parse_faq_query_command, parse_faq_set_command, parse_login_greeter_player, parse_whisper_pull_command,
    parse_whisper_sender, sender_of, whisper_pull_command,
};
use crate::config::BotConfig;
use crate::faq::{
    delete_faq_number, enabled_pred, faq_number_for_id, faq_number_spec, faq_reply, greeting_for,
    pick_login_greeter_mesadmin, set_faq_number, set_faq_outcome,
};
use crate::num::nat_digits;
use crate::public::{
    public_add, rows_view, rows_wf, text_of, touch_spec, uuid_hyphenated, value_map, value_wf, FieldView, JsonField,
    PublicRow, PublicValue,
};
use crate::records::{is_v4, utc_stamp, PearlEntry, WaypointEntry};
use crate::text::{append, eq_ci, eq_ignore_case, lit, lower_of, str_eq, to_lower};
use crate::users::AppUser;

verus! {

// ---------------------------------------------------------------------------
// Replies and cooldowns
// ---------------------------------------------------------------------------
/// The chat line that sends `msg` to `target` in output mode `mode`: said
/// in public for "chat" or "public" (any ASCII case), whispered otherwise.
pub open spec fn reply_line(mode: Seq<char>, target: Seq<char>, msg: Seq<char>) -> Seq<char> {
    if eq_ci(mode, "chat"@) || eq_ci(mode, "public"@) {
        msg
    } else {
        "/msg "@ + target + " "@ + msg
    }
}

/// The chat line for a reply in the configured output mode.
pub fn configured_reply(mode: &str, target: &str, msg: &str) -> (r: String)
    ensures
        r@ == reply_line(mode@, target@, msg@),
{
    if eq_ignore_case(mode, "chat") || eq_ignore_case(mode, "public") {
        lit(msg)
    } else {
        let mut s = lit("/msg ");
        append(&mut s, target);
        append(&mut s, " ");
        append(&mut s, msg);
        s
    }
}

/// When each player (by lowercased name) last used a cooled-down command,
/// in seconds.
pub struct Cooldowns {
    pub entries: Vec<(String, u64)>,
}

/// The time recorded for `key`, if any (the first entry for it).
pub open spec fn last_use(s: Seq<(String, u64)>, key: Seq<char>) -> Option<u64>
    decreases s.len(),
{
    if s.len() == 0 {
        None
    } else if s[0].0@ == key {
        Some(s[0].1)
    } else {
        last_use(s.drop_first(), key)
    }
}

impl Cooldowns {
    /// No player has used anything yet.
    pub fn new() -> (r: Cooldowns)
        ensures
            r.entries@.len() == 0,
    {
        Cooldowns { entries: Vec::new() }
    }

    /// The time recorded for `key`.
    pub fn get(&self, key: &str) -> (r: Option<u64>)
        ensures
            r == last_use(self.entries@, key@),
    {
        let mut i: usize = 0;
        assert(self.entries@.skip(0) == self.entries@);
        while i < self.entries.len()
            invariant
                i <= self.entries.len(),
                last_use(self.entries@, key@) == last_use(self.entries@.skip(i as int), key@),
            decreases self.entries.len() - i,
        {
            assert(self.entries@.skip(i as int).drop_first() == self.entries@.skip(i + 1));
            if str_eq(self.entries[i].0.as_str(), key) {
                return Some(self.entries[i].1);
            }
            i += 1;
        }
        None
    }

    /// Records `now` for `key`.
    pub fn set(&mut self, key: &str, now: u64)
        ensures
            last_use(final(self).entries@, key@) == Some(now),
            forall|k: Seq<char>| k != key@ ==> last_use(final(self).entries@, k) == last_use(old(self).entries@, k),
    {
        let ghost s = self.entries@;
        self.entries.insert(0, (key.to_owned(), now));
        proof {
            assert(self.entries@.drop_first() == s);
        }
    }
}

/// Seconds of cooldown left: `cd` less the time since `last`, not below
/// zero.
pub open spec fn remaining(cd: u64, now: u64, last: u64) -> int {
    let elapsed: int = if now >= last { now - last } else { 0 };
    if cd >= elapsed { cd - elapsed } else { 0 }
}

// ---------------------------------------------------------------------------
// FAQ additions
// ---------------------------------------------------------------------------
/// The row that a whispered "?faqadd" submits.
pub open spec fn submission_map(text: Seq<char>, sender: Seq<char>, cd: u64) -> Map<Seq<char>, FieldView> {
    Map::<Seq<char>, FieldView>::empty().insert("text"@, FieldView::Text(text)).insert(
        "category"@,
        FieldView::Text("Whisper Submitted"@),
    ).insert("enabled"@, FieldView::Flag(true)).insert(
        "source"@,
        FieldView::Text("Minecraft command from "@ + sender),
    ).insert("cooldown_seconds"@, cooldown_field(cd))
}

/// A number of seconds as a field: an integer when it fits in `i64`.
pub open spec fn cooldown_field(cd: u64) -> FieldView {
    if cd <= i64::MAX {
        FieldView::Int(cd as i64)
    } else {
        FieldView::Other(nat_digits(cd as nat))
    }
}

/// What answering "?faqadd text" from `sender` at time `now` leaves.
pub open spec fn faq_add_spec(
    config: BotConfig,
    users: Seq<AppUser>,
    faqs0: Seq<PublicRow>,
    faqs1: Seq<PublicRow>,
    cd0: Seq<(String, u64)>,
    cd1: Seq<(String, u64)>,
    sender: Seq<char>,
    text: Seq<char>,
    now: u64,
    msg: Seq<char>,
) -> bool {
    let cd = config.faq_whisper_cooldown_seconds;
    let key = lower_of(sender);
    if !config.faq_whisper_add_enabled {
        msg == "FAQ additions are disabled."@ && faqs1 == faqs0 && cd1 == cd0
    } else if !player_may(users, sender, "faq_whisper"@) {
        msg == "You are not allowed to edit Server FAQs."@ && faqs1 == faqs0 && cd1 == cd0
    } else if cd > 0 && last_use(cd0, key) is Some && remaining(cd, now, last_use(cd0, key)->Some_0) > 0 {
        &&& msg == "FAQ add cooldown: "@ + nat_digits(remaining(cd, now, last_use(cd0, key)->Some_0) as nat)
            + "s remaining."@
        &&& faqs1 == faqs0
        &&& cd1 == cd0
    } else {
        &&& last_use(cd1, key) == Some(now)
        &&& forall|k: Seq<char>| k != key ==> last_use(cd1, k) == last_use(cd0, k)
        &&& faq_added(faqs0, faqs1, text, sender, cd, msg)
    }
}

/// The submission was added as a stamped new row, and `msg` names its
/// number among the enabled FAQs.
pub open spec fn faq_added(
    faqs0: Seq<PublicRow>,
    faqs1: Seq<PublicRow>,
    text: Seq<char>,
    sender: Seq<char>,
    cd: u64,
    msg: Seq<char>,
) -> bool {
    exists|row: Map<Seq<char>, FieldView>, rid: u128, ts: Seq<char>|
        #[trigger] added_row(faqs0, faqs1, row, rid, ts, text, sender, cd, msg)
}

/// One witness of `faq_added`.
pub open spec fn added_row(
    faqs0: Seq<PublicRow>,
    faqs1: Seq<PublicRow>,
    row: Map<Seq<char>, FieldView>,
    rid: u128,
    ts: Seq<char>,
    text: Seq<char>,
    sender: Seq<char>,
    cd: u64,
    msg: Seq<char>,
) -> bool {
    let id = match text_of(row, "id"@) {
        Some(t) => t,
        None => Seq::empty(),
    };
    &&& is_v4(rid) && utc_stamp(ts)
    &&& row == touch_spec(submission_map(text, sender, cd), sender, true, uuid_hyphenated(rid), ts)
    &&& rows_view(faqs1) == rows_view(faqs0).push(row)
    &&& msg == match faq_number_spec(rows_view(faqs1).filter(enabled_pred()), id) {
        Some(n) => "Server FAQ #"@ + nat_digits(n) + " added."@,
        None => "Server FAQ added."@,
    }
}

fn submission(text: &str, sender: &str, cd: u64) -> (r: PublicValue)
    ensures
        value_wf(r),
        value_map(r) == submission_map(text@, sender@, cd),
{
    let mut row = PublicRow::new();
    row.set("text", JsonField::Text(text.to_owned()));
    row.set("category", JsonField::Text(lit("Whisper Submitted")));
    row.set("enabled", JsonField::Flag(true));
    let mut source = lit("Minecraft command from ");
    append(&mut source, sender);
    row.set("source", JsonField::Text(source));
    let field = if cd <= i64::MAX as u64 {
        JsonField::Int(cd as i64)
    } else {
        JsonField::Other(crate::num::u64_text(cd))
    };
    row.set("cooldown_seconds", field);
    PublicValue::Object(row)
}

fn seconds_left(cd: u64, now: u64, last: u64) -> (r: u64)
    ensures
        r == remaining(cd, now, last),
{
    let elapsed: u64 = if now >= last { now - last } else { 0 };
    if cd >= elapsed { cd - elapsed } else { 0 }
}

/// Answers "?faqadd text" from `sender` at time `now` (seconds): checks that
/// additions are on, that the sender may edit FAQs and is not cooling down,
/// then adds the FAQ.
pub fn faq_add_step(
    config: &BotConfig,
    users: &Vec<AppUser>,
    faqs: &mut Vec<PublicRow>,
    cooldowns: &mut Cooldowns,
    sender: &str,
    text: &str,
    now: u64,
) -> (r: String)
    requires
        rows_wf(old(faqs)@),
    ensures
        rows_wf(final(faqs)@),
        faq_add_spec(
            *config,
            users@,
            old(faqs)@,
            final(faqs)@,
            old(cooldowns).entries@,
            final(cooldowns).entries@,
            sender@,
            text@,
            now,
            r@,
        ),
{
    if !config.faq_whisper_add_enabled {
        return lit("FAQ additions are disabled.");
    }
    if !minecraft_user_has_permission(users, sender, "faq_whisper") {
        return lit("You are not allowed to edit Server FAQs.");
    }
    let cd = config.faq_whisper_cooldown_seconds;
    let key = to_lower(sender);
    if cd > 0 {
        if let Some(last) = cooldowns.get(key.as_str()) {
            let left = seconds_left(cd, now, last);
            if left > 0 {
                let mut m = lit("FAQ add cooldown: ");
                append(&mut m, crate::num::u64_text(left).as_str());
                append(&mut m, "s remaining.");
                return m;
            }
        }
    }
    cooldowns.set(key.as_str(), now);
    let v = submission(text, sender, cd);
    let ghost before = faqs@;
    let row = public_add(faqs, v, sender);
    let id = match row.text("id") {
        Some(t) => t,
        None => String::new(),
    };
    let msg = match faq_number_for_id(faqs, id.as_str()) {
        Some(n) => {
            let mut m = lit("Server FAQ #");
            append(&mut m, crate::num::u64_text(n as u64).as_str());
            append(&mut m, " added.");
            m
        },
        None => lit("Server FAQ added."),
    };
    proof {
        let (rid, ts) = choose|rid: u128, ts: Seq<char>|
            is_v4(rid) && utc_stamp(ts) && row@ == touch_spec(submission_map(text@, sender@, cd), sender@, true, uuid_hyphenated(rid), ts);
        assert(added_row(before, faqs@, row@, rid, ts, text@, sender@, cd, msg@));
    }
    msg
}

// ---------------------------------------------------------------------------
// Greetings and pulls
// ---------------------------------------------------------------------------
/// What greeting `sender` at time `now` leaves: nothing when greetings are
/// off or the sender was greeted less than the cooldown ago; else the
/// greeting, with the time recorded.
pub open spec fn greet_spec(
    config: BotConfig,
    greeters: Seq<PublicRow>,
    cd0: Seq<(String, u64)>,
    cd1: Seq<(String, u64)>,
    sender: Seq<char>,
    now: u64,
    r: Option<Seq<char>>,
) -> bool {
    let cd = config.login_greeter_cooldown_seconds;
    let key = lower_of(sender);
    let allowed = cd == 0 || match last_use(cd0, key) {
        Some(t) => (if now >= t { now - t } else { 0 }) >= cd,
        None => true,
    };
    if !config.login_greeter_enabled || !allowed {
        r is None && cd1 == cd0
    } else {
        &&& r == Some(reply_line(config.greeter_output_mode@, sender, greeting_for(rows_view(greeters), sender)))
        &&& last_use(cd1, key) == Some(now)
        &&& forall|k: Seq<char>| k != key ==> last_use(cd1, k) == last_use(cd0, k)
    }
}

/// Greets `sender` if greetings are on and the cooldown has passed: the chat
/// line to send.
pub fn greet_step(
    config: &BotConfig,
    greeters: &Vec<PublicRow>,
    cooldowns: &mut Cooldowns,
    sender: &str,
    now: u64,
) -> (r: Option<String>)
    requires
        rows_wf(greeters@),
    ensures
        greet_spec(*config, greeters@, old(cooldowns).entries@, final(cooldowns).entries@, sender@, now, match r {
            Some(s) => Some(s@),
            None => None,
        }),
{
    if !config.login_greeter_enabled {
        return None;
    }
    let cd = config.login_greeter_cooldown_seconds;
    let key = to_lower(sender);
    let allowed = if cd == 0 {
        true
    } else {
        match cooldowns.get(key.as_str()) {
            Some(t) => (if now >= t { now - t } else { 0 }) >= cd,
            None => true,
        }
    };
    if !allowed {
        return None;
    }
    match pick_login_greeter_mesadmin(greeters, sender) {
        Some(msg) => {
            cooldowns.set(key.as_str(), now);
            Some(configured_reply(config.greeter_output_mode.as_str(), sender, msg.as_str()))
        },
        None => None,
    }
}

/// A pull that the bot queues: the pearl and where to walk after.
pub struct QueuedPull {
    pub pearl: PearlEntry,
    pub return_waypoint: Option<WaypointEntry>,
}

/// What a whispered pull request of `sender` leaves: the whispered answer,
/// and the pull queued when one pearl matched.
pub open spec fn pull_spec(
    config: BotConfig,
    pearls: Seq<PearlEntry>,
    waypoints: Seq<WaypointEntry>,
    sender: Seq<char>,
    query: Option<Seq<char>>,
    line: Seq<char>,
    queued: Option<QueuedPull>,
) -> bool {
    exists|r: Result<PearlEntry, crate::bot_rules::PullError>| #[trigger] pull_outcome(config, pearls, waypoints, sender, query, r, line, queued)
}

/// One witness of `pull_spec`.
pub open spec fn pull_outcome(
    config: BotConfig,
    pearls: Seq<PearlEntry>,
    waypoints: Seq<WaypointEntry>,
    sender: Seq<char>,
    query: Option<Seq<char>>,
    r: Result<PearlEntry, crate::bot_rules::PullError>,
    line: Seq<char>,
    queued: Option<QueuedPull>,
) -> bool {
    &&& pull_choice(pearls, sender, query, r)
    &&& match r {
        Ok(p) => {
            &&& line == "/msg "@ + sender + " Pull queued for stasis pearl '"@ + p.label@ + "'."@
            &&& queued matches Some(q) && q.pearl == p && return_waypoint(config, waypoints, p, q.return_waypoint)
        },
        Err(e) => line == "/msg "@ + sender + " Pull denied: "@ + pull_error_text(e) && queued is None,
    }
}

/// Answers a whispered pull request: the whispered answer and the pull to
/// queue.
pub fn pull_step(
    config: &BotConfig,
    pearls: Vec<PearlEntry>,
    waypoints: Vec<WaypointEntry>,
    sender: &str,
    query: Option<&str>,
) -> (r: (String, Option<QueuedPull>))
    ensures
        pull_spec(*config, pearls@, waypoints@, sender@, match query {
            Some(q) => Some(q@),
            None => None,
        }, r.0@, r.1),
{
    let ghost ps = pearls@;
    let ghost qv = match query {
        Some(q) => Some(q@),
        None => None::<Seq<char>>,
    };
    let ghost ws = waypoints@;
    let res = pearl_for_whisper_pull(pearls, sender, query);
    let ghost gres = res;
    match res {
        Ok(p) => {
            let mut line = lit("/msg ");
            append(&mut line, sender);
            append(&mut line, " Pull queued for stasis pearl '");
            append(&mut line, p.label.as_str());
            append(&mut line, "'.");
            let back = auto_return_waypoint_for_pearl(config, waypoints, &p);
            let q = QueuedPull { pearl: p, return_waypoint: back };
            assert(pull_outcome(*config, ps, ws, sender@, qv, gres, line@, Some(q)));
            (line, Some(q))
        },
        Err(e) => {
            let mut line = lit("/msg ");
            append(&mut line, sender);
            append(&mut line, " Pull denied: ");
            append(&mut line, e.message().as_str());
            assert(pull_outcome(*config, ps, ws, sender@, qv, gres, line@, None));
            (line, None)
        },
    }
}


// ---------------------------------------------------------------------------
// One line of chat
// ---------------------------------------------------------------------------
/// What the bot does about one line of chat: the lines it says and the pull
/// it queues.
pub struct ChatOutcome {
    pub say: Vec<String>,
    pub pull: Option<QueuedPull>,
}

/// "You are not allowed to edit Server FAQs."
pub open spec fn not_allowed() -> Seq<char> {
    "You are not allowed to edit Server FAQs."@
}

/// `line` answers "?faqadd" as `faq_add_spec` says.
pub open spec fn add_answered(
    config: BotConfig,
    users: Seq<AppUser>,
    faqs0: Seq<PublicRow>,
    faqs1: Seq<PublicRow>,
    cd0: Seq<(String, u64)>,
    cd1: Seq<(String, u64)>,
    sender: Seq<char>,
    text: Seq<char>,
    now: u64,
    line: Seq<char>,
) -> bool {
    exists|msg: Seq<char>| #[trigger] add_reply(config, users, faqs0, faqs1, cd0, cd1, sender, text, now, msg, line)
}

/// One witness of `add_answered`.
pub open spec fn add_reply(
    config: BotConfig,
    users: Seq<AppUser>,
    faqs0: Seq<PublicRow>,
    faqs1: Seq<PublicRow>,
    cd0: Seq<(String, u64)>,
    cd1: Seq<(String, u64)>,
    sender: Seq<char>,
    text: Seq<char>,
    now: u64,
    msg: Seq<char>,
    line: Seq<char>,
) -> bool {
    faq_add_spec(config, users, faqs0, faqs1, cd0, cd1, sender, text, now, msg) && line == reply_line(
        config.faq_output_mode@,
        sender,
        msg,
    )
}

/// `line` answers "?faqset" as `set_faq_outcome` says.
pub open spec fn set_answered(
    config: BotConfig,
    faqs0: Seq<PublicRow>,
    faqs1: Seq<PublicRow>,
    sender: Seq<char>,
    number: usize,
    text: Seq<char>,
    line: Seq<char>,
) -> bool {
    exists|msg: Seq<char>| #[trigger] set_reply(config, faqs0, faqs1, sender, number, text, msg, line)
}

/// One witness of `set_answered`.
pub open spec fn set_reply(
    config: BotConfig,
    faqs0: Seq<PublicRow>,
    faqs1: Seq<PublicRow>,
    sender: Seq<char>,
    number: usize,
    text: Seq<char>,
    msg: Seq<char>,
    line: Seq<char>,
) -> bool {
    set_faq_outcome(faqs0, faqs1, number as nat, text, sender, msg) && line == reply_line(
        config.faq_output_mode@,
        sender,
        msg,
    )
}

/// The lines and pull that follow a greeting check: a whispered pull
/// request is answered; else a casino command is.
pub open spec fn after_greeting(
    config: BotConfig,
    line: Seq<char>,
    pearls: Seq<PearlEntry>,
    waypoints: Seq<WaypointEntry>,
    bank0: Map<Seq<char>, i64>,
    bank1: Map<Seq<char>, i64>,
    said: Seq<Seq<char>>,
    pull: Option<QueuedPull>,
) -> bool {
    match whisper_pull_command(line) {
        Some((sender, query)) => bank1 == bank0 && said.len() == 1 && pull_spec(
            config,
            pearls,
            waypoints,
            sender,
            query,
            said[0],
            pull,
        ),
        None => pull is None && match casino_command(line) {
            None => said.len() == 0 && bank1 == bank0,
            Some((sender, cmd)) => said.len() == 1 && casino_answered(config, bank0, bank1, sender, cmd, said[0]),
        },
    }
}

/// `line` answers a casino command as `casino_reply_spec` says, in public
/// or whispered as configured.
pub open spec fn casino_answered(
    config: BotConfig,
    bank0: Map<Seq<char>, i64>,
    bank1: Map<Seq<char>, i64>,
    sender: Seq<char>,
    cmd: crate::casino_chat::CommandView,
    line: Seq<char>,
) -> bool {
    exists|reply: Seq<char>| #[trigger] casino_line(config, bank0, bank1, sender, cmd, reply, line)
}

/// One witness of `casino_answered`.
pub open spec fn casino_line(
    config: BotConfig,
    bank0: Map<Seq<char>, i64>,
    bank1: Map<Seq<char>, i64>,
    sender: Seq<char>,
    cmd: crate::casino_chat::CommandView,
    reply: Seq<char>,
    line: Seq<char>,
) -> bool {
    casino_reply_spec(bank0, bank1, sender, cmd, reply) && line == (if config.casino_public_chat {
        reply
    } else {
        "/msg "@ + sender + " "@ + reply
    })
}

/// `line` answers "?faqdel" as `delete_outcome` says.
pub open spec fn del_answered(
    config: BotConfig,
    faqs0: Seq<PublicRow>,
    faqs1: Seq<PublicRow>,
    log0: Seq<PublicRow>,
    log1: Seq<PublicRow>,
    sender: Seq<char>,
    number: usize,
    line: Seq<char>,
) -> bool {
    exists|msg: Seq<char>| #[trigger] del_reply(config, faqs0, faqs1, log0, log1, sender, number, msg, line)
}

/// One witness of `del_answered`.
pub open spec fn del_reply(
    config: BotConfig,
    faqs0: Seq<PublicRow>,
    faqs1: Seq<PublicRow>,
    log0: Seq<PublicRow>,
    log1: Seq<PublicRow>,
    sender: Seq<char>,
    number: usize,
    msg: Seq<char>,
    line: Seq<char>,
) -> bool {
    crate::faq::delete_outcome(faqs0, faqs1, log0, log1, number as nat, sender, msg) && line == reply_line(
        config.faq_output_mode@,
        sender,
        msg,
    )
}

/// The greeting check for `p`, then what follows it.
pub open spec fn greeted_then(
    config: BotConfig,
    greeters: Seq<PublicRow>,
    gcd0: Seq<(String, u64)>,
    gcd1: Seq<(String, u64)>,
    p: Seq<char>,
    now: u64,
    line: Seq<char>,
    pearls: Seq<PearlEntry>,
    waypoints: Seq<WaypointEntry>,
    bank0: Map<Seq<char>, i64>,
    bank1: Map<Seq<char>, i64>,
    said: Seq<Seq<char>>,
    pull: Option<QueuedPull>,
) -> bool {
    exists|g: Option<Seq<char>>|
        #[trigger] greeting_round(config, greeters, gcd0, gcd1, p, now, g, line, pearls, waypoints, bank0, bank1, said, pull)
}

/// One witness of `greeted_then`: the greeting line `g`, if any, comes first.
pub open spec fn greeting_round(
    config: BotConfig,
    greeters: Seq<PublicRow>,
    gcd0: Seq<(String, u64)>,
    gcd1: Seq<(String, u64)>,
    p: Seq<char>,
    now: u64,
    g: Option<Seq<char>>,
    line: Seq<char>,
    pearls: Seq<PearlEntry>,
    waypoints: Seq<WaypointEntry>,
    bank0: Map<Seq<char>, i64>,
    bank1: Map<Seq<char>, i64>,
    said: Seq<Seq<char>>,
    pull: Option<QueuedPull>,
) -> bool {
    &&& greet_spec(config, greeters, gcd0, gcd1, p, now, g)
    &&& match g {
        None => after_greeting(config, line, pearls, waypoints, bank0, bank1, said, pull),
        Some(gl) => said.len() >= 1 && said[0] == gl && after_greeting(
            config,
            line,
            pearls,
            waypoints,
            bank0,
            bank1,
            said.drop_first(),
            pull,
        ),
    }
}

/// Who a line greets: a joining player, or else whoever whispered it.
pub open spec fn greeted(line: Seq<char>) -> Option<Seq<char>> {
    match joined_player(line) {
        Some(p) => Some(p),
        None => if looks_whispered(line) {
            sender_of(line)
        } else {
            None
        },
    }
}

/// Everything that answering one raw chat line leaves, given the stores
/// before (0) and after (1). `None` where the FAQ list preview would cut a
/// character in two.
pub open spec fn chat_spec(
    raw: Seq<char>,
    config: BotConfig,
    users: Seq<AppUser>,
    faqs0: Seq<PublicRow>,
    faqs1: Seq<PublicRow>,
    log0: Seq<PublicRow>,
    log1: Seq<PublicRow>,
    greeters: Seq<PublicRow>,
    pearls: Seq<PearlEntry>,
    waypoints: Seq<WaypointEntry>,
    bank0: Map<Seq<char>, i64>,
    bank1: Map<Seq<char>, i64>,
    fcd0: Seq<(String, u64)>,
    fcd1: Seq<(String, u64)>,
    gcd0: Seq<(String, u64)>,
    gcd1: Seq<(String, u64)>,
    now: u64,
    r: Option<ChatOutcome>,
) -> bool {
    let line = normalized_line(raw);
    let fm = config.faq_output_mode@;
    if faq_add_command(line) is Some {
        let (sender, text) = faq_add_command(line)->Some_0;
        &&& r matches Some(o) && o.pull is None && o.say@.len() == 1
        &&& add_answered(config, users, faqs0, faqs1, fcd0, fcd1, sender, text, now, r->Some_0.say@[0]@)
        &&& log1 == log0 && bank1 == bank0 && gcd1 == gcd0
    } else if faq_set_command(line) is Some {
        let (sender, number, text) = faq_set_command(line)->Some_0;
        &&& r matches Some(o) && o.pull is None && o.say@.len() == 1
        &&& log1 == log0 && bank1 == bank0 && gcd1 == gcd0 && fcd1 == fcd0
        &&& if !player_may(users, sender, "faq_whisper"@) {
            r->Some_0.say@[0]@ == reply_line(fm, sender, not_allowed()) && faqs1 == faqs0
        } else {
            set_answered(config, faqs0, faqs1, sender, number, text, r->Some_0.say@[0]@)
        }
    } else if faq_delete_command(line) is Some {
        let (sender, number) = faq_delete_command(line)->Some_0;
        &&& r matches Some(o) && o.pull is None && o.say@.len() == 1
        &&& bank1 == bank0 && gcd1 == gcd0 && fcd1 == fcd0
        &&& if !player_may(users, sender, "faq_whisper"@) {
            r->Some_0.say@[0]@ == reply_line(fm, sender, not_allowed()) && faqs1 == faqs0 && log1 == log0
        } else {
            del_answered(config, faqs0, faqs1, log0, log1, sender, number, r->Some_0.say@[0]@)
        }
    } else if faq_query_command(line) is Some {
        let (sender, query) = faq_query_command(line)->Some_0;
        let s = rows_view(faqs0).filter(enabled_pred());
        &&& faqs1 == faqs0 && log1 == log0 && bank1 == bank0 && gcd1 == gcd0 && fcd1 == fcd0
        &&& if s.len() > 0 && crate::faq::asks_list(crate::text::trim_seq(query)) && !crate::faq::previews_fit(s) {
            r is None
        } else {
            r matches Some(o) && o.pull is None && o.say@.len() == 1 && o.say@[0]@ == reply_line(
                fm,
                sender,
                crate::faq::faq_answer(s, query),
            )
        }
    } else {
        &&& faqs1 == faqs0 && log1 == log0 && fcd1 == fcd0
        &&& r matches Some(o)
        &&& match greeted(line) {
            None => gcd1 == gcd0 && after_greeting(config, line, pearls, waypoints, bank0, bank1, o.say.deep_view(), o.pull),
            Some(p) => greeted_then(config, greeters, gcd0, gcd1, p, now, line, pearls, waypoints, bank0, bank1, o.say.deep_view(), o.pull),
        }
    }
}


fn one_line(line: String) -> (r: Vec<String>)
    ensures
        r@.len() == 1,
        r@[0] == line,
{
    let mut v: Vec<String> = Vec::new();
    v.push(line);
    v
}

/// What follows the greeting check, said after the lines in `said`.
fn answer_rest(
    config: &BotConfig,
    line: &str,
    pearls: Vec<PearlEntry>,
    waypoints: Vec<WaypointEntry>,
    bank: &mut Balances,
) -> (r: (Vec<String>, Option<QueuedPull>))
    requires
        old(bank).wf(),
        sender_headroom(old(bank)@, line@),
    ensures
        final(bank).wf(),
        after_greeting(*config, line@, pearls@, waypoints@, old(bank)@, final(bank)@, r.0.deep_view(), r.1),
{
    match parse_whisper_pull_command(line) {
        Some((sender, query)) => {
            let q = match &query {
                Some(t) => Some(t.as_str()),
                None => None,
            };
            let (said, pull) = pull_step(config, pearls, waypoints, sender.as_str(), q);
            let v = one_line(said);
            proof {
                crate::text::lemma_chars_deep_view_string(v);
            }
            (v, pull)
        },
        None => match handle_casino_chat_command(bank, line) {
            None => (Vec::new(), None),
            Some((sender, reply)) => {
                let out = if config.casino_public_chat {
                    lit(reply.as_str())
                } else {
                    let mut m = lit("/msg ");
                    append(&mut m, sender.as_str());
                    append(&mut m, " ");
                    append(&mut m, reply.as_str());
                    m
                };
                let ghost o = out@;
                assert(casino_line(*config, old(bank)@, bank@, sender@, casino_command(line@)->Some_0.1, reply@, o));
                let v = one_line(out);
                proof {
                    crate::text::lemma_chars_deep_view_string(v);
                }
                (v, None)
            },
        },
    }
}

/// Answers one raw line of chat at time `now` (seconds): the lines to say
/// and the pull to queue, with the stores and cooldowns updated. `None`
/// where the FAQ list preview would cut a character in two.
pub fn handle_chat_line(
    raw: &str,
    config: &BotConfig,
    users: &Vec<AppUser>,
    faqs: &mut Vec<PublicRow>,
    log: &mut Vec<PublicRow>,
    greeters: &Vec<PublicRow>,
    pearls: Vec<PearlEntry>,
    waypoints: Vec<WaypointEntry>,
    bank: &mut Balances,
    faq_cooldowns: &mut Cooldowns,
    greet_cooldowns: &mut Cooldowns,
    now: u64,
) -> (r: Option<ChatOutcome>)
    requires
        rows_wf(old(faqs)@),
        rows_wf(old(log)@),
        rows_wf(greeters@),
        old(bank).wf(),
        sender_headroom(old(bank)@, normalized_line(raw@)),
    ensures
        rows_wf(final(faqs)@),
        rows_wf(final(log)@),
        final(bank).wf(),
        chat_spec(
            raw@,
            *config,
            users@,
            old(faqs)@,
            final(faqs)@,
            old(log)@,
            final(log)@,
            greeters@,
            pearls@,
            waypoints@,
            old(bank)@,
            final(bank)@,
            old(faq_cooldowns).entries@,
            final(faq_cooldowns).entries@,
            old(greet_cooldowns).entries@,
            final(greet_cooldowns).entries@,
            now,
            r,
        ),
{
    let line = normalize_incoming_chat_line(raw);
    let fm = config.faq_output_mode.as_str();
    if let Some((sender, text)) = parse_faq_add_command(line.as_str()) {
        let ghost f0 = faqs@;
        let ghost c0 = faq_cooldowns.entries@;
        let msg = faq_add_step(config, users, faqs, faq_cooldowns, sender.as_str(), text.as_str(), now);
        let out = configured_reply(fm, sender.as_str(), msg.as_str());
        assert(add_reply(*config, users@, f0, faqs@, c0, faq_cooldowns.entries@, sender@, text@, now, msg@, out@));
        return Some(ChatOutcome { say: one_line(out), pull: None });
    }
    if let Some((sender, number, text)) = parse_faq_set_command(line.as_str()) {
        if !minecraft_user_has_permission(users, sender.as_str(), "faq_whisper") {
            let out = configured_reply(fm, sender.as_str(), "You are not allowed to edit Server FAQs.");
            return Some(ChatOutcome { say: one_line(out), pull: None });
        }
        let ghost f0 = faqs@;
        let msg = set_faq_number(faqs, number, text.as_str(), sender.as_str());
        let out = configured_reply(fm, sender.as_str(), msg.as_str());
        assert(set_reply(*config, f0, faqs@, sender@, number, text@, msg@, out@));
        return Some(ChatOutcome { say: one_line(out), pull: None });
    }
    if let Some((sender, number)) = parse_faq_delete_command(line.as_str()) {
        if !minecraft_user_has_permission(users, sender.as_str(), "faq_whisper") {
            let out = configured_reply(fm, sender.as_str(), "You are not allowed to edit Server FAQs.");
            return Some(ChatOutcome { say: one_line(out), pull: None });
        }
        let ghost f0 = faqs@;
        let ghost l0 = log@;
        let msg = delete_faq_number(faqs, log, number, sender.as_str());
        let out = configured_reply(fm, sender.as_str(), msg.as_str());
        assert(del_reply(*config, f0, faqs@, l0, log@, sender@, number, msg@, out@));
        return Some(ChatOutcome { say: one_line(out), pull: None });
    }
    if let Some((sender, query)) = parse_faq_query_command(line.as_str()) {
        return match faq_reply(faqs, query.as_str()) {
            None => None,
            Some(reply) => {
                let out = configured_reply(fm, sender.as_str(), reply.as_str());
                Some(ChatOutcome { say: one_line(out), pull: None })
            },
        };
    }
    let greeted_name = match parse_login_greeter_player(line.as_str()) {
        Some(p) => Some(p),
        None => parse_whisper_sender(line.as_str()),
    };
    match greeted_name {
        None => {
            let (said, pull) = answer_rest(config, line.as_str(), pearls, waypoints, bank);
            Some(ChatOutcome { say: said, pull })
        },
        Some(p) => {
            let ghost g0 = greet_cooldowns.entries@;
            let ghost b0 = bank@;
            let ghost ps = pearls@;
            let ghost ws = waypoints@;
            let g = greet_step(config, greeters, greet_cooldowns, p.as_str(), now);
            let ghost gv = match &g {
                Some(s) => Some(s@),
                None => None::<Seq<char>>,
            };
            let (rest, pull) = answer_rest(config, line.as_str(), pearls, waypoints, bank);
            let ghost rv = rest.deep_view();
            let said = match g {
                None => rest,
                Some(first) => {
                    let mut v: Vec<String> = Vec::new();
                    v.push(first);
                    let mut rest = rest;
                    v.append(&mut rest);
                    v
                },
            };
            proof {
                if gv is Some {
                    assert(said.deep_view().drop_first() =~= rv);
                } else {
                    assert(said.deep_view() == rv);
                }
                assert(greeting_round(*config, greeters@, g0, greet_cooldowns.entries@, p@, now, gv, line@, ps, ws, b0, bank@, said.deep_view(), pull));
            }
            Some(ChatOutcome { say: said, pull })
        },
    }
}

/// Answers one raw line of chat as `handle_chat_line` does, once it has
/// tested that a casino game in the line can pay its sender out: `None`,
/// with every store and cooldown unchanged, when it could not.
pub fn handle_chat_line_checked(
    raw: &str,
    config: &BotConfig,
    users: &Vec<AppUser>,
    faqs: &mut Vec<PublicRow>,
    log: &mut Vec<PublicRow>,
    greeters: &Vec<PublicRow>,
    pearls: Vec<PearlEntry>,
    waypoints: Vec<WaypointEntry>,
    bank: &mut Balances,
    faq_cooldowns: &mut Cooldowns,
    greet_cooldowns: &mut Cooldowns,
    now: u64,
) -> (r: Option<ChatOutcome>)
    requires
        rows_wf(old(faqs)@),
        rows_wf(old(log)@),
        rows_wf(greeters@),
        old(bank).wf(),
    ensures
        rows_wf(final(faqs)@),
        rows_wf(final(log)@),
        final(bank).wf(),
        !sender_headroom(old(bank)@, normalized_line(raw@)) ==> {
            &&& r is None
            &&& final(faqs)@ == old(faqs)@
            &&& final(log)@ == old(log)@
            &&& final(bank)@ == old(bank)@
            &&& final(faq_cooldowns).entries@ == old(faq_cooldowns).entries@
            &&& final(greet_cooldowns).entries@ == old(greet_cooldowns).entries@
        },
        sender_headroom(old(bank)@, normalized_line(raw@)) ==> chat_spec(
            raw@,
            *config,
            users@,
            old(faqs)@,
            final(faqs)@,
            old(log)@,
            final(log)@,
            greeters@,
            pearls@,
            waypoints@,
            old(bank)@,
            final(bank)@,
            old(faq_cooldowns).entries@,
            final(faq_cooldowns).entries@,
            old(greet_cooldowns).entries@,
            final(greet_cooldowns).entries@,
            now,
            r,
        ),
{
    let line = normalize_incoming_chat_line(raw);
    if !sender_has_headroom(bank, line.as_str()) {
        return None;
    }
    handle_chat_line(
        raw,
        config,
        users,
        faqs,
        log,
        greeters,
        pearls,
        waypoints,
        bank,
        faq_cooldowns,
        greet_cooldowns,
        now,
    )
}

} // verus!
