//! Who may use which page of the command center, and the answers that
//! start the bot's background work.
use vstd::prelude::*;
use crate::chests::{ButlerChestEntry, ButlerWaypointEntry, LedgerChestEntry};
use crate::config::{BotAccountConfig, ButlerTransferResponse, ChestLedgerResponse, WalkToWaypointResponse};
use crate::records::WaypointEntry;
use crate::text::{
    append, chars_of, eq_ci, eq_ignore_case, find_char_seq, lit, lower_of, slice_vec, starts_with, starts_with_seq,
    string_of_all, to_lower, trim, trim_chars, trim_seq,
};
use crate::users::{AppUser, UserRole};

verus! {

// ---------------------------------------------------------------------------
// Sessions and permissions
// ---------------------------------------------------------------------------
/// The pieces of a cookie header between ';' separators.
pub open spec fn cookie_parts(s: Seq<char>) -> Seq<Seq<char>>
    decreases s.len(),
{
    if s.len() == 0 {
        seq![Seq::<char>::empty()]
    } else if s.last() == ';' {
        cookie_parts(s.drop_last()).push(Seq::<char>::empty())
    } else {
        let p = cookie_parts(s.drop_last());
        p.update(p.len() - 1, p.last().push(s.last()))
    }
}

pub proof fn lemma_cookie_parts_len(s: Seq<char>)
    ensures
        cookie_parts(s).len() >= 1,
    decreases s.len(),
{
    if s.len() > 0 {
        lemma_cookie_parts_len(s.drop_last());
    }
}

/// The session token of the first piece (trimmed) that starts with
/// "ps_session=", from piece `i` on.
pub open spec fn token_from(parts: Seq<Seq<char>>, i: int) -> Option<Seq<char>>
    decreases parts.len() - i,
{
    if i < 0 || i >= parts.len() {
        None
    } else if starts_with_seq(trim_seq(parts[i]), "ps_session="@, false) {
        Some(trim_seq(parts[i]).skip(11))
    } else {
        token_from(parts, i + 1)
    }
}

/// The session token in a cookie header, if any.
pub open spec fn session_token(cookie: Seq<char>) -> Option<Seq<char>> {
    token_from(cookie_parts(cookie), 0)
}

/// The session token in the value of a `cookie` header.
pub fn cookie_token(cookie: &str) -> (r: Option<String>)
    ensures
        r matches Some(t) ==> session_token(cookie@) == Some(t@),
        r is None ==> session_token(cookie@) is None,
{
    let v = chars_of(cookie);
    let mut parts: Vec<Vec<char>> = Vec::new();
    let mut cur: Vec<char> = Vec::new();
    let mut i: usize = 0;
    while i < v.len()
        invariant
            i <= v.len(),
            parts.deep_view().push(cur@) == cookie_parts(v@.take(i as int)),
        decreases v.len() - i,
    {
        proof {
            assert(v@.take(i + 1).drop_last() == v@.take(i as int));
            assert(v@.take(i + 1).last() == v@[i as int]);
        }
        if v[i] == ';' {
            let ghost before = parts;
            let c = cur;
            parts.push(c);
            cur = Vec::new();
            proof {
                crate::text::lemma_deep_view_push(before, parts, c);
            }
            assert(parts.deep_view().push(cur@) =~= cookie_parts(v@.take(i + 1)));
        } else {
            cur.push(v[i]);
            assert(parts.deep_view().push(cur@) =~= cookie_parts(v@.take(i + 1)));
        }
        i += 1;
    }
    assert(v@.take(v@.len() as int) == v@);
    let ghost before = parts;
    let c = cur;
    parts.push(c);
    proof {
        crate::text::lemma_deep_view_push(before, parts, c);
    }
    let ghost pv = parts.deep_view();
    assert(pv == cookie_parts(v@));
    let mut k: usize = 0;
    while k < parts.len()
        invariant
            k <= parts.len(),
            pv == parts.deep_view(),
            pv == cookie_parts(cookie@),
            token_from(pv, 0) == token_from(pv, k as int),
        decreases parts.len() - k,
    {
        proof {
            crate::text::lemma_chars_deep_view(parts@[k as int]);
            assert(pv[k as int] == parts@[k as int]@);
        }
        let t = trim_chars(&parts[k]);
        if starts_with(&t, "ps_session=", false) {
            proof {
                reveal_strlit("ps_session=");
            }
            let tok = slice_vec(&t, 11, t.len());
            assert(tok@ == t@.skip(11));
            return Some(string_of_all(&tok));
        }
        k += 1;
    }
    None
}

/// Why a page was refused.
pub enum AccessError {
    LoginRequired,
    LoginExpired,
    OwnerRequired,
    /// The named permission is missing.
    PermissionRequired(String),
    PagePermissionMissing,
}

/// The message of an access error.
pub open spec fn access_error_text(e: AccessError) -> Seq<char> {
    match e {
        AccessError::LoginRequired => "login required"@,
        AccessError::LoginExpired => "login expired"@,
        AccessError::OwnerRequired => "owner login required"@,
        AccessError::PermissionRequired(p) => p@ + " permission required"@,
        AccessError::PagePermissionMissing => "required page permission missing"@,
    }
}

impl AccessError {
    /// The message shown for this error.
    pub fn message(&self) -> (r: String)
        ensures
            r@ == access_error_text(*self),
    {
        match self {
            AccessError::LoginRequired => lit("login required"),
            AccessError::LoginExpired => lit("login expired"),
            AccessError::OwnerRequired => lit("owner login required"),
            AccessError::PermissionRequired(p) => {
                let mut s = lit(p.as_str());
                append(&mut s, " permission required");
                s
            },
            AccessError::PagePermissionMissing => lit("required page permission missing"),
        }
    }
}

/// Owner pages are for owners.
pub fn owner_check(user: &AppUser) -> (r: Result<(), AccessError>)
    ensures
        user.role == UserRole::Owner ==> r is Ok,
        user.role != UserRole::Owner ==> r matches Err(AccessError::OwnerRequired),
{
    if user.role == UserRole::Owner {
        Ok(())
    } else {
        Err(AccessError::OwnerRequired)
    }
}

/// The user holds `permission`, up to ASCII case.
pub open spec fn has_permission(user: AppUser, permission: Seq<char>) -> bool {
    exists|i: int| 0 <= i < user.permissions@.len() && eq_ci(#[trigger] user.permissions@[i]@, permission)
}

/// Whether the user holds `permission`, up to ASCII case.
pub fn user_has_permission(user: &AppUser, permission: &str) -> (r: bool)
    ensures
        r == has_permission(*user, permission@),
{
    let mut i: usize = 0;
    while i < user.permissions.len()
        invariant
            i <= user.permissions.len(),
            forall|j: int| 0 <= j < i ==> !eq_ci(#[trigger] user.permissions@[j]@, permission@),
        decreases user.permissions.len() - i,
    {
        if eq_ignore_case(user.permissions[i].as_str(), permission) {
            return true;
        }
        i += 1;
    }
    false
}

/// A feature page is for owners and for users with its permission.
pub fn feature_check(user: &AppUser, permission: &str) -> (r: Result<(), AccessError>)
    ensures
        (user.role == UserRole::Owner || has_permission(*user, permission@)) ==> r is Ok,
        !(user.role == UserRole::Owner || has_permission(*user, permission@)) ==> (r matches Err(
            AccessError::PermissionRequired(p),
        ) && p@ == permission@),
{
    if user.role == UserRole::Owner || user_has_permission(user, permission) {
        Ok(())
    } else {
        Err(AccessError::PermissionRequired(permission.to_owned()))
    }
}

/// A page shared by features is for owners and for users with any of their
/// permissions.
pub fn feature_any_check(user: &AppUser, permissions: &Vec<&str>) -> (r: Result<(), AccessError>)
    ensures
        (user.role == UserRole::Owner || exists|i: int|
            0 <= i < permissions@.len() && has_permission(*user, #[trigger] permissions@[i]@)) ==> r is Ok,
        !(user.role == UserRole::Owner || exists|i: int|
            0 <= i < permissions@.len() && has_permission(*user, #[trigger] permissions@[i]@)) ==> r matches Err(
            AccessError::PagePermissionMissing,
        ),
{
    if user.role == UserRole::Owner {
        return Ok(());
    }
    let mut i: usize = 0;
    while i < permissions.len()
        invariant
            i <= permissions.len(),
            user.role != UserRole::Owner,
            forall|j: int| 0 <= j < i ==> !has_permission(*user, #[trigger] permissions@[j]@),
        decreases permissions.len() - i,
    {
        if user_has_permission(user, permissions[i]) {
            return Ok(());
        }
        i += 1;
    }
    Err(AccessError::PagePermissionMissing)
}

// ---------------------------------------------------------------------------
// Bot accounts
// ---------------------------------------------------------------------------
/// Index of the first account, from `i` on, whose trimmed name is `wanted`
/// up to ASCII case.
pub open spec fn account_named(accounts: Seq<BotAccountConfig>, wanted: Seq<char>, i: int) -> Option<int>
    decreases accounts.len() - i,
{
    if i < 0 || i >= accounts.len() {
        None
    } else if eq_ci(trim_seq(accounts[i].name@), wanted) {
        Some(i)
    } else {
        account_named(accounts, wanted, i + 1)
    }
}

/// The account to connect by name (trimmed and lowercased), or the message
/// "bot account '<name>' not found".
pub fn find_bot_account(accounts: Vec<BotAccountConfig>, name: &str) -> (r: Result<BotAccountConfig, String>)
    ensures
        match account_named(accounts@, lower_of(trim_seq(name@)), 0) {
            Some(i) => r matches Ok(a) && a == accounts@[i],
            None => r matches Err(m) && m@ == "bot account '"@ + lower_of(trim_seq(name@)) + "' not found"@,
        },
{
    let wanted = to_lower(trim(name).as_str());
    let mut i: usize = 0;
    while i < accounts.len()
        invariant
            i <= accounts.len(),
            wanted@ == lower_of(trim_seq(name@)),
            account_named(accounts@, wanted@, 0) == account_named(accounts@, wanted@, i as int),
        decreases accounts.len() - i,
    {
        if eq_ignore_case(trim(accounts[i].name.as_str()).as_str(), wanted.as_str()) {
            let a = accounts[i].duplicate();
            return Ok(a);
        }
        i += 1;
    }
    let mut m = lit("bot account '");
    append(&mut m, wanted.as_str());
    append(&mut m, "' not found");
    Err(m)
}

// ---------------------------------------------------------------------------
// Background walks and jobs
// ---------------------------------------------------------------------------
/// The answer to a walk request started in the background.
pub open spec fn walk_started(
    r: WalkToWaypointResponse,
    w: WaypointEntry,
    lead: Seq<char>,
) -> bool {
    &&& r.mesadmin@ == lead + w.label@ + "' in the background. Watch bot status/log output for progress."@
    &&& r.bot_name == w.bot_name
    &&& r.label == w.label
    &&& r.x == w.x && r.y == w.y && r.z == w.z
}

fn walk_response(w: &WaypointEntry, lead: &str) -> (r: WalkToWaypointResponse)
    ensures
        walk_started(r, *w, lead@),
{
    let mut m = lit(lead);
    append(&mut m, w.label.as_str());
    append(&mut m, "' in the background. Watch bot status/log output for progress.");
    WalkToWaypointResponse {
        mesadmin: m,
        bot_name: w.bot_name.clone(),
        label: w.label.clone(),
        x: w.x,
        y: w.y,
        z: w.z,
    }
}

/// The answer to walking to a saved waypoint.
pub fn waypoint_walk_response(w: &WaypointEntry) -> (r: WalkToWaypointResponse)
    ensures
        walk_started(r, *w, "Started walking '"@),
{
    walk_response(w, "Started walking '")
}

/// The answer to walking to a chest, given the waypoint made for it.
pub fn chest_walk_response(w: &WaypointEntry) -> (r: WalkToWaypointResponse)
    ensures
        walk_started(r, *w, "Started walking to '"@),
{
    walk_response(w, "Started walking to '")
}

/// The waypoint in front of a ledger chest.
pub fn ledger_chest_waypoint(entry: LedgerChestEntry) -> (r: WaypointEntry)
    ensures
        r.id == entry.id,
        r.label@ == entry.label@ + " chest"@,
        r.category@ == "Ledger Chests"@,
        r.bot_name == entry.bot_name,
        r.x == entry.chest_x && r.y == entry.chest_y && r.z == entry.chest_z,
        r.notes@ == entry.purpose@ + " chest waypoint"@,
        r.created_at == entry.created_at,
{
    let mut label = lit(entry.label.as_str());
    append(&mut label, " chest");
    let mut notes = lit(entry.purpose.as_str());
    append(&mut notes, " chest waypoint");
    WaypointEntry {
        id: entry.id,
        label,
        category: lit("Ledger Chests"),
        bot_name: entry.bot_name,
        x: entry.chest_x,
        y: entry.chest_y,
        z: entry.chest_z,
        notes,
        created_at: entry.created_at,
    }
}

/// The waypoint in front of a butler source chest.
pub fn butler_chest_waypoint(entry: ButlerChestEntry) -> (r: WaypointEntry)
    ensures
        r.id == entry.id,
        r.label@ == entry.label@ + " source chest"@,
        r.category@ == "Bank Butler"@,
        r.bot_name == entry.bot_name,
        r.x == entry.chest_x && r.y == entry.chest_y && r.z == entry.chest_z,
        r.notes@ == "bank butler source chest waypoint"@,
        r.created_at == entry.created_at,
{
    let mut label = lit(entry.label.as_str());
    append(&mut label, " source chest");
    WaypointEntry {
        id: entry.id,
        label,
        category: lit("Bank Butler"),
        bot_name: entry.bot_name,
        x: entry.chest_x,
        y: entry.chest_y,
        z: entry.chest_z,
        notes: lit("bank butler source chest waypoint"),
        created_at: entry.created_at,
    }
}

/// The waypoint in front of a butler destination chest.
pub fn butler_destination_waypoint(entry: ButlerWaypointEntry) -> (r: WaypointEntry)
    ensures
        r.id == entry.id,
        r.label@ == entry.label@ + " destination chest"@,
        r.category@ == "Bank Butler"@,
        r.bot_name == entry.bot_name,
        r.x == entry.chest_x && r.y == entry.chest_y && r.z == entry.chest_z,
        r.notes@ == "bank butler destination chest waypoint"@,
        r.created_at == entry.created_at,
{
    let mut label = lit(entry.label.as_str());
    append(&mut label, " destination chest");
    WaypointEntry {
        id: entry.id,
        label,
        category: lit("Bank Butler"),
        bot_name: entry.bot_name,
        x: entry.chest_x,
        y: entry.chest_y,
        z: entry.chest_z,
        notes: lit("bank butler destination chest waypoint"),
        created_at: entry.created_at,
    }
}

/// A saved chest runs the bank ledger only when it is a banking chest.
pub fn ledger_purpose_check(entry: &LedgerChestEntry) -> (r: Result<(), String>)
    ensures
        eq_ci(entry.purpose@, "banking"@) ==> r is Ok,
        !eq_ci(entry.purpose@, "banking"@) ==> (r matches Err(m)
            && m@ == "this saved chest is a writer chest; choose a banking chest to run the ledger"@),
{
    if eq_ignore_case(entry.purpose.as_str(), "banking") {
        Ok(())
    } else {
        Err(lit("this saved chest is a writer chest; choose a banking chest to run the ledger"))
    }
}

/// The answer to a bank ledger run started in the background.
pub fn ledger_started_response(label: &str) -> (r: ChestLedgerResponse)
    ensures
        r.mesadmin@ == "Started bank ledger '"@ + label@
            + "' in the background. Watch bot status/log output for processed/skipped details."@,
        r.processed@.len() == 0,
        r.skipped@.len() == 0,
{
    let mut m = lit("Started bank ledger '");
    append(&mut m, label);
    append(&mut m, "' in the background. Watch bot status/log output for processed/skipped details.");
    ChestLedgerResponse { mesadmin: m, processed: Vec::new(), skipped: Vec::new() }
}

/// The answer to a butler transfer started in the background.
pub fn butler_started_response(shulker_name: &str) -> (r: ButlerTransferResponse)
    ensures
        r.mesadmin@ == "Started Bank Butler transfer for '"@ + shulker_name@
            + "' in the background. Watch bot status/log output for progress."@,
        r.bot_name@.len() == 0,
        r.shulker_name@ == shulker_name@,
        r.source_label@.len() == 0,
        r.destination_label@.len() == 0,
{
    let mut m = lit("Started Bank Butler transfer for '");
    append(&mut m, shulker_name);
    append(&mut m, "' in the background. Watch bot status/log output for progress.");
    ButlerTransferResponse {
        mesadmin: m,
        bot_name: String::new(),
        shulker_name: shulker_name.to_owned(),
        source_label: String::new(),
        destination_label: String::new(),
    }
}

} // verus!
