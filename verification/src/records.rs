//! Saved records: pearls, waypoints, ledger and butler chests, shop items and
//! bounties. Each kind is a list that a JSON file holds; the functions here take
//! the list as it was read and leave it as it is to be written.
use vstd::prelude::*;
use crate::casino::user_key;
use crate::text::{
    blank_out, blank_out_chars, chars_of, clean_name_list, clean_names, eq_ci, eq_ignore_case, lit, lower_of, str_eq,
    string_of_all, to_lower, trim, trim_seq,
};
use crate::users::UserRole;

verus! {

// ---------------------------------------------------------------------------
// Identifiers and times
// ---------------------------------------------------------------------------
/// The version and variant bits of a random (version 4) UUID: the version
/// nibble is 4 and the two variant bits are `10`.
pub open spec fn is_v4(id: u128) -> bool {
    (id >> 76u128) & 0xf == 4 && (id >> 62u128) & 0x3 == 2
}

/// A time stamp as `to_rfc3339` writes one in UTC: at least a four-digit
/// year, the date, 'T', the time, and the offset "+00:00" at the end.
pub open spec fn utc_stamp(t: Seq<char>) -> bool {
    t.len() >= 25 && t.skip(t.len() - 6) == "+00:00"@
}

/// A fresh random record id: `uuid::Uuid::new_v4`, as its 128-bit value.
/// `new_v4` masks random bits and sets the version nibble to 4 and the
/// variant bits to `10`; that is all the contract states of the value.
#[verifier::external_body]
pub(crate) fn new_record_id() -> (r: u128)
    ensures
        is_v4(r),
{
    uuid::Uuid::new_v4().as_u128()
}

/// The current time in RFC 3339: `chrono::Utc::now().to_rfc3339()`. The
/// time itself is not stated: only that chrono writes the date and time
/// (19 characters or more) followed by the UTC offset "+00:00".
#[verifier::external_body]
pub(crate) fn now_rfc3339() -> (r: String)
    ensures
        utc_stamp(r@),
{
    chrono::Utc::now().to_rfc3339()
}

/// A record kept in a list and found by its id.
pub trait Keyed: Sized {
    /// The record's id.
    spec fn key(&self) -> u128;

    /// The record's id.
    fn record_id(&self) -> (r: u128)
        ensures
            r == self.key(),
    ;
}

/// Index of the first record at or after `i` with id `id`.
pub open spec fn first_with_id<T: Keyed>(s: Seq<T>, id: u128, i: int) -> Option<int>
    decreases s.len() - i,
{
    if i < 0 || i >= s.len() {
        None
    } else if s[i].key() == id {
        Some(i)
    } else {
        first_with_id(s, id, i + 1)
    }
}

pub proof fn lemma_first_with_id<T: Keyed>(s: Seq<T>, id: u128, i: int)
    requires
        0 <= i <= s.len(),
    ensures
        first_with_id(s, id, i) matches Some(j) ==> i <= j < s.len() && s[j].key() == id,
        first_with_id(s, id, i) is None ==> forall|k: int| i <= k < s.len() ==> (#[trigger] s[k]).key() != id,
    decreases s.len() - i,
{
    if i < s.len() && s[i].key() != id {
        lemma_first_with_id(s, id, i + 1);
    }
}

/// Index of the first record with id `id`.
pub fn index_of_id<T: Keyed>(v: &Vec<T>, id: u128) -> (r: Option<usize>)
    ensures
        r matches Some(i) ==> first_with_id(v@, id, 0) == Some(i as int) && i < v.len(),
        r is None ==> first_with_id(v@, id, 0) is None,
{
    let mut i: usize = 0;
    while i < v.len()
        invariant
            i <= v.len(),
            first_with_id(v@, id, 0) == first_with_id(v@, id, i as int),
        decreases v.len() - i,
    {
        if v[i].record_id() == id {
            return Some(i);
        }
        i += 1;
    }
    None
}

/// The records whose id is not `id`.
pub open spec fn without_id<T: Keyed>(s: Seq<T>, id: u128) -> Seq<T> {
    s.filter(other_than::<T>(id))
}

/// Holds of the records whose id is not `id`.
pub open spec fn other_than<T: Keyed>(id: u128) -> spec_fn(T) -> bool {
    |e: T| e.key() != id
}

/// Removes every record with id `id` and says whether one was removed.
pub fn remove_id<T: Keyed>(v: &mut Vec<T>, id: u128) -> (r: bool)
    ensures
        final(v)@ == without_id(old(v)@, id),
        r == (final(v)@.len() != old(v)@.len()),
{
    let ghost pred = other_than::<T>(id);
    let ghost orig = v@;
    let n = v.len();
    let mut rest: Vec<T> = Vec::new();
    std::mem::swap(&mut rest, v);
    let mut kept: Vec<T> = Vec::new();
    let mut i: usize = 0;
    assert(orig.skip(0) == orig);
    while i < n
        invariant
            i <= n,
            n == orig.len(),
            rest@ == orig.skip(i as int),
            pred == other_than::<T>(id),
            kept@ == orig.take(i as int).filter(pred),
        decreases n - i,
    {
        proof {
            assert(orig.take(i + 1) == orig.take(i as int).push(orig[i as int]));
            orig.take(i as int).lemma_filter_push(orig[i as int], pred);
        }
        let e = rest.remove(0);
        assert(rest@ =~= orig.skip(i + 1));
        if e.record_id() != id {
            kept.push(e);
        }
        i += 1;
    }
    assert(orig.take(orig.len() as int) == orig);
    *v = kept;
    n != v.len()
}

/// The first record with id `id`, taken out of the list it was read in.
pub fn take_by_id<T: Keyed>(v: Vec<T>, id: u128) -> (r: Option<T>)
    ensures
        r == (match first_with_id(v@, id, 0) {
            Some(i) => Some(v@[i]),
            None => None::<T>,
        }),
{
    match index_of_id(&v, id) {
        Some(i) => {
            let mut v = v;
            let ghost s = v@;
            let e = v.swap_remove(i);
            assert(e == s[i as int]);
            Some(e)
        },
        None => None,
    }
}

// ---------------------------------------------------------------------------
// Field cleaning
// ---------------------------------------------------------------------------
/// Why a record was refused.
pub enum RecordError {
    WaypointLabelRequired,
    LedgerChestLabelRequired,
    ButlerChestLabelRequired,
    ButlerWaypointLabelRequired,
    ShopItemNameRequired,
    ShopItemPriceTooLow,
    BountyTargetRequired,
    BountyRewardTooLow,
}

/// The message of each refusal.
pub open spec fn record_error_text(e: RecordError) -> Seq<char> {
    match e {
        RecordError::WaypointLabelRequired => "waypoint label is required"@,
        RecordError::LedgerChestLabelRequired => "ledger chest label is required"@,
        RecordError::ButlerChestLabelRequired => "butler source chest label is required"@,
        RecordError::ButlerWaypointLabelRequired => "butler waypoint label is required"@,
        RecordError::ShopItemNameRequired => "shop item name is required"@,
        RecordError::ShopItemPriceTooLow => "shop item price must be at least 1 Credits"@,
        RecordError::BountyTargetRequired => "bounty target is required"@,
        RecordError::BountyRewardTooLow => "bounty reward must be at least 1 Credits"@,
    }
}

impl RecordError {
    /// The message shown for this refusal.
    pub fn message(&self) -> (s: String)
        ensures
            s@ == record_error_text(*self),
    {
        match self {
            RecordError::WaypointLabelRequired => lit("waypoint label is required"),
            RecordError::LedgerChestLabelRequired => lit("ledger chest label is required"),
            RecordError::ButlerChestLabelRequired => lit("butler source chest label is required"),
            RecordError::ButlerWaypointLabelRequired => lit("butler waypoint label is required"),
            RecordError::ShopItemNameRequired => lit("shop item name is required"),
            RecordError::ShopItemPriceTooLow => lit("shop item price must be at least 1 Credits"),
            RecordError::BountyTargetRequired => lit("bounty target is required"),
            RecordError::BountyRewardTooLow => lit("bounty reward must be at least 1 Credits"),
        }
    }
}

/// A category: trimmed, or `Uncategorized` when blank.
pub open spec fn category_of(s: Seq<char>) -> Seq<char> {
    if trim_seq(s).len() == 0 {
        "Uncategorized"@
    } else {
        trim_seq(s)
    }
}

/// Cleans a category.
pub fn normalize_waypoint_category(category: &str) -> (r: String)
    ensures
        r@ == category_of(category@),
{
    let t = trim(category);
    if t.as_str().is_empty() {
        lit("Uncategorized")
    } else {
        t
    }
}

/// `Some(s)` as text, `None` as the empty text.
pub open spec fn text_or_empty(s: Option<String>) -> Seq<char> {
    match s {
        Some(t) => t@,
        None => Seq::<char>::empty(),
    }
}

fn unwrap_text(s: Option<String>) -> (r: String)
    ensures
        r@ == text_or_empty(s),
{
    match s {
        Some(t) => t,
        None => String::new(),
    }
}

// ---------------------------------------------------------------------------
// Waypoints
// ---------------------------------------------------------------------------
/// A place the bots can walk to.
pub struct WaypointEntry {
    pub id: u128,
    pub label: String,
    pub category: String,
    pub bot_name: String,
    pub x: i32,
    pub y: i32,
    pub z: i32,
    pub notes: String,
    pub created_at: String,
}

/// A waypoint as entered; coordinates are whole blocks.
pub struct NewWaypointEntry {
    pub label: String,
    pub category: String,
    pub bot_name: String,
    pub x: i32,
    pub y: i32,
    pub z: i32,
    pub notes: Option<String>,
}

impl Keyed for WaypointEntry {
    open spec fn key(&self) -> u128 {
        self.id
    }

    fn record_id(&self) -> (r: u128) {
        self.id
    }
}

impl WaypointEntry {
    /// A copy of this waypoint.
    pub fn duplicate(&self) -> (r: WaypointEntry)
        ensures
            r == *self,
    {
        WaypointEntry {
            id: self.id,
            label: self.label.clone(),
            category: self.category.clone(),
            bot_name: self.bot_name.clone(),
            x: self.x,
            y: self.y,
            z: self.z,
            notes: self.notes.clone(),
            created_at: self.created_at.clone(),
        }
    }
}

/// The fields of a waypoint that come from what was entered.
pub open spec fn waypoint_fields(w: WaypointEntry, input: NewWaypointEntry) -> bool {
    &&& w.label@ == trim_seq(input.label@)
    &&& w.category@ == category_of(input.category@)
    &&& w.bot_name@ == trim_seq(input.bot_name@)
    &&& w.x == input.x
    &&& w.y == input.y
    &&& w.z == input.z
    &&& w.notes@ == text_or_empty(input.notes)
}

/// Adds a waypoint with the given id and creation time; refused when the
/// label is blank.
pub fn add_waypoint_with(
    entries: &mut Vec<WaypointEntry>,
    input: NewWaypointEntry,
    id: u128,
    created_at: String,
) -> (r: Result<WaypointEntry, RecordError>)
    ensures
        trim_seq(input.label@).len() == 0 ==> (r matches Err(RecordError::WaypointLabelRequired) && final(entries)@
            == old(entries)@),
        trim_seq(input.label@).len() > 0 ==> (r matches Ok(w) && final(entries)@ == old(entries)@.push(w)
            && waypoint_fields(w, input) && w.id == id && w.created_at == created_at),
{
    let label = trim(input.label.as_str());
    if label.as_str().is_empty() {
        return Err(RecordError::WaypointLabelRequired);
    }
    let w = WaypointEntry {
        id,
        label,
        category: normalize_waypoint_category(input.category.as_str()),
        bot_name: trim(input.bot_name.as_str()),
        x: input.x,
        y: input.y,
        z: input.z,
        notes: unwrap_text(input.notes),
        created_at,
    };
    entries.push(w.duplicate());
    Ok(w)
}

/// Adds a waypoint with a fresh id, created now.
pub fn add_waypoint(entries: &mut Vec<WaypointEntry>, input: NewWaypointEntry) -> (r: Result<WaypointEntry, RecordError>)
    ensures
        trim_seq(input.label@).len() == 0 ==> (r matches Err(RecordError::WaypointLabelRequired) && final(entries)@
            == old(entries)@),
        trim_seq(input.label@).len() > 0 ==> (r matches Ok(w) && final(entries)@ == old(entries)@.push(w)
            && waypoint_fields(w, input) && is_v4(w.id) && utc_stamp(w.created_at@)),
{
    let id = new_record_id();
    let now = now_rfc3339();
    add_waypoint_with(entries, input, id, now)
}

/// Changes the waypoint with id `id`; refused when the label is blank,
/// `Ok(None)` when there is no such waypoint.
pub fn update_waypoint(entries: &mut Vec<WaypointEntry>, id: u128, input: NewWaypointEntry) -> (r: Result<
    Option<WaypointEntry>,
    RecordError,
>)
    ensures
        trim_seq(input.label@).len() == 0 ==> (r matches Err(RecordError::WaypointLabelRequired) && final(entries)@
            == old(entries)@),
        trim_seq(input.label@).len() > 0 ==> match first_with_id(old(entries)@, id, 0) {
            None => r matches Ok(None) && final(entries)@ == old(entries)@,
            Some(i) => r matches Ok(Some(w)) && final(entries)@ == old(entries)@.update(i, w) && waypoint_fields(w, input)
                && w.id == old(entries)@[i].id && w.created_at == old(entries)@[i].created_at,
        },
{
    let label = trim(input.label.as_str());
    if label.as_str().is_empty() {
        return Err(RecordError::WaypointLabelRequired);
    }
    let i = match index_of_id(entries, id) {
        Some(i) => i,
        None => return Ok(None),
    };
    let w = WaypointEntry {
        id: entries[i].id,
        label,
        category: normalize_waypoint_category(input.category.as_str()),
        bot_name: trim(input.bot_name.as_str()),
        x: input.x,
        y: input.y,
        z: input.z,
        notes: unwrap_text(input.notes),
        created_at: entries[i].created_at.clone(),
    };
    entries.set(i, w.duplicate());
    Ok(Some(w))
}

/// Removes the waypoints with id `id`; whether one was removed.
pub fn delete_waypoint(entries: &mut Vec<WaypointEntry>, id: u128) -> (r: bool)
    ensures
        final(entries)@ == without_id(old(entries)@, id),
        r == (final(entries)@.len() != old(entries)@.len()),
{
    remove_id(entries, id)
}

/// The waypoint with id `id`, if any.
pub fn find_waypoint(entries: Vec<WaypointEntry>, id: u128) -> (r: Option<WaypointEntry>)
    ensures
        r == (match first_with_id(entries@, id, 0) {
            Some(i) => Some(entries@[i]),
            None => None::<WaypointEntry>,
        }),
{
    take_by_id(entries, id)
}

// ---------------------------------------------------------------------------
// Stasis pearls
// ---------------------------------------------------------------------------
/// A stasis chamber: where a player's pearl waits to be pulled.
pub struct PearlEntry {
    pub id: u128,
    pub player: String,
    pub label: String,
    pub category: String,
    pub stasis_kind: String,
    pub item_name: String,
    pub inventory_slot: u8,
    pub bot_name: String,
    pub x: i32,
    pub y: i32,
    pub z: i32,
    pub notes: String,
    pub created_at: String,
    pub owner_user: String,
    pub allowed_users: Vec<String>,
}

/// A stasis chamber as entered.
pub struct NewPearlEntry {
    pub player: String,
    pub label: String,
    pub category: String,
    pub stasis_kind: String,
    pub item_name: String,
    pub inventory_slot: u8,
    pub bot_name: String,
    pub x: i32,
    pub y: i32,
    pub z: i32,
    pub notes: Option<String>,
    pub allowed_users: Vec<String>,
}

impl Keyed for PearlEntry {
    open spec fn key(&self) -> u128 {
        self.id
    }

    fn record_id(&self) -> (r: u128) {
        self.id
    }
}

/// `a` and `b` describe the same chamber.
pub open spec fn same_pearl(a: PearlEntry, b: PearlEntry) -> bool {
    &&& a.id == b.id
    &&& a.player == b.player
    &&& a.label == b.label
    &&& a.category == b.category
    &&& a.stasis_kind == b.stasis_kind
    &&& a.item_name == b.item_name
    &&& a.inventory_slot == b.inventory_slot
    &&& a.bot_name == b.bot_name
    &&& a.x == b.x && a.y == b.y && a.z == b.z
    &&& a.notes == b.notes
    &&& a.created_at == b.created_at
    &&& a.owner_user == b.owner_user
    &&& a.allowed_users@ == b.allowed_users@
}

impl PearlEntry {
    /// A copy of this chamber.
    pub fn duplicate(&self) -> (r: PearlEntry)
        ensures
            same_pearl(r, *self),
    {
        let allowed = self.allowed_users.clone();
        assert(allowed@ =~= self.allowed_users@);
        PearlEntry {
            id: self.id,
            player: self.player.clone(),
            label: self.label.clone(),
            category: self.category.clone(),
            stasis_kind: self.stasis_kind.clone(),
            item_name: self.item_name.clone(),
            inventory_slot: self.inventory_slot,
            bot_name: self.bot_name.clone(),
            x: self.x,
            y: self.y,
            z: self.z,
            notes: self.notes.clone(),
            created_at: self.created_at.clone(),
            owner_user: self.owner_user.clone(),
            allowed_users: allowed,
        }
    }
}

/// The stasis kind: trimmed and lowercased, `block` when blank.
pub open spec fn stasis_kind_of(s: Seq<char>) -> Seq<char> {
    if trim_seq(s).len() == 0 {
        "block"@
    } else {
        lower_of(trim_seq(s))
    }
}

fn normalize_stasis_kind(s: &str) -> (r: String)
    ensures
        r@ == stasis_kind_of(s@),
{
    let t = trim(s);
    if t.as_str().is_empty() {
        lit("block")
    } else {
        to_lower(t.as_str())
    }
}

/// The inventory slot, at most 35.
pub open spec fn slot_of(slot: u8) -> u8 {
    if slot < 35 {
        slot
    } else {
        35
    }
}

/// `key` (a cleaned username) may see chamber `p`.
pub open spec fn can_see(p: PearlEntry, key: Seq<char>, role: UserRole) -> bool {
    ||| role == UserRole::Owner
    ||| eq_ci(p.owner_user@, key)
    ||| eq_ci(p.player@, key)
    ||| exists|i: int| 0 <= i < p.allowed_users@.len() && eq_ci(#[trigger] p.allowed_users@[i]@, key)
}

/// Holds of the chambers that `key` may see.
pub open spec fn visible_to(key: Seq<char>, role: UserRole) -> spec_fn(PearlEntry) -> bool {
    |p: PearlEntry| can_see(p, key, role)
}

fn pearl_visible(p: &PearlEntry, key: &str, role: &UserRole) -> (r: bool)
    ensures
        r == can_see(*p, key@, *role),
{
    if *role == UserRole::Owner || eq_ignore_case(p.owner_user.as_str(), key) || eq_ignore_case(p.player.as_str(), key) {
        return true;
    }
    let mut i: usize = 0;
    while i < p.allowed_users.len()
        invariant
            i <= p.allowed_users.len(),
            forall|j: int| 0 <= j < i ==> !eq_ci(#[trigger] p.allowed_users@[j]@, key@),
        decreases p.allowed_users.len() - i,
    {
        if eq_ignore_case(p.allowed_users[i].as_str(), key) {
            return true;
        }
        i += 1;
    }
    false
}

/// The chambers that `username` may see: all of them for an owner; otherwise
/// those the user owns, is the player of, or is allowed on.
pub fn visible_pearls(pearls: Vec<PearlEntry>, username: &str, role: &UserRole) -> (r: Vec<PearlEntry>)
    ensures
        r@ == pearls@.filter(visible_to(user_key(username@), *role)),
{
    let t = trim(username);
    let key = to_lower(t.as_str());
    let ghost pred = visible_to(key@, *role);
    let ghost orig = pearls@;
    let n = pearls.len();
    let mut rest = pearls;
    let mut kept: Vec<PearlEntry> = Vec::new();
    let mut i: usize = 0;
    assert(orig.skip(0) == orig);
    while i < n
        invariant
            i <= n,
            n == orig.len(),
            rest@ == orig.skip(i as int),
            pred == visible_to(key@, *role),
            kept@ == orig.take(i as int).filter(pred),
        decreases n - i,
    {
        proof {
            assert(orig.take(i + 1) == orig.take(i as int).push(orig[i as int]));
            orig.take(i as int).lemma_filter_push(orig[i as int], pred);
        }
        let p = rest.remove(0);
        assert(rest@ =~= orig.skip(i + 1));
        if pearl_visible(&p, key.as_str(), role) {
            kept.push(p);
        }
        i += 1;
    }
    assert(orig.take(orig.len() as int) == orig);
    kept
}

/// The fields of a new chamber.
pub open spec fn new_pearl_fields(p: PearlEntry, input: NewPearlEntry, owner: Seq<char>, role: UserRole) -> bool {
    &&& p.player@ == (if role == UserRole::Owner { input.player@ } else { owner })
    &&& p.label == input.label
    &&& p.category@ == category_of(input.category@)
    &&& p.stasis_kind@ == stasis_kind_of(input.stasis_kind@)
    &&& p.item_name@ == trim_seq(input.item_name@)
    &&& p.inventory_slot == slot_of(input.inventory_slot)
    &&& p.bot_name@ == trim_seq(input.bot_name@)
    &&& p.x == input.x && p.y == input.y && p.z == input.z
    &&& p.notes@ == text_or_empty(input.notes)
    &&& p.owner_user@ == owner
    &&& p.allowed_users.deep_view() == clean_names(input.allowed_users.deep_view(), true)
}

/// Adds a chamber owned by `owner_user`, with the given id and time. Only an
/// owner may name the player; for anyone else the player is the owner.
pub fn add_pearl_with(
    pearls: &mut Vec<PearlEntry>,
    input: NewPearlEntry,
    owner_user: &str,
    role: &UserRole,
    id: u128,
    created_at: String,
) -> (r: PearlEntry)
    ensures
        final(pearls)@.len() == old(pearls)@.len() + 1,
        final(pearls)@.drop_last() == old(pearls)@,
        same_pearl(r, final(pearls)@.last()),
        new_pearl_fields(r, input, user_key(owner_user@), *role),
        r.id == id,
        r.created_at == created_at,
{
    let t = trim(owner_user);
    let owner = to_lower(t.as_str());
    let player = if *role == UserRole::Owner { input.player } else { owner.clone() };
    let p = PearlEntry {
        id,
        player,
        label: input.label,
        category: normalize_waypoint_category(input.category.as_str()),
        stasis_kind: normalize_stasis_kind(input.stasis_kind.as_str()),
        item_name: trim(input.item_name.as_str()),
        inventory_slot: if input.inventory_slot < 35 { input.inventory_slot } else { 35 },
        bot_name: trim(input.bot_name.as_str()),
        x: input.x,
        y: input.y,
        z: input.z,
        notes: unwrap_text(input.notes),
        created_at,
        owner_user: owner,
        allowed_users: clean_name_list(input.allowed_users, true),
    };
    let copy = p.duplicate();
    let ghost before = pearls@;
    pearls.push(p);
    assert(pearls@.drop_last() == before);
    copy
}

/// Adds a chamber owned by `owner_user`, with a fresh id, created now.
pub fn add_pearl(pearls: &mut Vec<PearlEntry>, input: NewPearlEntry, owner_user: &str, role: &UserRole) -> (r: PearlEntry)
    ensures
        final(pearls)@.len() == old(pearls)@.len() + 1,
        final(pearls)@.drop_last() == old(pearls)@,
        same_pearl(r, final(pearls)@.last()),
        new_pearl_fields(r, input, user_key(owner_user@), *role),
        is_v4(r.id),
        utc_stamp(r.created_at@),
{
    let id = new_record_id();
    let now = now_rfc3339();
    add_pearl_with(pearls, input, owner_user, role, id, now)
}

/// `key` may change or delete chamber `p`: an owner, or the chamber's owner.
pub open spec fn can_edit(p: PearlEntry, key: Seq<char>, role: UserRole) -> bool {
    role == UserRole::Owner || eq_ci(p.owner_user@, key)
}

/// The fields of a changed chamber.
pub open spec fn changed_pearl_fields(n: PearlEntry, o: PearlEntry, input: NewPearlEntry, role: UserRole) -> bool {
    &&& n.id == o.id
    &&& n.created_at == o.created_at
    &&& n.owner_user == o.owner_user
    &&& n.player@ == (if role == UserRole::Owner { trim_seq(input.player@) } else { o.owner_user@ })
    &&& n.label@ == trim_seq(input.label@)
    &&& n.category@ == category_of(input.category@)
    &&& n.stasis_kind@ == stasis_kind_of(input.stasis_kind@)
    &&& n.item_name@ == trim_seq(input.item_name@)
    &&& n.inventory_slot == slot_of(input.inventory_slot)
    &&& n.bot_name@ == trim_seq(input.bot_name@)
    &&& n.x == input.x && n.y == input.y && n.z == input.z
    &&& n.notes@ == text_or_empty(input.notes)
    &&& n.allowed_users.deep_view() == clean_names(input.allowed_users.deep_view(), true)
}

/// Changes the chamber with id `id` when `username` may edit it; `None` when
/// there is no such chamber or the user may not.
pub fn update_pearl(pearls: &mut Vec<PearlEntry>, id: u128, input: NewPearlEntry, username: &str, role: &UserRole) -> (r:
    Option<PearlEntry>)
    ensures
        match first_with_id(old(pearls)@, id, 0) {
            None => r is None && final(pearls)@ == old(pearls)@,
            Some(i) => if !can_edit(old(pearls)@[i], user_key(username@), *role) {
                r is None && final(pearls)@ == old(pearls)@
            } else {
                &&& final(pearls)@.len() == old(pearls)@.len()
                &&& forall|j: int| 0 <= j < old(pearls)@.len() && j != i ==> final(pearls)@[j] == old(pearls)@[j]
                &&& changed_pearl_fields(final(pearls)@[i], old(pearls)@[i], input, *role)
                &&& r matches Some(p) && same_pearl(p, final(pearls)@[i])
            },
        },
{
    let t = trim(username);
    let key = to_lower(t.as_str());
    let i = match index_of_id(pearls, id) {
        Some(i) => i,
        None => return None,
    };
    if !(*role == UserRole::Owner || eq_ignore_case(pearls[i].owner_user.as_str(), key.as_str())) {
        return None;
    }
    let player = if *role == UserRole::Owner { trim(input.player.as_str()) } else { pearls[i].owner_user.clone() };
    let p = PearlEntry {
        id: pearls[i].id,
        player,
        label: trim(input.label.as_str()),
        category: normalize_waypoint_category(input.category.as_str()),
        stasis_kind: normalize_stasis_kind(input.stasis_kind.as_str()),
        item_name: trim(input.item_name.as_str()),
        inventory_slot: if input.inventory_slot < 35 { input.inventory_slot } else { 35 },
        bot_name: trim(input.bot_name.as_str()),
        x: input.x,
        y: input.y,
        z: input.z,
        notes: unwrap_text(input.notes),
        created_at: pearls[i].created_at.clone(),
        owner_user: pearls[i].owner_user.clone(),
        allowed_users: clean_name_list(input.allowed_users, true),
    };
    let copy = p.duplicate();
    pearls.set(i, p);
    Some(copy)
}

/// Holds of the chambers that a delete of `id` by `key` keeps.
pub open spec fn kept_after_delete(id: u128, key: Seq<char>, role: UserRole) -> spec_fn(PearlEntry) -> bool {
    |p: PearlEntry| p.id != id || !can_edit(p, key, role)
}

/// Deletes the chambers with id `id` that `username` may edit; whether one
/// was deleted.
pub fn delete_pearl(pearls: &mut Vec<PearlEntry>, id: u128, username: &str, role: &UserRole) -> (r: bool)
    ensures
        final(pearls)@ == old(pearls)@.filter(kept_after_delete(id, user_key(username@), *role)),
        r == (final(pearls)@.len() != old(pearls)@.len()),
{
    let t = trim(username);
    let key = to_lower(t.as_str());
    let ghost pred = kept_after_delete(id, key@, *role);
    let ghost orig = pearls@;
    let n = pearls.len();
    let mut rest: Vec<PearlEntry> = Vec::new();
    std::mem::swap(&mut rest, pearls);
    let mut kept: Vec<PearlEntry> = Vec::new();
    let mut i: usize = 0;
    assert(orig.skip(0) == orig);
    while i < n
        invariant
            i <= n,
            n == orig.len(),
            rest@ == orig.skip(i as int),
            pred == kept_after_delete(id, key@, *role),
            kept@ == orig.take(i as int).filter(pred),
        decreases n - i,
    {
        proof {
            assert(orig.take(i + 1) == orig.take(i as int).push(orig[i as int]));
            orig.take(i as int).lemma_filter_push(orig[i as int], pred);
        }
        let p = rest.remove(0);
        assert(rest@ =~= orig.skip(i + 1));
        let editable = *role == UserRole::Owner || eq_ignore_case(p.owner_user.as_str(), key.as_str());
        if p.id != id || !editable {
            kept.push(p);
        }
        i += 1;
    }
    assert(orig.take(orig.len() as int) == orig);
    *pearls = kept;
    n != pearls.len()
}

/// Index of the first chamber at or after `i` with id `id` that `key` may see.
pub open spec fn first_visible_from(s: Seq<PearlEntry>, id: u128, key: Seq<char>, role: UserRole, i: int) -> Option<int>
    decreases s.len() - i,
{
    if i < 0 || i >= s.len() {
        None
    } else if s[i].id == id && can_see(s[i], key, role) {
        Some(i)
    } else {
        first_visible_from(s, id, key, role, i + 1)
    }
}

/// The first chamber with id `id` that `username` may see.
pub fn find_visible_pearl(pearls: Vec<PearlEntry>, id: u128, username: &str, role: &UserRole) -> (r: Option<PearlEntry>)
    ensures
        r == (match first_visible_from(pearls@, id, user_key(username@), *role, 0) {
            Some(i) => Some(pearls@[i]),
            None => None::<PearlEntry>,
        }),
{
    let t = trim(username);
    let key = to_lower(t.as_str());
    let mut i: usize = 0;
    while i < pearls.len()
        invariant
            i <= pearls.len(),
            key@ == user_key(username@),
            first_visible_from(pearls@, id, key@, *role, 0) == first_visible_from(pearls@, id, key@, *role, i as int),
        decreases pearls.len() - i,
    {
        if pearls[i].id == id && pearl_visible(&pearls[i], key.as_str(), role) {
            assert(first_visible_from(pearls@, id, key@, *role, i as int) == Some(i as int));
            let mut v = pearls;
            let ghost s = v@;
            let p = v.swap_remove(i);
            assert(p == s[i as int]);
            return Some(p);
        }
        i += 1;
    }
    None
}

} // verus!
