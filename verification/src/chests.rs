//! Saved chests of the bank ledger and the Bank Butler, shop items and
//! bounties.
use vstd::prelude::*;
use crate::casino::user_key;
use crate::records::{
    category_of, first_with_id, index_of_id, is_v4, new_record_id, utc_stamp, normalize_waypoint_category, now_rfc3339, remove_id,
    take_by_id, without_id, Keyed, RecordError,
};
use crate::text::{blank_out, blank_out_chars, chars_of, clean_name_list, clean_names, lit, same_text, str_eq, string_of_all,
    to_lower, trim, trim_seq};

verus! {

// ---------------------------------------------------------------------------
// Ledger chests
// ---------------------------------------------------------------------------
/// What a ledger chest is for: `writing` or `banking`.
pub open spec fn purpose_of(s: Seq<char>) -> Seq<char> {
    let k = user_key(s);
    if k == "writing"@ || k == "writer"@ || k == "book"@ || k == "books"@ {
        "writing"@
    } else {
        "banking"@
    }
}

/// Cleans a ledger chest purpose.
pub fn normalize_ledger_purpose(value: &str) -> (r: String)
    ensures
        r@ == purpose_of(value@),
{
    let t = trim(value);
    let k = to_lower(t.as_str());
    let ks = k.as_str();
    if str_eq(ks, "writing") || str_eq(ks, "writer") || str_eq(ks, "book") || str_eq(ks, "books") {
        lit("writing")
    } else {
        lit("banking")
    }
}

/// A chest the bot reads signed Credits books from.
pub struct LedgerChestEntry {
    pub id: u128,
    pub purpose: String,
    pub label: String,
    pub category: String,
    pub bot_name: String,
    pub chest_x: i32,
    pub chest_y: i32,
    pub chest_z: i32,
    pub processed_chest_x: Option<i32>,
    pub processed_chest_y: Option<i32>,
    pub processed_chest_z: Option<i32>,
    pub allowed_players: Vec<String>,
    pub min_credits: i64,
    pub max_credits: i64,
    pub remove_processed_book: bool,
    pub created_at: String,
}

/// A ledger chest as entered.
pub struct NewLedgerChestEntry {
    pub purpose: String,
    pub label: String,
    pub category: String,
    pub bot_name: String,
    pub chest_x: i32,
    pub chest_y: i32,
    pub chest_z: i32,
    pub processed_chest_x: Option<i32>,
    pub processed_chest_y: Option<i32>,
    pub processed_chest_z: Option<i32>,
    pub allowed_players: Vec<String>,
    pub min_credits: i64,
    pub max_credits: i64,
    pub remove_processed_book: bool,
}

impl Keyed for LedgerChestEntry {
    open spec fn key(&self) -> u128 {
        self.id
    }

    fn record_id(&self) -> (r: u128) {
        self.id
    }
}

/// `a` and `b` describe the same ledger chest.
pub open spec fn same_ledger_chest(a: LedgerChestEntry, b: LedgerChestEntry) -> bool {
    &&& a.id == b.id && a.purpose == b.purpose && a.label == b.label && a.category == b.category
    &&& a.bot_name == b.bot_name && a.chest_x == b.chest_x && a.chest_y == b.chest_y && a.chest_z == b.chest_z
    &&& a.processed_chest_x == b.processed_chest_x && a.processed_chest_y == b.processed_chest_y
    &&& a.processed_chest_z == b.processed_chest_z && a.allowed_players@ == b.allowed_players@
    &&& a.min_credits == b.min_credits && a.max_credits == b.max_credits
    &&& a.remove_processed_book == b.remove_processed_book && a.created_at == b.created_at
}

impl LedgerChestEntry {
    /// A copy of this chest.
    pub fn duplicate(&self) -> (r: LedgerChestEntry)
        ensures
            same_ledger_chest(r, *self),
    {
        let allowed = self.allowed_players.clone();
        assert(allowed@ =~= self.allowed_players@);
        LedgerChestEntry {
            id: self.id,
            purpose: self.purpose.clone(),
            label: self.label.clone(),
            category: self.category.clone(),
            bot_name: self.bot_name.clone(),
            chest_x: self.chest_x,
            chest_y: self.chest_y,
            chest_z: self.chest_z,
            processed_chest_x: self.processed_chest_x,
            processed_chest_y: self.processed_chest_y,
            processed_chest_z: self.processed_chest_z,
            allowed_players: allowed,
            min_credits: self.min_credits,
            max_credits: self.max_credits,
            remove_processed_book: self.remove_processed_book,
            created_at: self.created_at.clone(),
        }
    }
}

/// The fields of a ledger chest that come from what was entered.
pub open spec fn ledger_fields(e: LedgerChestEntry, input: NewLedgerChestEntry) -> bool {
    &&& e.purpose@ == purpose_of(input.purpose@)
    &&& e.label@ == trim_seq(input.label@)
    &&& e.category@ == category_of(input.category@)
    &&& e.bot_name@ == trim_seq(input.bot_name@)
    &&& e.chest_x == input.chest_x && e.chest_y == input.chest_y && e.chest_z == input.chest_z
    &&& e.processed_chest_x == input.processed_chest_x && e.processed_chest_y == input.processed_chest_y
    &&& e.processed_chest_z == input.processed_chest_z
    &&& e.allowed_players.deep_view() == clean_names(input.allowed_players.deep_view(), false)
    &&& e.min_credits == input.min_credits && e.max_credits == input.max_credits
    &&& e.remove_processed_book == input.remove_processed_book
}

fn ledger_from(input: NewLedgerChestEntry, label: String, id: u128, created_at: String) -> (e: LedgerChestEntry)
    requires
        label@ == trim_seq(input.label@),
    ensures
        ledger_fields(e, input),
        e.id == id,
        e.created_at == created_at,
{
    LedgerChestEntry {
        id,
        purpose: normalize_ledger_purpose(input.purpose.as_str()),
        label,
        category: normalize_waypoint_category(input.category.as_str()),
        bot_name: trim(input.bot_name.as_str()),
        chest_x: input.chest_x,
        chest_y: input.chest_y,
        chest_z: input.chest_z,
        processed_chest_x: input.processed_chest_x,
        processed_chest_y: input.processed_chest_y,
        processed_chest_z: input.processed_chest_z,
        allowed_players: clean_name_list(input.allowed_players, false),
        min_credits: input.min_credits,
        max_credits: input.max_credits,
        remove_processed_book: input.remove_processed_book,
        created_at,
    }
}

/// Adds a ledger chest with the given id and time; refused when the label is
/// blank.
pub fn add_ledger_chest_with(
    entries: &mut Vec<LedgerChestEntry>,
    input: NewLedgerChestEntry,
    id: u128,
    created_at: String,
) -> (r: Result<LedgerChestEntry, RecordError>)
    ensures
        trim_seq(input.label@).len() == 0 ==> (r matches Err(RecordError::LedgerChestLabelRequired) && final(entries)@
            == old(entries)@),
        trim_seq(input.label@).len() > 0 ==> (r matches Ok(e) && final(entries)@.len() == old(entries)@.len() + 1
            && final(entries)@.drop_last() == old(entries)@ && same_ledger_chest(e, final(entries)@.last())
            && ledger_fields(e, input) && e.id == id && e.created_at == created_at),
{
    let label = trim(input.label.as_str());
    if label.as_str().is_empty() {
        return Err(RecordError::LedgerChestLabelRequired);
    }
    let e = ledger_from(input, label, id, created_at);
    let copy = e.duplicate();
    let ghost before = entries@;
    entries.push(e);
    assert(entries@.drop_last() == before);
    Ok(copy)
}

/// Adds a ledger chest with a fresh id, created now.
pub fn add_ledger_chest(entries: &mut Vec<LedgerChestEntry>, input: NewLedgerChestEntry) -> (r: Result<
    LedgerChestEntry,
    RecordError,
>)
    ensures
        trim_seq(input.label@).len() == 0 ==> (r matches Err(RecordError::LedgerChestLabelRequired) && final(entries)@
            == old(entries)@),
        trim_seq(input.label@).len() > 0 ==> (r matches Ok(e) && final(entries)@.len() == old(entries)@.len() + 1
            && final(entries)@.drop_last() == old(entries)@ && same_ledger_chest(e, final(entries)@.last())
            && ledger_fields(e, input) && is_v4(e.id) && utc_stamp(e.created_at@)),
{
    let id = new_record_id();
    let now = now_rfc3339();
    add_ledger_chest_with(entries, input, id, now)
}

/// Changes the ledger chest with id `id`; refused when the label is blank,
/// `Ok(None)` when there is no such chest.
pub fn update_ledger_chest(entries: &mut Vec<LedgerChestEntry>, id: u128, input: NewLedgerChestEntry) -> (r: Result<
    Option<LedgerChestEntry>,
    RecordError,
>)
    ensures
        trim_seq(input.label@).len() == 0 ==> (r matches Err(RecordError::LedgerChestLabelRequired) && final(entries)@
            == old(entries)@),
        trim_seq(input.label@).len() > 0 ==> match first_with_id(old(entries)@, id, 0) {
            None => r matches Ok(None) && final(entries)@ == old(entries)@,
            Some(i) => {
                &&& final(entries)@.len() == old(entries)@.len()
                &&& forall|j: int| 0 <= j < old(entries)@.len() && j != i ==> final(entries)@[j] == old(entries)@[j]
                &&& ledger_fields(final(entries)@[i], input)
                &&& final(entries)@[i].id == old(entries)@[i].id
                &&& final(entries)@[i].created_at == old(entries)@[i].created_at
                &&& r matches Ok(Some(e)) && same_ledger_chest(e, final(entries)@[i])
            },
        },
{
    let label = trim(input.label.as_str());
    if label.as_str().is_empty() {
        return Err(RecordError::LedgerChestLabelRequired);
    }
    let i = match index_of_id(entries, id) {
        Some(i) => i,
        None => return Ok(None),
    };
    let e = ledger_from(input, label, entries[i].id, entries[i].created_at.clone());
    let copy = e.duplicate();
    entries.set(i, e);
    Ok(Some(copy))
}

/// Removes the ledger chests with id `id`; whether one was removed.
pub fn delete_ledger_chest(entries: &mut Vec<LedgerChestEntry>, id: u128) -> (r: bool)
    ensures
        final(entries)@ == without_id(old(entries)@, id),
        r == (final(entries)@.len() != old(entries)@.len()),
{
    remove_id(entries, id)
}

/// The ledger chest with id `id`, if any.
pub fn find_ledger_chest(entries: Vec<LedgerChestEntry>, id: u128) -> (r: Option<LedgerChestEntry>)
    ensures
        r == (match first_with_id(entries@, id, 0) {
            Some(i) => Some(entries@[i]),
            None => None::<LedgerChestEntry>,
        }),
{
    take_by_id(entries, id)
}

// ---------------------------------------------------------------------------
// Bank Butler chests and waypoints
// ---------------------------------------------------------------------------
/// A chest the Bank Butler takes named shulkers from.
pub struct ButlerChestEntry {
    pub id: u128,
    pub label: String,
    pub category: String,
    pub bot_name: String,
    pub chest_x: i32,
    pub chest_y: i32,
    pub chest_z: i32,
    pub created_at: String,
}

/// A Bank Butler source chest as entered.
pub struct NewButlerChestEntry {
    pub label: String,
    pub category: String,
    pub bot_name: String,
    pub chest_x: i32,
    pub chest_y: i32,
    pub chest_z: i32,
}

/// A place the Bank Butler delivers shulkers to.
pub struct ButlerWaypointEntry {
    pub id: u128,
    pub label: String,
    pub category: String,
    pub bot_name: String,
    pub chest_x: i32,
    pub chest_y: i32,
    pub chest_z: i32,
    pub created_at: String,
}

/// A Bank Butler destination as entered.
pub struct NewButlerWaypointEntry {
    pub label: String,
    pub category: String,
    pub bot_name: String,
    pub chest_x: i32,
    pub chest_y: i32,
    pub chest_z: i32,
}

impl Keyed for ButlerChestEntry {
    open spec fn key(&self) -> u128 {
        self.id
    }

    fn record_id(&self) -> (r: u128) {
        self.id
    }
}

impl Keyed for ButlerWaypointEntry {
    open spec fn key(&self) -> u128 {
        self.id
    }

    fn record_id(&self) -> (r: u128) {
        self.id
    }
}

impl ButlerChestEntry {
    /// A copy of this chest.
    pub fn duplicate(&self) -> (r: ButlerChestEntry)
        ensures
            r == *self,
    {
        ButlerChestEntry {
            id: self.id,
            label: self.label.clone(),
            category: self.category.clone(),
            bot_name: self.bot_name.clone(),
            chest_x: self.chest_x,
            chest_y: self.chest_y,
            chest_z: self.chest_z,
            created_at: self.created_at.clone(),
        }
    }
}

impl ButlerWaypointEntry {
    /// A copy of this destination.
    pub fn duplicate(&self) -> (r: ButlerWaypointEntry)
        ensures
            r == *self,
    {
        ButlerWaypointEntry {
            id: self.id,
            label: self.label.clone(),
            category: self.category.clone(),
            bot_name: self.bot_name.clone(),
            chest_x: self.chest_x,
            chest_y: self.chest_y,
            chest_z: self.chest_z,
            created_at: self.created_at.clone(),
        }
    }
}

/// The fields of a Bank Butler chest that come from what was entered.
pub open spec fn butler_chest_fields(e: ButlerChestEntry, input: NewButlerChestEntry) -> bool {
    &&& e.label@ == trim_seq(input.label@)
    &&& e.category@ == category_of(input.category@)
    &&& e.bot_name@ == trim_seq(input.bot_name@)
    &&& e.chest_x == input.chest_x && e.chest_y == input.chest_y && e.chest_z == input.chest_z
}

/// The fields of a Bank Butler destination that come from what was entered.
pub open spec fn butler_waypoint_fields(e: ButlerWaypointEntry, input: NewButlerWaypointEntry) -> bool {
    &&& e.label@ == trim_seq(input.label@)
    &&& e.category@ == category_of(input.category@)
    &&& e.bot_name@ == trim_seq(input.bot_name@)
    &&& e.chest_x == input.chest_x && e.chest_y == input.chest_y && e.chest_z == input.chest_z
}

/// Adds a Bank Butler chest with the given id and time; refused when the
/// label is blank.
pub fn add_butler_chest_with(
    entries: &mut Vec<ButlerChestEntry>,
    input: NewButlerChestEntry,
    id: u128,
    created_at: String,
) -> (r: Result<ButlerChestEntry, RecordError>)
    ensures
        trim_seq(input.label@).len() == 0 ==> (r matches Err(RecordError::ButlerChestLabelRequired) && final(entries)@
            == old(entries)@),
        trim_seq(input.label@).len() > 0 ==> (r matches Ok(e) && final(entries)@ == old(entries)@.push(e)
            && butler_chest_fields(e, input) && e.id == id && e.created_at == created_at),
{
    let label = trim(input.label.as_str());
    if label.as_str().is_empty() {
        return Err(RecordError::ButlerChestLabelRequired);
    }
    let e = ButlerChestEntry {
        id,
        label,
        category: normalize_waypoint_category(input.category.as_str()),
        bot_name: trim(input.bot_name.as_str()),
        chest_x: input.chest_x,
        chest_y: input.chest_y,
        chest_z: input.chest_z,
        created_at,
    };
    entries.push(e.duplicate());
    Ok(e)
}

/// Adds a Bank Butler chest with a fresh id, created now.
pub fn add_butler_chest(entries: &mut Vec<ButlerChestEntry>, input: NewButlerChestEntry) -> (r: Result<
    ButlerChestEntry,
    RecordError,
>)
    ensures
        trim_seq(input.label@).len() == 0 ==> (r matches Err(RecordError::ButlerChestLabelRequired) && final(entries)@
            == old(entries)@),
        trim_seq(input.label@).len() > 0 ==> (r matches Ok(e) && final(entries)@ == old(entries)@.push(e)
            && butler_chest_fields(e, input) && is_v4(e.id) && utc_stamp(e.created_at@)),
{
    let id = new_record_id();
    let now = now_rfc3339();
    add_butler_chest_with(entries, input, id, now)
}

/// Changes the Bank Butler chest with id `id`; refused when the label is
/// blank, `Ok(None)` when there is no such chest.
pub fn update_butler_chest(entries: &mut Vec<ButlerChestEntry>, id: u128, input: NewButlerChestEntry) -> (r: Result<
    Option<ButlerChestEntry>,
    RecordError,
>)
    ensures
        trim_seq(input.label@).len() == 0 ==> (r matches Err(RecordError::ButlerChestLabelRequired) && final(entries)@
            == old(entries)@),
        trim_seq(input.label@).len() > 0 ==> match first_with_id(old(entries)@, id, 0) {
            None => r matches Ok(None) && final(entries)@ == old(entries)@,
            Some(i) => r matches Ok(Some(e)) && final(entries)@ == old(entries)@.update(i, e) && butler_chest_fields(e, input)
                && e.id == old(entries)@[i].id && e.created_at == old(entries)@[i].created_at,
        },
{
    let label = trim(input.label.as_str());
    if label.as_str().is_empty() {
        return Err(RecordError::ButlerChestLabelRequired);
    }
    let i = match index_of_id(entries, id) {
        Some(i) => i,
        None => return Ok(None),
    };
    let e = ButlerChestEntry {
        id: entries[i].id,
        label,
        category: normalize_waypoint_category(input.category.as_str()),
        bot_name: trim(input.bot_name.as_str()),
        chest_x: input.chest_x,
        chest_y: input.chest_y,
        chest_z: input.chest_z,
        created_at: entries[i].created_at.clone(),
    };
    entries.set(i, e.duplicate());
    Ok(Some(e))
}

/// Removes the Bank Butler chests with id `id`; whether one was removed.
pub fn delete_butler_chest(entries: &mut Vec<ButlerChestEntry>, id: u128) -> (r: bool)
    ensures
        final(entries)@ == without_id(old(entries)@, id),
        r == (final(entries)@.len() != old(entries)@.len()),
{
    remove_id(entries, id)
}

/// The Bank Butler chest with id `id`, if any.
pub fn find_butler_chest(entries: Vec<ButlerChestEntry>, id: u128) -> (r: Option<ButlerChestEntry>)
    ensures
        r == (match first_with_id(entries@, id, 0) {
            Some(i) => Some(entries@[i]),
            None => None::<ButlerChestEntry>,
        }),
{
    take_by_id(entries, id)
}

/// Adds a Bank Butler destination with the given id and time; refused when
/// the label is blank.
pub fn add_butler_waypoint_with(
    entries: &mut Vec<ButlerWaypointEntry>,
    input: NewButlerWaypointEntry,
    id: u128,
    created_at: String,
) -> (r: Result<ButlerWaypointEntry, RecordError>)
    ensures
        trim_seq(input.label@).len() == 0 ==> (r matches Err(RecordError::ButlerWaypointLabelRequired) && final(entries)@
            == old(entries)@),
        trim_seq(input.label@).len() > 0 ==> (r matches Ok(e) && final(entries)@ == old(entries)@.push(e)
            && butler_waypoint_fields(e, input) && e.id == id && e.created_at == created_at),
{
    let label = trim(input.label.as_str());
    if label.as_str().is_empty() {
        return Err(RecordError::ButlerWaypointLabelRequired);
    }
    let e = ButlerWaypointEntry {
        id,
        label,
        category: normalize_waypoint_category(input.category.as_str()),
        bot_name: trim(input.bot_name.as_str()),
        chest_x: input.chest_x,
        chest_y: input.chest_y,
        chest_z: input.chest_z,
        created_at,
    };
    entries.push(e.duplicate());
    Ok(e)
}

/// Adds a Bank Butler destination with a fresh id, created now.
pub fn add_butler_waypoint(entries: &mut Vec<ButlerWaypointEntry>, input: NewButlerWaypointEntry) -> (r: Result<
    ButlerWaypointEntry,
    RecordError,
>)
    ensures
        trim_seq(input.label@).len() == 0 ==> (r matches Err(RecordError::ButlerWaypointLabelRequired) && final(entries)@
            == old(entries)@),
        trim_seq(input.label@).len() > 0 ==> (r matches Ok(e) && final(entries)@ == old(entries)@.push(e)
            && butler_waypoint_fields(e, input) && is_v4(e.id) && utc_stamp(e.created_at@)),
{
    let id = new_record_id();
    let now = now_rfc3339();
    add_butler_waypoint_with(entries, input, id, now)
}

/// Changes the Bank Butler destination with id `id`; refused when the label
/// is blank, `Ok(None)` when there is no such destination.
pub fn update_butler_waypoint(entries: &mut Vec<ButlerWaypointEntry>, id: u128, input: NewButlerWaypointEntry) -> (r:
    Result<Option<ButlerWaypointEntry>, RecordError>)
    ensures
        trim_seq(input.label@).len() == 0 ==> (r matches Err(RecordError::ButlerWaypointLabelRequired) && final(entries)@
            == old(entries)@),
        trim_seq(input.label@).len() > 0 ==> match first_with_id(old(entries)@, id, 0) {
            None => r matches Ok(None) && final(entries)@ == old(entries)@,
            Some(i) => r matches Ok(Some(e)) && final(entries)@ == old(entries)@.update(i, e) && butler_waypoint_fields(e, input)
                && e.id == old(entries)@[i].id && e.created_at == old(entries)@[i].created_at,
        },
{
    let label = trim(input.label.as_str());
    if label.as_str().is_empty() {
        return Err(RecordError::ButlerWaypointLabelRequired);
    }
    let i = match index_of_id(entries, id) {
        Some(i) => i,
        None => return Ok(None),
    };
    let e = ButlerWaypointEntry {
        id: entries[i].id,
        label,
        category: normalize_waypoint_category(input.category.as_str()),
        bot_name: trim(input.bot_name.as_str()),
        chest_x: input.chest_x,
        chest_y: input.chest_y,
        chest_z: input.chest_z,
        created_at: entries[i].created_at.clone(),
    };
    entries.set(i, e.duplicate());
    Ok(Some(e))
}

/// Removes the Bank Butler destinations with id `id`; whether one was removed.
pub fn delete_butler_waypoint(entries: &mut Vec<ButlerWaypointEntry>, id: u128) -> (r: bool)
    ensures
        final(entries)@ == without_id(old(entries)@, id),
        r == (final(entries)@.len() != old(entries)@.len()),
{
    remove_id(entries, id)
}

/// The Bank Butler destination with id `id`, if any.
pub fn find_butler_waypoint(entries: Vec<ButlerWaypointEntry>, id: u128) -> (r: Option<ButlerWaypointEntry>)
    ensures
        r == (match first_with_id(entries@, id, 0) {
            Some(i) => Some(entries@[i]),
            None => None::<ButlerWaypointEntry>,
        }),
{
    take_by_id(entries, id)
}

// ---------------------------------------------------------------------------
// Shop items
// ---------------------------------------------------------------------------
/// How a shop item is rewarded.
pub open spec fn reward_type_of(s: Seq<char>) -> Seq<char> {
    let k = user_key(s);
    if k == "discord_role"@ || k == "discord-role"@ || k == "role"@ {
        "discord_role"@
    } else if k == "permission"@ {
        "permission"@
    } else if k == "title"@ {
        "title"@
    } else if k == "custom"@ {
        "custom"@
    } else {
        "manual"@
    }
}

/// Cleans a reward type.
pub fn normalize_shop_reward_type(value: &str) -> (r: String)
    ensures
        r@ == reward_type_of(value@),
{
    let t = trim(value);
    let k = to_lower(t.as_str());
    let ks = k.as_str();
    if str_eq(ks, "discord_role") || str_eq(ks, "discord-role") || str_eq(ks, "role") {
        lit("discord_role")
    } else if str_eq(ks, "permission") {
        lit("permission")
    } else if str_eq(ks, "title") {
        lit("title")
    } else if str_eq(ks, "custom") {
        lit("custom")
    } else {
        lit("manual")
    }
}

/// Something the shop sells for Credits.
pub struct ShopItemEntry {
    pub id: u128,
    pub name: String,
    pub description: String,
    pub price: i64,
    pub command_hint: String,
    pub reward_type: String,
    pub discord_role_id: String,
    pub discord_role_name: String,
    pub enabled: bool,
    pub created_at: String,
}

/// A shop item as entered.
pub struct NewShopItemEntry {
    pub name: String,
    pub description: String,
    pub price: i64,
    pub command_hint: String,
    pub reward_type: String,
    pub discord_role_id: String,
    pub discord_role_name: String,
    pub enabled: bool,
}

impl Keyed for ShopItemEntry {
    open spec fn key(&self) -> u128 {
        self.id
    }

    fn record_id(&self) -> (r: u128) {
        self.id
    }
}

impl ShopItemEntry {
    /// A copy of this item.
    pub fn duplicate(&self) -> (r: ShopItemEntry)
        ensures
            r == *self,
    {
        ShopItemEntry {
            id: self.id,
            name: self.name.clone(),
            description: self.description.clone(),
            price: self.price,
            command_hint: self.command_hint.clone(),
            reward_type: self.reward_type.clone(),
            discord_role_id: self.discord_role_id.clone(),
            discord_role_name: self.discord_role_name.clone(),
            enabled: self.enabled,
            created_at: self.created_at.clone(),
        }
    }
}

/// The fields of a shop item that come from what was entered.
pub open spec fn shop_fields(e: ShopItemEntry, input: NewShopItemEntry) -> bool {
    &&& e.name@ == trim_seq(input.name@)
    &&& e.description@ == trim_seq(input.description@)
    &&& e.price == input.price
    &&& e.command_hint@ == trim_seq(input.command_hint@)
    &&& e.reward_type@ == reward_type_of(input.reward_type@)
    &&& e.discord_role_id@ == trim_seq(input.discord_role_id@)
    &&& e.discord_role_name@ == trim_seq(input.discord_role_name@)
    &&& e.enabled == input.enabled
}

/// Why a shop item is refused, if it is.
pub open spec fn shop_check(input: NewShopItemEntry) -> Option<RecordError> {
    if trim_seq(input.name@).len() == 0 {
        Some(RecordError::ShopItemNameRequired)
    } else if input.price <= 0 {
        Some(RecordError::ShopItemPriceTooLow)
    } else {
        None
    }
}

fn shop_item_from(input: NewShopItemEntry, name: String, id: u128, created_at: String) -> (e: ShopItemEntry)
    requires
        name@ == trim_seq(input.name@),
    ensures
        shop_fields(e, input),
        e.id == id,
        e.created_at == created_at,
{
    ShopItemEntry {
        id,
        name,
        description: trim(input.description.as_str()),
        price: input.price,
        command_hint: trim(input.command_hint.as_str()),
        reward_type: normalize_shop_reward_type(input.reward_type.as_str()),
        discord_role_id: trim(input.discord_role_id.as_str()),
        discord_role_name: trim(input.discord_role_name.as_str()),
        enabled: input.enabled,
        created_at,
    }
}

/// Adds a shop item with the given id and time; refused when the name is
/// blank or the price below 1.
pub fn add_shop_item_with(entries: &mut Vec<ShopItemEntry>, input: NewShopItemEntry, id: u128, created_at: String) -> (r:
    Result<ShopItemEntry, RecordError>)
    ensures
        shop_check(input) matches Some(err) ==> (r == Err::<ShopItemEntry, RecordError>(err) && final(entries)@
            == old(entries)@),
        shop_check(input) is None ==> (r matches Ok(e) && final(entries)@ == old(entries)@.push(e) && shop_fields(e, input)
            && e.id == id && e.created_at == created_at),
{
    let name = trim(input.name.as_str());
    if name.as_str().is_empty() {
        return Err(RecordError::ShopItemNameRequired);
    }
    if input.price <= 0 {
        return Err(RecordError::ShopItemPriceTooLow);
    }
    let e = shop_item_from(input, name, id, created_at);
    entries.push(e.duplicate());
    Ok(e)
}

/// Adds a shop item with a fresh id, created now.
pub fn add_shop_item(entries: &mut Vec<ShopItemEntry>, input: NewShopItemEntry) -> (r: Result<ShopItemEntry, RecordError>)
    ensures
        shop_check(input) matches Some(err) ==> (r == Err::<ShopItemEntry, RecordError>(err) && final(entries)@
            == old(entries)@),
        shop_check(input) is None ==> (r matches Ok(e) && final(entries)@ == old(entries)@.push(e) && shop_fields(e, input)
            && is_v4(e.id) && utc_stamp(e.created_at@)),
{
    let id = new_record_id();
    let now = now_rfc3339();
    add_shop_item_with(entries, input, id, now)
}

/// Changes the shop item with id `id`; refused as `add_shop_item` refuses,
/// `Ok(None)` when there is no such item.
pub fn update_shop_item(entries: &mut Vec<ShopItemEntry>, id: u128, input: NewShopItemEntry) -> (r: Result<
    Option<ShopItemEntry>,
    RecordError,
>)
    ensures
        shop_check(input) matches Some(err) ==> (r == Err::<Option<ShopItemEntry>, RecordError>(err) && final(entries)@
            == old(entries)@),
        shop_check(input) is None ==> match first_with_id(old(entries)@, id, 0) {
            None => r matches Ok(None) && final(entries)@ == old(entries)@,
            Some(i) => r matches Ok(Some(e)) && final(entries)@ == old(entries)@.update(i, e) && shop_fields(e, input)
                && e.id == old(entries)@[i].id && e.created_at == old(entries)@[i].created_at,
        },
{
    let name = trim(input.name.as_str());
    if name.as_str().is_empty() {
        return Err(RecordError::ShopItemNameRequired);
    }
    if input.price <= 0 {
        return Err(RecordError::ShopItemPriceTooLow);
    }
    let i = match index_of_id(entries, id) {
        Some(i) => i,
        None => return Ok(None),
    };
    let e = shop_item_from(input, name, entries[i].id, entries[i].created_at.clone());
    entries.set(i, e.duplicate());
    Ok(Some(e))
}

/// Removes the shop items with id `id`; whether one was removed.
pub fn delete_shop_item(entries: &mut Vec<ShopItemEntry>, id: u128) -> (r: bool)
    ensures
        final(entries)@ == without_id(old(entries)@, id),
        r == (final(entries)@.len() != old(entries)@.len()),
{
    remove_id(entries, id)
}

// ---------------------------------------------------------------------------
// Bounties
// ---------------------------------------------------------------------------
/// The status of a bounty once `_` and `-` read as spaces.
pub open spec fn status_of(s: Seq<char>) -> Seq<char> {
    let k = blank_out(user_key(s), "_-"@);
    if k == "progress"@ || k == "in progress"@ || k == "active"@ {
        "in_progress"@
    } else if k == "complete"@ || k == "completed"@ || k == "done"@ || k == "claimed"@ {
        "completed"@
    } else if k == "cancel"@ || k == "cancelled"@ || k == "canceled"@ {
        "cancelled"@
    } else {
        "open"@
    }
}

/// Cleans a bounty status.
pub fn normalize_bounty_status(value: &str) -> (r: String)
    ensures
        r@ == status_of(value@),
{
    let t = trim(value);
    let k = to_lower(t.as_str());
    let kv = chars_of(k.as_str());
    let b = blank_out_chars(&kv, "_-");
    if same_text(&b, "progress") || same_text(&b, "in progress") || same_text(&b, "active") {
        lit("in_progress")
    } else if same_text(&b, "complete") || same_text(&b, "completed") || same_text(&b, "done") || same_text(&b, "claimed") {
        lit("completed")
    } else if same_text(&b, "cancel") || same_text(&b, "cancelled") || same_text(&b, "canceled") {
        lit("cancelled")
    } else {
        lit("open")
    }
}

/// A bounty on a player.
pub struct BountyEntry {
    pub id: u128,
    pub target: String,
    pub reward: i64,
    pub posted_by: String,
    pub note: String,
    pub status: String,
    pub created_at: String,
}

/// A bounty as entered.
pub struct NewBountyEntry {
    pub target: String,
    pub reward: i64,
    pub note: String,
    pub status: String,
}

impl Keyed for BountyEntry {
    open spec fn key(&self) -> u128 {
        self.id
    }

    fn record_id(&self) -> (r: u128) {
        self.id
    }
}

impl BountyEntry {
    /// A copy of this bounty.
    pub fn duplicate(&self) -> (r: BountyEntry)
        ensures
            r == *self,
    {
        BountyEntry {
            id: self.id,
            target: self.target.clone(),
            reward: self.reward,
            posted_by: self.posted_by.clone(),
            note: self.note.clone(),
            status: self.status.clone(),
            created_at: self.created_at.clone(),
        }
    }
}

/// The fields of a bounty that come from what was entered.
pub open spec fn bounty_fields(e: BountyEntry, input: NewBountyEntry, posted_by: Seq<char>) -> bool {
    &&& e.target@ == trim_seq(input.target@)
    &&& e.reward == input.reward
    &&& e.posted_by@ == trim_seq(posted_by)
    &&& e.note@ == trim_seq(input.note@)
    &&& e.status@ == status_of(input.status@)
}

/// Why a bounty is refused, if it is.
pub open spec fn bounty_check(input: NewBountyEntry) -> Option<RecordError> {
    if trim_seq(input.target@).len() == 0 {
        Some(RecordError::BountyTargetRequired)
    } else if input.reward <= 0 {
        Some(RecordError::BountyRewardTooLow)
    } else {
        None
    }
}

/// Adds a bounty posted by `posted_by`, with the given id and time; refused
/// when the target is blank or the reward below 1.
pub fn add_bounty_with(
    entries: &mut Vec<BountyEntry>,
    input: NewBountyEntry,
    posted_by: String,
    id: u128,
    created_at: String,
) -> (r: Result<BountyEntry, RecordError>)
    ensures
        bounty_check(input) matches Some(err) ==> (r == Err::<BountyEntry, RecordError>(err) && final(entries)@
            == old(entries)@),
        bounty_check(input) is None ==> (r matches Ok(e) && final(entries)@ == old(entries)@.push(e) && bounty_fields(
            e,
            input,
            posted_by@,
        ) && e.id == id && e.created_at == created_at),
{
    let target = trim(input.target.as_str());
    if target.as_str().is_empty() {
        return Err(RecordError::BountyTargetRequired);
    }
    if input.reward <= 0 {
        return Err(RecordError::BountyRewardTooLow);
    }
    let e = BountyEntry {
        id,
        target,
        reward: input.reward,
        posted_by: trim(posted_by.as_str()),
        note: trim(input.note.as_str()),
        status: normalize_bounty_status(input.status.as_str()),
        created_at,
    };
    entries.push(e.duplicate());
    Ok(e)
}

/// Adds a bounty with a fresh id, created now.
pub fn add_bounty(entries: &mut Vec<BountyEntry>, input: NewBountyEntry, posted_by: String) -> (r: Result<
    BountyEntry,
    RecordError,
>)
    ensures
        bounty_check(input) matches Some(err) ==> (r == Err::<BountyEntry, RecordError>(err) && final(entries)@
            == old(entries)@),
        bounty_check(input) is None ==> (r matches Ok(e) && final(entries)@ == old(entries)@.push(e) && bounty_fields(
            e,
            input,
            posted_by@,
        ) && is_v4(e.id) && utc_stamp(e.created_at@)),
{
    let id = new_record_id();
    let now = now_rfc3339();
    add_bounty_with(entries, input, posted_by, id, now)
}

/// Changes the bounty with id `id`, now posted by `posted_by`; refused as
/// `add_bounty` refuses, `Ok(None)` when there is no such bounty.
pub fn update_bounty(entries: &mut Vec<BountyEntry>, id: u128, input: NewBountyEntry, posted_by: String) -> (r: Result<
    Option<BountyEntry>,
    RecordError,
>)
    ensures
        bounty_check(input) matches Some(err) ==> (r == Err::<Option<BountyEntry>, RecordError>(err) && final(entries)@
            == old(entries)@),
        bounty_check(input) is None ==> match first_with_id(old(entries)@, id, 0) {
            None => r matches Ok(None) && final(entries)@ == old(entries)@,
            Some(i) => r matches Ok(Some(e)) && final(entries)@ == old(entries)@.update(i, e) && bounty_fields(
                e,
                input,
                posted_by@,
            ) && e.id == old(entries)@[i].id && e.created_at == old(entries)@[i].created_at,
        },
{
    let target = trim(input.target.as_str());
    if target.as_str().is_empty() {
        return Err(RecordError::BountyTargetRequired);
    }
    if input.reward <= 0 {
        return Err(RecordError::BountyRewardTooLow);
    }
    let i = match index_of_id(entries, id) {
        Some(i) => i,
        None => return Ok(None),
    };
    let e = BountyEntry {
        id: entries[i].id,
        target,
        reward: input.reward,
        posted_by: trim(posted_by.as_str()),
        note: trim(input.note.as_str()),
        status: normalize_bounty_status(input.status.as_str()),
        created_at: entries[i].created_at.clone(),
    };
    entries.set(i, e.duplicate());
    Ok(Some(e))
}

/// Removes the bounties with id `id`; whether one was removed.
pub fn delete_bounty(entries: &mut Vec<BountyEntry>, id: u128) -> (r: bool)
    ensures
        final(entries)@ == without_id(old(entries)@, id),
        r == (final(entries)@.len() != old(entries)@.len()),
{
    remove_id(entries, id)
}

} // verus!
