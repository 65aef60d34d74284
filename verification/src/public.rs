//! The server records: named collections of free-form rows (JSON objects)
//! that owners edit from the command center, with the stamps that each add
//! and update leaves on a row.
use vstd::prelude::*;
use vstd::arithmetic::power::pow;
use crate::records::{is_v4, new_record_id, now_rfc3339, utc_stamp};
use crate::text::{append, lit, chars_of, string_of_all, contains_seq, contains_str, is_blank, lower_of, str_eq, to_lower, trim_seq};
use crate::users::{AppUser, UserRole};
use crate::access::{has_permission, user_has_permission};

verus! {

// ---------------------------------------------------------------------------
// Field values and rows
// ---------------------------------------------------------------------------
/// The value of one field of a row: a string, a boolean, an integer that fits
/// in `i64`, or any other JSON value kept as its JSON text.
pub enum JsonField {
    Text(String),
    Flag(bool),
    Int(i64),
    Other(String),
}

/// What a field holds, as plain values.
pub enum FieldView {
    Text(Seq<char>),
    Flag(bool),
    Int(i64),
    Other(Seq<char>),
}

impl View for JsonField {
    type V = FieldView;

    open spec fn view(&self) -> FieldView {
        match self {
            JsonField::Text(s) => FieldView::Text(s@),
            JsonField::Flag(b) => FieldView::Flag(*b),
            JsonField::Int(n) => FieldView::Int(*n),
            JsonField::Other(s) => FieldView::Other(s@),
        }
    }
}

impl JsonField {
    /// A copy of this value.
    pub fn duplicate(&self) -> (r: JsonField)
        ensures
            r@ == self@,
    {
        match self {
            JsonField::Text(s) => JsonField::Text(s.clone()),
            JsonField::Flag(b) => JsonField::Flag(*b),
            JsonField::Int(n) => JsonField::Int(*n),
            JsonField::Other(s) => JsonField::Other(s.clone()),
        }
    }
}

/// One field of a row.
pub struct RowField {
    pub key: String,
    pub value: JsonField,
}

/// The map that a list of fields describes (a later field wins).
pub open spec fn field_map(fields: Seq<RowField>) -> Map<Seq<char>, FieldView>
    decreases fields.len(),
{
    if fields.len() == 0 {
        Map::empty()
    } else {
        field_map(fields.drop_last()).insert(fields.last().key@, fields.last().value@)
    }
}

/// No key occurs twice.
pub open spec fn fields_unique(fields: Seq<RowField>) -> bool {
    forall|i: int, j: int|
        0 <= i < fields.len() && 0 <= j < fields.len() && i != j ==> #[trigger] fields[i].key@
            != #[trigger] fields[j].key@
}

proof fn lemma_field_map_dom(fields: Seq<RowField>, k: Seq<char>)
    ensures
        field_map(fields).dom().contains(k) <==> exists|i: int| 0 <= i < fields.len() && #[trigger] fields[i].key@ == k,
    decreases fields.len(),
{
    if fields.len() > 0 {
        lemma_field_map_dom(fields.drop_last(), k);
        if field_map(fields).dom().contains(k) && k != fields.last().key@ {
            let i = choose|i: int| 0 <= i < fields.drop_last().len() && #[trigger] fields.drop_last()[i].key@ == k;
            assert(fields[i].key@ == k);
        }
        if exists|i: int| 0 <= i < fields.len() && #[trigger] fields[i].key@ == k {
            let i = choose|i: int| 0 <= i < fields.len() && #[trigger] fields[i].key@ == k;
            if i < fields.len() - 1 {
                assert(fields.drop_last()[i].key@ == k);
            }
        }
    }
}

proof fn lemma_fields_unique_drop_last(fields: Seq<RowField>)
    requires
        fields_unique(fields),
        fields.len() > 0,
    ensures
        fields_unique(fields.drop_last()),
{
    let d = fields.drop_last();
    assert forall|a: int, b: int| 0 <= a < d.len() && 0 <= b < d.len() && a != b implies #[trigger] d[a].key@
        != #[trigger] d[b].key@ by {
        assert(d[a] == fields[a] && d[b] == fields[b]);
    }
}

proof fn lemma_field_map_value(fields: Seq<RowField>, i: int)
    requires
        fields_unique(fields),
        0 <= i < fields.len(),
    ensures
        field_map(fields).dom().contains(fields[i].key@),
        field_map(fields)[fields[i].key@] == fields[i].value@,
    decreases fields.len(),
{
    if i < fields.len() - 1 {
        let d = fields.drop_last();
        assert(d[i] == fields[i]);
        lemma_fields_unique_drop_last(fields);
        lemma_field_map_value(d, i);
        assert(fields[i].key@ != fields[fields.len() - 1].key@);
    }
}

proof fn lemma_field_map_update(fields: Seq<RowField>, i: int, f: RowField)
    requires
        fields_unique(fields),
        0 <= i < fields.len(),
        f.key@ == fields[i].key@,
    ensures
        field_map(fields.update(i, f)) == field_map(fields).insert(f.key@, f.value@),
    decreases fields.len(),
{
    let u = fields.update(i, f);
    let k = f.key@;
    if i == fields.len() - 1 {
        assert(u.drop_last() == fields.drop_last());
        assert(field_map(u) =~= field_map(fields).insert(k, f.value@));
    } else {
        let d = fields.drop_last();
        lemma_fields_unique_drop_last(fields);
        assert(d[i] == fields[i]);
        lemma_field_map_update(d, i, f);
        assert(u.drop_last() == d.update(i, f));
        assert(u.last() == fields.last());
        assert(fields.last().key@ != k);
        assert(field_map(u) =~= field_map(fields).insert(k, f.value@));
    }
}

/// One row of a collection: a JSON object, each key at most once.
pub struct PublicRow {
    fields: Vec<RowField>,
}

impl View for PublicRow {
    type V = Map<Seq<char>, FieldView>;

    closed spec fn view(&self) -> Map<Seq<char>, FieldView> {
        field_map(self.fields@)
    }
}

impl PublicRow {
    /// Well-formed: no key twice.
    pub closed spec fn wf(&self) -> bool {
        fields_unique(self.fields@)
    }

    /// The empty object.
    pub fn new() -> (r: PublicRow)
        ensures
            r.wf(),
            r@ == Map::<Seq<char>, FieldView>::empty(),
    {
        PublicRow { fields: Vec::new() }
    }

    fn index_of(&self, key: &str) -> (r: Option<usize>)
        requires
            self.wf(),
        ensures
            r matches Some(i) ==> i < self.fields.len() && self.fields@[i as int].key@ == key@,
            r is None ==> !self@.dom().contains(key@),
    {
        let mut i: usize = 0;
        while i < self.fields.len()
            invariant
                i <= self.fields.len(),
                forall|j: int| 0 <= j < i ==> self.fields@[j].key@ != key@,
            decreases self.fields.len() - i,
        {
            if str_eq(self.fields[i].key.as_str(), key) {
                return Some(i);
            }
            i += 1;
        }
        proof {
            lemma_field_map_dom(self.fields@, key@);
        }
        None
    }

    /// The value under `key` (a copy), if the row has that key.
    pub fn get(&self, key: &str) -> (r: Option<JsonField>)
        requires
            self.wf(),
        ensures
            r is Some <==> self@.dom().contains(key@),
            r matches Some(f) ==> f@ == self@[key@],
    {
        match self.index_of(key) {
            Some(i) => {
                proof {
                    lemma_field_map_value(self.fields@, i as int);
                }
                Some(self.fields[i].value.duplicate())
            },
            None => None,
        }
    }

    /// Sets `key` to `value`.
    pub fn set(&mut self, key: &str, value: JsonField)
        requires
            old(self).wf(),
        ensures
            final(self).wf(),
            final(self)@ == old(self)@.insert(key@, value@),
    {
        let f = RowField { key: key.to_owned(), value };
        match self.index_of(key) {
            Some(i) => {
                proof {
                    lemma_field_map_update(self.fields@, i as int, f);
                }
                let ghost before = self.fields@;
                self.fields.set(i, f);
                proof {
                    assert(self.fields@ == before.update(i as int, f));
                    assert forall|a: int, b: int| 0 <= a < self.fields@.len() && 0 <= b < self.fields@.len() && a != b
                        implies #[trigger] self.fields@[a].key@ != #[trigger] self.fields@[b].key@ by {
                        if a != i && b != i {
                            assert(self.fields@[a] == before[a] && self.fields@[b] == before[b]);
                        } else if a == i {
                            assert(self.fields@[b] == before[b]);
                        } else {
                            assert(self.fields@[a] == before[a]);
                        }
                    }
                }
            },
            None => {
                let ghost before = self.fields@;
                self.fields.push(f);
                proof {
                    assert(self.fields@.drop_last() == before);
                    lemma_field_map_dom(before, key@);
                    assert forall|a: int, b: int| 0 <= a < self.fields@.len() && 0 <= b < self.fields@.len() && a != b
                        implies #[trigger] self.fields@[a].key@ != #[trigger] self.fields@[b].key@ by {
                        if a < before.len() && b < before.len() {
                            assert(self.fields@[a] == before[a] && self.fields@[b] == before[b]);
                        } else if a < before.len() {
                            assert(self.fields@[a] == before[a]);
                            assert(before[a].key@ != key@);
                        } else {
                            assert(self.fields@[b] == before[b]);
                            assert(before[b].key@ != key@);
                        }
                    }
                }
            },
        }
    }

    /// Sets `key` to `value` unless the row already has `key`.
    pub fn set_if_absent(&mut self, key: &str, value: JsonField)
        requires
            old(self).wf(),
        ensures
            final(self).wf(),
            final(self)@ == put_absent(old(self)@, key@, value@),
    {
        match self.index_of(key) {
            Some(i) => {
                proof {
                    lemma_field_map_value(self.fields@, i as int);
                }
            },
            None => {
                self.set(key, value);
            },
        }
    }

    /// A copy of the row.
    pub fn duplicate(&self) -> (r: PublicRow)
        requires
            self.wf(),
        ensures
            r.wf(),
            r@ == self@,
    {
        let mut fields: Vec<RowField> = Vec::new();
        let mut i: usize = 0;
        while i < self.fields.len()
            invariant
                i <= self.fields.len(),
                fields@.len() == i,
                forall|j: int| 0 <= j < i ==> (#[trigger] fields@[j]).key@ == self.fields@[j].key@
                    && fields@[j].value@ == self.fields@[j].value@,
            decreases self.fields.len() - i,
        {
            fields.push(RowField { key: self.fields[i].key.clone(), value: self.fields[i].value.duplicate() });
            i += 1;
        }
        proof {
            lemma_field_map_pointwise(fields@, self.fields@);
        }
        PublicRow { fields }
    }

    /// The fields as `(key, value)` pairs, each key once, for writing out.
    pub fn to_pairs(&self) -> (r: Vec<(String, JsonField)>)
        requires
            self.wf(),
        ensures
            forall|i: int, j: int| 0 <= i < r@.len() && 0 <= j < r@.len() && i != j ==> #[trigger] r@[i].0@
                != #[trigger] r@[j].0@,
            forall|i: int| 0 <= i < r@.len() ==> self@.dom().contains((#[trigger] r@[i]).0@) && self@[r@[i].0@]
                == r@[i].1@,
            forall|k: Seq<char>| #[trigger] self@.dom().contains(k) ==> exists|i: int| 0 <= i < r@.len() && (#[trigger] r@[i]).0@ == k,
    {
        let mut r: Vec<(String, JsonField)> = Vec::new();
        let mut i: usize = 0;
        while i < self.fields.len()
            invariant
                i <= self.fields.len(),
                r@.len() == i,
                forall|j: int| 0 <= j < i ==> (#[trigger] r@[j]).0@ == self.fields@[j].key@ && r@[j].1@
                    == self.fields@[j].value@,
            decreases self.fields.len() - i,
        {
            r.push((self.fields[i].key.clone(), self.fields[i].value.duplicate()));
            i += 1;
        }
        proof {
            assert forall|i: int| 0 <= i < r@.len() implies self@.dom().contains((#[trigger] r@[i]).0@) && self@[r@[i].0@]
                == r@[i].1@ by {
                lemma_field_map_value(self.fields@, i);
            }
            assert forall|k: Seq<char>| #[trigger] self@.dom().contains(k) implies exists|i: int|
                0 <= i < r@.len() && (#[trigger] r@[i]).0@ == k by {
                lemma_field_map_dom(self.fields@, k);
                let i = choose|i: int| 0 <= i < self.fields@.len() && #[trigger] self.fields@[i].key@ == k;
                assert(r@[i].0@ == k);
            }
        }
        r
    }

    /// The row that `(key, value)` pairs describe; a later pair for the same
    /// key wins, as when a JSON object is read.
    pub fn from_pairs(pairs: Vec<(String, JsonField)>) -> (r: PublicRow)
        ensures
            r.wf(),
            r@ == pairs_field_map(pairs@),
    {
        let mut r = PublicRow::new();
        let mut i: usize = 0;
        while i < pairs.len()
            invariant
                i <= pairs.len(),
                r.wf(),
                r@ == pairs_field_map(pairs@.take(i as int)),
            decreases pairs.len() - i,
        {
            let v = pairs[i].1.duplicate();
            r.set(pairs[i].0.as_str(), v);
            assert(pairs@.take(i + 1).drop_last() == pairs@.take(i as int));
            i += 1;
        }
        assert(pairs@.take(pairs@.len() as int) == pairs@);
        r
    }
}

proof fn lemma_field_map_pointwise(a: Seq<RowField>, b: Seq<RowField>)
    requires
        a.len() == b.len(),
        forall|j: int| 0 <= j < a.len() ==> (#[trigger] a[j]).key@ == b[j].key@ && a[j].value@ == b[j].value@,
    ensures
        field_map(a) == field_map(b),
        fields_unique(b) ==> fields_unique(a),
    decreases a.len(),
{
    if a.len() > 0 {
        lemma_field_map_pointwise(a.drop_last(), b.drop_last());
        assert(a.last().key@ == b.last().key@);
        if fields_unique(b) {
            assert forall|i: int, j: int| 0 <= i < a.len() && 0 <= j < a.len() && i != j implies #[trigger] a[i].key@
                != #[trigger] a[j].key@ by {
                assert(b[i].key@ != b[j].key@);
            }
        }
    }
}

/// The map that `(key, value)` pairs describe (a later pair wins).
pub open spec fn pairs_field_map(pairs: Seq<(String, JsonField)>) -> Map<Seq<char>, FieldView>
    decreases pairs.len(),
{
    if pairs.len() == 0 {
        Map::empty()
    } else {
        pairs_field_map(pairs.drop_last()).insert(pairs.last().0@, pairs.last().1@)
    }
}

/// `m` with `k` set to `v`, unless `m` already has `k`.
pub open spec fn put_absent(m: Map<Seq<char>, FieldView>, k: Seq<char>, v: FieldView) -> Map<Seq<char>, FieldView> {
    if m.dom().contains(k) {
        m
    } else {
        m.insert(k, v)
    }
}

/// The string under `k`, if `m` holds a string there (`get(k).and_then(as_str)`).
pub open spec fn text_of(m: Map<Seq<char>, FieldView>, k: Seq<char>) -> Option<Seq<char>> {
    if m.dom().contains(k) {
        match m[k] {
            FieldView::Text(t) => Some(t),
            _ => None,
        }
    } else {
        None
    }
}

/// The boolean under `k`, or `true` when `m` holds no boolean there.
pub open spec fn flag_or_true(m: Map<Seq<char>, FieldView>, k: Seq<char>) -> bool {
    if m.dom().contains(k) {
        match m[k] {
            FieldView::Flag(b) => b,
            _ => true,
        }
    } else {
        true
    }
}

/// The integer under `k`, or 0 when `m` holds no integer there.
pub open spec fn int_or_zero(m: Map<Seq<char>, FieldView>, k: Seq<char>) -> i64 {
    if m.dom().contains(k) {
        match m[k] {
            FieldView::Int(n) => n,
            _ => 0,
        }
    } else {
        0
    }
}

impl PublicRow {
    /// The string under `key`, if the row holds a string there.
    pub fn text(&self, key: &str) -> (r: Option<String>)
        requires
            self.wf(),
        ensures
            r matches Some(t) ==> text_of(self@, key@) == Some(t@),
            r is None ==> text_of(self@, key@) is None,
    {
        match self.get(key) {
            Some(JsonField::Text(t)) => Some(t),
            _ => None,
        }
    }

    /// The boolean under `key`, or `true` when there is none.
    pub fn flag_or_true(&self, key: &str) -> (r: bool)
        requires
            self.wf(),
        ensures
            r == flag_or_true(self@, key@),
    {
        match self.get(key) {
            Some(JsonField::Flag(b)) => b,
            _ => true,
        }
    }

    /// The integer under `key`, or 0 when there is none.
    pub fn int_or_zero(&self, key: &str) -> (r: i64)
        requires
            self.wf(),
        ensures
            r == int_or_zero(self@, key@),
    {
        match self.get(key) {
            Some(JsonField::Int(n)) => n,
            _ => 0,
        }
    }
}


// ---------------------------------------------------------------------------
// Collections
// ---------------------------------------------------------------------------
/// The names of the server collections, in menu order.
pub open spec fn collection_names() -> Seq<Seq<char>> {
    seq![
        "chronicles"@, "library"@, "decrees"@, "historical_events"@, "timeline"@, "archive_backups"@,
        "players"@, "factions"@, "intelligence_reports"@, "sightings"@, "watchlist"@, "contacts"@,
        "regions"@, "roads"@, "portals"@, "ice_highways"@, "routes"@, "regional_ownership"@,
        "admins"@, "former_admins"@, "former_archadmins"@, "founders"@, "benefactors"@, "lineage"@, "mentors"@,
        "relics"@, "artifacts"@, "banners"@, "codices"@, "wonders"@,
        "proposals"@, "votes"@, "decisions"@, "census"@, "citizens"@, "ranks"@, "promotions"@,
        "mail"@, "notifications"@, "news"@, "discoveries"@, "explorer_rankings"@, "research"@, "scholar_contributions"@,
        "id_cards"@, "certificates"@, "archive_scans"@, "pearl_monitor"@, "assets"@, "emergency_log"@,
        "departments"@, "budgets"@, "financial_reports"@, "faqs"@, "login_greeters"@,
    ]
}

/// The display label of each collection, in the order of `collection_names`.
pub open spec fn collection_labels() -> Seq<Seq<char>> {
    seq![
        "Chronicles"@, "Server Library"@, "Server Decrees"@, "Historical Events"@, "Timeline"@, "Archive Backups"@,
        "Player Registry"@, "Faction Registry"@, "Intelligence Reports"@, "Sightings"@, "Watchlist"@, "Contact Records"@,
        "Regions"@, "Road Registry"@, "Portal Registry"@, "Ice Highway Registry"@, "Route Documentation"@, "Regional Ownership"@,
        "Hall of Admins"@, "Former Admins"@, "Former Senior Admins"@, "Founders"@, "Benefactors"@, "Lineage Tree"@, "Mentor Relationships"@,
        "Relics"@, "Artifacts"@, "Banners"@, "Codices"@, "World Wonders"@,
        "Council Proposals"@, "Votes"@, "Decision Archive"@, "Census"@, "Citizen Registry"@, "Rank Management"@, "Promotions"@,
        "Server Postal Service"@, "Notifications"@, "News Network"@, "Discoveries"@, "Explorer Rankings"@, "Research Entries"@, "Scholar Contributions"@,
        "Server ID Cards"@, "Server Certificates"@, "Archive Scanner"@, "Pearl Network Monitor"@, "Server Asset Registry"@, "Emergency Log"@,
        "Department Accounts"@, "Budget Allocation"@, "Financial Reports"@, "FAQ Database"@, "Login Greeter"@,
    ]
}

fn collection_label_list() -> (r: Vec<&'static str>)
    ensures
        r@.map_values(|s: &str| s@) == collection_labels(),
{
    let r = vec![
        "Chronicles", "Server Library", "Server Decrees", "Historical Events", "Timeline", "Archive Backups",
        "Player Registry", "Faction Registry", "Intelligence Reports", "Sightings", "Watchlist", "Contact Records",
        "Regions", "Road Registry", "Portal Registry", "Ice Highway Registry", "Route Documentation", "Regional Ownership",
        "Hall of Admins", "Former Admins", "Former Senior Admins", "Founders", "Benefactors", "Lineage Tree", "Mentor Relationships",
        "Relics", "Artifacts", "Banners", "Codices", "World Wonders",
        "Council Proposals", "Votes", "Decision Archive", "Census", "Citizen Registry", "Rank Management", "Promotions",
        "Server Postal Service", "Notifications", "News Network", "Discoveries", "Explorer Rankings", "Research Entries", "Scholar Contributions",
        "Server ID Cards", "Server Certificates", "Archive Scanner", "Pearl Network Monitor", "Server Asset Registry", "Emergency Log",
        "Department Accounts", "Budget Allocation", "Financial Reports", "FAQ Database", "Login Greeter",
    ];
    assert(r@.map_values(|s: &str| s@) =~= collection_labels());
    r
}

/// The server collections, in menu order.
pub fn public_collections() -> (r: Vec<&'static str>)
    ensures
        r@.map_values(|s: &str| s@) == collection_names(),
{
    let r = vec![
        "chronicles", "library", "decrees", "historical_events", "timeline", "archive_backups",
        "players", "factions", "intelligence_reports", "sightings", "watchlist", "contacts",
        "regions", "roads", "portals", "ice_highways", "routes", "regional_ownership",
        "admins", "former_admins", "former_archadmins", "founders", "benefactors", "lineage", "mentors",
        "relics", "artifacts", "banners", "codices", "wonders",
        "proposals", "votes", "decisions", "census", "citizens", "ranks", "promotions",
        "mail", "notifications", "news", "discoveries", "explorer_rankings", "research", "scholar_contributions",
        "id_cards", "certificates", "archive_scans", "pearl_monitor", "assets", "emergency_log",
        "departments", "budgets", "financial_reports", "faqs", "login_greeters",
    ];
    assert(r@.map_values(|s: &str| s@) =~= collection_names());
    r
}

/// The file a server record collection is stored in:
/// "public_<collection>.json", with every '/' of the name made '_'.
pub fn public_file(collection: &str) -> (r: String)
    ensures
        r@ == "public_"@ + collection@.map_values(|c: char| if c == '/' { '_' } else { c }) + ".json"@,
{
    let v = chars_of(collection);
    let mut out: Vec<char> = Vec::new();
    let mut i: usize = 0;
    while i < v.len()
        invariant
            i <= v.len(),
            v@ == collection@,
            out@ == v@.take(i as int).map_values(|c: char| if c == '/' { '_' } else { c }),
        decreases v.len() - i,
    {
        let c = v[i];
        out.push(if c == '/' { '_' } else { c });
        i += 1;
        assert(out@ =~= v@.take(i as int).map_values(|c: char| if c == '/' { '_' } else { c }));
    }
    assert(v@.take(v.len() as int) == v@);
    let mut s = lit("public_");
    append(&mut s, string_of_all(&out).as_str());
    append(&mut s, ".json");
    s
}

/// Whether `name` is one of the server collections.
pub fn allowed_public_collection(name: &str) -> (r: bool)
    ensures
        r == collection_names().contains(name@),
{
    let names = public_collections();
    let ghost sv = names@.map_values(|s: &str| s@);
    let mut i: usize = 0;
    while i < names.len()
        invariant
            i <= names.len(),
            sv == names@.map_values(|s: &str| s@),
            sv == collection_names(),
            forall|j: int| 0 <= j < i ==> sv[j] != name@,
        decreases names.len() - i,
    {
        if str_eq(names[i], name) {
            assert(sv[i as int] == name@);
            return true;
        }
        i += 1;
    }
    proof {
        if sv.contains(name@) {
            let j = choose|j: int| 0 <= j < sv.len() && sv[j] == name@;
            assert(sv[j] != name@);
        }
    }
    false
}

/// The label of the first collection named `n` at or after position `i`;
/// "Server Records" when there is none.
pub open spec fn label_from(n: Seq<char>, i: int) -> Seq<char>
    decreases collection_names().len() - i,
{
    if i < 0 || i >= collection_names().len() {
        "Server Records"@
    } else if collection_names()[i] == n {
        collection_labels()[i]
    } else {
        label_from(n, i + 1)
    }
}

/// The display label of a collection; "Server Records" for an unknown name.
pub fn public_collection_label(name: &str) -> (r: &'static str)
    ensures
        r@ == label_from(name@, 0),
{
    let names = public_collections();
    let labels = collection_label_list();
    let ghost sv = names@.map_values(|s: &str| s@);
    let ghost lv = labels@.map_values(|s: &str| s@);
    assert(labels@.len() == lv.len() && names@.len() == sv.len());
    let mut i: usize = 0;
    while i < names.len()
        invariant
            i <= names.len(),
            sv == names@.map_values(|s: &str| s@),
            lv == labels@.map_values(|s: &str| s@),
            sv == collection_names(),
            lv == collection_labels(),
            labels@.len() == names@.len(),
            label_from(name@, 0) == label_from(name@, i as int),
        decreases names.len() - i,
    {
        if str_eq(names[i], name) {
            assert(sv[i as int] == name@);
            assert(lv[i as int] == labels@[i as int]@);
            return labels[i];
        }
        i += 1;
    }
    "Server Records"
}

/// Server records are readable by owners and by users with the "public" or
/// "archive" permission.
pub open spec fn can_read_records(user: AppUser) -> bool {
    user.role == UserRole::Owner || has_permission(user, "public"@) || has_permission(user, "archive"@)
}

/// A collection is writable by owners, by users with the "public_admin"
/// permission, and by users with "<collection>:write".
pub open spec fn can_write_records(user: AppUser, collection: Seq<char>) -> bool {
    user.role == UserRole::Owner || has_permission(user, "public_admin"@) || has_permission(
        user,
        collection + ":write"@,
    )
}

/// Whether `user` may read the server records.
pub fn require_public_read(user: &AppUser, collection: &str) -> (r: bool)
    ensures
        r == can_read_records(*user),
{
    user.role == UserRole::Owner || user_has_permission(user, "public") || user_has_permission(user, "archive")
}

/// Whether `user` may add, edit and delete rows of `collection`.
pub fn require_public_write(user: &AppUser, collection: &str) -> (r: bool)
    ensures
        r == can_write_records(*user, collection@),
{
    if user.role == UserRole::Owner || user_has_permission(user, "public_admin") {
        return true;
    }
    let mut p = lit(collection);
    append(&mut p, ":write");
    user_has_permission(user, p.as_str())
}

/// The `(name, label)` of each collection that `user` may read, in menu order.
pub fn readable_collections(user: &AppUser) -> (r: Vec<(&'static str, &'static str)>)
    ensures
        can_read_records(*user) ==> r@.len() == collection_names().len(),
        !can_read_records(*user) ==> r@.len() == 0,
        forall|i: int| 0 <= i < r@.len() ==> (#[trigger] r@[i]).0@ == collection_names()[i] && r@[i].1@
            == label_from(collection_names()[i], 0),
{
    let names = public_collections();
    let ghost sv = names@.map_values(|s: &str| s@);
    let mut r: Vec<(&'static str, &'static str)> = Vec::new();
    let mut i: usize = 0;
    while i < names.len()
        invariant
            i <= names.len(),
            sv == names@.map_values(|s: &str| s@),
            sv == collection_names(),
            can_read_records(*user) ==> r@.len() == i,
            !can_read_records(*user) ==> r@.len() == 0,
            forall|j: int| 0 <= j < r@.len() ==> (#[trigger] r@[j]).0@ == collection_names()[j] && r@[j].1@
                == label_from(collection_names()[j], 0),
        decreases names.len() - i,
    {
        if require_public_read(user, names[i]) {
            let label = public_collection_label(names[i]);
            assert(sv[i as int] == names@[i as int]@);
            r.push((names[i], label));
        }
        i += 1;
    }
    r
}

/// A search query matches a row, given the row's JSON text: the lowercased
/// query is not blank and occurs in the lowercased text.
pub fn record_matches_query(row_json: &str, query: &str) -> (r: bool)
    ensures
        r == (trim_seq(lower_of(query@)).len() > 0 && contains_seq(lower_of(row_json@), lower_of(query@), false)),
{
    let q = to_lower(query);
    if is_blank(q.as_str()) {
        return false;
    }
    let t = chars_of(to_lower(row_json).as_str());
    contains_str(&t, q.as_str(), false)
}

// ---------------------------------------------------------------------------
// Stamping, adding, updating and deleting rows
// ---------------------------------------------------------------------------
/// What a client sends as a row: an object, or any other single value.
pub enum PublicValue {
    Object(PublicRow),
    Single(JsonField),
}

/// The value is well-formed.
pub open spec fn value_wf(v: PublicValue) -> bool {
    match v {
        PublicValue::Object(r) => r.wf(),
        PublicValue::Single(_) => true,
    }
}

/// The object that a value stands for: an object as it is, any other value
/// under the key "value".
pub open spec fn value_map(v: PublicValue) -> Map<Seq<char>, FieldView> {
    match v {
        PublicValue::Object(r) => r@,
        PublicValue::Single(f) => Map::<Seq<char>, FieldView>::empty().insert("value"@, f@),
    }
}

/// The row after stamping: a new row gets an id, a creation time and a
/// creator unless it has them; every stamped row gets the update time and
/// the updater.
pub open spec fn touch_spec(
    m: Map<Seq<char>, FieldView>,
    user: Seq<char>,
    created: bool,
    id: Seq<char>,
    now: Seq<char>,
) -> Map<Seq<char>, FieldView> {
    let m1 = if created {
        put_absent(
            put_absent(put_absent(m, "id"@, FieldView::Text(id)), "created_at"@, FieldView::Text(now)),
            "created_by"@,
            FieldView::Text(user),
        )
    } else {
        m
    };
    m1.insert("updated_at"@, FieldView::Text(now)).insert("updated_by"@, FieldView::Text(user))
}

/// The value as an object row.
pub fn value_to_row(v: PublicValue) -> (r: PublicRow)
    requires
        value_wf(v),
    ensures
        r.wf(),
        r@ == value_map(v),
{
    match v {
        PublicValue::Object(row) => row,
        PublicValue::Single(f) => {
            let mut row = PublicRow::new();
            row.set("value", f);
            row
        },
    }
}

/// Stamps a row with the given id (used only if a new row has none) and time.
pub fn touched_row(v: PublicValue, user: &str, created: bool, id: &str, now: &str) -> (r: PublicRow)
    requires
        value_wf(v),
    ensures
        r.wf(),
        r@ == touch_spec(value_map(v), user@, created, id@, now@),
{
    let mut row = value_to_row(v);
    if created {
        row.set_if_absent("id", JsonField::Text(id.to_owned()));
        row.set_if_absent("created_at", JsonField::Text(now.to_owned()));
        row.set_if_absent("created_by", JsonField::Text(user.to_owned()));
    }
    row.set("updated_at", JsonField::Text(now.to_owned()));
    row.set("updated_by", JsonField::Text(user.to_owned()));
    row
}

/// The lowercase hexadecimal digit for `n` in `0..16`.
pub open spec fn hex_digit(n: int) -> char {
    if n < 10 {
        (48 + n) as char
    } else {
        (87 + n) as char
    }
}

/// The hyphenated text of a UUID given as its 128-bit big-endian value:
/// 32 lowercase hex digits, most significant first, in groups 8-4-4-4-12.
pub open spec fn uuid_hyphenated(v: u128) -> Seq<char> {
    Seq::new(
        36,
        |i: int|
            if i == 8 || i == 13 || i == 18 || i == 23 {
                '-'
            } else {
                let k = if i < 8 {
                    i
                } else if i < 13 {
                    i - 1
                } else if i < 18 {
                    i - 2
                } else if i < 23 {
                    i - 3
                } else {
                    i - 4
                };
                hex_digit((v as int / pow(16, (31 - k) as nat)) % 16)
            },
    )
}

/// Calls `uuid::Uuid::from_u128(id).to_string()`: the `Display` of a UUID
/// is its hyphenated lowercase form, and `from_u128` reads the value
/// big-endian.
#[verifier::external_body]
pub(crate) fn uuid_text(id: u128) -> (r: String)
    ensures
        r@ == uuid_hyphenated(id),
{
    uuid::Uuid::from_u128(id).to_string()
}

/// Stamps a row with a fresh random id (if a new row has none) and the
/// current time.
pub fn public_touch(v: PublicValue, user: &str, created: bool) -> (r: PublicRow)
    requires
        value_wf(v),
    ensures
        r.wf(),
        exists|id: u128, now: Seq<char>|
            is_v4(id) && utc_stamp(now) && r@ == touch_spec(value_map(v), user@, created, uuid_hyphenated(id), now),
{
    let now = now_rfc3339();
    let n = new_record_id();
    let id = uuid_text(n);
    let r = touched_row(v, user, created, id.as_str(), now.as_str());
    assert(r@ == touch_spec(value_map(v), user@, created, uuid_hyphenated(n), now@));
    r
}

/// The objects that a list of rows holds.
pub open spec fn rows_view(s: Seq<PublicRow>) -> Seq<Map<Seq<char>, FieldView>> {
    s.map_values(|r: PublicRow| r@)
}

/// Every row is well-formed.
pub open spec fn rows_wf(s: Seq<PublicRow>) -> bool {
    forall|i: int| 0 <= i < s.len() ==> (#[trigger] s[i]).wf()
}

/// Adds a stamped new row at the end of `rows` and returns it.
pub fn public_add(rows: &mut Vec<PublicRow>, v: PublicValue, user: &str) -> (r: PublicRow)
    requires
        rows_wf(old(rows)@),
        value_wf(v),
    ensures
        r.wf(),
        rows_wf(final(rows)@),
        rows_view(final(rows)@) == rows_view(old(rows)@).push(r@),
        exists|id: u128, now: Seq<char>|
            is_v4(id) && utc_stamp(now) && r@ == touch_spec(value_map(v), user@, true, uuid_hyphenated(id), now),
{
    let row = public_touch(v, user, true);
    let copy = row.duplicate();
    let ghost before = rows@;
    rows.push(copy);
    assert(rows_view(rows@) =~= rows_view(before).push(row@));
    row
}

/// Index of the first row whose "id" is the string `id`, at or after `i`.
pub open spec fn first_with_text_id(s: Seq<Map<Seq<char>, FieldView>>, id: Seq<char>, i: int) -> Option<int>
    decreases s.len() - i,
{
    if i < 0 || i >= s.len() {
        None
    } else if text_of(s[i], "id"@) == Some(id) {
        Some(i)
    } else {
        first_with_text_id(s, id, i + 1)
    }
}

/// The row that an update leaves: the stamped new value, keeping the id.
pub open spec fn updated_spec(
    m: Map<Seq<char>, FieldView>,
    user: Seq<char>,
    id: Seq<char>,
    now: Seq<char>,
) -> Map<Seq<char>, FieldView> {
    touch_spec(m, user, false, id, now).insert("id"@, FieldView::Text(id))
}

/// What an update of the row with id `id` by the object `m` at time `now`
/// leaves: the first row with that id replaced and returned, or, when there
/// is none, `None` and the rows as they were.
pub open spec fn update_outcome(
    before: Seq<PublicRow>,
    after: Seq<PublicRow>,
    id: Seq<char>,
    m: Map<Seq<char>, FieldView>,
    user: Seq<char>,
    now: Seq<char>,
    r: Option<PublicRow>,
) -> bool {
    match first_with_text_id(rows_view(before), id, 0) {
        Some(i) => r matches Some(row) && row.wf() && row@ == updated_spec(m, user, id, now) && rows_view(after)
            == rows_view(before).update(i, row@),
        None => r is None && after == before,
    }
}

/// Replaces the first row whose id is `id` by the stamped value `v` (time
/// `now`), keeping the id, and returns the new row; `None`, with `rows`
/// unchanged, when no row has that id.
pub fn public_update_at(rows: &mut Vec<PublicRow>, id: &str, v: PublicValue, user: &str, now: &str) -> (r: Option<
    PublicRow,
>)
    requires
        rows_wf(old(rows)@),
        value_wf(v),
    ensures
        rows_wf(final(rows)@),
        update_outcome(old(rows)@, final(rows)@, id@, value_map(v), user@, now@, r),
{
    let ghost s = rows_view(rows@);
    let ghost orig = rows@;
    let mut i: usize = 0;
    while i < rows.len()
        invariant
            i <= rows.len(),
            rows@ == orig,
            orig == old(rows)@,
            s == rows_view(orig),
            rows_wf(rows@),
            value_wf(v),
            first_with_text_id(s, id@, 0) == first_with_text_id(s, id@, i as int),
        decreases rows.len() - i,
    {
        let found = match rows[i].text("id") {
            Some(t) => str_eq(t.as_str(), id),
            None => false,
        };
        assert(s[i as int] == rows@[i as int]@);
        if found {
            assert(text_of(s[i as int], "id"@) == Some(id@));
            assert(first_with_text_id(s, id@, i as int) == Some(i as int));
            let mut row = touched_row(v, user, false, id, now);
            row.set("id", JsonField::Text(id.to_owned()));
            let copy = row.duplicate();
            let ghost before = rows@;
            rows.set(i, copy);
            proof {
                assert(rows_view(rows@) =~= s.update(i as int, row@));
                assert(row@ == updated_spec(value_map(v), user@, id@, now@));
                assert forall|j: int| 0 <= j < rows@.len() implies (#[trigger] rows@[j]).wf() by {
                    if j != i {
                        assert(rows@[j] == before[j]);
                    }
                }
            }
            return Some(row);
        }
        i += 1;
    }
    None
}

/// Replaces the row with id `id` by the stamped value `v` at the current
/// time; see `public_update_at`.
pub fn public_update(rows: &mut Vec<PublicRow>, id: &str, v: PublicValue, user: &str) -> (r: Option<PublicRow>)
    requires
        rows_wf(old(rows)@),
        value_wf(v),
    ensures
        rows_wf(final(rows)@),
        exists|now: Seq<char>| utc_stamp(now) && #[trigger] update_outcome(old(rows)@, final(rows)@, id@, value_map(v), user@, now, r),
{
    let now = now_rfc3339();
    public_update_at(rows, id, v, user, now.as_str())
}

/// Keeps the rows whose id is not the string `id`.
pub open spec fn id_other_than(id: Seq<char>) -> spec_fn(Map<Seq<char>, FieldView>) -> bool {
    |m: Map<Seq<char>, FieldView>| text_of(m, "id"@) != Some(id)
}

/// The record that a deletion leaves in the emergency log.
pub open spec fn deletion_record(collection: Seq<char>, id: Seq<char>) -> Map<Seq<char>, FieldView> {
    Map::<Seq<char>, FieldView>::empty().insert("kind"@, FieldView::Text("delete"@)).insert(
        "collection"@,
        FieldView::Text(collection),
    ).insert("record_id"@, FieldView::Text(id))
}

/// The log entry for deleting `id` from `collection`.
pub fn deletion_entry(collection: &str, id: &str) -> (r: PublicValue)
    ensures
        value_wf(r),
        value_map(r) == deletion_record(collection@, id@),
{
    let mut row = PublicRow::new();
    row.set("kind", JsonField::Text("delete".to_owned()));
    row.set("collection", JsonField::Text(collection.to_owned()));
    row.set("record_id", JsonField::Text(id.to_owned()));
    PublicValue::Object(row)
}

/// Removes every row whose id is `id`. When any was removed, the deletion
/// is added to the emergency log `log` as a new stamped row, and the result
/// is `true`; otherwise both lists stay as they are.
pub fn public_delete(rows: &mut Vec<PublicRow>, log: &mut Vec<PublicRow>, collection: &str, id: &str, user: &str) -> (r:
    bool)
    requires
        rows_wf(old(rows)@),
        rows_wf(old(log)@),
    ensures
        rows_wf(final(rows)@),
        rows_wf(final(log)@),
        rows_view(final(rows)@) == rows_view(old(rows)@).filter(id_other_than(id@)),
        r == (rows_view(old(rows)@).filter(id_other_than(id@)).len() != old(rows)@.len()),
        r ==> exists|row: Map<Seq<char>, FieldView>, rid: u128, now: Seq<char>|
            is_v4(rid) && utc_stamp(now) && rows_view(final(log)@) == rows_view(old(log)@).push(row) && row == touch_spec(
                deletion_record(collection@, id@),
                user@,
                true,
                uuid_hyphenated(rid),
                now,
            ),
        !r ==> final(log)@ == old(log)@,
{
    let ghost pred = id_other_than(id@);
    let ghost orig = rows_view(rows@);
    let ghost orig_rows = rows@;
    let n = rows.len();
    let mut rest: Vec<PublicRow> = Vec::new();
    std::mem::swap(&mut rest, rows);
    let mut kept: Vec<PublicRow> = Vec::new();
    let mut i: usize = 0;
    assert(orig_rows.skip(0) == orig_rows);
    while i < n
        invariant
            i <= n,
            n == orig.len(),
            orig == rows_view(orig_rows),
            rows_wf(orig_rows),
            rest@ == orig_rows.skip(i as int),
            pred == id_other_than(id@),
            rows_wf(kept@),
            rows_view(kept@) == orig.take(i as int).filter(pred),
        decreases n - i,
    {
        proof {
            assert(orig.take(i + 1) == orig.take(i as int).push(orig[i as int]));
            orig.take(i as int).lemma_filter_push(orig[i as int], pred);
        }
        let row = rest.remove(0);
        assert(rest@ =~= orig_rows.skip(i + 1));
        assert(row == orig_rows[i as int]);
        let keep = match row.text("id") {
            Some(t) => !str_eq(t.as_str(), id),
            None => true,
        };
        if keep {
            let ghost before = kept@;
            kept.push(row);
            assert(rows_view(kept@) =~= rows_view(before).push(row@));
        }
        i += 1;
    }
    assert(orig.take(n as int) == orig);
    let changed = kept.len() != n;
    *rows = kept;
    if changed {
        let entry = deletion_entry(collection, id);
        let added = public_add(log, entry, user);
    }
    changed
}

} // verus!
