//! The table of Credits balances, keyed by cleaned username.
use vstd::prelude::*;

verus! {

/// One stored balance.
pub struct BalanceRow {
    pub username: String,
    pub credits: i64,
}

/// Balances by username: what `bank.json` holds. Each username appears at
/// most once.
pub struct Balances {
    rows: Vec<BalanceRow>,
}

/// The map that a list of rows describes (a later row wins).
pub open spec fn row_map(rows: Seq<BalanceRow>) -> Map<Seq<char>, i64>
    decreases rows.len(),
{
    if rows.len() == 0 {
        Map::empty()
    } else {
        row_map(rows.drop_last()).insert(rows.last().username@, rows.last().credits)
    }
}

/// No username occurs twice.
pub open spec fn keys_unique(rows: Seq<BalanceRow>) -> bool {
    forall|i: int, j: int|
        0 <= i < rows.len() && 0 <= j < rows.len() && i != j ==> #[trigger] rows[i].username@
            != #[trigger] rows[j].username@
}

pub proof fn lemma_row_map_dom(rows: Seq<BalanceRow>, k: Seq<char>)
    ensures
        row_map(rows).dom().contains(k) <==> exists|i: int| 0 <= i < rows.len() && #[trigger] rows[i].username@ == k,
    decreases rows.len(),
{
    if rows.len() > 0 {
        lemma_row_map_dom(rows.drop_last(), k);
        if row_map(rows).dom().contains(k) && k != rows.last().username@ {
            let i = choose|i: int| 0 <= i < rows.drop_last().len() && #[trigger] rows.drop_last()[i].username@ == k;
            assert(rows[i].username@ == k);
        }
        if exists|i: int| 0 <= i < rows.len() && #[trigger] rows[i].username@ == k {
            let i = choose|i: int| 0 <= i < rows.len() && #[trigger] rows[i].username@ == k;
            if i < rows.len() - 1 {
                assert(rows.drop_last()[i].username@ == k);
            }
        }
    }
}

pub proof fn lemma_row_map_value(rows: Seq<BalanceRow>, i: int)
    requires
        keys_unique(rows),
        0 <= i < rows.len(),
    ensures
        row_map(rows).dom().contains(rows[i].username@),
        row_map(rows)[rows[i].username@] == rows[i].credits,
    decreases rows.len(),
{
    if i < rows.len() - 1 {
        let d = rows.drop_last();
        assert(d[i] == rows[i]);
        assert(keys_unique(d)) by {
            assert forall|a: int, b: int| 0 <= a < d.len() && 0 <= b < d.len() && a != b implies #[trigger] d[a].username@
                != #[trigger] d[b].username@ by {
                assert(d[a] == rows[a] && d[b] == rows[b]);
            }
        }
        lemma_row_map_value(d, i);
        assert(rows[i].username@ != rows[rows.len() - 1].username@);
    }
}

proof fn lemma_row_map_update(rows: Seq<BalanceRow>, i: int, r: BalanceRow)
    requires
        keys_unique(rows),
        0 <= i < rows.len(),
        r.username@ == rows[i].username@,
    ensures
        row_map(rows.update(i, r)) == row_map(rows).insert(r.username@, r.credits),
    decreases rows.len(),
{
    let u = rows.update(i, r);
    let k = r.username@;
    if i == rows.len() - 1 {
        assert(u.drop_last() == rows.drop_last());
        assert(row_map(u) =~= row_map(rows).insert(k, r.credits));
    } else {
        let d = rows.drop_last();
        assert(keys_unique(d)) by {
            assert forall|a: int, b: int| 0 <= a < d.len() && 0 <= b < d.len() && a != b implies #[trigger] d[a].username@
                != #[trigger] d[b].username@ by {
                assert(d[a] == rows[a] && d[b] == rows[b]);
            }
        }
        assert(d[i] == rows[i]);
        lemma_row_map_update(d, i, r);
        assert(u.drop_last() == d.update(i, r));
        assert(u.last() == rows.last());
        assert(rows.last().username@ != k);
        assert(row_map(u) =~= row_map(rows).insert(k, r.credits));
    }
}

impl Balances {
    /// The balances as a map from cleaned username to Credits.
    pub closed spec fn view(&self) -> Map<Seq<char>, i64> {
        row_map(self.rows@)
    }

    /// Well-formed: no username twice.
    pub closed spec fn wf(&self) -> bool {
        keys_unique(self.rows@)
    }

    /// The stored rows, in storage order.
    pub closed spec fn entries(&self) -> Seq<BalanceRow> {
        self.rows@
    }

    pub proof fn lemma_entries(&self)
        requires
            self.wf(),
        ensures
            keys_unique(self.entries()),
            forall|k: Seq<char>| self.view().dom().contains(k) <==> exists|i: int|
                0 <= i < self.entries().len() && #[trigger] self.entries()[i].username@ == k,
            forall|i: int| 0 <= i < self.entries().len() ==> #[trigger] self.view()[self.entries()[i].username@]
                == self.entries()[i].credits,
    {
        assert forall|k: Seq<char>| self.view().dom().contains(k) <==> exists|i: int|
            0 <= i < self.entries().len() && #[trigger] self.entries()[i].username@ == k by {
            lemma_row_map_dom(self.rows@, k);
            if self.view().dom().contains(k) {
                let i = choose|i: int| 0 <= i < self.rows@.len() && #[trigger] self.rows@[i].username@ == k;
                assert(self.entries()[i].username@ == k);
            }
            if exists|i: int| 0 <= i < self.entries().len() && #[trigger] self.entries()[i].username@ == k {
                let i = choose|i: int| 0 <= i < self.entries().len() && #[trigger] self.entries()[i].username@ == k;
                assert(self.rows@[i].username@ == k);
            }
        }
        assert forall|i: int| 0 <= i < self.entries().len() implies #[trigger] self.view()[self.entries()[i].username@]
            == self.entries()[i].credits by {
            lemma_row_map_value(self.rows@, i);
        }
    }

    /// No balances at all.
    pub fn new() -> (b: Balances)
        ensures
            b.wf(),
            b@ == Map::<Seq<char>, i64>::empty(),
    {
        Balances { rows: Vec::new() }
    }

    /// Index of the row for `key`, if any.
    fn index_of(&self, key: &str) -> (r: Option<usize>)
        requires
            self.wf(),
        ensures
            r matches Some(i) ==> i < self.rows.len() && self.rows@[i as int].username@ == key@,
            r is None ==> !self@.dom().contains(key@),
    {
        let mut i: usize = 0;
        while i < self.rows.len()
            invariant
                i <= self.rows.len(),
                forall|j: int| 0 <= j < i ==> self.rows@[j].username@ != key@,
            decreases self.rows.len() - i,
        {
            if self.rows[i].username == key.to_owned() {
                return Some(i);
            }
            i += 1;
        }
        proof {
            lemma_row_map_dom(self.rows@, key@);
        }
        None
    }

    /// The balance stored for `key`.
    pub fn get(&self, key: &str) -> (r: Option<i64>)
        requires
            self.wf(),
        ensures
            r == (if self@.dom().contains(key@) { Some(self@[key@]) } else { None::<i64> }),
    {
        match self.index_of(key) {
            Some(i) => {
                proof {
                    lemma_row_map_value(self.rows@, i as int);
                }
                Some(self.rows[i].credits)
            },
            None => None,
        }
    }

    /// Sets the balance for `key`.
    pub fn set(&mut self, key: &str, credits: i64)
        requires
            old(self).wf(),
        ensures
            final(self).wf(),
            final(self)@ == old(self)@.insert(key@, credits),
    {
        let row = BalanceRow { username: key.to_owned(), credits };
        match self.index_of(key) {
            Some(i) => {
                proof {
                    lemma_row_map_update(self.rows@, i as int, row);
                }
                let ghost before = self.rows@;
                self.rows.set(i, row);
                proof {
                    assert(self.rows@ == before.update(i as int, row));
                    assert forall|a: int, b: int| 0 <= a < self.rows@.len() && 0 <= b < self.rows@.len() && a != b
                        implies #[trigger] self.rows@[a].username@ != #[trigger] self.rows@[b].username@ by {
                        if a != i && b != i {
                            assert(self.rows@[a] == before[a] && self.rows@[b] == before[b]);
                        } else if a == i {
                            assert(self.rows@[b] == before[b]);
                        } else {
                            assert(self.rows@[a] == before[a]);
                        }
                    }
                }
            },
            None => {
                let ghost before = self.rows@;
                self.rows.push(row);
                proof {
                    assert(self.rows@.drop_last() == before);
                    assert forall|a: int, b: int| 0 <= a < self.rows@.len() && 0 <= b < self.rows@.len() && a != b
                        implies #[trigger] self.rows@[a].username@ != #[trigger] self.rows@[b].username@ by {
                        if a < before.len() && b < before.len() {
                            assert(self.rows@[a] == before[a] && self.rows@[b] == before[b]);
                        } else if a < before.len() {
                            assert(self.rows@[a] == before[a]);
                            lemma_row_map_dom(before, key@);
                            assert(before[a].username@ != key@);
                        } else {
                            assert(self.rows@[b] == before[b]);
                            lemma_row_map_dom(before, key@);
                            assert(before[b].username@ != key@);
                        }
                    }
                }
            },
        }
    }

    /// A copy of the stored rows, for saving.
    pub fn rows(&self) -> (r: Vec<(String, i64)>)
        requires
            self.wf(),
        ensures
            r@.len() == self.entries().len(),
            forall|i: int| 0 <= i < r@.len() ==> (#[trigger] r@[i]).0@ == self.entries()[i].username@
                && r@[i].1 == self.entries()[i].credits,
    {
        let mut r: Vec<(String, i64)> = Vec::new();
        let mut i: usize = 0;
        while i < self.rows.len()
            invariant
                i <= self.rows.len(),
                r@.len() == i,
                forall|j: int| 0 <= j < i ==> (#[trigger] r@[j]).0@ == self.rows@[j].username@ && r@[j].1
                    == self.rows@[j].credits,
            decreases self.rows.len() - i,
        {
            r.push((self.rows[i].username.clone(), self.rows[i].credits));
            i += 1;
        }
        r
    }

    /// Balances from stored `(username, credits)` pairs; a later pair for the
    /// same username wins, as when a JSON object is read into a map.
    pub fn from_pairs(pairs: Vec<(String, i64)>) -> (b: Balances)
        ensures
            b.wf(),
            b@ == pairs_map(pairs@),
    {
        let mut b = Balances::new();
        let mut i: usize = 0;
        while i < pairs.len()
            invariant
                i <= pairs.len(),
                b.wf(),
                b@ == pairs_map(pairs@.take(i as int)),
            decreases pairs.len() - i,
        {
            b.set(pairs[i].0.as_str(), pairs[i].1);
            assert(pairs@.take(i + 1).drop_last() == pairs@.take(i as int));
            i += 1;
        }
        assert(pairs@.take(pairs@.len() as int) == pairs@);
        b
    }
}

/// The map that a list of `(username, credits)` pairs describes (a later
/// pair wins).
pub open spec fn pairs_map(pairs: Seq<(String, i64)>) -> Map<Seq<char>, i64>
    decreases pairs.len(),
{
    if pairs.len() == 0 {
        Map::empty()
    } else {
        pairs_map(pairs.drop_last()).insert(pairs.last().0@, pairs.last().1)
    }
}

} // verus!
