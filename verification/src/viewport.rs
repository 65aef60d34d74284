//! The cache of the top block of each map column that the viewport has seen.
use vstd::prelude::*;

verus! {

/// The top block of one map column.
pub struct ViewportBlock {
    pub x: i32,
    pub y: i32,
    pub z: i32,
    pub kind: String,
}

/// What a viewport snapshot asks for.
pub struct ViewportSnapshotRequest {
    pub bot_name: String,
    pub chunks: u8,
}

impl ViewportBlock {
    /// A copy of this block.
    pub fn duplicate(&self) -> (r: ViewportBlock)
        ensures
            r == *self,
    {
        ViewportBlock { x: self.x, y: self.y, z: self.z, kind: self.kind.clone() }
    }
}

/// Column `(x, z)` sorts strictly before column `(x2, z2)`.
pub open spec fn column_lt(a: ViewportBlock, b: ViewportBlock) -> bool {
    a.x < b.x || (a.x == b.x && a.z < b.z)
}

/// Columns strictly increase.
pub open spec fn columns_sorted(s: Seq<ViewportBlock>) -> bool {
    forall|i: int, j: int| 0 <= i < j < s.len() ==> column_lt(#[trigger] s[i], #[trigger] s[j])
}

/// The last block of `s` for column `(x, z)`, if any.
pub open spec fn last_for_column(s: Seq<ViewportBlock>, x: i32, z: i32) -> Option<ViewportBlock>
    decreases s.len(),
{
    if s.len() == 0 {
        None
    } else if s.last().x == x && s.last().z == z {
        Some(s.last())
    } else {
        last_for_column(s.drop_last(), x, z)
    }
}

/// `out` holds, sorted by column, the last block of `s` for each column that
/// occurs in `s`.
pub open spec fn merged(s: Seq<ViewportBlock>, out: Seq<ViewportBlock>) -> bool {
    &&& columns_sorted(out)
    &&& forall|i: int| 0 <= i < out.len() ==> last_for_column(s, (#[trigger] out[i]).x, out[i].z) == Some(out[i])
    &&& forall|x: i32, z: i32| #[trigger] last_for_column(s, x, z) is Some ==> exists|i: int|
        0 <= i < out.len() && (#[trigger] out[i]).x == x && out[i].z == z
}

proof fn lemma_last_for_column_some(s: Seq<ViewportBlock>, x: i32, z: i32)
    ensures
        last_for_column(s, x, z) matches Some(b) ==> b.x == x && b.z == z,
    decreases s.len(),
{
    if s.len() > 0 {
        lemma_last_for_column_some(s.drop_last(), x, z);
    }
}

/// Position of column `(b.x, b.z)` in a sorted list: where it is, or where it
/// would go.
fn column_position(out: &Vec<ViewportBlock>, b: &ViewportBlock) -> (r: (usize, bool))
    requires
        columns_sorted(out@),
    ensures
        r.0 <= out.len(),
        forall|i: int| 0 <= i < r.0 ==> column_lt(#[trigger] out@[i], *b),
        r.1 ==> r.0 < out.len() && out@[r.0 as int].x == b.x && out@[r.0 as int].z == b.z,
        !r.1 ==> r.0 == out.len() || column_lt(*b, out@[r.0 as int]),
{
    let mut i: usize = 0;
    while i < out.len()
        invariant
            i <= out.len(),
            forall|k: int| 0 <= k < i ==> column_lt(#[trigger] out@[k], *b),
        decreases out.len() - i,
    {
        let o = &out[i];
        if o.x == b.x && o.z == b.z {
            return (i, true);
        }
        if b.x < o.x || (b.x == o.x && b.z < o.z) {
            return (i, false);
        }
        i += 1;
    }
    (i, false)
}

fn merge_one(out: &mut Vec<ViewportBlock>, b: ViewportBlock, ghost_s: Ghost<Seq<ViewportBlock>>)
    requires
        merged(ghost_s@, old(out)@),
    ensures
        merged(ghost_s@.push(b), final(out)@),
{
    let ghost s = ghost_s@;
    let ghost t = s.push(b);
    let ghost o = out@;
    let (p, found) = column_position(out, &b);
    proof {
        assert(t.drop_last() == s);
        assert forall|x: i32, z: i32| !(x == b.x && z == b.z) implies last_for_column(t, x, z) == last_for_column(s, x, z) by {}
        assert(last_for_column(t, b.x, b.z) == Some(b));
    }
    if found {
        out.set(p, b);
        proof {
            let n = out@;
            assert forall|i: int, j: int| 0 <= i < j < n.len() implies column_lt(#[trigger] n[i], #[trigger] n[j]) by {
                assert(column_lt(o[i], o[j]));
            }
            assert forall|i: int| 0 <= i < n.len() implies last_for_column(t, (#[trigger] n[i]).x, n[i].z) == Some(n[i]) by {
                if i != p {
                    assert(n[i] == o[i]);
                    assert(last_for_column(s, o[i].x, o[i].z) == Some(o[i]));
                    if i < p {
                        assert(column_lt(o[i], o[p as int]));
                    } else {
                        assert(column_lt(o[p as int], o[i]));
                    }
                }
            }
            assert forall|x: i32, z: i32| #[trigger] last_for_column(t, x, z) is Some implies exists|i: int|
                0 <= i < n.len() && (#[trigger] n[i]).x == x && n[i].z == z by {
                if x == b.x && z == b.z {
                    assert(n[p as int].x == x && n[p as int].z == z);
                } else {
                    let i = choose|i: int| 0 <= i < o.len() && (#[trigger] o[i]).x == x && o[i].z == z;
                    assert(n[i].x == x && n[i].z == z);
                }
            }
        }
    } else {
        out.insert(p, b);
        proof {
            let n = out@;
            assert(n == o.insert(p as int, b));
            assert forall|i: int, j: int| 0 <= i < j < n.len() implies column_lt(#[trigger] n[i], #[trigger] n[j]) by {
                if i < p && j < p {
                    assert(column_lt(o[i], o[j]));
                } else if i < p && j == p {
                } else if i < p {
                    assert(column_lt(o[i], o[j - 1]));
                } else if i == p {
                    if j - 1 > p {
                        assert(column_lt(o[p as int], o[j - 1]));
                    }
                } else {
                    assert(column_lt(o[i - 1], o[j - 1]));
                }
            }
            assert(last_for_column(s, b.x, b.z) is None) by {
                if last_for_column(s, b.x, b.z) is Some {
                    let i = choose|i: int| 0 <= i < o.len() && (#[trigger] o[i]).x == b.x && o[i].z == b.z;
                    if i < p {
                        assert(column_lt(o[i], b));
                    } else {
                        assert(column_lt(b, o[p as int]));
                        if i > p {
                            assert(column_lt(o[p as int], o[i]));
                        }
                    }
                }
            }
            assert forall|i: int| 0 <= i < n.len() implies last_for_column(t, (#[trigger] n[i]).x, n[i].z) == Some(n[i]) by {
                if i < p {
                    assert(n[i] == o[i]);
                    assert(last_for_column(s, o[i].x, o[i].z) == Some(o[i]));
                    assert(column_lt(o[i], b));
                } else if i > p {
                    assert(n[i] == o[i - 1]);
                    assert(last_for_column(s, o[i - 1].x, o[i - 1].z) == Some(o[i - 1]));
                    assert(column_lt(b, o[p as int]));
                    if i - 1 > p {
                        assert(column_lt(o[p as int], o[i - 1]));
                    }
                }
            }
            assert forall|x: i32, z: i32| #[trigger] last_for_column(t, x, z) is Some implies exists|i: int|
                0 <= i < n.len() && (#[trigger] n[i]).x == x && n[i].z == z by {
                if x == b.x && z == b.z {
                    assert(n[p as int].x == x && n[p as int].z == z);
                } else {
                    let i = choose|i: int| 0 <= i < o.len() && (#[trigger] o[i]).x == x && o[i].z == z;
                    if i < p {
                        assert(n[i].x == x && n[i].z == z);
                    } else {
                        assert(n[i + 1] == o[i]);
                    }
                }
            }
        }
    }
}

/// The cache after a snapshot: for every column the newest block, the new
/// `blocks` winning over `cache`, sorted by column. `None` when there are no
/// new blocks, in which case the cache is left as it is.
pub fn merge_viewport_cache(cache: Vec<ViewportBlock>, blocks: &Vec<ViewportBlock>) -> (r: Option<Vec<ViewportBlock>>)
    ensures
        blocks@.len() == 0 ==> r is None,
        blocks@.len() > 0 ==> (r matches Some(out) && merged(cache@ + blocks@, out@)),
{
    if blocks.len() == 0 {
        return None;
    }
    let ghost all = cache@ + blocks@;
    let mut out: Vec<ViewportBlock> = Vec::new();
    let n = cache.len();
    let mut rest = cache;
    let ghost c = rest@;
    let mut i: usize = 0;
    proof {
        assert(all.take(0) == Seq::<ViewportBlock>::empty());
        assert(c.skip(0) == c);
        assert forall|x: i32, z: i32| #[trigger] last_for_column(all.take(0), x, z) is Some implies exists|k: int|
            0 <= k < out@.len() && (#[trigger] out@[k]).x == x && out@[k].z == z by {}
    }
    while i < n
        invariant
            i <= n,
            n == c.len(),
            all == c + blocks@,
            rest@ == c.skip(i as int),
            merged(all.take(i as int), out@),
        decreases n - i,
    {
        let b = rest.remove(0);
        assert(rest@ =~= c.skip(i + 1));
        assert(all.take(i + 1) == all.take(i as int).push(b));
        merge_one(&mut out, b, Ghost(all.take(i as int)));
        i += 1;
    }
    let mut j: usize = 0;
    while j < blocks.len()
        invariant
            j <= blocks.len(),
            n == c.len(),
            all == c + blocks@,
            merged(all.take(n + j), out@),
        decreases blocks.len() - j,
    {
        let b = blocks[j].duplicate();
        assert(all.take(n + j + 1) == all.take(n + j).push(b));
        merge_one(&mut out, b, Ghost(all.take(n + j)));
        j += 1;
    }
    assert(all.take(n + j) == all);
    Some(out)
}

/// The block lies in the rectangle `min_x..=max_x` by `min_z..=max_z`.
pub open spec fn in_area(b: ViewportBlock, min_x: i32, max_x: i32, min_z: i32, max_z: i32) -> bool {
    min_x <= b.x <= max_x && min_z <= b.z <= max_z
}

/// Holds of the blocks in the rectangle.
pub open spec fn in_area_pred(min_x: i32, max_x: i32, min_z: i32, max_z: i32) -> spec_fn(ViewportBlock) -> bool {
    |b: ViewportBlock| in_area(b, min_x, max_x, min_z, max_z)
}

/// Keeping some blocks of a list sorted by column leaves it sorted.
pub proof fn lemma_filter_sorted(s: Seq<ViewportBlock>, pred: spec_fn(ViewportBlock) -> bool)
    requires
        columns_sorted(s),
    ensures
        columns_sorted(s.filter(pred)),
    decreases s.len(),
{
    if s.len() > 0 {
        let d = s.drop_last();
        let x = s.last();
        assert(d.push(x) == s);
        assert(columns_sorted(d)) by {
            assert forall|i: int, j: int| 0 <= i < j < d.len() implies column_lt(#[trigger] d[i], #[trigger] d[j]) by {
                assert(d[i] == s[i] && d[j] == s[j]);
            }
        }
        lemma_filter_sorted(d, pred);
        d.lemma_filter_push(x, pred);
        let f = d.filter(pred);
        if pred(x) {
            assert forall|i: int| 0 <= i < f.len() implies column_lt(#[trigger] f[i], x) by {
                assert(f.contains(f[i]));
                d.lemma_filter_contains_rev(pred, f[i]);
                let k = choose|k: int| 0 <= k < d.len() && d[k] == f[i];
                assert(s[k] == d[k]);
                assert(s[s.len() - 1] == x);
            }
            let g = f.push(x);
            assert forall|i: int, j: int| 0 <= i < j < g.len() implies column_lt(#[trigger] g[i], #[trigger] g[j]) by {
                if j < f.len() {
                    assert(g[i] == f[i] && g[j] == f[j]);
                } else {
                    assert(g[i] == f[i] && g[j] == x);
                }
            }
        }
    }
}

/// The cached blocks inside a rectangle, in cache order.
pub fn cached_viewport_blocks(cache: Vec<ViewportBlock>, min_x: i32, max_x: i32, min_z: i32, max_z: i32) -> (r: Vec<
    ViewportBlock,
>)
    ensures
        r@ == cache@.filter(in_area_pred(min_x, max_x, min_z, max_z)),
{
    let ghost pred = in_area_pred(min_x, max_x, min_z, max_z);
    let ghost orig = cache@;
    let n = cache.len();
    let mut rest = cache;
    let mut kept: Vec<ViewportBlock> = Vec::new();
    let mut i: usize = 0;
    assert(orig.skip(0) == orig);
    while i < n
        invariant
            i <= n,
            n == orig.len(),
            rest@ == orig.skip(i as int),
            pred == in_area_pred(min_x, max_x, min_z, max_z),
            kept@ == orig.take(i as int).filter(pred),
        decreases n - i,
    {
        proof {
            assert(orig.take(i + 1) == orig.take(i as int).push(orig[i as int]));
            orig.take(i as int).lemma_filter_push(orig[i as int], pred);
        }
        let b = rest.remove(0);
        assert(rest@ =~= orig.skip(i + 1));
        if b.x >= min_x && b.x <= max_x && b.z >= min_z && b.z <= max_z {
            kept.push(b);
        }
        i += 1;
    }
    assert(orig.take(orig.len() as int) == orig);
    kept
}

/// The square of columns a viewport snapshot scans, and the chunk count it
/// used.
pub struct ViewportWindow {
    pub chunks: u8,
    pub start_x: i32,
    pub end_x: i32,
    pub start_z: i32,
    pub end_z: i32,
}

/// The chunk count a snapshot uses for a requested count.
pub open spec fn clamped_chunks(chunks: u8) -> int {
    if chunks < 1 {
        1
    } else if chunks > 32 {
        32
    } else {
        chunks as int
    }
}

/// The square scanned around column `(center_x, center_z)`: the chunk count
/// held to 1..=32, then that many chunks of 16 columns a side, starting half
/// a side before the bot's column.
pub fn viewport_window(center_x: i32, center_z: i32, chunks: u8) -> (r: ViewportWindow)
    requires
        i32::MIN + 256 <= center_x <= i32::MAX - 256,
        i32::MIN + 256 <= center_z <= i32::MAX - 256,
    ensures
        r.chunks == clamped_chunks(chunks),
        r.start_x == center_x - r.chunks * 8,
        r.start_z == center_z - r.chunks * 8,
        r.end_x == r.start_x + r.chunks * 16 - 1,
        r.end_z == r.start_z + r.chunks * 16 - 1,
{
    let c: u8 = if chunks < 1 {
        1
    } else if chunks > 32 {
        32
    } else {
        chunks
    };
    let size: i32 = c as i32 * 16;
    let start_x = center_x - size / 2;
    let start_z = center_z - size / 2;
    ViewportWindow { chunks: c, start_x, end_x: start_x + size - 1, start_z, end_z: start_z + size - 1 }
}

} // verus!
