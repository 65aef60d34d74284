//! Character-level text helpers with exact specifications.
//!
//! Strings are reasoned about through their `Seq<char>` view. Most parsing in
//! the crate turns a `&str` into a `Vec<char>` once, works on indices, and
//! builds the result back with `string_of`.
use vstd::prelude::*;

verus! {

broadcast use vstd::string::group_string_axioms;

// ---------------------------------------------------------------------------
// Unicode properties that come from std
// ---------------------------------------------------------------------------
/// Whether `c` has the Unicode `White_Space` property (PropList.txt): the
/// controls U+0009 to U+000D, the space, U+0085, U+00A0, U+1680, U+2000 to
/// U+200A, U+2028, U+2029, U+202F, U+205F and U+3000.
pub open spec fn is_ws(c: char) -> bool {
    let n = c as u32;
    ||| 0x9 <= n <= 0xD
    ||| n == 0x20
    ||| n == 0x85
    ||| n == 0xA0
    ||| n == 0x1680
    ||| 0x2000 <= n <= 0x200A
    ||| n == 0x2028
    ||| n == 0x2029
    ||| n == 0x202F
    ||| n == 0x205F
    ||| n == 0x3000
}

/// The Unicode lowercase mapping of a whole string (the answer of
/// `str::to_lowercase`).
pub uninterp spec fn lower_of(s: Seq<char>) -> Seq<char>;

/// Whether `c` is whitespace in the sense of `char::is_whitespace`: the
/// `White_Space` table that `is_ws` spells out.
pub fn char_is_whitespace(c: char) -> (b: bool)
    ensures
        b == is_ws(c),
{
    let n = c as u32;
    (0x9 <= n && n <= 0xD) || n == 0x20 || n == 0x85 || n == 0xA0 || n == 0x1680 || (0x2000 <= n && n <= 0x200A)
        || n == 0x2028 || n == 0x2029 || n == 0x202F || n == 0x205F || n == 0x3000
}

/// Calls `str::to_lowercase`; the contract names the result `lower_of(s@)`
/// and states that a string of ASCII characters is lowercased character by
/// character (std converts the ASCII prefix with `u8::to_ascii_lowercase`).
#[verifier::external_body]
pub(crate) fn to_lower(s: &str) -> (r: String)
    ensures
        r@ == lower_of(s@),
        is_ascii_text(s@) ==> r@ == s@.map_values(|c: char| ascii_lower(c)),
{
    s.to_lowercase()
}

/// Calls `String::push`, which appends one character.
#[verifier::external_body]
fn push_char(s: &mut String, c: char)
    ensures
        final(s)@ == old(s)@.push(c),
{
    s.push(c)
}

/// Every character is ASCII.
pub open spec fn is_ascii_text(s: Seq<char>) -> bool {
    forall|i: int| 0 <= i < s.len() ==> (#[trigger] s[i] as u32) < 128
}

// ---------------------------------------------------------------------------
// Conversions
// ---------------------------------------------------------------------------
/// The characters of `s`, in order.
pub fn chars_of(s: &str) -> (v: Vec<char>)
    ensures
        v@ == s@,
{
    let mut v: Vec<char> = Vec::new();
    for c in it: s.chars()
        invariant
            v@ == it.seq().take(it.index() as int),
    {
        v.push(c);
    }
    v
}

/// The string made of `v[lo..hi]`.
pub fn string_of(v: &Vec<char>, lo: usize, hi: usize) -> (s: String)
    requires
        lo <= hi <= v.len(),
    ensures
        s@ == v@.subrange(lo as int, hi as int),
{
    let mut s = String::new();
    let mut i = lo;
    while i < hi
        invariant
            lo <= i <= hi <= v.len(),
            s@ == v@.subrange(lo as int, i as int),
        decreases hi - i,
    {
        push_char(&mut s, v[i]);
        assert(v@.subrange(lo as int, i + 1) == v@.subrange(lo as int, i as int).push(v@[i as int]));
        i += 1;
    }
    s
}

/// The string made of all of `v`.
pub fn string_of_all(v: &Vec<char>) -> (s: String)
    ensures
        s@ == v@,
{
    let s = string_of(v, 0, v.len());
    assert(v@.subrange(0, v@.len() as int) == v@);
    s
}

/// Appends `t` to `s`.
pub fn append(s: &mut String, t: &str)
    ensures
        final(s)@ == old(s)@ + t@,
{
    s.append(t);
}

/// A fresh copy of a literal.
pub fn lit(t: &str) -> (s: String)
    ensures
        s@ == t@,
{
    String::from_str(t)
}

// ---------------------------------------------------------------------------
// ASCII case
// ---------------------------------------------------------------------------
/// ASCII lowercase of one character; other characters are unchanged.
pub open spec fn ascii_lower(c: char) -> char {
    if 'A' <= c && c <= 'Z' {
        ((c as u32) + 32) as char
    } else {
        c
    }
}

/// Computes `ascii_lower`.
pub fn ascii_lower_char(c: char) -> (r: char)
    ensures
        r == ascii_lower(c),
{
    if 'A' <= c && c <= 'Z' {
        let n: u32 = (c as u32) + 32;
        // 'a'..='z' are valid chars
        proof {
            assert(97 <= n <= 122);
        }
        char_from_ascii(n)
    } else {
        c
    }
}

fn char_from_ascii(n: u32) -> (c: char)
    requires
        n < 128,
    ensures
        c == n as char,
{
    let b: u8 = n as u8;
    b as char
}

/// Two strings are equal up to ASCII case (`str::eq_ignore_ascii_case`).
pub open spec fn eq_ci(a: Seq<char>, b: Seq<char>) -> bool {
    a.len() == b.len() && forall|i: int| 0 <= i < a.len() ==> ascii_lower(#[trigger] a[i]) == ascii_lower(b[i])
}

/// Decides `eq_ci`.
pub fn eq_ignore_case(a: &str, b: &str) -> (r: bool)
    ensures
        r == eq_ci(a@, b@),
{
    let av = chars_of(a);
    let bv = chars_of(b);
    eq_ignore_case_chars(&av, &bv)
}

/// Decides `eq_ci` on character vectors.
pub fn eq_ignore_case_chars(av: &Vec<char>, bv: &Vec<char>) -> (r: bool)
    ensures
        r == eq_ci(av@, bv@),
{
    if av.len() != bv.len() {
        return false;
    }
    let mut i: usize = 0;
    while i < av.len()
        invariant
            av.len() == bv.len(),
            i <= av.len(),
            forall|k: int| 0 <= k < i ==> ascii_lower(#[trigger] av@[k]) == ascii_lower(bv@[k]),
        decreases av.len() - i,
    {
        if ascii_lower_char(av[i]) != ascii_lower_char(bv[i]) {
            return false;
        }
        i += 1;
    }
    true
}

// ---------------------------------------------------------------------------
// Trimming
// ---------------------------------------------------------------------------
/// Index of the first character at or after `i` that is not whitespace.
pub open spec fn skip_ws(s: Seq<char>, i: int) -> int
    decreases s.len() - i,
{
    if i < 0 || i >= s.len() {
        if i < 0 { 0 } else { s.len() as int }
    } else if !is_ws(s[i]) {
        i
    } else {
        skip_ws(s, i + 1)
    }
}

/// End of `s[..j]` once trailing whitespace is dropped.
pub open spec fn trim_end_at(s: Seq<char>, j: int) -> int
    decreases j,
{
    if j <= 0 {
        0
    } else if j > s.len() {
        trim_end_at(s, s.len() as int)
    } else if !is_ws(s[j - 1]) {
        j
    } else {
        trim_end_at(s, j - 1)
    }
}

/// `s` without leading and trailing whitespace (`str::trim`).
pub open spec fn trim_seq(s: Seq<char>) -> Seq<char> {
    let a = skip_ws(s, 0);
    let b = trim_end_at(s, s.len() as int);
    if a < b {
        s.subrange(a, b)
    } else {
        Seq::empty()
    }
}

pub proof fn lemma_skip_ws_bounds(s: Seq<char>, i: int)
    requires
        0 <= i <= s.len(),
    ensures
        i <= skip_ws(s, i) <= s.len(),
        skip_ws(s, i) < s.len() ==> !is_ws(s[skip_ws(s, i)]),
        forall|k: int| i <= k < skip_ws(s, i) ==> is_ws(#[trigger] s[k]),
    decreases s.len() - i,
{
    if i < s.len() && is_ws(s[i]) {
        lemma_skip_ws_bounds(s, i + 1);
    }
}

pub proof fn lemma_trim_end_bounds(s: Seq<char>, j: int)
    requires
        0 <= j <= s.len(),
    ensures
        0 <= trim_end_at(s, j) <= j,
        trim_end_at(s, j) > 0 ==> !is_ws(s[trim_end_at(s, j) - 1]),
        forall|k: int| trim_end_at(s, j) <= k < j ==> is_ws(#[trigger] s[k]),
    decreases j,
{
    if j > 0 && is_ws(s[j - 1]) {
        lemma_trim_end_bounds(s, j - 1);
    }
}

/// Bounds `(a, b)` such that `v[a..b]` is `trim_seq(v)` (empty when `a == b`).
pub fn trim_bounds(v: &Vec<char>) -> (r: (usize, usize))
    ensures
        r.0 <= r.1 <= v.len(),
        v@.subrange(r.0 as int, r.1 as int) == trim_seq(v@),
{
    let mut a: usize = 0;
    while a < v.len() && char_is_whitespace(v[a])
        invariant
            a <= v.len(),
            skip_ws(v@, 0) == skip_ws(v@, a as int),
        decreases v.len() - a,
    {
        a += 1;
    }
    let mut b: usize = v.len();
    while b > 0 && char_is_whitespace(v[b - 1])
        invariant
            b <= v.len(),
            trim_end_at(v@, v@.len() as int) == trim_end_at(v@, b as int),
        decreases b,
    {
        b -= 1;
    }
    proof {
        lemma_skip_ws_bounds(v@, 0);
        lemma_trim_end_bounds(v@, v@.len() as int);
    }
    if a < b {
        (a, b)
    } else {
        (a, a)
    }
}

/// `str::trim`, as an owned string.
pub fn trim(s: &str) -> (r: String)
    ensures
        r@ == trim_seq(s@),
{
    let v = chars_of(s);
    let (a, b) = trim_bounds(&v);
    string_of(&v, a, b)
}

/// `str::trim` on a character vector.
pub fn trim_chars(v: &Vec<char>) -> (r: Vec<char>)
    ensures
        r@ == trim_seq(v@),
{
    let (a, b) = trim_bounds(v);
    slice_vec(v, a, b)
}

/// `v[lo..hi]` as a new vector.
pub fn slice_vec(v: &Vec<char>, lo: usize, hi: usize) -> (r: Vec<char>)
    requires
        lo <= hi <= v.len(),
    ensures
        r@ == v@.subrange(lo as int, hi as int),
{
    let mut r: Vec<char> = Vec::new();
    let mut i = lo;
    while i < hi
        invariant
            lo <= i <= hi <= v.len(),
            r@ == v@.subrange(lo as int, i as int),
        decreases hi - i,
    {
        r.push(v[i]);
        assert(v@.subrange(lo as int, i + 1) == v@.subrange(lo as int, i as int).push(v@[i as int]));
        i += 1;
    }
    r
}

/// Whether `s` is empty once trimmed.
pub fn is_blank(s: &str) -> (r: bool)
    ensures
        r == (trim_seq(s@).len() == 0),
{
    let t = trim(s);
    t.as_str().is_empty()
}

// ---------------------------------------------------------------------------
// Searching
// ---------------------------------------------------------------------------
/// Two characters agree, exactly or up to ASCII case.
pub open spec fn char_agree(a: char, b: char, ci: bool) -> bool {
    if ci {
        ascii_lower(a) == ascii_lower(b)
    } else {
        a == b
    }
}

/// `n` occurs in `h` at index `i`.
pub open spec fn occurs_at(h: Seq<char>, n: Seq<char>, i: int, ci: bool) -> bool {
    &&& 0 <= i
    &&& i + n.len() <= h.len()
    &&& forall|k: int| 0 <= k < n.len() ==> char_agree(#[trigger] h[i + k], n[k], ci)
}

/// `i` is the first index at which `n` occurs in `h`.
pub open spec fn is_first_occurrence(h: Seq<char>, n: Seq<char>, i: int, ci: bool) -> bool {
    occurs_at(h, n, i, ci) && forall|j: int| 0 <= j < i ==> !#[trigger] occurs_at(h, n, j, ci)
}

/// The first index at which `n` occurs in `h` (`str::find`), if any.
pub open spec fn find_seq(h: Seq<char>, n: Seq<char>, ci: bool) -> Option<int> {
    if exists|i: int| is_first_occurrence(h, n, i, ci) {
        Some(choose|i: int| is_first_occurrence(h, n, i, ci))
    } else {
        None
    }
}

proof fn lemma_first_occurrence_unique(h: Seq<char>, n: Seq<char>, i: int, j: int, ci: bool)
    requires
        is_first_occurrence(h, n, i, ci),
        is_first_occurrence(h, n, j, ci),
    ensures
        i == j,
{
    if i < j {
        assert(!occurs_at(h, n, i, ci));
    } else if j < i {
        assert(!occurs_at(h, n, j, ci));
    }
}

/// Facts about `find_seq` that callers use.
pub proof fn lemma_find_seq(h: Seq<char>, n: Seq<char>, ci: bool)
    ensures
        find_seq(h, n, ci) matches Some(i) ==> is_first_occurrence(h, n, i, ci),
        find_seq(h, n, ci) is None ==> forall|j: int| !#[trigger] occurs_at(h, n, j, ci),
{
    if !(exists|i: int| is_first_occurrence(h, n, i, ci)) {
        assert forall|j: int| !#[trigger] occurs_at(h, n, j, ci) by {
            if occurs_at(h, n, j, ci) {
                // the least occurrence up to j is a first occurrence
                lemma_least_occurrence(h, n, j, ci);
            }
        }
    }
}

proof fn lemma_least_occurrence(h: Seq<char>, n: Seq<char>, j: int, ci: bool)
    requires
        occurs_at(h, n, j, ci),
    ensures
        exists|i: int| is_first_occurrence(h, n, i, ci),
    decreases j,
{
    if exists|k: int| 0 <= k < j && occurs_at(h, n, k, ci) {
        let k = choose|k: int| 0 <= k < j && occurs_at(h, n, k, ci);
        lemma_least_occurrence(h, n, k, ci);
    } else {
        assert(is_first_occurrence(h, n, j, ci));
    }
}

fn occurs_at_exec(h: &Vec<char>, n: &Vec<char>, i: usize, ci: bool) -> (r: bool)
    requires
        i + n.len() <= h.len(),
    ensures
        r == occurs_at(h@, n@, i as int, ci),
{
    let mut k: usize = 0;
    while k < n.len()
        invariant
            i + n.len() <= h.len(),
            k <= n.len(),
            forall|m: int| 0 <= m < k ==> char_agree(#[trigger] h@[i + m], n@[m], ci),
        decreases n.len() - k,
    {
        let a = h[i + k];
        let b = n[k];
        let same = if ci {
            ascii_lower_char(a) == ascii_lower_char(b)
        } else {
            a == b
        };
        if !same {
            assert(!char_agree(h@[i + k as int], n@[k as int], ci));
            return false;
        }
        k += 1;
    }
    true
}

/// `str::find` on characters, exact (`ci == false`) or up to ASCII case.
pub fn find_in(h: &Vec<char>, n: &Vec<char>, ci: bool) -> (r: Option<usize>)
    ensures
        r matches Some(i) ==> find_seq(h@, n@, ci) == Some(i as int),
        r is None ==> find_seq(h@, n@, ci) is None,
{
    proof {
        lemma_find_seq(h@, n@, ci);
    }
    if n.len() > h.len() {
        assert forall|j: int| !#[trigger] occurs_at(h@, n@, j, ci) by {}
        return None;
    }
    let last = h.len() - n.len();
    let mut i: usize = 0;
    while i <= last
        invariant
            last == h.len() - n.len(),
            n.len() <= h.len(),
            i <= last + 1,
            forall|j: int| 0 <= j < i ==> !#[trigger] occurs_at(h@, n@, j, ci),
        decreases last + 1 - i,
    {
        if occurs_at_exec(h, n, i, ci) {
            assert(is_first_occurrence(h@, n@, i as int, ci));
            proof {
                let c = choose|c: int| is_first_occurrence(h@, n@, c, ci);
                lemma_first_occurrence_unique(h@, n@, c, i as int, ci);
            }
            return Some(i);
        }
        i += 1;
    }
    assert forall|j: int| !#[trigger] occurs_at(h@, n@, j, ci) by {}
    None
}

/// `find_in` with the needle given as a literal.
pub fn find_str(h: &Vec<char>, n: &str, ci: bool) -> (r: Option<usize>)
    ensures
        r matches Some(i) ==> find_seq(h@, n@, ci) == Some(i as int),
        r is None ==> find_seq(h@, n@, ci) is None,
{
    let nv = chars_of(n);
    find_in(h, &nv, ci)
}

/// Whether `n` occurs in `h` at all.
pub open spec fn contains_seq(h: Seq<char>, n: Seq<char>, ci: bool) -> bool {
    find_seq(h, n, ci) is Some
}

/// `str::contains`, exact or up to ASCII case.
pub fn contains_str(h: &Vec<char>, n: &str, ci: bool) -> (r: bool)
    ensures
        r == contains_seq(h@, n@, ci),
{
    find_str(h, n, ci).is_some()
}

/// `h` starts with `n`.
pub open spec fn starts_with_seq(h: Seq<char>, n: Seq<char>, ci: bool) -> bool {
    occurs_at(h, n, 0, ci)
}

/// `h` ends with `n`.
pub open spec fn ends_with_seq(h: Seq<char>, n: Seq<char>, ci: bool) -> bool {
    occurs_at(h, n, h.len() - n.len(), ci)
}

/// Decides `starts_with_seq`.
pub fn starts_with(h: &Vec<char>, n: &str, ci: bool) -> (r: bool)
    ensures
        r == starts_with_seq(h@, n@, ci),
{
    let nv = chars_of(n);
    if nv.len() > h.len() {
        false
    } else {
        occurs_at_exec(h, &nv, 0, ci)
    }
}

/// Decides `ends_with_seq`.
pub fn ends_with(h: &Vec<char>, n: &str, ci: bool) -> (r: bool)
    ensures
        r == ends_with_seq(h@, n@, ci),
{
    let nv = chars_of(n);
    if nv.len() > h.len() {
        false
    } else {
        occurs_at_exec(h, &nv, h.len() - nv.len(), ci)
    }
}

/// Index of the first `c` in `h`, if any.
pub open spec fn find_char_seq(h: Seq<char>, c: char) -> Option<int> {
    if exists|i: int| 0 <= i < h.len() && h[i] == c {
        Some(choose|i: int| 0 <= i < h.len() && h[i] == c && forall|j: int| 0 <= j < i ==> h[j] != c)
    } else {
        None
    }
}

/// `str::find` for one character.
pub fn find_char(h: &Vec<char>, c: char) -> (r: Option<usize>)
    ensures
        r matches Some(i) ==> find_char_seq(h@, c) == Some(i as int) && i < h.len() && h@[i as int] == c
            && forall|j: int| 0 <= j < i ==> h@[j] != c,
        r is None ==> find_char_seq(h@, c) is None && forall|j: int| 0 <= j < h.len() ==> h@[j] != c,
{
    let mut i: usize = 0;
    while i < h.len()
        invariant
            i <= h.len(),
            forall|j: int| 0 <= j < i ==> h@[j] != c,
        decreases h.len() - i,
    {
        if h[i] == c {
            proof {
                let k = choose|k: int| 0 <= k < h@.len() && h@[k] == c && forall|j: int| 0 <= j < k ==> h@[j] != c;
                assert(k == i as int) by {
                    if k < i { assert(h@[k] != c); }
                    if k > i { assert(h@[i as int] != c); }
                }
            }
            return Some(i);
        }
        i += 1;
    }
    None
}

// ---------------------------------------------------------------------------
// Words
// ---------------------------------------------------------------------------
/// Index of the first whitespace character at or after `i` (or the length).
pub open spec fn word_end(s: Seq<char>, i: int) -> int
    decreases s.len() - i,
{
    if i < 0 {
        0
    } else if i >= s.len() {
        s.len() as int
    } else if is_ws(s[i]) {
        i
    } else {
        word_end(s, i + 1)
    }
}

pub proof fn lemma_word_end_bounds(s: Seq<char>, i: int)
    requires
        0 <= i <= s.len(),
    ensures
        i <= word_end(s, i) <= s.len(),
        word_end(s, i) < s.len() ==> is_ws(s[word_end(s, i)]),
        forall|k: int| i <= k < word_end(s, i) ==> !is_ws(#[trigger] s[k]),
    decreases s.len() - i,
{
    if i < s.len() && !is_ws(s[i]) {
        lemma_word_end_bounds(s, i + 1);
    }
}

/// The whitespace-separated words of `s[i..]` (`str::split_whitespace`).
pub open spec fn words_from(s: Seq<char>, i: int) -> Seq<Seq<char>>
    decreases s.len() - i,
{
    if i < 0 || i > s.len() {
        Seq::empty()
    } else {
        let a = skip_ws(s, i);
        if a >= s.len() {
            Seq::empty()
        } else {
            let b = word_end(s, a);
            proof {
                lemma_skip_ws_bounds(s, i);
                lemma_word_end_bounds(s, a);
                lemma_word_end_nonempty(s, a);
            }
            seq![s.subrange(a, b)] + words_from(s, b)
        }
    }
}

pub proof fn lemma_word_end_nonempty(s: Seq<char>, a: int)
    requires
        0 <= a < s.len(),
        !is_ws(s[a]),
    ensures
        word_end(s, a) > a,
{
    lemma_word_end_bounds(s, a + 1);
}

/// The whitespace-separated words of `s`.
pub open spec fn words(s: Seq<char>) -> Seq<Seq<char>> {
    words_from(s, 0)
}

/// The deep view of a character vector is its view.
pub proof fn lemma_chars_deep_view(v: Vec<char>)
    ensures
        v.deep_view() == v@,
{
    assert(v.deep_view() =~= v@);
}

/// A one-string list's deep view holds that string's characters.
pub proof fn lemma_chars_deep_view_string(v: Vec<String>)
    requires
        v@.len() == 1,
    ensures
        v.deep_view() == seq![v@[0]@],
{
    assert(v.deep_view() =~= seq![v@[0]@]);
}

/// Pushing a character vector onto a list adds its characters to the list's
/// deep view.
pub proof fn lemma_deep_view_push(a: Vec<Vec<char>>, b: Vec<Vec<char>>, w: Vec<char>)
    requires
        b@ == a@.push(w),
    ensures
        b.deep_view() == a.deep_view().push(w@),
{
    lemma_chars_deep_view(w);
    assert forall|k: int| 0 <= k < b.deep_view().len() implies #[trigger] b.deep_view()[k] == a.deep_view().push(
        w@,
    )[k] by {
        if k < a@.len() {
            assert(b@[k] == a@[k]);
        } else {
            assert(b@[k] == w);
        }
    }
    assert(b.deep_view() =~= a.deep_view().push(w@));
}

/// `str::split_whitespace`, collected.
pub fn split_words(v: &Vec<char>) -> (r: Vec<Vec<char>>)
    ensures
        r.deep_view() == words(v@),
{
    let mut r: Vec<Vec<char>> = Vec::new();
    let mut i: usize = 0;
    while i < v.len()
        invariant
            i <= v.len(),
            words(v@) == r.deep_view() + words_from(v@, i as int),
        decreases v.len() - i,
    {
        let ghost i0 = i as int;
        let mut a = i;
        while a < v.len() && char_is_whitespace(v[a])
            invariant
                i0 <= a <= v.len(),
                skip_ws(v@, i0) == skip_ws(v@, a as int),
            decreases v.len() - a,
        {
            a += 1;
        }
        if a >= v.len() {
            assert(words_from(v@, i0) == Seq::<Seq<char>>::empty());
            assert(r.deep_view() + Seq::<Seq<char>>::empty() == r.deep_view());
            i = v.len();
            assert(words_from(v@, i as int) == Seq::<Seq<char>>::empty());
        } else {
            let mut b = a;
            while b < v.len() && !char_is_whitespace(v[b])
                invariant
                    a <= b <= v.len(),
                    word_end(v@, a as int) == word_end(v@, b as int),
                decreases v.len() - b,
            {
                b += 1;
            }
            let w = slice_vec(v, a, b);
            let ghost before = r.deep_view();
            r.push(w);
            proof {
                assert(r.deep_view() =~= before.push(v@.subrange(a as int, b as int))) by {
                    assert forall|k: int| 0 <= k < r.deep_view().len() implies #[trigger] r.deep_view()[k]
                        == before.push(v@.subrange(a as int, b as int))[k] by {
                        if k < before.len() {
                            assert(r.deep_view()[k] == before[k]);
                        } else {
                            assert(r@[k] == w);
                            assert(r.deep_view()[k] == w.deep_view());
                            assert(w.deep_view() =~= w@);
                        }
                    }
                }
                lemma_word_end_bounds(v@, a as int);
                assert(words_from(v@, i0) == seq![v@.subrange(a as int, b as int)] + words_from(v@, b as int));
                assert(before + (seq![v@.subrange(a as int, b as int)] + words_from(v@, b as int))
                    == before.push(v@.subrange(a as int, b as int)) + words_from(v@, b as int));
            }
            i = b;
        }
    }
    proof {
        assert(words_from(v@, i as int) == Seq::<Seq<char>>::empty());
        assert(r.deep_view() + Seq::<Seq<char>>::empty() == r.deep_view());
    }
    r
}

// ---------------------------------------------------------------------------
// Replacing
// ---------------------------------------------------------------------------
/// `s` with every non-overlapping occurrence of `p`, left to right, replaced by
/// `r` (`str::replace`).
pub open spec fn replace_seq(s: Seq<char>, p: Seq<char>, r: Seq<char>) -> Seq<char>
    decreases s.len(),
{
    if p.len() == 0 || s.len() == 0 {
        s
    } else if occurs_at(s, p, 0, false) {
        r + replace_seq(s.skip(p.len() as int), p, r)
    } else {
        seq![s[0]] + replace_seq(s.drop_first(), p, r)
    }
}

proof fn lemma_occurs_skip(s: Seq<char>, p: Seq<char>, i: int)
    requires
        0 <= i <= s.len(),
    ensures
        occurs_at(s.skip(i), p, 0, false) == occurs_at(s, p, i, false),
{
    let t = s.skip(i);
    if occurs_at(s, p, i, false) {
        assert forall|k: int| 0 <= k < p.len() implies char_agree(#[trigger] t[0 + k], p[k], false) by {
            assert(t[k] == s[i + k]);
        }
    }
    if occurs_at(t, p, 0, false) {
        assert forall|k: int| 0 <= k < p.len() implies char_agree(#[trigger] s[i + k], p[k], false) by {
            assert(t[0 + k] == s[i + k]);
        }
    }
}

/// `str::replace` on characters, with a nonempty pattern.
pub fn replace_all(v: &Vec<char>, p: &str, rep: &str) -> (out: Vec<char>)
    requires
        p@.len() > 0,
    ensures
        out@ == replace_seq(v@, p@, rep@),
{
    let pv = chars_of(p);
    let rv = chars_of(rep);
    let mut out: Vec<char> = Vec::new();
    let mut i: usize = 0;
    assert(v@.skip(0) == v@);
    assert(out@ + replace_seq(v@, pv@, rv@) == replace_seq(v@, pv@, rv@));
    while i < v.len()
        invariant
            i <= v.len(),
            pv@ == p@,
            rv@ == rep@,
            pv@.len() > 0,
            replace_seq(v@, pv@, rv@) == out@ + replace_seq(v@.skip(i as int), pv@, rv@),
        decreases v.len() - i,
    {
        let ghost t = v@.skip(i as int);
        let ghost out0 = out@;
        proof {
            lemma_occurs_skip(v@, pv@, i as int);
        }
        if pv.len() <= v.len() - i && occurs_at_exec(v, &pv, i, false) {
            let mut k: usize = 0;
            while k < rv.len()
                invariant
                    k <= rv.len(),
                    out@ == out0 + rv@.subrange(0, k as int),
                decreases rv.len() - k,
            {
                out.push(rv[k]);
                assert(rv@.subrange(0, k + 1) == rv@.subrange(0, k as int).push(rv@[k as int]));
                k += 1;
            }
            proof {
                assert(rv@.subrange(0, rv@.len() as int) == rv@);
                assert(t.skip(pv@.len() as int) == v@.skip(i + pv@.len()));
                assert(out0 + (rv@ + replace_seq(t.skip(pv@.len() as int), pv@, rv@))
                    == out@ + replace_seq(v@.skip(i + pv@.len()), pv@, rv@));
            }
            i = i + pv.len();
        } else {
            out.push(v[i]);
            proof {
                assert(!occurs_at(t, pv@, 0, false));
                assert(t.drop_first() == v@.skip(i + 1));
                assert(out0 + (seq![t[0]] + replace_seq(t.drop_first(), pv@, rv@))
                    == out@ + replace_seq(v@.skip(i + 1), pv@, rv@));
            }
            i = i + 1;
        }
    }
    proof {
        assert(v@.skip(i as int).len() == 0);
        assert(out@ + v@.skip(i as int) == out@);
    }
    out
}

/// Whether the characters of `a` are exactly `b`.
pub fn same_text(a: &Vec<char>, b: &str) -> (r: bool)
    ensures
        r == (a@ == b@),
{
    let bv = chars_of(b);
    if a.len() != bv.len() {
        return false;
    }
    let r = occurs_at_exec(a, &bv, 0, false);
    proof {
        if r {
            assert(a@ =~= bv@) by {
                assert forall|k: int| 0 <= k < a@.len() implies a@[k] == bv@[k] by {
                    assert(char_agree(a@[0 + k], bv@[k], false));
                }
            }
        } else {
            if a@ == bv@ {
                assert forall|k: int| 0 <= k < bv@.len() implies char_agree(#[trigger] a@[0 + k], bv@[k], false) by {}
            }
        }
    }
    r
}

/// Whether two strings are equal.
pub fn str_eq(a: &str, b: &str) -> (r: bool)
    ensures
        r == (a@ == b@),
{
    let av = chars_of(a);
    same_text(&av, b)
}

// ---------------------------------------------------------------------------
// Ordering
// ---------------------------------------------------------------------------
/// `a` sorts strictly before `b`, character by character (`str` ordering).
pub open spec fn text_lt(a: Seq<char>, b: Seq<char>) -> bool
    decreases a.len(),
{
    if a.len() == 0 {
        b.len() > 0
    } else if b.len() == 0 {
        false
    } else if a[0] != b[0] {
        a[0] < b[0]
    } else {
        text_lt(a.drop_first(), b.drop_first())
    }
}

pub proof fn lemma_text_lt_irreflexive(a: Seq<char>)
    ensures
        !text_lt(a, a),
    decreases a.len(),
{
    if a.len() > 0 {
        lemma_text_lt_irreflexive(a.drop_first());
    }
}

pub proof fn lemma_text_lt_total(a: Seq<char>, b: Seq<char>)
    ensures
        a != b ==> (text_lt(a, b) || text_lt(b, a)),
        !(text_lt(a, b) && text_lt(b, a)),
    decreases a.len(),
{
    if a.len() > 0 && b.len() > 0 {
        lemma_text_lt_total(a.drop_first(), b.drop_first());
        if a[0] == b[0] && a != b {
            assert(a.drop_first() != b.drop_first()) by {
                if a.drop_first() == b.drop_first() {
                    assert(a =~= seq![a[0]] + a.drop_first());
                    assert(b =~= seq![b[0]] + b.drop_first());
                }
            }
        }
    } else if a.len() == 0 && b.len() == 0 {
        assert(a =~= b);
    }
}

pub proof fn lemma_text_lt_transitive(a: Seq<char>, b: Seq<char>, c: Seq<char>)
    requires
        text_lt(a, b),
        text_lt(b, c),
    ensures
        text_lt(a, c),
    decreases a.len(),
{
    if a.len() > 0 && b.len() > 0 && c.len() > 0 {
        if a[0] == b[0] && b[0] == c[0] {
            lemma_text_lt_transitive(a.drop_first(), b.drop_first(), c.drop_first());
        }
    }
}

/// Decides `text_lt`.
pub fn text_less(a: &Vec<char>, b: &Vec<char>) -> (r: bool)
    ensures
        r == text_lt(a@, b@),
{
    let mut i: usize = 0;
    assert(a@.skip(0) == a@ && b@.skip(0) == b@);
    while i < a.len() && i < b.len() && a[i] == b[i]
        invariant
            i <= a.len(),
            i <= b.len(),
            text_lt(a@, b@) == text_lt(a@.skip(i as int), b@.skip(i as int)),
        decreases a.len() - i,
    {
        proof {
            let x = a@.skip(i as int);
            let y = b@.skip(i as int);
            assert(x.drop_first() == a@.skip(i + 1));
            assert(y.drop_first() == b@.skip(i + 1));
        }
        i += 1;
    }
    proof {
        let x = a@.skip(i as int);
        let y = b@.skip(i as int);
        if i < a.len() && i < b.len() {
            assert(x[0] == a@[i as int] && y[0] == b@[i as int]);
        }
    }
    if i == a.len() {
        i < b.len()
    } else if i == b.len() {
        false
    } else {
        a[i] < b[i]
    }
}

// ---------------------------------------------------------------------------
// Character maps and cleaned lists
// ---------------------------------------------------------------------------
/// `s` with every character that occurs in `set` turned into a space.
pub open spec fn blank_out(s: Seq<char>, set: Seq<char>) -> Seq<char> {
    s.map_values(|c: char| if set.contains(c) { ' ' } else { c })
}

/// Replaces every character of `v` that occurs in `set` by a space
/// (`str::replace` with a character array and `" "`).
pub fn blank_out_chars(v: &Vec<char>, set: &str) -> (r: Vec<char>)
    ensures
        r@ == blank_out(v@, set@),
{
    let sv = chars_of(set);
    let mut r: Vec<char> = Vec::new();
    let mut i: usize = 0;
    while i < v.len()
        invariant
            i <= v.len(),
            sv@ == set@,
            r@ == blank_out(v@.take(i as int), set@),
        decreases v.len() - i,
    {
        let c = v[i];
        let mut hit = false;
        let mut k: usize = 0;
        while k < sv.len()
            invariant
                k <= sv.len(),
                hit == exists|j: int| 0 <= j < k && sv@[j] == c,
            decreases sv.len() - k,
        {
            if sv[k] == c {
                hit = true;
            }
            k += 1;
        }
        proof {
            if hit {
                let j = choose|j: int| 0 <= j < k && sv@[j] == c;
                assert(set@.contains(c));
            } else {
                assert(!set@.contains(c));
            }
        }
        r.push(if hit { ' ' } else { c });
        assert(r@ =~= blank_out(v@.take(i + 1), set@));
        i += 1;
    }
    assert(v@.take(v@.len() as int) == v@);
    r
}

/// The cleaned names of a list: each trimmed (and lowercased when `lower`),
/// empty ones dropped.
pub open spec fn clean_names(s: Seq<Seq<char>>, lower: bool) -> Seq<Seq<char>>
    decreases s.len(),
{
    if s.len() == 0 {
        Seq::empty()
    } else {
        let rest = clean_names(s.drop_last(), lower);
        let t = if lower { lower_of(trim_seq(s.last())) } else { trim_seq(s.last()) };
        if t.len() == 0 {
            rest
        } else {
            rest.push(t)
        }
    }
}

/// Cleans a list of names as `clean_names` says.
pub fn clean_name_list(v: Vec<String>, lower: bool) -> (r: Vec<String>)
    ensures
        r.deep_view() == clean_names(v.deep_view(), lower),
{
    let mut r: Vec<String> = Vec::new();
    let mut i: usize = 0;
    while i < v.len()
        invariant
            i <= v.len(),
            r.deep_view() == clean_names(v.deep_view().take(i as int), lower),
        decreases v.len() - i,
    {
        let t0 = trim(v[i].as_str());
        let t = if lower { to_lower(t0.as_str()) } else { t0 };
        proof {
            let s = v.deep_view().take(i + 1);
            assert(s.drop_last() == v.deep_view().take(i as int));
            assert(s.last() == v@[i as int]@);
        }
        if !t.as_str().is_empty() {
            let ghost before = r.deep_view();
            r.push(t);
            assert(r.deep_view() =~= before.push(t@));
        }
        i += 1;
    }
    assert(v.deep_view().take(v.len() as int) == v.deep_view());
    r
}

} // verus!
