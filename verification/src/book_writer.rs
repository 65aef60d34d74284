//! Preparing a book for the bot to write and sign: the title and pages as
//! the book will hold them, or why it cannot be written.
use vstd::prelude::*;
use crate::bot_rules::{lines_of, split_lines, trimmed_nonblank};
use crate::num::nat_digits;
use crate::text::{append, char_is_whitespace, chars_of, lit, slice_vec, string_of_all, trim, trim_chars, trim_end_at, trim_seq};

verus! {

/// `s` without trailing whitespace (`str::trim_end`).
pub open spec fn trim_end_seq(s: Seq<char>) -> Seq<char> {
    s.take(trim_end_at(s, s.len() as int))
}

fn trim_end_chars(v: &Vec<char>) -> (r: Vec<char>)
    ensures
        r@ == trim_end_seq(v@),
{
    let mut b: usize = v.len();
    while b > 0 && char_is_whitespace(v[b - 1])
        invariant
            b <= v.len(),
            trim_end_at(v@, v@.len() as int) == trim_end_at(v@, b as int),
        decreases b,
    {
        b -= 1;
    }
    proof {
        crate::text::lemma_trim_end_bounds(v@, v@.len() as int);
    }
    let r = slice_vec(v, 0, b);
    assert(r@ == v@.take(b as int));
    r
}

/// The pages to write: each without trailing whitespace, blank ones dropped.
pub open spec fn cleaned_pages(ps: Seq<Seq<char>>) -> Seq<Seq<char>>
    decreases ps.len(),
{
    if ps.len() == 0 {
        Seq::empty()
    } else {
        let rest = cleaned_pages(ps.drop_last());
        let p = trim_end_seq(ps.last());
        if trim_seq(p).len() == 0 {
            rest
        } else {
            rest.push(p)
        }
    }
}

/// The pages with the recipient written in: a page of its own when there
/// is no page, or a line added to the first page when it has fewer than two
/// non-blank lines.
pub open spec fn with_recipient(ps: Seq<Seq<char>>, recipient: Seq<char>) -> Seq<Seq<char>> {
    if recipient.len() == 0 {
        ps
    } else if ps.len() == 0 {
        seq!["Credits Deposit\nRecipient: "@ + recipient]
    } else if trimmed_nonblank(lines_of(ps[0])).len() < 2 {
        ps.update(0, trim_end_seq(ps[0]) + "\nRecipient: "@ + recipient)
    } else {
        ps
    }
}

/// Index of the first page, from `i` on, longer than 1024 characters.
pub open spec fn first_long_page(ps: Seq<Seq<char>>, i: int) -> Option<int>
    decreases ps.len() - i,
{
    if i < 0 || i >= ps.len() {
        None
    } else if ps[i].len() > 1024 {
        Some(i)
    } else {
        first_long_page(ps, i + 1)
    }
}

/// The book to write, or why it cannot be: a title of 1 to 32 characters
/// once trimmed, and 1 to 100 pages of at most 1024 characters.
pub open spec fn prepared_book(title: Seq<char>, pages: Seq<Seq<char>>, recipient: Seq<char>) -> Result<
    (Seq<char>, Seq<Seq<char>>),
    Seq<char>,
> {
    let t = trim_seq(title);
    if t.len() == 0 {
        Err("book title is required to sign the book"@)
    } else if t.len() > 32 {
        Err("book title must be 32 characters or fewer"@)
    } else {
        let ps = with_recipient(cleaned_pages(pages), trim_seq(recipient));
        if ps.len() == 0 {
            Err("add at least one non-empty book page"@)
        } else if ps.len() > 100 {
            Err("a signed book can have at most 100 pages"@)
        } else {
            match first_long_page(ps, 0) {
                Some(i) => Err(
                    "page "@ + nat_digits((i + 1) as nat) + " is too long; keep each page at 1024 characters or fewer"@,
                ),
                None => Ok((t, ps)),
            }
        }
    }
}

/// The title and pages of a book request as the bot will write them.
pub fn prepare_book(title: &str, pages: &Vec<String>, recipient: &str) -> (r: Result<(String, Vec<String>), String>)
    ensures
        match prepared_book(title@, pages.deep_view(), recipient@) {
            Ok((t, ps)) => r matches Ok(b) && b.0@ == t && b.1.deep_view() == ps,
            Err(m) => r matches Err(e) && e@ == m,
        },
{
    let t = trim(title);
    let tv = chars_of(t.as_str());
    if tv.len() == 0 {
        return Err(lit("book title is required to sign the book"));
    }
    if tv.len() > 32 {
        return Err(lit("book title must be 32 characters or fewer"));
    }
    let mut ps: Vec<String> = Vec::new();
    let mut i: usize = 0;
    while i < pages.len()
        invariant
            i <= pages.len(),
            ps.deep_view() == cleaned_pages(pages.deep_view().take(i as int)),
        decreases pages.len() - i,
    {
        let p = trim_end_chars(&chars_of(pages[i].as_str()));
        proof {
            let s = pages.deep_view().take(i + 1);
            assert(s.drop_last() == pages.deep_view().take(i as int));
            assert(s.last() == pages@[i as int]@);
        }
        if trim_chars(&p).len() > 0 {
            let ghost before = ps.deep_view();
            let page = string_of_all(&p);
            ps.push(page);
            assert(ps.deep_view() =~= before.push(p@));
        }
        i += 1;
    }
    assert(pages.deep_view().take(pages.len() as int) == pages.deep_view());
    let ghost cleaned = ps.deep_view();
    let rec = trim(recipient);
    if !rec.as_str().is_empty() {
        if ps.len() == 0 {
            let mut page = lit("Credits Deposit\nRecipient: ");
            append(&mut page, rec.as_str());
            ps.push(page);
            assert(ps.deep_view() =~= with_recipient(cleaned, trim_seq(recipient@)));
        } else {
            let first = chars_of(ps[0].as_str());
            let lines = split_lines(&first);
            let mut count: usize = 0;
            let mut k: usize = 0;
            let ghost lv = lines.deep_view();
            while k < lines.len()
                invariant
                    k <= lines.len(),
                    lv == lines.deep_view(),
                    count == trimmed_nonblank(lv.take(k as int)).len(),
                    count <= k,
                decreases lines.len() - k,
            {
                proof {
                    crate::text::lemma_chars_deep_view(lines@[k as int]);
                    assert(lv.take(k + 1).drop_last() == lv.take(k as int));
                    assert(lv.take(k + 1).last() == lines@[k as int]@);
                }
                if trim_chars(&lines[k]).len() > 0 {
                    count += 1;
                }
                k += 1;
            }
            assert(lv.take(lines.len() as int) == lv);
            if count < 2 {
                let mut page = string_of_all(&trim_end_chars(&first));
                append(&mut page, "\nRecipient: ");
                append(&mut page, rec.as_str());
                let ghost before = ps.deep_view();
                ps.set(0, page);
                assert(ps.deep_view() =~= before.update(0, page@));
                assert(ps.deep_view() =~= with_recipient(cleaned, trim_seq(recipient@)));
            }
        }
    }
    assert(ps.deep_view() == with_recipient(cleaned, trim_seq(recipient@)));
    if ps.len() == 0 {
        return Err(lit("add at least one non-empty book page"));
    }
    if ps.len() > 100 {
        return Err(lit("a signed book can have at most 100 pages"));
    }
    let ghost pv = ps.deep_view();
    assert(tv@ == t@);
    let mut j: usize = 0;
    while j < ps.len()
        invariant
            j <= ps.len(),
            pv == ps.deep_view(),
            pv == with_recipient(cleaned_pages(pages.deep_view()), trim_seq(recipient@)),
            t@ == trim_seq(title@),
            0 < t@.len() <= 32,
            0 < pv.len() <= 100,
            first_long_page(pv, 0) == first_long_page(pv, j as int),
        decreases ps.len() - j,
    {
        let n = chars_of(ps[j].as_str()).len();
        assert(pv[j as int] == ps@[j as int]@);
        if n > 1024 {
            let mut m = lit("page ");
            append(&mut m, crate::num::u64_text((j + 1) as u64).as_str());
            append(&mut m, " is too long; keep each page at 1024 characters or fewer");
            return Err(m);
        }
        j += 1;
    }
    Ok((t, ps))
}

/// The inventory slot to stage the book from: at most 35.
pub fn book_inventory_slot(requested: Option<u8>) -> (r: Option<u8>)
    ensures
        r == (match requested {
            Some(s) => Some(if s < 35 { s } else { 35u8 }),
            None => None,
        }),
{
    match requested {
        Some(s) => Some(if s < 35 { s } else { 35 }),
        None => None,
    }
}

} // verus!
