//! Order statistics over capture records and the per-year histogram.

use vstd::prelude::*;
use crate::metadata::PhotoMeta;
use crate::year_counts::YearCounts;
use crate::render::rendered;

verus! {

/// Lexicographic order on character sequences (a prefix comes first).
pub open spec fn text_le(a: Seq<char>, b: Seq<char>) -> bool
    decreases a.len(),
{
    if a.len() == 0 {
        true
    } else if b.len() == 0 {
        false
    } else if a[0] as u32 != b[0] as u32 {
        (a[0] as u32) < (b[0] as u32)
    } else {
        text_le(a.drop_first(), b.drop_first())
    }
}

pub proof fn lemma_text_le_total(a: Seq<char>, b: Seq<char>)
    ensures
        text_le(a, b) || text_le(b, a),
    decreases a.len(),
{
    if a.len() > 0 && b.len() > 0 && a[0] as u32 == b[0] as u32 {
        lemma_text_le_total(a.drop_first(), b.drop_first());
    }
}

pub proof fn lemma_text_le_trans(a: Seq<char>, b: Seq<char>, c: Seq<char>)
    requires
        text_le(a, b),
        text_le(b, c),
    ensures
        text_le(a, c),
    decreases a.len(),
{
    if a.len() > 0 && b.len() > 0 && c.len() > 0 && a[0] as u32 == b[0] as u32 && b[0] as u32 == c[0] as u32 {
        lemma_text_le_trans(a.drop_first(), b.drop_first(), c.drop_first());
    }
}

/// Whether `a` comes no later than `b` in lexicographic order.
pub fn text_at_most(a: &str, b: &str) -> (r: bool)
    ensures
        r == text_le(a@, b@),
{
    let na = a.unicode_len();
    let nb = b.unicode_len();
    let mut i: usize = 0;
    assert(a@.skip(0) =~= a@ && b@.skip(0) =~= b@);
    while i < na && i < nb
        invariant
            na == a@.len(),
            nb == b@.len(),
            i <= na && i <= nb,
            text_le(a@, b@) == text_le(a@.skip(i as int), b@.skip(i as int)),
        decreases na - i,
    {
        let ca = a.get_char(i);
        let cb = b.get_char(i);
        if ca as u32 != cb as u32 {
            return (ca as u32) < (cb as u32);
        }
        assert(a@.skip(i as int).drop_first() =~= a@.skip(i + 1));
        assert(b@.skip(i as int).drop_first() =~= b@.skip(i + 1));
        i = i + 1;
    }
    i == na
}

/// `p` is no later than `q` when records are ordered by date, then by
/// relative path.
pub open spec fn oldest_first(p: PhotoMeta, q: PhotoMeta) -> bool {
    &&& p.date.le(q.date)
    &&& (q.date.le(p.date) ==> text_le(p.rel_path@, q.rel_path@))
}

/// `p` is no earlier than `q` by date, and among equal dates has the smaller
/// relative path.
pub open spec fn latest_first(p: PhotoMeta, q: PhotoMeta) -> bool {
    &&& q.date.le(p.date)
    &&& (p.date.le(q.date) ==> text_le(p.rel_path@, q.rel_path@))
}

proof fn lemma_oldest_first_total_trans(p: PhotoMeta, q: PhotoMeta, s: PhotoMeta)
    ensures
        oldest_first(p, q) || oldest_first(q, p),
        oldest_first(p, q) && oldest_first(q, s) ==> oldest_first(p, s),
{
    lemma_text_le_total(p.rel_path@, q.rel_path@);
    if oldest_first(p, q) && oldest_first(q, s) && s.date.le(p.date) {
        lemma_text_le_trans(p.rel_path@, q.rel_path@, s.rel_path@);
    }
}

proof fn lemma_latest_first_total_trans(p: PhotoMeta, q: PhotoMeta, s: PhotoMeta)
    ensures
        latest_first(p, q) || latest_first(q, p),
        latest_first(p, q) && latest_first(q, s) ==> latest_first(p, s),
{
    lemma_text_le_total(p.rel_path@, q.rel_path@);
    if latest_first(p, q) && latest_first(q, s) && p.date.le(s.date) {
        lemma_text_le_trans(p.rel_path@, q.rel_path@, s.rel_path@);
    }
}

/// The record with the earliest date; among records of that date, the one
/// with the lexicographically smallest relative path. `None` when empty.
pub fn find_oldest(photos: &[PhotoMeta]) -> (r: Option<&PhotoMeta>)
    ensures
        r is None <==> photos@.len() == 0,
        r matches Some(p) ==> photos@.contains(*p),
        r matches Some(p) ==> forall|i: int|
            0 <= i < photos@.len() ==> oldest_first(*p, #[trigger] photos@[i]),
{
    if photos.len() == 0 {
        return None;
    }
    let mut best: usize = 0;
    let mut i: usize = 1;
    proof {
        lemma_text_le_total(photos@[0].rel_path@, photos@[0].rel_path@);
    }
    while i < photos.len()
        invariant
            1 <= i <= photos@.len(),
            best < photos@.len(),
            forall|j: int| 0 <= j < i ==> oldest_first(photos@[best as int], #[trigger] photos@[j]),
        decreases photos@.len() - i,
    {
        let b = &photos[best];
        let c = &photos[i];
        let keep = b.date.on_or_before(&c.date) && (!c.date.on_or_before(&b.date) || text_at_most(
            b.rel_path.as_str(),
            c.rel_path.as_str(),
        ));
        proof {
            lemma_oldest_first_total_trans(*b, *c, *c);
            assert forall|j: int| 0 <= j < i implies oldest_first(
                (if keep { *b } else { *c }),
                #[trigger] photos@[j],
            ) by {
                lemma_oldest_first_total_trans(*c, *b, photos@[j]);
            }
        }
        if !keep {
            best = i;
        }
        proof {
            lemma_text_le_total(photos@[i as int].rel_path@, photos@[i as int].rel_path@);
        }
        i = i + 1;
    }
    Some(&photos[best])
}

/// The record with the latest date; among records of that date, the one
/// with the lexicographically smallest relative path. `None` when empty.
pub fn find_latest(photos: &[PhotoMeta]) -> (r: Option<&PhotoMeta>)
    ensures
        r is None <==> photos@.len() == 0,
        r matches Some(p) ==> photos@.contains(*p),
        r matches Some(p) ==> forall|i: int|
            0 <= i < photos@.len() ==> latest_first(*p, #[trigger] photos@[i]),
{
    if photos.len() == 0 {
        return None;
    }
    let mut best: usize = 0;
    let mut i: usize = 1;
    proof {
        lemma_text_le_total(photos@[0].rel_path@, photos@[0].rel_path@);
    }
    while i < photos.len()
        invariant
            1 <= i <= photos@.len(),
            best < photos@.len(),
            forall|j: int| 0 <= j < i ==> latest_first(photos@[best as int], #[trigger] photos@[j]),
        decreases photos@.len() - i,
    {
        let b = &photos[best];
        let c = &photos[i];
        let keep = c.date.on_or_before(&b.date) && (!b.date.on_or_before(&c.date) || text_at_most(
            b.rel_path.as_str(),
            c.rel_path.as_str(),
        ));
        proof {
            lemma_latest_first_total_trans(*b, *c, *c);
            assert forall|j: int| 0 <= j < i implies latest_first(
                (if keep { *b } else { *c }),
                #[trigger] photos@[j],
            ) by {
                lemma_latest_first_total_trans(*c, *b, photos@[j]);
            }
        }
        if !keep {
            best = i;
        }
        proof {
            lemma_text_le_total(photos@[i as int].rel_path@, photos@[i as int].rel_path@);
        }
        i = i + 1;
    }
    Some(&photos[best])
}

/// The number of records dated in year `y`.
pub open spec fn year_count(s: Seq<PhotoMeta>, y: int) -> nat
    decreases s.len(),
{
    if s.len() == 0 {
        0
    } else {
        year_count(s.drop_last(), y) + (if s.last().date.year == y { 1nat } else { 0nat })
    }
}

/// The earliest year among the records (0 when there are none).
pub open spec fn min_year(s: Seq<PhotoMeta>) -> int
    decreases s.len(),
{
    if s.len() == 0 {
        0
    } else if s.len() == 1 {
        s[0].date.year as int
    } else {
        let m = min_year(s.drop_last());
        if (s.last().date.year as int) < m { s.last().date.year as int } else { m }
    }
}

/// The latest year among the records (0 when there are none).
pub open spec fn max_year(s: Seq<PhotoMeta>) -> int
    decreases s.len(),
{
    if s.len() == 0 {
        0
    } else if s.len() == 1 {
        s[0].date.year as int
    } else {
        let m = max_year(s.drop_last());
        if (s.last().date.year as int) > m { s.last().date.year as int } else { m }
    }
}

/// The sum of the counts of the entries.
pub open spec fn total_count(pairs: Seq<(i32, usize)>) -> int
    decreases pairs.len(),
{
    if pairs.len() == 0 {
        0
    } else {
        total_count(pairs.drop_last()) + pairs.last().1
    }
}

/// `pairs` is the year histogram of the records: empty for no records, else
/// one entry for each year from the earliest to the latest, in order, with
/// the number of records of that year.
pub open spec fn is_histogram_of(photos: Seq<PhotoMeta>, pairs: Seq<(i32, usize)>) -> bool {
    if photos.len() == 0 {
        pairs.len() == 0
    } else {
        &&& pairs.len() == max_year(photos) - min_year(photos) + 1
        &&& forall|k: int|
            #![trigger pairs[k]]
            0 <= k < pairs.len() ==> pairs[k].0 == min_year(photos) + k && pairs[k].1 == year_count(
                photos,
                min_year(photos) + k,
            )
    }
}

/// The sum of the year counts over `n` years from `lo`.
pub open spec fn range_total(s: Seq<PhotoMeta>, lo: int, n: nat) -> int
    decreases n,
{
    if n == 0 {
        0
    } else {
        range_total(s, lo, (n - 1) as nat) + year_count(s, lo + n - 1)
    }
}

proof fn lemma_year_bounds(s: Seq<PhotoMeta>)
    ensures
        forall|i: int|
            0 <= i < s.len() ==> min_year(s) <= (#[trigger] s[i]).date.year <= max_year(s),
        s.len() > 0 ==> min_year(s) <= max_year(s),
    decreases s.len(),
{
    if s.len() > 1 {
        lemma_year_bounds(s.drop_last());
        assert forall|i: int| 0 <= i < s.len() implies min_year(s) <= (#[trigger] s[i]).date.year
            <= max_year(s) by {
            if i < s.len() - 1 {
                assert(s[i] == s.drop_last()[i]);
            }
        }
    }
}

proof fn lemma_year_count_absent(s: Seq<PhotoMeta>, y: int)
    requires
        forall|i: int| 0 <= i < s.len() ==> (#[trigger] s[i]).date.year != y,
    ensures
        year_count(s, y) == 0,
    decreases s.len(),
{
    if s.len() > 0 {
        assert forall|i: int| 0 <= i < s.drop_last().len() implies (
        #[trigger] s.drop_last()[i]).date.year != y by {
            assert(s.drop_last()[i] == s[i]);
        }
        lemma_year_count_absent(s.drop_last(), y);
    }
}

proof fn lemma_range_total_step(s: Seq<PhotoMeta>, lo: int, n: nat)
    requires
        s.len() > 0,
    ensures
        range_total(s, lo, n) == range_total(s.drop_last(), lo, n) + (if lo <= s.last().date.year
            < lo + n {
            1int
        } else {
            0int
        }),
    decreases n,
{
    if n > 0 {
        lemma_range_total_step(s, lo, (n - 1) as nat);
    }
}

proof fn lemma_range_total_all(s: Seq<PhotoMeta>, lo: int, n: nat)
    requires
        forall|i: int| 0 <= i < s.len() ==> lo <= (#[trigger] s[i]).date.year < lo + n,
    ensures
        range_total(s, lo, n) == s.len(),
    decreases s.len(),
{
    if s.len() == 0 {
        lemma_range_total_zero(s, lo, n);
    } else {
        assert forall|i: int| 0 <= i < s.drop_last().len() implies lo <= (
        #[trigger] s.drop_last()[i]).date.year < lo + n by {
            assert(s.drop_last()[i] == s[i]);
        }
        lemma_range_total_all(s.drop_last(), lo, n);
        lemma_range_total_step(s, lo, n);
        assert(s.last() == s[s.len() - 1]);
    }
}

proof fn lemma_range_total_zero(s: Seq<PhotoMeta>, lo: int, n: nat)
    requires
        s.len() == 0,
    ensures
        range_total(s, lo, n) == 0,
    decreases n,
{
    if n > 0 {
        lemma_range_total_zero(s, lo, (n - 1) as nat);
    }
}

proof fn lemma_total_is_range_total(photos: Seq<PhotoMeta>, pairs: Seq<(i32, usize)>, lo: int)
    requires
        forall|k: int|
            #![trigger pairs[k]]
            0 <= k < pairs.len() ==> pairs[k].1 == year_count(photos, lo + k),
    ensures
        total_count(pairs) == range_total(photos, lo, pairs.len()),
    decreases pairs.len(),
{
    if pairs.len() > 0 {
        let init = pairs.drop_last();
        assert forall|k: int| #![trigger init[k]] 0 <= k < init.len() implies init[k].1
            == year_count(photos, lo + k) by {
            assert(init[k] == pairs[k]);
        }
        lemma_total_is_range_total(photos, init, lo);
        assert(pairs.last() == pairs[pairs.len() - 1]);
    }
}

/// The number of records dated in year `y`.
fn count_year(photos: &[PhotoMeta], y: i64) -> (c: usize)
    ensures
        c == year_count(photos@, y as int),
{
    let n = photos.len();
    let mut c: usize = 0;
    let mut j: usize = 0;
    assert(photos@.take(0) =~= Seq::<PhotoMeta>::empty());
    while j < n
        invariant
            n == photos@.len(),
            j <= n,
            c <= j,
            c == year_count(photos@.take(j as int), y as int),
        decreases n - j,
    {
        assert(photos@.take(j + 1).drop_last() =~= photos@.take(j as int));
        if photos[j].date.year as i64 == y {
            c = c + 1;
        }
        j = j + 1;
    }
    assert(photos@.take(n as int) =~= photos@);
    c
}

/// Counts the records per year, with every year from the earliest to the
/// latest present, a year without records counting zero. Empty for no records.
pub fn build_histogram(photos: &[PhotoMeta]) -> (r: YearCounts)
    ensures
        r.wf(),
        is_histogram_of(photos@, r.pairs()),
        total_count(r.pairs()) == photos@.len(),
        forall|k: int|
            0 <= k < r.pairs().len() && (forall|i: int|
                0 <= i < photos@.len() ==> (#[trigger] photos@[i]).date.year != r.pairs()[k].0)
                ==> #[trigger] r.pairs()[k].1 == 0,
{
    let n = photos.len();
    if n == 0 {
        return YearCounts::new();
    }
    let mut lo: i32 = photos[0].date.year;
    let mut hi: i32 = photos[0].date.year;
    let mut i: usize = 1;
    assert(photos@.take(1) =~= seq![photos@[0]]);
    while i < n
        invariant
            n == photos@.len(),
            1 <= i <= n,
            lo == min_year(photos@.take(i as int)),
            hi == max_year(photos@.take(i as int)),
        decreases n - i,
    {
        assert(photos@.take(i + 1).drop_last() =~= photos@.take(i as int));
        let y = photos[i].date.year;
        if y < lo {
            lo = y;
        }
        if y > hi {
            hi = y;
        }
        i = i + 1;
    }
    assert(photos@.take(n as int) =~= photos@);
    proof {
        lemma_year_bounds(photos@);
    }
    let mut entries: Vec<(i32, usize)> = Vec::new();
    let mut y: i64 = lo as i64;
    while y <= hi as i64
        invariant
            n == photos@.len(),
            lo == min_year(photos@),
            hi == max_year(photos@),
            lo <= y <= hi as int + 1,
            entries@.len() == y - lo,
            forall|k: int|
                #![trigger entries@[k]]
                0 <= k < entries@.len() ==> entries@[k].0 == lo + k && entries@[k].1 == year_count(
                    photos@,
                    lo + k,
                ),
        decreases hi as int + 1 - y as int,
    {
        let c = count_year(photos, y);
        entries.push((y as i32, c));
        y = y + 1;
    }
    proof {
        lemma_total_is_range_total(photos@, entries@, lo as int);
        lemma_range_total_all(photos@, lo as int, entries@.len());
        assert forall|k: int|
            0 <= k < entries@.len() && (forall|i: int|
                0 <= i < photos@.len() ==> (#[trigger] photos@[i]).date.year != entries@[k].0)
                implies #[trigger] entries@[k].1 == 0 by {
            lemma_year_count_absent(photos@, entries@[k].0 as int);
        }
    }
    YearCounts::from_ascending(entries)
}

/// No records give an empty histogram, and an empty histogram renders no
/// lines at any width.
pub proof fn no_records_no_lines(photos: Seq<PhotoMeta>, pairs: Seq<(i32, usize)>, width: int)
    requires
        photos.len() == 0,
        is_histogram_of(photos, pairs),
    ensures
        pairs.len() == 0,
        rendered(pairs, width).len() == 0,
{
}

} // verus!
