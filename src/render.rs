//! Text bars for a year histogram.

use vstd::prelude::*;
use crate::year_counts::YearCounts;

verus! {

pub open spec fn digit_char(d: int) -> char {
    if d == 0 { '0' }
    else if d == 1 { '1' }
    else if d == 2 { '2' }
    else if d == 3 { '3' }
    else if d == 4 { '4' }
    else if d == 5 { '5' }
    else if d == 6 { '6' }
    else if d == 7 { '7' }
    else if d == 8 { '8' }
    else { '9' }
}

/// The decimal digits of a non-negative number, without leading zeros.
pub open spec fn digits(n: nat) -> Seq<char>
    decreases n,
{
    if n < 10 {
        seq![digit_char(n as int)]
    } else {
        digits(n / 10) + seq![digit_char((n % 10) as int)]
    }
}

/// An integer in decimal, with a leading `-` when negative.
pub open spec fn decimal(n: int) -> Seq<char> {
    if n < 0 { seq!['-'] + digits((-n) as nat) } else { digits(n as nat) }
}

/// The glyph of one bar unit: U+2588 FULL BLOCK.
pub open spec fn block() -> char {
    '\u{2588}'
}

/// The bar length for `count` against the largest count `max` at `width`:
/// count / max * width rounded half away from zero, and at least 1.
pub open spec fn bar_len(count: int, max: int, width: int) -> int {
    let scaled = (2 * count * width + max) / (2 * max);
    if scaled < 1 { 1 } else { scaled }
}

/// The line for one year: `"<year>  0"` for a zero count, else
/// `"<year> <bar> <count>"`.
pub open spec fn render_line(year: int, count: int, max: int, width: int) -> Seq<char> {
    if count == 0 {
        decimal(year) + seq![' ', ' '] + decimal(0)
    } else {
        decimal(year) + seq![' '] + Seq::new(bar_len(count, max, width) as nat, |i: int| block())
            + seq![' '] + decimal(count)
    }
}

/// The lines for the entries, at `width`, in entry order.
pub open spec fn rendered(pairs: Seq<(i32, usize)>, width: int) -> Seq<Seq<char>> {
    Seq::new(
        pairs.len(),
        |k: int| render_line(pairs[k].0 as int, pairs[k].1 as int, max_count(pairs), width),
    )
}

/// The largest count of the entries (0 when there are none).
pub open spec fn max_count(pairs: Seq<(i32, usize)>) -> int
    decreases pairs.len(),
{
    if pairs.len() == 0 {
        0
    } else {
        let m = max_count(pairs.drop_last());
        if pairs.last().1 > m { pairs.last().1 as int } else { m }
    }
}

proof fn lemma_max_count_bounds(pairs: Seq<(i32, usize)>)
    ensures
        0 <= max_count(pairs) <= usize::MAX,
        forall|k: int| 0 <= k < pairs.len() ==> (#[trigger] pairs[k]).1 <= max_count(pairs),
    decreases pairs.len(),
{
    if pairs.len() > 0 {
        lemma_max_count_bounds(pairs.drop_last());
        assert forall|k: int| 0 <= k < pairs.len() implies (#[trigger] pairs[k]).1 <= max_count(
            pairs,
        ) by {
            if k < pairs.len() - 1 {
                assert(pairs[k] == pairs.drop_last()[k]);
            }
        }
    }
}

proof fn lemma_round_half_up(cw: int, m: int, q: int, r: int)
    requires
        m > 0,
        cw == q * m + r,
        0 <= r < m,
    ensures
        (2 * cw + m) / (2 * m) == (if 2 * r >= m { q + 1 } else { q }),
{
    let up: int = if 2 * r >= m { 1 } else { 0 };
    let rest: int = 2 * r + m - 2 * m * up;
    assert(0 <= rest < 2 * m);
    assert(2 * cw + m == (q + up) * (2 * m) + rest) by (nonlinear_arith)
        requires
            cw == q * m + r,
            rest == 2 * r + m - 2 * m * up,
    ;
    vstd::arithmetic::div_mod::lemma_fundamental_div_mod_converse(
        2 * cw + m,
        2 * m,
        q + up,
        rest,
    );
}

/// Relies on the standard `Display` of integers (through `to_string`): the
/// decimal digits without leading zeros, after a `-` for negative values.
#[verifier::external_body]
fn decimal_text(n: i128) -> (r: String)
    ensures
        r@ == decimal(n as int),
{
    n.to_string()
}

/// The bar length for a non-zero `count` no larger than `max`.
fn scaled_bar(count: usize, max: usize, width: usize) -> (r: usize)
    requires
        0 < count <= max,
    ensures
        r == bar_len(count as int, max as int, width as int),
        r <= width || r == 1,
{
    assert((count as int) * (width as int) <= 0xffff_ffff_ffff_ffff * 0xffff_ffff_ffff_ffffint)
        by (nonlinear_arith)
        requires
            count <= 0xffff_ffff_ffff_ffffint,
            width <= 0xffff_ffff_ffff_ffffint,
    ;
    let cw: u128 = (count as u128) * (width as u128);
    let q: u128 = cw / (max as u128);
    let rem: u128 = cw % (max as u128);
    proof {
        vstd::arithmetic::div_mod::lemma_fundamental_div_mod(cw as int, max as int);
        assert(cw as int == q as int * max as int + rem as int) by (nonlinear_arith)
            requires
                cw as int == max as int * (cw as int / max as int) + (cw as int % max as int),
                q as int == cw as int / max as int,
                rem as int == cw as int % max as int,
        ;
        lemma_round_half_up(cw as int, max as int, q as int, rem as int);
        assert(2 * (count as int) * (width as int) == 2 * (cw as int)) by (nonlinear_arith)
            requires
                cw as int == count as int * width as int,
        ;
        assert(q <= width) by (nonlinear_arith)
            requires
                cw as int == count as int * width as int,
                q as int == cw as int / max as int,
                count <= max,
                max > 0,
        ;
        assert(q < width ==> q + 1 <= width);
        if 2 * rem >= max && q == width {
            assert(cw == q * max + rem);
            assert(count * width <= max * width) by (nonlinear_arith)
                requires
                    count <= max,
            ;
            assert(q * max == width * max) by (nonlinear_arith)
                requires
                    q == width,
            ;
        }
    }
    let scaled: usize = if 2 * rem >= max as u128 { (q + 1) as usize } else { q as usize };
    if scaled < 1 {
        1
    } else {
        scaled
    }
}

/// The largest count in the histogram.
fn largest_count(year_counts: &YearCounts) -> (m: usize)
    ensures
        m == max_count(year_counts.pairs()),
{
    let ghost s = year_counts.pairs();
    let n = year_counts.len();
    let mut m: usize = 0;
    let mut i: usize = 0;
    assert(s.take(0) =~= Seq::<(i32, usize)>::empty());
    while i < n
        invariant
            s == year_counts.pairs(),
            n == s.len(),
            i <= n,
            m == max_count(s.take(i as int)),
        decreases n - i,
    {
        assert(s.take(i + 1).drop_last() =~= s.take(i as int));
        let (_, c) = year_counts.entry(i);
        if c > m {
            m = c;
        }
        i = i + 1;
    }
    assert(s.take(n as int) =~= s);
    m
}

/// One histogram line.
fn line_for(year: i32, count: usize, max: usize, width: usize) -> (r: String)
    requires
        count <= max,
    ensures
        r@ == render_line(year as int, count as int, max as int, width as int),
{
    let mut line = decimal_text(year as i128);
    if count == 0 {
        proof {
            reveal_strlit("  ");
        }
        line.append("  ");
        let zero = decimal_text(0);
        line.append(zero.as_str());
        return line;
    }
    let len = scaled_bar(count, max, width);
    let mut bar = String::new();
    let mut i: usize = 0;
    proof {
        reveal_strlit(" ");
    }
    while i < len
        invariant
            i <= len,
            bar@ == Seq::new(i as nat, |j: int| block()),
        decreases len - i,
    {
        proof {
            reveal_strlit("\u{2588}");
        }
        bar.append("\u{2588}");
        assert(bar@ =~= Seq::new((i + 1) as nat, |j: int| block()));
        i = i + 1;
    }
    line.append(" ");
    line.append(bar.as_str());
    line.append(" ");
    let count_text = decimal_text(count as i128);
    line.append(count_text.as_str());
    line
}

/// One line per year, in ascending year order; each non-zero count gets a
/// bar scaled so that the largest count fills `width`.
pub fn render_histogram(year_counts: &YearCounts, width: usize) -> (r: Vec<String>)
    ensures
        r@.map_values(|l: String| l@) == rendered(year_counts.pairs(), width as int),
        r@.len() == year_counts.pairs().len(),
        forall|k: int|
            #![trigger r@[k]]
            0 <= k < r@.len() ==> r@[k]@ == render_line(
                year_counts.pairs()[k].0 as int,
                year_counts.pairs()[k].1 as int,
                max_count(year_counts.pairs()),
                width as int,
            ),
{
    let ghost s = year_counts.pairs();
    let max = largest_count(year_counts);
    proof {
        lemma_max_count_bounds(s);
    }
    let n = year_counts.len();
    let mut lines: Vec<String> = Vec::new();
    let mut i: usize = 0;
    while i < n
        invariant
            s == year_counts.pairs(),
            n == s.len(),
            max == max_count(s),
            forall|k: int| 0 <= k < s.len() ==> (#[trigger] s[k]).1 <= max_count(s),
            i <= n,
            lines@.len() == i,
            forall|k: int|
                #![trigger lines@[k]]
                0 <= k < i ==> lines@[k]@ == render_line(
                    s[k].0 as int,
                    s[k].1 as int,
                    max as int,
                    width as int,
                ),
        decreases n - i,
    {
        let (year, count) = year_counts.entry(i);
        assert(s[i as int].1 <= max_count(s));
        lines.push(line_for(year, count, max, width));
        i = i + 1;
    }
    assert(lines@.map_values(|l: String| l@) =~= rendered(s, width as int));
    lines
}

/// A year with a zero count renders as the year, two spaces and `0`, at
/// every width and whatever the largest count.
pub proof fn zero_count_line(year: int, max: int, width: int)
    ensures
        render_line(year, 0, max, width) == decimal(year) + seq![' ', ' ', '0'],
{
    assert(decimal(0) =~= seq!['0']);
    assert(decimal(year) + seq![' ', ' '] + decimal(0) =~= decimal(year) + seq![' ', ' ', '0']);
}

} // verus!
