//! A map from year to count, kept in ascending year order.

use vstd::prelude::*;

verus! {

pub open spec fn ascending(s: Seq<(i32, usize)>) -> bool {
    forall|i: int, j: int| 0 <= i < j < s.len() ==> (#[trigger] s[i]).0 < (#[trigger] s[j]).0
}

/// The count stored for `y`: that of the first entry with that year.
pub open spec fn lookup(s: Seq<(i32, usize)>, y: i32) -> Option<usize>
    decreases s.len(),
{
    if s.len() == 0 {
        None
    } else if s[0].0 == y {
        Some(s[0].1)
    } else {
        lookup(s.drop_first(), y)
    }
}

proof fn lemma_lookup_concat(a: Seq<(i32, usize)>, b: Seq<(i32, usize)>, y: i32)
    ensures
        lookup(a + b, y) == (match lookup(a, y) {
            Some(c) => Some(c),
            None => lookup(b, y),
        }),
    decreases a.len(),
{
    if a.len() > 0 {
        assert((a + b).drop_first() =~= a.drop_first() + b);
        lemma_lookup_concat(a.drop_first(), b, y);
    } else {
        assert(a + b =~= b);
    }
}

proof fn lemma_lookup_single(p: (i32, usize), y: i32)
    ensures
        lookup(seq![p], y) == (if p.0 == y { Some(p.1) } else { None }),
{
    let s = seq![p];
    assert(s[0] == p);
    assert(s.drop_first() =~= Seq::<(i32, usize)>::empty());
    assert(lookup(s.drop_first(), y) is None);
}

proof fn lemma_lookup_absent(a: Seq<(i32, usize)>, y: i32)
    requires
        forall|i: int| 0 <= i < a.len() ==> (#[trigger] a[i]).0 != y,
    ensures
        lookup(a, y) is None,
    decreases a.len(),
{
    if a.len() > 0 {
        lemma_lookup_absent(a.drop_first(), y);
    }
}

/// Year counts with distinct years, in ascending order.
#[derive(Clone, Debug)]
pub struct YearCounts {
    entries: Vec<(i32, usize)>,
}

impl YearCounts {
    /// The (year, count) entries in ascending year order.
    pub closed spec fn pairs(&self) -> Seq<(i32, usize)> {
        self.entries@
    }

    pub open spec fn wf(&self) -> bool {
        ascending(self.pairs())
    }

    pub open spec fn count_of(&self, y: i32) -> Option<usize> {
        lookup(self.pairs(), y)
    }

    pub fn new() -> (r: YearCounts)
        ensures
            r.wf(),
            r.pairs() == Seq::<(i32, usize)>::empty(),
    {
        YearCounts { entries: Vec::new() }
    }

    /// The counts of the given entries, which must ascend by year.
    pub fn from_ascending(entries: Vec<(i32, usize)>) -> (r: YearCounts)
        requires
            ascending(entries@),
        ensures
            r.wf(),
            r.pairs() == entries@,
    {
        YearCounts { entries }
    }

    pub fn len(&self) -> (r: usize)
        ensures
            r == self.pairs().len(),
    {
        self.entries.len()
    }

    pub fn is_empty(&self) -> (r: bool)
        ensures
            r == (self.pairs().len() == 0),
    {
        self.entries.len() == 0
    }

    /// The entry at position `i` in ascending year order.
    pub fn entry(&self, i: usize) -> (r: (i32, usize))
        requires
            i < self.pairs().len(),
        ensures
            r == self.pairs()[i as int],
    {
        self.entries[i]
    }

    /// The count stored for `year`.
    pub fn get(&self, year: &i32) -> (r: Option<&usize>)
        ensures
            r is None <==> self.count_of(*year) is None,
            r matches Some(c) ==> self.count_of(*year) == Some(*c),
    {
        let ghost s = self.pairs();
        let mut i: usize = 0;
        assert(s.skip(0) =~= s);
        while i < self.entries.len()
            invariant
                s == self.entries@,
                i <= s.len(),
                lookup(s, *year) == lookup(s.skip(i as int), *year),
            decreases s.len() - i,
        {
            assert(s.skip(i as int).drop_first() =~= s.skip(i + 1));
            if self.entries[i].0 == *year {
                return Some(&self.entries[i].1);
            }
            i = i + 1;
        }
        None
    }

    /// Sets the count of `year`, handing back the count it replaces.
    pub fn insert(&mut self, year: i32, count: usize) -> (r: Option<usize>)
        requires
            old(self).wf(),
        ensures
            final(self).wf(),
            r == old(self).count_of(year),
            final(self).count_of(year) == Some(count),
            forall|y: i32| y != year ==> #[trigger] final(self).count_of(y) == old(self).count_of(y),
    {
        let ghost s = self.entries@;
        let n = self.entries.len();
        let mut k: usize = 0;
        while k < n && self.entries[k].0 < year
            invariant
                s == self.entries@,
                n == s.len(),
                k <= n,
                forall|i: int| 0 <= i < k ==> (#[trigger] s[i]).0 < year,
            decreases n - k,
        {
            k = k + 1;
        }
        proof {
            lemma_lookup_absent(s.take(k as int), year);
            assert(s =~= s.take(k as int) + s.skip(k as int));
            lemma_lookup_concat(s.take(k as int), s.skip(k as int), year);
        }
        if k < n && self.entries[k].0 == year {
            let prev = self.entries[k].1;
            self.entries.set(k, (year, count));
            proof {
                let t = self.entries@;
                assert(t =~= s.take(k as int) + seq![(year, count)] + s.skip(k + 1));
                assert(s.skip(k as int) =~= seq![s[k as int]] + s.skip(k + 1));
                assert forall|y: i32| y != year implies #[trigger] lookup(t, y) == lookup(s, y) by {
                    lemma_lookup_concat(s.take(k as int) + seq![(year, count)], s.skip(k + 1), y);
                    lemma_lookup_concat(s.take(k as int), seq![(year, count)], y);
                    lemma_lookup_concat(s.take(k as int), s.skip(k as int), y);
                    lemma_lookup_concat(seq![s[k as int]], s.skip(k + 1), y);
                    lemma_lookup_single(s[k as int], y);
                    lemma_lookup_single((year, count), y);
                }
                lemma_lookup_single((year, count), year);
                lemma_lookup_concat(s.take(k as int) + seq![(year, count)], s.skip(k + 1), year);
                lemma_lookup_concat(s.take(k as int), seq![(year, count)], year);
            }
            Some(prev)
        } else {
            proof {
                if k < n {
                    assert(s[k as int].0 > year);
                    assert forall|i: int| k <= i < n implies (#[trigger] s[i]).0 != year by {
                        if i > k {
                            assert(s[k as int].0 < s[i].0);
                        }
                    }
                }
                lemma_lookup_absent(s.skip(k as int), year);
            }
            self.entries.insert(k, (year, count));
            proof {
                let t = self.entries@;
                assert(t =~= s.take(k as int) + seq![(year, count)] + s.skip(k as int));
                assert forall|y: i32| y != year implies #[trigger] lookup(t, y) == lookup(s, y) by {
                    lemma_lookup_concat(s.take(k as int) + seq![(year, count)], s.skip(k as int), y);
                    lemma_lookup_concat(s.take(k as int), seq![(year, count)], y);
                    lemma_lookup_concat(s.take(k as int), s.skip(k as int), y);
                    lemma_lookup_single((year, count), y);
                }
                lemma_lookup_single((year, count), year);
                lemma_lookup_concat(s.take(k as int) + seq![(year, count)], s.skip(k as int), year);
                lemma_lookup_concat(s.take(k as int), seq![(year, count)], year);
                assert forall|i: int, j: int| 0 <= i < j < t.len() implies (#[trigger] t[i]).0 < (
                #[trigger] t[j]).0 by {
                    if i < k && j > k {
                        assert(t[j] == s[j - 1]);
                    } else if i > k {
                        assert(t[i] == s[i - 1] && t[j] == s[j - 1]);
                    }
                }
            }
            None
        }
    }
}

} // verus!
