//! A per-error-code counter: the `by_error_code` tables of the reports.

use vstd::prelude::*;

verus! {

/// The count recorded for `code` in a list of distinct (code, count) entries; 0 when absent.
pub open spec fn tally_count(s: Seq<(String, u64)>, code: Seq<char>) -> nat {
    if exists|i: int| 0 <= i < s.len() && (#[trigger] s[i]).0@ == code {
        s[choose|i: int| 0 <= i < s.len() && (#[trigger] s[i]).0@ == code].1 as nat
    } else {
        0
    }
}

/// The sum of the counts of a list of entries.
pub open spec fn tally_total(s: Seq<(String, u64)>) -> nat
    decreases s.len(),
{
    if s.len() == 0 { 0 } else { tally_total(s.drop_last()) + s.last().1 as nat }
}

proof fn lemma_total_update(s: Seq<(String, u64)>, i: int, e: (String, u64))
    requires
        0 <= i < s.len(),
    ensures
        tally_total(s.update(i, e)) == tally_total(s) - s[i].1 + e.1,
    decreases s.len(),
{
    let u = s.update(i, e);
    if i == s.len() - 1 {
        assert(u.drop_last() =~= s.drop_last());
    } else {
        assert(u.drop_last() =~= s.drop_last().update(i, e));
        lemma_total_update(s.drop_last(), i, e);
    }
}

proof fn lemma_total_remove(s: Seq<(String, u64)>, i: int)
    requires
        0 <= i < s.len(),
    ensures
        tally_total(s.remove(i)) == tally_total(s) - s[i].1,
    decreases s.len(),
{
    let r = s.remove(i);
    if i == s.len() - 1 {
        assert(r =~= s.drop_last());
    } else {
        assert(r.drop_last() =~= s.drop_last().remove(i));
        assert(r.last() == s.last());
        lemma_total_remove(s.drop_last(), i);
    }
}

proof fn lemma_total_same_counts(a: Seq<(String, u64)>, b: Seq<(String, u64)>)
    requires
        a.len() == b.len(),
        forall|j: int| 0 <= j < a.len() ==> (#[trigger] a[j]).1 == b[j].1,
    ensures
        tally_total(a) == tally_total(b),
    decreases a.len(),
{
    if a.len() > 0 {
        lemma_total_same_counts(a.drop_last(), b.drop_last());
    }
}

/// Counts per error code. Each code appears in at most one entry.
pub struct CodeTally {
    pub entries: Vec<(String, u64)>,
}

impl CodeTally {
    /// No code appears twice.
    pub open spec fn wf(&self) -> bool {
        forall|i: int, j: int|
            0 <= i < j < self.entries@.len() ==> (#[trigger] self.entries@[i]).0@ != (#[trigger] self.entries@[j]).0@
    }

    /// Every listed code has a positive count.
    pub open spec fn all_positive(&self) -> bool {
        forall|i: int| 0 <= i < self.entries@.len() ==> (#[trigger] self.entries@[i]).1 > 0
    }

    /// The count recorded for `code`.
    pub open spec fn count(&self, code: Seq<char>) -> nat {
        tally_count(self.entries@, code)
    }

    /// The sum of all counts.
    pub open spec fn total(&self) -> nat {
        tally_total(self.entries@)
    }

    /// An empty tally.
    pub fn new() -> (t: Self)
        ensures
            t.wf(),
            t.all_positive(),
            t.entries@.len() == 0,
            t.total() == 0,
            forall|c: Seq<char>| t.count(c) == 0,
    {
        CodeTally { entries: Vec::new() }
    }

    fn find(&self, code: &str) -> (r: Option<usize>)
        requires
            self.wf(),
        ensures
            match r {
                Some(i) => i < self.entries@.len() && self.entries@[i as int].0@ == code@,
                None => forall|i: int| 0 <= i < self.entries@.len() ==> (#[trigger] self.entries@[i]).0@ != code@,
            },
    {
        let mut i: usize = 0;
        while i < self.entries.len()
            invariant
                i <= self.entries@.len(),
                forall|j: int| 0 <= j < i ==> (#[trigger] self.entries@[j]).0@ != code@,
            decreases self.entries@.len() - i,
        {
            if crate::text::str_eq(self.entries[i].0.as_str(), code) {
                return Some(i);
            }
            i = i + 1;
        }
        None
    }

    /// The count recorded for `code` (0 when it never occurred).
    pub fn get(&self, code: &str) -> (r: u64)
        requires
            self.wf(),
        ensures
            r == self.count(code@),
    {
        match self.find(code) {
            Some(i) => {
                proof { self.lemma_count_at(i as int); }
                self.entries[i].1
            },
            None => 0,
        }
    }

    proof fn lemma_count_at(&self, i: int)
        requires
            self.wf(),
            0 <= i < self.entries@.len(),
        ensures
            self.count(self.entries@[i].0@) == self.entries@[i].1,
    {
        let c = self.entries@[i].0@;
        assert(self.entries@[i].0@ == c);
        let j = choose|j: int| 0 <= j < self.entries@.len() && (#[trigger] self.entries@[j]).0@ == c;
        if j != i {
            if j < i {
                assert(self.entries@[j].0@ != self.entries@[i].0@);
            } else {
                assert(self.entries@[i].0@ != self.entries@[j].0@);
            }
        }
    }

    proof fn lemma_count_absent(&self, code: Seq<char>)
        requires
            forall|i: int| 0 <= i < self.entries@.len() ==> (#[trigger] self.entries@[i]).0@ != code,
        ensures
            self.count(code) == 0,
    {
    }

    /// Adds one occurrence of `code`.
    pub fn add(&mut self, code: &str)
        requires
            old(self).wf(),
            old(self).count(code@) < u64::MAX,
        ensures
            final(self).wf(),
            old(self).all_positive() ==> final(self).all_positive(),
            final(self).total() == old(self).total() + 1,
            forall|c: Seq<char>| #[trigger] final(self).count(c) == old(self).count(c) + (if c == code@ { 1nat } else { 0nat }),
    {
        let ghost old_t = *self;
        match self.find(code) {
            Some(i) => {
                proof { old_t.lemma_count_at(i as int); }
                let n = self.entries[i].1;
                let k = self.entries[i].0.clone();
                let ghost before = self.entries@;
                self.entries.set(i, (k, n + 1));
                proof {
                    lemma_total_update(before, i as int, self.entries@[i as int]);
                    assert(self.entries@ == before.update(i as int, self.entries@[i as int]));
                    assert forall|c: Seq<char>| #[trigger] self.count(c) == old_t.count(c) + (if c == code@ { 1nat } else { 0nat }) by {
                        if c == code@ {
                            self.lemma_count_at(i as int);
                        } else {
                            if exists|j: int| 0 <= j < old_t.entries@.len() && (#[trigger] old_t.entries@[j]).0@ == c {
                                let j = choose|j: int| 0 <= j < old_t.entries@.len() && (#[trigger] old_t.entries@[j]).0@ == c;
                                old_t.lemma_count_at(j);
                                assert(self.entries@[j] == old_t.entries@[j]);
                                self.lemma_count_at(j);
                            } else {
                                assert forall|j: int| 0 <= j < self.entries@.len() implies (#[trigger] self.entries@[j]).0@ != c by {
                                    if j != i { assert(self.entries@[j] == old_t.entries@[j]); }
                                }
                            }
                        }
                    }
                }
            },
            None => {
                let k = code.to_string();
                let ghost before = self.entries@;
                self.entries.push((k, 1));
                proof {
                    assert(self.entries@.drop_last() =~= before);
                    let last = self.entries@.len() - 1;
                    assert forall|c: Seq<char>| #[trigger] self.count(c) == old_t.count(c) + (if c == code@ { 1nat } else { 0nat }) by {
                        if c == code@ {
                            self.lemma_count_at(last);
                            old_t.lemma_count_absent(c);
                        } else {
                            if exists|j: int| 0 <= j < old_t.entries@.len() && (#[trigger] old_t.entries@[j]).0@ == c {
                                let j = choose|j: int| 0 <= j < old_t.entries@.len() && (#[trigger] old_t.entries@[j]).0@ == c;
                                old_t.lemma_count_at(j);
                                assert(self.entries@[j] == old_t.entries@[j]);
                                self.lemma_count_at(j);
                            } else {
                                assert forall|j: int| 0 <= j < self.entries@.len() implies (#[trigger] self.entries@[j]).0@ != c by {
                                    if j < last { assert(self.entries@[j] == old_t.entries@[j]); }
                                }
                            }
                        }
                    }
                }
            },
        }
    }

    /// Removes one occurrence of `code`; an entry that reaches 0 is dropped.
    pub fn sub(&mut self, code: &str)
        requires
            old(self).wf(),
            old(self).all_positive(),
            old(self).count(code@) > 0,
        ensures
            final(self).wf(),
            final(self).all_positive(),
            final(self).total() == old(self).total() - 1,
            forall|c: Seq<char>| #[trigger] final(self).count(c) == old(self).count(c) - (if c == code@ { 1int } else { 0int }),
    {
        let ghost old_t = *self;
        match self.find(code) {
            Some(i) => {
                proof { old_t.lemma_count_at(i as int); }
                let n = self.entries[i].1;
                if n > 1 {
                    let k = self.entries[i].0.clone();
                    let ghost before = self.entries@;
                    self.entries.set(i, (k, n - 1));
                    proof {
                        lemma_total_update(before, i as int, self.entries@[i as int]);
                        assert(self.entries@ == before.update(i as int, self.entries@[i as int]));
                        assert forall|c: Seq<char>| #[trigger] self.count(c) == old_t.count(c) - (if c == code@ { 1int } else { 0int }) by {
                            if c == code@ {
                                self.lemma_count_at(i as int);
                            } else {
                                if exists|j: int| 0 <= j < old_t.entries@.len() && (#[trigger] old_t.entries@[j]).0@ == c {
                                    let j = choose|j: int| 0 <= j < old_t.entries@.len() && (#[trigger] old_t.entries@[j]).0@ == c;
                                    old_t.lemma_count_at(j);
                                    assert(self.entries@[j] == old_t.entries@[j]);
                                    self.lemma_count_at(j);
                                } else {
                                    assert forall|j: int| 0 <= j < self.entries@.len() implies (#[trigger] self.entries@[j]).0@ != c by {
                                        if j != i { assert(self.entries@[j] == old_t.entries@[j]); }
                                    }
                                }
                            }
                        }
                    }
                } else {
                    let ghost before = self.entries@;
                    self.entries.remove(i);
                    proof {
                        lemma_total_remove(before, i as int);
                        assert(self.entries@ == before.remove(i as int));
                        let ii = i as int;
                        assert(forall|j: int| 0 <= j < ii ==> self.entries@[j] == old_t.entries@[j]);
                        assert(forall|j: int| ii <= j < self.entries@.len() ==> self.entries@[j] == old_t.entries@[j + 1]);
                        assert forall|a: int, b: int| 0 <= a < b < self.entries@.len() implies (#[trigger] self.entries@[a]).0@ != (#[trigger] self.entries@[b]).0@ by {
                            let oa = if a < ii { a } else { a + 1 };
                            let ob = if b < ii { b } else { b + 1 };
                            assert(old_t.entries@[oa].0@ != old_t.entries@[ob].0@);
                        }
                        assert forall|c: Seq<char>| #[trigger] self.count(c) == old_t.count(c) - (if c == code@ { 1int } else { 0int }) by {
                            if c == code@ {
                                assert forall|j: int| 0 <= j < self.entries@.len() implies (#[trigger] self.entries@[j]).0@ != c by {
                                    let oj = if j < ii { j } else { j + 1 };
                                    if oj < ii { assert(old_t.entries@[oj].0@ != old_t.entries@[ii].0@); }
                                    else { assert(old_t.entries@[ii].0@ != old_t.entries@[oj].0@); }
                                }
                            } else {
                                if exists|j: int| 0 <= j < old_t.entries@.len() && (#[trigger] old_t.entries@[j]).0@ == c {
                                    let j = choose|j: int| 0 <= j < old_t.entries@.len() && (#[trigger] old_t.entries@[j]).0@ == c;
                                    old_t.lemma_count_at(j);
                                    let nj = if j < ii { j } else { j - 1 };
                                    assert(self.entries@[nj] == old_t.entries@[j]);
                                    self.lemma_count_at(nj);
                                } else {
                                    assert forall|j: int| 0 <= j < self.entries@.len() implies (#[trigger] self.entries@[j]).0@ != c by {
                                        let oj = if j < ii { j } else { j + 1 };
                                        assert(self.entries@[j] == old_t.entries@[oj]);
                                    }
                                }
                            }
                        }
                    }
                }
            },
            None => {
                proof { old_t.lemma_count_absent(code@); }
            },
        }
    }

    /// A copy with the same entries.
    pub fn copy(&self) -> (t: Self)
        requires
            self.wf(),
        ensures
            t.wf(),
            self.all_positive() ==> t.all_positive(),
            t.total() == self.total(),
            forall|c: Seq<char>| #[trigger] t.count(c) == self.count(c),
    {
        let mut entries: Vec<(String, u64)> = Vec::new();
        let mut i: usize = 0;
        while i < self.entries.len()
            invariant
                i <= self.entries@.len(),
                entries@.len() == i,
                forall|j: int| 0 <= j < i ==> (#[trigger] entries@[j]).0@ == self.entries@[j].0@
                    && entries@[j].1 == self.entries@[j].1,
            decreases self.entries@.len() - i,
        {
            let k = self.entries[i].0.clone();
            entries.push((k, self.entries[i].1));
            i = i + 1;
        }
        let t = CodeTally { entries };
        proof {
            lemma_total_same_counts(t.entries@, self.entries@);
            assert forall|a: int, b: int| 0 <= a < b < t.entries@.len()
                implies (#[trigger] t.entries@[a]).0@ != (#[trigger] t.entries@[b]).0@ by {
                assert(self.entries@[a].0@ != self.entries@[b].0@);
            }
            assert forall|c: Seq<char>| #[trigger] t.count(c) == self.count(c) by {
                if exists|j: int| 0 <= j < self.entries@.len() && (#[trigger] self.entries@[j]).0@ == c {
                    let j = choose|j: int| 0 <= j < self.entries@.len() && (#[trigger] self.entries@[j]).0@ == c;
                    self.lemma_count_at(j);
                    assert(t.entries@[j].0@ == c);
                    t.lemma_count_at(j);
                } else {
                    assert forall|j: int| 0 <= j < t.entries@.len() implies (#[trigger] t.entries@[j]).0@ != c by {
                        assert(t.entries@[j].0@ == self.entries@[j].0@);
                    }
                }
            }
            if self.all_positive() {
                assert forall|j: int| 0 <= j < t.entries@.len() implies (#[trigger] t.entries@[j]).1 > 0 by {
                    assert(t.entries@[j].1 == self.entries@[j].1);
                }
            }
        }
        t
    }
}

} // verus!
