use vstd::prelude::*;
use crate::ir::function::string_views;
use crate::text::{copy_string, string_eq_str, string_of};

verus! {

broadcast use vstd::std_specs::vec::group_vec_axioms;

/// How often a block ran.
#[derive(Debug)]
pub struct BlockProfileData {
    pub execution_count: u64,
}

impl Default for BlockProfileData {
    fn default() -> (r: Self)
        ensures
            r.execution_count == 0,
    {
        BlockProfileData { execution_count: 0 }
    }
}

/// Index of the first largest count.
pub open spec fn max_index(counts: Seq<u64>) -> int
    decreases counts.len(),
{
    if counts.len() <= 1 {
        0
    } else {
        let j = max_index(counts.drop_last());
        if counts.last() > counts[j] {
            counts.len() - 1
        } else {
            j
        }
    }
}

/// `max_index` points at a largest count, before any other as large.
pub proof fn lemma_max_index(counts: Seq<u64>)
    requires
        counts.len() > 0,
    ensures
        0 <= max_index(counts) < counts.len(),
        forall|k: int| 0 <= k < counts.len() ==> #[trigger] counts[k] <= counts[max_index(counts)],
        forall|k: int| 0 <= k < max_index(counts) ==> #[trigger] counts[k] < counts[max_index(counts)],
    decreases counts.len(),
{
    if counts.len() > 1 {
        let d = counts.drop_last();
        lemma_max_index(d);
        let j = max_index(d);
        let m = max_index(counts);
        assert(d[j] == counts[j]);
        assert forall|k: int| 0 <= k < counts.len() implies #[trigger] counts[k] <= counts[m] by {
            if k < counts.len() - 1 {
                assert(d[k] == counts[k]);
                assert(d[k] <= d[j]);
            }
        }
        assert forall|k: int| 0 <= k < m implies #[trigger] counts[k] < counts[m] by {
            if k < counts.len() - 1 {
                assert(d[k] == counts[k]);
                assert(d[k] <= d[j]);
                if m == j {
                    assert(d[k] < d[j]);
                }
            }
        }
    }
}

/// The `n` names with the largest counts, largest first, a name profiled earlier before a
/// later one with the same count.
pub open spec fn top_by_count(names: Seq<Seq<char>>, counts: Seq<u64>, n: nat) -> Seq<Seq<char>>
    decreases n,
{
    if n == 0 || names.len() == 0 || counts.len() != names.len() {
        Seq::empty()
    } else {
        let i = max_index(counts);
        seq![names[i]] + top_by_count(names.remove(i), counts.remove(i), (n - 1) as nat)
    }
}

/// The hot paths are the busiest functions: as many as asked for (or all, when fewer were
/// profiled), each a profiled name, the first with a count no smaller than any other.
pub proof fn law_hot_paths_are_the_busiest(names: Seq<Seq<char>>, counts: Seq<u64>, n: nat)
    requires
        names.len() == counts.len(),
    ensures
        top_by_count(names, counts, n).len() == if n < names.len() { n } else { names.len() },
        forall|k: int| 0 <= k < top_by_count(names, counts, n).len() ==> names.contains(
            #[trigger] top_by_count(names, counts, n)[k],
        ),
        n > 0 && names.len() > 0 ==> exists|i: int| {
            &&& 0 <= i < names.len()
            &&& names[i] == top_by_count(names, counts, n)[0]
            &&& forall|j: int| 0 <= j < counts.len() ==> #[trigger] counts[j] <= counts[i]
        },
    decreases n,
{
    if n > 0 && names.len() > 0 {
        let i = max_index(counts);
        lemma_max_index(counts);
        let rest_names = names.remove(i);
        law_hot_paths_are_the_busiest(rest_names, counts.remove(i), (n - 1) as nat);
        let top = top_by_count(names, counts, n);
        let rest = top_by_count(rest_names, counts.remove(i), (n - 1) as nat);
        assert(top == seq![names[i]] + rest);
        assert forall|k: int| 0 <= k < top.len() implies names.contains(#[trigger] top[k]) by {
            if k == 0 {
                assert(names[i] == top[0]);
            } else {
                assert(top[k] == rest[k - 1]);
                assert(rest_names.contains(rest[k - 1]));
                let j = choose|j: int| 0 <= j < rest_names.len() && rest_names[j] == rest[k - 1];
                if j < i {
                    assert(names[j] == rest_names[j]);
                } else {
                    assert(names[j + 1] == rest_names[j]);
                }
            }
        }
        assert(names[i] == top[0]);
    }
}

/// The counts after one more call of `name`: its count goes up by one (saturating), or a
/// count of one is added for a name not seen before.
pub open spec fn counts_after_call(names: Seq<Seq<char>>, counts: Seq<u64>, name: Seq<char>) -> Seq<u64> {
    if names.contains(name) {
        let i = names.index_of(name);
        counts.update(i, if counts[i] < u64::MAX { (counts[i] + 1) as u64 } else { u64::MAX })
    } else {
        counts.push(1u64)
    }
}

/// How many calls each profiled function received, in first-profiled order.
pub struct CallCounts {
    names: Vec<String>,
    counts: Vec<u64>,
}

impl CallCounts {
    #[verifier::type_invariant]
    spec fn wf(self) -> bool {
        &&& self.names@.len() == self.counts@.len()
        &&& forall|i: int, j: int| 0 <= i < j < self.names@.len() ==> self.names@[i]@ != self.names@[j]@
    }

    /// The profiled function names, in first-profiled order.
    pub closed spec fn names(self) -> Seq<Seq<char>> {
        string_views(self.names@)
    }

    /// The call counts, aligned with `names`.
    pub closed spec fn counts(self) -> Seq<u64> {
        self.counts@
    }

    /// Nothing profiled yet.
    pub fn new() -> (r: Self)
        ensures
            r.names() == Seq::<Seq<char>>::empty(),
            r.counts() == Seq::<u64>::empty(),
    {
        let r = CallCounts { names: Vec::new(), counts: Vec::new() };
        assert(r.names() =~= Seq::<Seq<char>>::empty());
        r
    }

    /// The same counts for the same names.
    pub fn copy(&self) -> (r: Self)
        ensures
            r.names() == self.names(),
            r.counts() == self.counts(),
    {
        proof {
            use_type_invariant(self);
        }
        let mut names: Vec<String> = Vec::new();
        let mut counts: Vec<u64> = Vec::new();
        let mut i: usize = 0;
        while i < self.names.len()
            invariant
                i <= self.names.len(),
                self.names@.len() == self.counts@.len(),
                names@.len() == i,
                counts@ =~= self.counts@.take(i as int),
                forall|k: int| 0 <= k < i ==> #[trigger] names@[k]@ == self.names@[k]@,
            decreases self.names.len() - i,
        {
            names.push(self.names[i].clone());
            counts.push(self.counts[i]);
            proof {
                assert(self.counts@.take(i + 1) =~= self.counts@.take(i as int).push(self.counts@[i as int]));
            }
            i = i + 1;
        }
        proof {
            assert(self.counts@.take(self.counts@.len() as int) =~= self.counts@);
        }
        let r = CallCounts { names, counts };
        proof {
            assert(r.names() =~= self.names());
        }
        r
    }

    /// Forgets every count.
    pub fn reset(&mut self)
        ensures
            final(self).names() == Seq::<Seq<char>>::empty(),
            final(self).counts() == Seq::<u64>::empty(),
    {
        *self = CallCounts::new();
    }

    /// Counts one more call of the named function (saturating at the largest count).
    pub fn record_call(&mut self, name: &str)
        ensures
            old(self).names().contains(name@) ==> final(self).names() == old(self).names(),
            !old(self).names().contains(name@) ==> final(self).names() == old(self).names().push(name@),
            final(self).counts() == counts_after_call(old(self).names(), old(self).counts(), name@),
    {
        let ghost old_names = self.names();
        let ghost old_counts = self.counts();
        let mut cur = CallCounts::new();
        std::mem::swap(&mut cur, self);
        proof {
            use_type_invariant(&cur);
        }
        let CallCounts { mut names, mut counts } = cur;
        proof {
            assert(string_views(names@) == old_names);
        }
        let mut i: usize = 0;
        while i < names.len()
            invariant
                i <= names.len(),
                names@.len() == counts@.len(),
                counts@ == old_counts,
                old_counts == old(self).counts(),
                old_names == old(self).names(),
                string_views(names@) == old_names,
                forall|a: int, b: int| 0 <= a < b < names@.len() ==> names@[a]@ != names@[b]@,
                forall|k: int| 0 <= k < i ==> names@[k]@ != name@,
            decreases names.len() - i,
        {
            if string_eq_str(&names[i], name) {
                let c = counts[i];
                counts.set(i, c.saturating_add(1));
                proof {
                    assert(old_names[i as int] == name@);
                    assert(old_names.contains(name@));
                    assert(old_names.index_of(name@) == i) by {
                        let j = old_names.index_of(name@);
                        assert(old_names[j] == name@);
                        if j != i {
                            assert(names@[j]@ == names@[i as int]@);
                        }
                    }
                }
                *self = CallCounts { names, counts };
                return;
            }
            i = i + 1;
        }
        proof {
            assert(!old_names.contains(name@)) by {
                if old_names.contains(name@) {
                    let k = choose|k: int| 0 <= k < old_names.len() && old_names[k] == name@;
                    assert(names@[k]@ == name@);
                }
            }
        }
        let ghost before = names@;
        names.push(string_of(name));
        counts.push(1);
        proof {
            assert(string_views(names@) =~= old_names.push(name@));
            assert forall|a: int, b: int| 0 <= a < b < names@.len() implies names@[a]@ != names@[b]@ by {
                if b == names@.len() - 1 {
                    assert(old_names[a] == before[a]@);
                }
            }
        }
        *self = CallCounts { names, counts };
    }

    /// The names of the `top_n` most-called functions, most-called first.
    pub fn hot_functions(&self, top_n: usize) -> (r: Vec<String>)
        ensures
            string_views(r@) == top_by_count(self.names(), self.counts(), top_n as nat),
    {
        proof {
            use_type_invariant(self);
        }
        let mut names: Vec<String> = Vec::new();
        let mut counts: Vec<u64> = Vec::new();
        let mut j: usize = 0;
        while j < self.names.len()
            invariant
                j <= self.names.len(),
                self.names@.len() == self.counts@.len(),
                names@.len() == j,
                counts@ == self.counts@.take(j as int),
                forall|k: int| 0 <= k < j ==> #[trigger] names@[k]@ == self.names@[k]@,
            decreases self.names.len() - j,
        {
            names.push(copy_string(&self.names[j]));
            counts.push(self.counts[j]);
            j = j + 1;
        }
        proof {
            assert(string_views(names@) =~= self.names());
            assert(counts@ =~= self.counts());
        }
        let ghost goal = top_by_count(self.names(), self.counts(), top_n as nat);
        let mut out: Vec<String> = Vec::new();
        let mut left: usize = top_n;
        while left > 0 && names.len() > 0
            invariant
                names@.len() == counts@.len(),
                string_views(out@) + top_by_count(
                    string_views(names@),
                    counts@,
                    left as nat,
                ) == goal,
            decreases left,
        {
            let ghost nm = string_views(names@);
            proof {
                lemma_max_index(counts@);
            }
            let mut best: usize = 0;
            let mut k: usize = 1;
            while k < counts.len()
                invariant
                    1 <= k <= counts.len(),
                    best == max_index(counts@.take(k as int)),
                    best < k,
                decreases counts.len() - k,
            {
                proof {
                    assert(counts@.take(k + 1).drop_last() =~= counts@.take(k as int));
                    lemma_max_index(counts@.take(k as int));
                }
                if counts[k] > counts[best] {
                    best = k;
                }
                k = k + 1;
            }
            proof {
                assert(counts@.take(k as int) =~= counts@);
            }
            let ghost before_out = out@;
            let chosen = names.remove(best);
            counts.remove(best);
            out.push(chosen);
            proof {
                assert(string_views(names@) =~= nm.remove(best as int));
                assert(string_views(out@) =~= string_views(before_out).push(
                    nm[best as int],
                ));
            }
            left = left - 1;
        }
        proof {
            assert(top_by_count(string_views(names@), counts@, left as nat) =~= Seq::<
                Seq<char>,
            >::empty());
        }
        out
    }
}

} // verus!
