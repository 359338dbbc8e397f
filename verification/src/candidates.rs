//! Candidate keys and the ordered map of candidate vote counts.
use vstd::prelude::*;
use crate::text::dec;
use crate::textops::{append_chars, dec_chars, from_chars, push_str, to_chars};

verus! {

broadcast use vstd::string::group_string_axioms;

/// A candidate: list number and position on the list.
#[derive(Clone, Copy, Debug, PartialEq, Eq)]
pub struct CandidateKey {
    pub list: u32,
    pub candidate: u32,
}

/// Keys are ordered by list, then by candidate.
pub open spec fn key_lt(a: CandidateKey, b: CandidateKey) -> bool {
    a.list < b.list || (a.list == b.list && a.candidate < b.candidate)
}

/// `L{list}.{candidate}`.
pub open spec fn key_label(k: CandidateKey) -> Seq<char> {
    "L"@ + dec(k.list as nat) + "."@ + dec(k.candidate as nat)
}

impl CandidateKey {
    /// `L{list}.{candidate}`.
    pub fn label(&self) -> (r: String)
        ensures
            r@ == key_label(*self),
    {
        let v = self.label_chars();
        from_chars(&v)
    }

    /// `L{list}.{candidate}` as characters.
    pub fn label_chars(&self) -> (r: Vec<char>)
        ensures
            r@ == key_label(*self),
    {
        let mut m = to_chars("L");
        let a = dec_chars(self.list as u64);
        append_chars(&mut m, &a);
        push_str(&mut m, ".");
        let b = dec_chars(self.candidate as u64);
        append_chars(&mut m, &b);
        m
    }
}

/// Entries in strictly increasing key order.
pub open spec fn sorted_entries(s: Seq<(CandidateKey, u32)>) -> bool {
    forall|i: int, j: int| 0 <= i < j < s.len() ==> key_lt(s[i].0, s[j].0)
}

/// Whether some entry has key `k`.
pub open spec fn has_key(s: Seq<(CandidateKey, u32)>, k: CandidateKey) -> bool {
    exists|i: int| 0 <= i < s.len() && s[i].0 == k
}

/// A position whose entry has key `k`, where there is one.
pub open spec fn key_index(s: Seq<(CandidateKey, u32)>, k: CandidateKey) -> int {
    choose|i: int| 0 <= i < s.len() && s[i].0 == k
}

/// The value stored under `k`, if any.
pub open spec fn lookup(s: Seq<(CandidateKey, u32)>, k: CandidateKey) -> Option<u32> {
    if has_key(s, k) {
        Some(s[key_index(s, k)].1)
    } else {
        None
    }
}

pub proof fn lemma_lookup_at(s: Seq<(CandidateKey, u32)>, i: int)
    requires
        sorted_entries(s),
        0 <= i < s.len(),
    ensures
        lookup(s, s[i].0) == Some(s[i].1),
{
    let k = s[i].0;
    assert(0 <= i < s.len() && s[i].0 == k);
    assert(has_key(s, k));
    let j = key_index(s, k);
    assert(0 <= j < s.len() && s[j].0 == k);
    if j < i {
        assert(key_lt(s[j].0, s[i].0));
    } else if j > i {
        assert(key_lt(s[i].0, s[j].0));
    }
    assert(j == i);
    assert(lookup(s, k) == Some(s[j].1));
}

/// The position at or after `i` where `k` belongs among the keys of `s`:
/// the first entry whose key does not order before `k`.
pub open spec fn insert_pos(s: Seq<(CandidateKey, u32)>, k: CandidateKey, i: int) -> int
    decreases s.len() - i,
{
    if i < 0 || i >= s.len() || !key_lt(s[i].0, k) {
        i
    } else {
        insert_pos(s, k, i + 1)
    }
}

/// The entries `s` with `k` mapped to `v`: the entry for `k` replaced, or a
/// new entry inserted in key order.
pub open spec fn sorted_insert(s: Seq<(CandidateKey, u32)>, k: CandidateKey, v: u32) -> Seq<
    (CandidateKey, u32),
> {
    let p = insert_pos(s, k, 0);
    if 0 <= p < s.len() && s[p].0 == k {
        s.update(p, (k, v))
    } else {
        s.insert(p, (k, v))
    }
}

proof fn lemma_insert_pos(s: Seq<(CandidateKey, u32)>, k: CandidateKey, i: int)
    requires
        sorted_entries(s),
        0 <= i <= s.len(),
        forall|j: int| 0 <= j < i ==> key_lt(s[j].0, k),
    ensures
        i <= insert_pos(s, k, i) <= s.len(),
        forall|j: int| 0 <= j < insert_pos(s, k, i) ==> key_lt(s[j].0, k),
        forall|j: int| insert_pos(s, k, i) <= j < s.len() ==> !key_lt(s[j].0, k),
    decreases s.len() - i,
{
    if i < s.len() && key_lt(s[i].0, k) {
        lemma_insert_pos(s, k, i + 1);
    } else {
        assert forall|j: int| i <= j < s.len() implies !key_lt(s[j].0, k) by {
            if j > i {
                assert(key_lt(s[i].0, s[j].0));
            }
        }
    }
}

/// Storing `v` under `k` keeps the keys in order, gives `v` for `k` and
/// leaves every other key's value as it was.
pub proof fn lemma_sorted_insert(s: Seq<(CandidateKey, u32)>, k: CandidateKey, v: u32)
    requires
        sorted_entries(s),
    ensures
        sorted_entries(sorted_insert(s, k, v)),
        forall|k2: CandidateKey|
            #[trigger] lookup(sorted_insert(s, k, v), k2) == if k2 == k {
                Some(v)
            } else {
                lookup(s, k2)
            },
{
    lemma_insert_pos(s, k, 0);
    let p = insert_pos(s, k, 0);
    let ns = sorted_insert(s, k, v);
    if 0 <= p < s.len() && s[p].0 == k {
        assert(ns == s.update(p, (k, v)));
        assert(sorted_entries(ns)) by {
            assert forall|i: int, j: int| 0 <= i < j < ns.len() implies key_lt(ns[i].0, ns[j].0) by {
                assert(key_lt(s[i].0, s[j].0));
            }
        }
        assert forall|k2: CandidateKey| #[trigger] lookup(ns, k2) == if k2 == k {
            Some(v)
        } else {
            lookup(s, k2)
        } by {
            if k2 == k {
                lemma_lookup_at(ns, p);
            } else if has_key(s, k2) {
                let i = key_index(s, k2);
                lemma_lookup_at(s, i);
                assert(ns[i].0 == k2);
                lemma_lookup_at(ns, i);
            } else {
                assert forall|i: int| 0 <= i < ns.len() implies ns[i].0 != k2 by {
                    if i != p {
                        assert(ns[i] == s[i]);
                    }
                }
            }
        }
    } else {
        assert forall|j: int| p <= j < s.len() implies key_lt(k, s[j].0) by {
            assert(!key_lt(s[j].0, k));
            if j > p {
                assert(key_lt(s[p].0, s[j].0));
            }
        }
        assert(ns == s.insert(p, (k, v)));
        assert(sorted_entries(ns)) by {
            assert forall|i: int, j: int| 0 <= i < j < ns.len() implies key_lt(ns[i].0, ns[j].0) by {
                if j < p {
                    assert(key_lt(s[i].0, s[j].0));
                } else if j == p {
                    assert(key_lt(s[i].0, k));
                } else if i < p {
                    assert(key_lt(s[i].0, k));
                    assert(key_lt(k, s[j - 1].0));
                } else if i == p {
                    assert(key_lt(k, s[j - 1].0));
                } else {
                    assert(key_lt(s[i - 1].0, s[j - 1].0));
                }
            }
        }
        assert forall|k2: CandidateKey| #[trigger] lookup(ns, k2) == if k2 == k {
            Some(v)
        } else {
            lookup(s, k2)
        } by {
            if k2 == k {
                lemma_lookup_at(ns, p);
            } else if has_key(s, k2) {
                let i = key_index(s, k2);
                lemma_lookup_at(s, i);
                let ni = if i < p {
                    i
                } else {
                    i + 1
                };
                assert(ns[ni].0 == k2);
                lemma_lookup_at(ns, ni);
            } else {
                assert forall|i: int| 0 <= i < ns.len() implies ns[i].0 != k2 by {
                    if i < p {
                        assert(ns[i] == s[i]);
                    } else if i > p {
                        assert(ns[i] == s[i - 1]);
                    }
                }
            }
        }
    }
}

/// An ordered map from candidate to vote count; the model of a
/// `BTreeMap<CandidateKey, u32>`.
#[derive(Debug)]
pub struct CandidateValues {
    pub entries: Vec<(CandidateKey, u32)>,
}

impl View for CandidateValues {
    type V = Seq<(CandidateKey, u32)>;

    open spec fn view(&self) -> Seq<(CandidateKey, u32)> {
        self.entries@
    }
}

impl CandidateValues {
    /// Keys strictly increasing.
    pub open spec fn wf(&self) -> bool {
        sorted_entries(self.entries@)
    }

    /// The empty map.
    pub fn new() -> (r: CandidateValues)
        ensures
            r.wf(),
            r@.len() == 0,
    {
        CandidateValues { entries: Vec::new() }
    }

    /// Number of entries.
    pub fn len(&self) -> (r: usize)
        ensures
            r == self@.len(),
    {
        self.entries.len()
    }

    /// Whether there are no entries.
    pub fn is_empty(&self) -> (r: bool)
        ensures
            r == (self@.len() == 0),
    {
        self.entries.len() == 0
    }

    /// The value stored under `k`.
    pub fn get(&self, k: &CandidateKey) -> (r: Option<u32>)
        requires
            self.wf(),
        ensures
            r == lookup(self@, *k),
    {
        let mut i: usize = 0;
        while i < self.entries.len()
            invariant
                self.wf(),
                i <= self.entries.len(),
                forall|j: int| 0 <= j < i ==> self@[j].0 != *k,
            decreases self.entries.len() - i,
        {
            if self.entries[i].0.list == k.list && self.entries[i].0.candidate == k.candidate {
                proof {
                    lemma_lookup_at(self@, i as int);
                }
                return Some(self.entries[i].1);
            }
            i = i + 1;
        }
        None
    }

    /// Whether a value is stored under `k`.
    pub fn contains_key(&self, k: &CandidateKey) -> (r: bool)
        requires
            self.wf(),
        ensures
            r == (lookup(self@, *k) is Some),
    {
        self.get(k).is_some()
    }

    /// Stores `v` under `k`, returning the value stored there before.
    pub fn insert(&mut self, k: CandidateKey, v: u32) -> (r: Option<u32>)
        requires
            old(self).wf(),
        ensures
            final(self).wf(),
            final(self)@ == sorted_insert(old(self)@, k, v),
            r == lookup(old(self)@, k),
            forall|k2: CandidateKey|
                #![trigger lookup(final(self)@, k2)]
                lookup(final(self)@, k2) == if k2 == k {
                    Some(v)
                } else {
                    lookup(old(self)@, k2)
                },
    {
        let ghost s = self@;
        let mut p: usize = 0;
        while p < self.entries.len() && key_lt_exec(&self.entries[p].0, &k)
            invariant
                self@ == s,
                sorted_entries(s),
                p <= s.len(),
                forall|j: int| 0 <= j < p ==> key_lt(s[j].0, k),
                insert_pos(s, k, 0) == insert_pos(s, k, p as int),
            decreases self.entries.len() - p,
        {
            p = p + 1;
        }
        assert(insert_pos(s, k, 0) == p);
        // entries from p on are at or above k
        assert forall|j: int| p <= j < s.len() implies !key_lt(s[j].0, k) by {
            if j > p {
                assert(key_lt(s[p as int].0, s[j].0));
            }
        }
        if p < self.entries.len() && self.entries[p].0.list == k.list && self.entries[p].0.candidate
            == k.candidate {
            let old_v = self.entries[p].1;
            proof {
                lemma_lookup_at(s, p as int);
            }
            self.entries.set(p, (k, v));
            let ghost ns = self@;
            assert(ns == s.update(p as int, (k, v)));
            assert(sorted_entries(ns)) by {
                assert forall|i: int, j: int| 0 <= i < j < ns.len() implies key_lt(ns[i].0, ns[j].0) by {
                    assert(key_lt(s[i].0, s[j].0));
                }
            }
            assert forall|k2: CandidateKey| #[trigger] lookup(ns, k2) == if k2 == k {
                Some(v)
            } else {
                lookup(s, k2)
            } by {
                if k2 == k {
                    lemma_lookup_at(ns, p as int);
                } else {
                    if has_key(s, k2) {
                        let i = key_index(s, k2);
                        lemma_lookup_at(s, i);
                        assert(ns[i].0 == k2);
                        lemma_lookup_at(ns, i);
                    } else {
                        assert forall|i: int| 0 <= i < ns.len() implies ns[i].0 != k2 by {
                            if i != p {
                                assert(ns[i] == s[i]);
                            }
                        }
                    }
                }
            }
            Some(old_v)
        } else {
            assert forall|j: int| p <= j < s.len() implies key_lt(k, s[j].0) by {
                assert(!key_lt(s[j].0, k));
                if j == p {
                    assert(s[j].0 != k);
                } else {
                    assert(key_lt(s[p as int].0, s[j].0));
                    assert(s[p as int].0 != k || true);
                }
            }
            assert(forall|j: int| 0 <= j < s.len() ==> s[j].0 != k);
            self.entries.insert(p, (k, v));
            let ghost ns = self@;
            assert(ns == s.insert(p as int, (k, v)));
            assert(sorted_entries(ns)) by {
                assert forall|i: int, j: int| 0 <= i < j < ns.len() implies key_lt(ns[i].0, ns[j].0) by {
                    if j < p {
                        assert(key_lt(s[i].0, s[j].0));
                    } else if j == p {
                        assert(key_lt(s[i].0, k));
                    } else if i < p {
                        assert(key_lt(s[i].0, k));
                        assert(key_lt(k, s[j - 1].0));
                    } else if i == p {
                        assert(key_lt(k, s[j - 1].0));
                    } else {
                        assert(key_lt(s[i - 1].0, s[j - 1].0));
                    }
                }
            }
            assert forall|k2: CandidateKey| #[trigger] lookup(ns, k2) == if k2 == k {
                Some(v)
            } else {
                lookup(s, k2)
            } by {
                if k2 == k {
                    lemma_lookup_at(ns, p as int);
                } else {
                    if has_key(s, k2) {
                        let i = key_index(s, k2);
                        lemma_lookup_at(s, i);
                        let ni = if i < p {
                            i
                        } else {
                            i + 1
                        };
                        assert(ns[ni].0 == k2);
                        lemma_lookup_at(ns, ni);
                    } else {
                        assert forall|i: int| 0 <= i < ns.len() implies ns[i].0 != k2 by {
                            if i < p {
                                assert(ns[i] == s[i]);
                            } else if i > p {
                                assert(ns[i] == s[i - 1]);
                            }
                        }
                    }
                }
            }
            None
        }
    }
}

/// Whether `a` orders before `b`.
pub fn key_lt_exec(a: &CandidateKey, b: &CandidateKey) -> (r: bool)
    ensures
        r == key_lt(*a, *b),
{
    a.list < b.list || (a.list == b.list && a.candidate < b.candidate)
}

/// Entries in strictly increasing order of their number.
pub open spec fn numbers_sorted(s: Seq<(u32, u32)>) -> bool {
    forall|i: int, j: int| 0 <= i < j < s.len() ==> s[i].0 < s[j].0
}

/// The position at or after `i` where number `n` belongs among `s`.
pub open spec fn number_pos(s: Seq<(u32, u32)>, n: u32, i: int) -> int
    decreases s.len() - i,
{
    if i < 0 || i >= s.len() || s[i].0 >= n {
        i
    } else {
        number_pos(s, n, i + 1)
    }
}

/// The entries `s` with `n` mapped to `v`.
pub open spec fn number_insert(s: Seq<(u32, u32)>, n: u32, v: u32) -> Seq<(u32, u32)> {
    let p = number_pos(s, n, 0);
    if 0 <= p < s.len() && s[p].0 == n {
        s.update(p, (n, v))
    } else {
        s.insert(p, (n, v))
    }
}

/// The count stored under number `n`, if any.
pub open spec fn number_lookup(s: Seq<(u32, u32)>, n: u32) -> Option<u32> {
    if exists|i: int| 0 <= i < s.len() && s[i].0 == n {
        Some(s[choose|i: int| 0 <= i < s.len() && s[i].0 == n].1)
    } else {
        None
    }
}

pub proof fn lemma_number_lookup_at(s: Seq<(u32, u32)>, i: int)
    requires
        numbers_sorted(s),
        0 <= i < s.len(),
    ensures
        number_lookup(s, s[i].0) == Some(s[i].1),
{
    let n = s[i].0;
    assert(0 <= i < s.len() && s[i].0 == n);
    let j = choose|j: int| 0 <= j < s.len() && s[j].0 == n;
    if j < i {
        assert(s[j].0 < s[i].0);
    } else if j > i {
        assert(s[i].0 < s[j].0);
    }
}

proof fn lemma_number_pos(s: Seq<(u32, u32)>, n: u32, i: int)
    requires
        numbers_sorted(s),
        0 <= i <= s.len(),
        forall|j: int| 0 <= j < i ==> s[j].0 < n,
    ensures
        i <= number_pos(s, n, i) <= s.len(),
        forall|j: int| 0 <= j < number_pos(s, n, i) ==> s[j].0 < n,
        forall|j: int| number_pos(s, n, i) <= j < s.len() ==> s[j].0 >= n,
    decreases s.len() - i,
{
    if i < s.len() && s[i].0 < n {
        lemma_number_pos(s, n, i + 1);
    } else {
        assert forall|j: int| i <= j < s.len() implies s[j].0 >= n by {
            if j > i {
                assert(s[i].0 < s[j].0);
            }
        }
    }
}

/// Storing `v` under number `n` keeps the numbers in order, gives `v` for
/// `n` and leaves every other number's count as it was.
pub proof fn lemma_number_insert(s: Seq<(u32, u32)>, n: u32, v: u32)
    requires
        numbers_sorted(s),
    ensures
        numbers_sorted(number_insert(s, n, v)),
        forall|m: u32|
            #[trigger] number_lookup(number_insert(s, n, v), m) == if m == n {
                Some(v)
            } else {
                number_lookup(s, m)
            },
{
    lemma_number_pos(s, n, 0);
    let p = number_pos(s, n, 0);
    let ns = number_insert(s, n, v);
    if 0 <= p < s.len() && s[p].0 == n {
        assert(ns == s.update(p, (n, v)));
        assert(numbers_sorted(ns)) by {
            assert forall|i: int, j: int| 0 <= i < j < ns.len() implies ns[i].0 < ns[j].0 by {
                assert(s[i].0 < s[j].0);
            }
        }
        assert forall|m: u32| #[trigger] number_lookup(ns, m) == if m == n {
            Some(v)
        } else {
            number_lookup(s, m)
        } by {
            if m == n {
                lemma_number_lookup_at(ns, p);
            } else if exists|i: int| 0 <= i < s.len() && s[i].0 == m {
                let i = choose|i: int| 0 <= i < s.len() && s[i].0 == m;
                lemma_number_lookup_at(s, i);
                assert(ns[i].0 == m);
                lemma_number_lookup_at(ns, i);
            } else {
                assert forall|i: int| 0 <= i < ns.len() implies ns[i].0 != m by {
                    if i != p {
                        assert(ns[i] == s[i]);
                    }
                }
            }
        }
    } else {
        assert forall|j: int| p <= j < s.len() implies n < s[j].0 by {
            if j > p {
                assert(s[p].0 < s[j].0);
            }
        }
        assert(ns == s.insert(p, (n, v)));
        assert(numbers_sorted(ns)) by {
            assert forall|i: int, j: int| 0 <= i < j < ns.len() implies ns[i].0 < ns[j].0 by {
                if j < p {
                    assert(s[i].0 < s[j].0);
                } else if j == p {
                } else if i < p {
                    assert(n < s[j - 1].0);
                } else if i == p {
                } else {
                    assert(s[i - 1].0 < s[j - 1].0);
                }
            }
        }
        assert forall|m: u32| #[trigger] number_lookup(ns, m) == if m == n {
            Some(v)
        } else {
            number_lookup(s, m)
        } by {
            if m == n {
                lemma_number_lookup_at(ns, p);
            } else if exists|i: int| 0 <= i < s.len() && s[i].0 == m {
                let i = choose|i: int| 0 <= i < s.len() && s[i].0 == m;
                lemma_number_lookup_at(s, i);
                let ni = if i < p {
                    i
                } else {
                    i + 1
                };
                assert(ns[ni].0 == m);
                lemma_number_lookup_at(ns, ni);
            } else {
                assert forall|i: int| 0 <= i < ns.len() implies ns[i].0 != m by {
                    if i < p {
                        assert(ns[i] == s[i]);
                    } else if i > p {
                        assert(ns[i] == s[i - 1]);
                    }
                }
            }
        }
    }
}

/// Vote counts by candidate number, in number order; the model of a
/// `BTreeMap<u32, u32>`.
#[derive(Debug)]
pub struct NumberedValues {
    pub entries: Vec<(u32, u32)>,
}

impl View for NumberedValues {
    type V = Seq<(u32, u32)>;

    open spec fn view(&self) -> Seq<(u32, u32)> {
        self.entries@
    }
}

impl NumberedValues {
    /// Numbers strictly increasing.
    pub open spec fn wf(&self) -> bool {
        numbers_sorted(self.entries@)
    }

    /// The empty map.
    pub fn new() -> (r: NumberedValues)
        ensures
            r.wf(),
            r@.len() == 0,
    {
        NumberedValues { entries: Vec::new() }
    }

    /// Stores `v` under number `n`.
    pub fn insert(&mut self, n: u32, v: u32)
        requires
            old(self).wf(),
        ensures
            final(self).wf(),
            final(self)@ == number_insert(old(self)@, n, v),
    {
        let ghost s = self@;
        let mut p: usize = 0;
        while p < self.entries.len() && self.entries[p].0 < n
            invariant
                self@ == s,
                numbers_sorted(s),
                p <= s.len(),
                forall|j: int| 0 <= j < p ==> s[j].0 < n,
                number_pos(s, n, 0) == number_pos(s, n, p as int),
            decreases self.entries.len() - p,
        {
            p = p + 1;
        }
        assert(number_pos(s, n, 0) == p);
        if p < self.entries.len() && self.entries[p].0 == n {
            self.entries.set(p, (n, v));
            assert(numbers_sorted(self@)) by {
                assert forall|i: int, j: int| 0 <= i < j < self@.len() implies self@[i].0 < self@[j].0 by {
                    assert(s[i].0 < s[j].0);
                }
            }
        } else {
            assert forall|j: int| p <= j < s.len() implies n < s[j].0 by {
                if j > p {
                    assert(s[p as int].0 < s[j].0);
                }
            }
            self.entries.insert(p, (n, v));
            let ghost ns = self@;
            assert(ns == s.insert(p as int, (n, v)));
            assert(numbers_sorted(ns)) by {
                assert forall|i: int, j: int| 0 <= i < j < ns.len() implies ns[i].0 < ns[j].0 by {
                    if j < p {
                        assert(s[i].0 < s[j].0);
                    } else if j == p {
                    } else if i < p {
                        assert(n < s[j - 1].0);
                    } else if i == p {
                    } else {
                        assert(s[i - 1].0 < s[j - 1].0);
                    }
                }
            }
        }
    }
}

} // verus!
