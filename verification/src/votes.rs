//! Vote-row identifiers of table 2.2 and the per-row values read for them.
//!
//! The table has 24 rows: `E.1` through `E.20` (votes per list), `E` (valid
//! votes), `F` (blank), `G` (invalid) and `H` (ballots found). A row is
//! addressed by its slot: slot `i < 20` is `E.{i+1}`, slots 20 to 23 are
//! `E`, `F`, `G` and `H`.
use vstd::prelude::*;
use crate::text::{dec, digit_char, seqs, strs};
use crate::textops::{chars_eq, concat_str, dec_chars, from_chars, to_chars, to_strings};

verus! {

broadcast use vstd::string::group_string_axioms;

/// Number of vote rows.
pub const VOTE_ROWS: usize = 24;

/// The identifier of the row in slot `i`.
pub open spec fn vote_label(i: int) -> Seq<char> {
    if 0 <= i < 20 {
        "E."@ + dec((i + 1) as nat)
    } else if i == 20 {
        "E"@
    } else if i == 21 {
        "F"@
    } else if i == 22 {
        "G"@
    } else {
        "H"@
    }
}

proof fn lemma_dec_long(n: nat)
    ensures
        dec(n).len() >= 1,
        n >= 10 ==> dec(n).len() >= 2,
    decreases n,
{
    if n >= 10 {
        lemma_dec_long(n / 10);
    }
}

proof fn lemma_digit_char_injective(a: nat, b: nat)
    requires
        a < 10,
        b < 10,
        digit_char(a) == digit_char(b),
    ensures
        a == b,
{
}

/// Different numbers have different decimal notations.
proof fn lemma_dec_injective(a: nat, b: nat)
    requires
        dec(a) == dec(b),
    ensures
        a == b,
    decreases a,
{
    lemma_dec_long(a);
    lemma_dec_long(b);
    if a < 10 && b < 10 {
        assert(dec(a)[0] == digit_char(a));
        assert(dec(b)[0] == digit_char(b));
        lemma_digit_char_injective(a, b);
    } else if a >= 10 && b >= 10 {
        assert(dec(a).last() == digit_char(a % 10));
        assert(dec(b).last() == digit_char(b % 10));
        lemma_digit_char_injective(a % 10, b % 10);
        assert(dec(a).drop_last() =~= dec(a / 10));
        assert(dec(b).drop_last() =~= dec(b / 10));
        lemma_dec_injective(a / 10, b / 10);
    }
}

/// No two vote rows share an identifier.
pub proof fn lemma_vote_labels_distinct(i: int, j: int)
    requires
        0 <= i < 24,
        0 <= j < 24,
        vote_label(i) == vote_label(j),
    ensures
        i == j,
{
    reveal_strlit("E.");
    reveal_strlit("E");
    reveal_strlit("F");
    reveal_strlit("G");
    reveal_strlit("H");
    if i < 20 && j < 20 {
        assert(vote_label(i).skip(2) =~= dec((i + 1) as nat));
        assert(vote_label(j).skip(2) =~= dec((j + 1) as nat));
        lemma_dec_injective((i + 1) as nat, (j + 1) as nat);
    } else if i < 20 {
        lemma_dec_long((i + 1) as nat);
        assert(vote_label(i).len() >= 3);
        assert(vote_label(j).len() == 1);
    } else if j < 20 {
        lemma_dec_long((j + 1) as nat);
        assert(vote_label(j).len() >= 3);
        assert(vote_label(i).len() == 1);
    } else {
        assert("E"@ =~= seq!['E']);
        assert("F"@ =~= seq!['F']);
        assert("G"@ =~= seq!['G']);
        assert("H"@ =~= seq!['H']);
        assert(vote_label(i)[0] as int == i + 49);
        assert(vote_label(j)[0] as int == j + 49);
    }
}

/// The slot of a row's own identifier is the row's slot.
pub proof fn lemma_vote_slot_of_label(k: int)
    requires
        0 <= k < 24,
    ensures
        vote_slot(vote_label(k)) == Some(k),
{
    lemma_find_vote_slot(vote_label(k), 0);
    match find_vote_slot(vote_label(k), 0) {
        Some(j) => {
            lemma_vote_labels_distinct(j, k);
        },
        None => {},
    }
}

/// All row identifiers, in table order.
pub open spec fn expected_ids() -> Seq<Seq<char>> {
    Seq::new(24, |i: int| vote_label(i))
}

/// The first slot at or after `i` whose identifier is `s`.
pub open spec fn find_vote_slot(s: Seq<char>, i: int) -> Option<int>
    decreases 24 - i,
{
    if i < 0 || i >= 24 {
        None
    } else if vote_label(i) == s {
        Some(i)
    } else {
        find_vote_slot(s, i + 1)
    }
}

/// The slot whose identifier is `s`, if `s` identifies a vote row.
pub open spec fn vote_slot(s: Seq<char>) -> Option<int> {
    find_vote_slot(s, 0)
}

pub proof fn lemma_find_vote_slot(s: Seq<char>, i: int)
    requires
        0 <= i,
    ensures
        match find_vote_slot(s, i) {
            Some(j) => i <= j < 24 && vote_label(j) == s,
            None => forall|k: int| i <= k < 24 ==> vote_label(k) != s,
        },
    decreases 24 - i,
{
    if i < 24 && vote_label(i) != s {
        lemma_find_vote_slot(s, i + 1);
    }
}

/// The identifier of the row in slot `i`.
pub fn vote_label_chars(i: usize) -> (r: Vec<char>)
    requires
        i < 24,
    ensures
        r@ == vote_label(i as int),
{
    if i < 20 {
        let d = dec_chars((i + 1) as u64);
        concat_str("E.", &d)
    } else if i == 20 {
        to_chars("E")
    } else if i == 21 {
        to_chars("F")
    } else if i == 22 {
        to_chars("G")
    } else {
        to_chars("H")
    }
}

/// The slot of the row identified by `v`.
pub fn vote_slot_of(v: &Vec<char>) -> (r: Option<usize>)
    ensures
        match vote_slot(v@) {
            Some(j) => r == Some(j as usize),
            None => r is None,
        },
{
    let mut i: usize = 0;
    while i < 24
        invariant
            i <= 24,
            vote_slot(v@) == find_vote_slot(v@, i as int),
        decreases 24 - i,
    {
        let label = vote_label_chars(i);
        if chars_eq(&label, v) {
            return Some(i);
        }
        i = i + 1;
    }
    None
}

/// `E.1` through `E.20`, then `E`, `F`, `G` and `H`.
pub fn expected_vote_ids() -> (r: Vec<String>)
    ensures
        strs(r@) == expected_ids(),
{
    let mut out: Vec<Vec<char>> = Vec::new();
    let mut i: usize = 0;
    while i < 24
        invariant
            i <= 24,
            seqs(out@) == expected_ids().take(i as int),
        decreases 24 - i,
    {
        let l = vote_label_chars(i);
        let ghost old_out = seqs(out@);
        out.push(l);
        assert(seqs(out@) =~= old_out.push(l@));
        assert(expected_ids().take(i + 1) =~= expected_ids().take(i as int).push(vote_label(i as int)));
        i = i + 1;
    }
    assert(expected_ids().take(24) =~= expected_ids());
    to_strings(&out)
}

/// Values per vote row; the model of a map from row identifier to count.
/// Slot `i` holds the value recorded for `vote_label(i)`, if any.
#[derive(Debug)]
pub struct VoteValues {
    pub slots: Vec<Option<u32>>,
}

impl View for VoteValues {
    type V = Seq<Option<u32>>;

    open spec fn view(&self) -> Seq<Option<u32>> {
        self.slots@
    }
}

/// The empty assignment of values to the 24 rows.
pub open spec fn no_values() -> Seq<Option<u32>> {
    Seq::new(24, |i: int| None::<u32>)
}

impl VoteValues {
    /// Well-formed: one slot per vote row.
    pub open spec fn wf(&self) -> bool {
        self.slots@.len() == 24
    }

    /// No value recorded for any row.
    pub fn new() -> (r: VoteValues)
        ensures
            r.wf(),
            r@ == no_values(),
    {
        let mut slots: Vec<Option<u32>> = Vec::new();
        let mut i: usize = 0;
        while i < 24
            invariant
                i <= 24,
                slots@ == Seq::new(i as nat, |k: int| None::<u32>),
            decreases 24 - i,
        {
            slots.push(None);
            assert(slots@ =~= Seq::new((i + 1) as nat, |k: int| None::<u32>));
            i = i + 1;
        }
        assert(slots@ =~= no_values());
        VoteValues { slots }
    }

    /// The value recorded in slot `i`.
    pub fn get_slot(&self, i: usize) -> (r: Option<u32>)
        requires
            self.wf(),
            i < 24,
        ensures
            r == self@[i as int],
    {
        self.slots[i]
    }

    /// Records `value` in slot `i`.
    pub fn set_slot(&mut self, i: usize, value: Option<u32>)
        requires
            old(self).wf(),
            i < 24,
        ensures
            final(self).wf(),
            final(self)@ == old(self)@.update(i as int, value),
    {
        self.slots.set(i, value);
    }

    /// The value recorded for the row identified by `id`; `None` also when
    /// `id` identifies no vote row.
    pub fn get(&self, id: &str) -> (r: Option<u32>)
        requires
            self.wf(),
        ensures
            r == match vote_slot(id@) {
                Some(i) => self@[i],
                None => None,
            },
    {
        let v = to_chars(id);
        proof {
            lemma_find_vote_slot(id@, 0);
        }
        match vote_slot_of(&v) {
            Some(i) => self.slots[i],
            None => None,
        }
    }

    /// Records `value` for the row identified by `id`; nothing changes when
    /// `id` identifies no vote row.
    pub fn insert(&mut self, id: &str, value: u32)
        requires
            old(self).wf(),
        ensures
            final(self).wf(),
            final(self)@ == match vote_slot(id@) {
                Some(i) => old(self)@.update(i, Some(value)),
                None => old(self)@,
            },
    {
        let v = to_chars(id);
        proof {
            lemma_find_vote_slot(id@, 0);
        }
        match vote_slot_of(&v) {
            Some(i) => self.slots.set(i, Some(value)),
            None => {},
        }
    }

    /// A copy of these values.
    pub fn duplicate(&self) -> (r: VoteValues)
        requires
            self.wf(),
        ensures
            r.wf(),
            r@ == self@,
    {
        let mut slots: Vec<Option<u32>> = Vec::new();
        let mut i: usize = 0;
        while i < 24
            invariant
                self.wf(),
                i <= 24,
                slots@ == self@.take(i as int),
            decreases 24 - i,
        {
            slots.push(self.slots[i]);
            assert(self@.take(i + 1) =~= self@.take(i as int).push(self@[i as int]));
            i = i + 1;
        }
        assert(self@.take(24) =~= self@);
        VoteValues { slots }
    }

    /// Whether no row has a value.
    pub fn is_empty(&self) -> (r: bool)
        requires
            self.wf(),
        ensures
            r == (forall|i: int| 0 <= i < 24 ==> self@[i] is None),
    {
        let mut i: usize = 0;
        while i < 24
            invariant
                self.wf(),
                i <= 24,
                forall|k: int| 0 <= k < i ==> self@[k] is None,
            decreases 24 - i,
        {
            if self.slots[i].is_some() {
                return false;
            }
            i = i + 1;
        }
        true
    }
}

/// The identifier of the row in slot `i`, as a `String`.
pub fn vote_label_string(i: usize) -> (r: String)
    requires
        i < 24,
    ensures
        r@ == vote_label(i as int),
{
    let v = vote_label_chars(i);
    from_chars(&v)
}

} // verus!
