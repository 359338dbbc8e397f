//! Correction tables (B1-2.4): row identifiers, cell parsing, and the
//! per-row corrections read from a table.
use vstd::prelude::*;
use crate::markdown::{correction_cells, correction_cells_chars};
use crate::text::{
    all_digits, dec, digit_char, digit_value, digits_value, is_digit, is_ws, lines, parse_i32,
    parse_u32, seqs, strip_plus, strip_prefix, strs, trim, trim_end, trim_start, trimmed_lines,
};
use crate::textops::{
    eq_str, from_chars, parse_i32_chars, parse_u32_chars, strip_prefix_str, to_chars, trim_chars,
    trimmed_lines_chars, to_strings,
};
use crate::votes::{vote_label, vote_label_chars};

verus! {

broadcast use vstd::string::group_string_axioms;

pub open spec fn ascii_lower(c: char) -> char {
    if 65 <= (c as u32) <= 90 {
        ((c as u32) + 32) as char
    } else {
        c
    }
}

/// `str::eq_ignore_ascii_case`.
pub open spec fn eq_ignore_ascii_case(a: Seq<char>, b: Seq<char>) -> bool {
    a.len() == b.len() && forall|i: int| 0 <= i < a.len() ==> ascii_lower(a[i]) == ascii_lower(b[i])
}

/// The list number `1..=20` that `s` denotes, as the slot of `E.{n}`.
pub open spec fn list_slot(s: Seq<char>) -> Option<int> {
    match parse_u32(s) {
        Some(n) => if 1 <= n <= 20 {
            Some(n - 1)
        } else {
            None
        },
        None => None,
    }
}

/// The vote row a correction-table identifier refers to: the names of the
/// blank, invalid, valid-total and cast-total rows (in Dutch or English, any
/// ASCII case), `E`, `F`, `G`, `H`, `E.{n}` or a bare list number `n` with
/// `1 <= n <= 20`.
pub open spec fn correction_slot(v: Seq<char>) -> Option<int> {
    let t = trim(v);
    if eq_ignore_ascii_case(t, "blanco"@) || eq_ignore_ascii_case(t, "blank"@) {
        Some(21)
    } else if eq_ignore_ascii_case(t, "ongeldig"@) || eq_ignore_ascii_case(t, "invalid"@) {
        Some(22)
    } else if eq_ignore_ascii_case(t, "totaal geldige stemmen"@) || eq_ignore_ascii_case(
        t,
        "totaal stemmen op kandidaten"@,
    ) {
        Some(20)
    } else if eq_ignore_ascii_case(t, "totaal uitgebrachte stemmen"@) || eq_ignore_ascii_case(
        t,
        "correctie uitgebrachte stemmen"@,
    ) {
        Some(23)
    } else if t == "E"@ {
        Some(20)
    } else if t == "F"@ {
        Some(21)
    } else if t == "G"@ {
        Some(22)
    } else if t == "H"@ {
        Some(23)
    } else {
        match strip_prefix(t, "E."@) {
            Some(n) => list_slot(n),
            None => list_slot(t),
        }
    }
}

/// `parse_optional_u32_cell`: an empty or `-` cell has no count.
pub open spec fn optional_count(c: Seq<char>) -> Option<u32> {
    let v = trim(c);
    if v.len() == 0 || v == "-"@ {
        None
    } else {
        parse_u32(v)
    }
}

/// `parse_i32_cell`.
pub open spec fn signed_cell(c: Seq<char>) -> Option<i32> {
    parse_i32(trim(c))
}

fn ascii_lower_exec(c: char) -> (r: char)
    ensures
        r == ascii_lower(c),
{
    let u = c as u32;
    if 65 <= u && u <= 90 {
        ((u + 32) as u8) as char
    } else {
        c
    }
}

/// `str::eq_ignore_ascii_case` against a literal.
pub fn eq_ignore_ascii_case_str(a: &Vec<char>, s: &str) -> (r: bool)
    ensures
        r == eq_ignore_ascii_case(a@, s@),
{
    let b = to_chars(s);
    if a.len() != b.len() {
        return false;
    }
    let mut i: usize = 0;
    while i < a.len()
        invariant
            a.len() == b.len(),
            b@ == s@,
            i <= a.len(),
            forall|k: int| 0 <= k < i ==> ascii_lower(a@[k]) == ascii_lower(b@[k]),
        decreases a.len() - i,
    {
        if ascii_lower_exec(a[i]) != ascii_lower_exec(b[i]) {
            return false;
        }
        i = i + 1;
    }
    true
}

fn list_slot_exec(s: &Vec<char>) -> (r: Option<usize>)
    ensures
        match list_slot(s@) {
            Some(k) => r == Some(k as usize),
            None => r is None,
        },
{
    match parse_u32_chars(s) {
        Some(n) => if 1 <= n && n <= 20 {
            Some((n - 1) as usize)
        } else {
            None
        },
        None => None,
    }
}

/// The slot of the vote row that the correction-table identifier `v`
/// refers to.
pub fn correction_slot_of(v: &Vec<char>) -> (r: Option<usize>)
    ensures
        match correction_slot(v@) {
            Some(k) => r == Some(k as usize) && 0 <= k < 24,
            None => r is None,
        },
{
    let t = trim_chars(v);
    if eq_ignore_ascii_case_str(&t, "blanco") || eq_ignore_ascii_case_str(&t, "blank") {
        Some(21)
    } else if eq_ignore_ascii_case_str(&t, "ongeldig") || eq_ignore_ascii_case_str(&t, "invalid") {
        Some(22)
    } else if eq_ignore_ascii_case_str(&t, "totaal geldige stemmen") || eq_ignore_ascii_case_str(
        &t,
        "totaal stemmen op kandidaten",
    ) {
        Some(20)
    } else if eq_ignore_ascii_case_str(&t, "totaal uitgebrachte stemmen")
        || eq_ignore_ascii_case_str(&t, "correctie uitgebrachte stemmen") {
        Some(23)
    } else if eq_str(&t, "E") {
        Some(20)
    } else if eq_str(&t, "F") {
        Some(21)
    } else if eq_str(&t, "G") {
        Some(22)
    } else if eq_str(&t, "H") {
        Some(23)
    } else {
        match strip_prefix_str(&t, "E.") {
            Some(n) => list_slot_exec(&n),
            None => list_slot_exec(&t),
        }
    }
}

/// The decimal notation of a number is digits denoting that number.
proof fn lemma_dec_digits(n: nat)
    ensures
        dec(n).len() > 0,
        all_digits(dec(n)),
        digits_value(dec(n)) == n,
        n < 10 ==> dec(n).len() == 1,
        n < 100 ==> dec(n).len() <= 2,
        !is_ws(dec(n)[0]),
        !is_ws(dec(n).last()),
        dec(n)[0] != '+',
    decreases n,
{
    let d = digit_char(n % 10);
    assert(is_digit(d) && digit_value(d) == n % 10);
    if n < 10 {
        assert(dec(n).drop_last() =~= Seq::<char>::empty());
        assert(digits_value(dec(n)) == digits_value(dec(n).drop_last()) * 10 + digit_value(d));
    }
    if n >= 10 {
        lemma_dec_digits(n / 10);
        assert(dec(n).drop_last() =~= dec(n / 10));
        assert(dec(n).last() == d);
        assert(digits_value(dec(n)) == digits_value(dec(n / 10)) * 10 + digit_value(d));
        assert(n == (n / 10) * 10 + n % 10);
        assert forall|i: int| 0 <= i < dec(n).len() implies is_digit(#[trigger] dec(n)[i]) by {
            if i < dec(n).len() - 1 {
                assert(dec(n)[i] == dec(n / 10)[i]);
            }
        }
    }
}

/// The identifier of each vote row is read back as that row.
proof fn lemma_vote_label_slot(k: int)
    requires
        0 <= k < 24,
    ensures
        correction_slot(vote_label(k)) == Some(k),
{
    let t = vote_label(k);
    reveal_strlit("E.");
    reveal_strlit("E");
    reveal_strlit("F");
    reveal_strlit("G");
    reveal_strlit("H");
    reveal_strlit("blanco");
    reveal_strlit("blank");
    reveal_strlit("ongeldig");
    reveal_strlit("invalid");
    reveal_strlit("totaal geldige stemmen");
    reveal_strlit("totaal stemmen op kandidaten");
    reveal_strlit("totaal uitgebrachte stemmen");
    reveal_strlit("correctie uitgebrachte stemmen");
    if k < 20 {
        let d = dec((k + 1) as nat);
        lemma_dec_digits((k + 1) as nat);
        assert(t.len() == 2 + d.len());
        assert(t[0] == 'E');
        assert(t.last() == d.last());
        assert(trim_start(t) == t);
        assert(trim_end(t) == t);
        assert(trim(t) == t);
        assert(t.take(2) =~= "E."@);
        assert(strip_prefix(t, "E."@) == Some(d)) by {
            assert(t.skip(2) =~= d);
        }
        assert(strip_plus(d) == d);
        assert(parse_u32(d) == Some((k + 1) as u32));
    } else {
        assert(t.len() == 1);
        assert(trim_start(t) == t);
        assert(trim_end(t) == t);
        assert(t =~= seq![t[0]]);
        assert("E"@ =~= seq!['E']);
        assert("F"@ =~= seq!['F']);
        assert("G"@ =~= seq!['G']);
        assert("H"@ =~= seq!['H']);
    }
}

/// None of the named rows is written as `t`, which starts with `c`, a
/// digit or `E`.
proof fn lemma_not_a_row_name(t: Seq<char>, c: char)
    requires
        t.len() > 0,
        t[0] == c,
        is_digit(c) || c == 'E',
    ensures
        !eq_ignore_ascii_case(t, "blanco"@),
        !eq_ignore_ascii_case(t, "blank"@),
        !eq_ignore_ascii_case(t, "ongeldig"@),
        !eq_ignore_ascii_case(t, "invalid"@),
        !eq_ignore_ascii_case(t, "totaal geldige stemmen"@),
        !eq_ignore_ascii_case(t, "totaal stemmen op kandidaten"@),
        !eq_ignore_ascii_case(t, "totaal uitgebrachte stemmen"@),
        !eq_ignore_ascii_case(t, "correctie uitgebrachte stemmen"@),
{
    reveal_strlit("blanco");
    reveal_strlit("blank");
    reveal_strlit("ongeldig");
    reveal_strlit("invalid");
    reveal_strlit("totaal geldige stemmen");
    reveal_strlit("totaal stemmen op kandidaten");
    reveal_strlit("totaal uitgebrachte stemmen");
    reveal_strlit("correctie uitgebrachte stemmen");
    assert(ascii_lower(t[0]) == ascii_lower(c));
}

/// A list number `n` and `E.{n}` both name the list row `E.{n}` when `n`
/// is 1 to 20, and no row otherwise (so `0`, `21` and `E.21` name none).
pub proof fn law_list_number_ids(n: nat)
    ensures
        correction_slot(dec(n)) == (if 1 <= n <= 20 {
            Some(n - 1)
        } else {
            None::<int>
        }),
        correction_slot("E."@ + dec(n)) == (if 1 <= n <= 20 {
            Some(n - 1)
        } else {
            None::<int>
        }),
{
    reveal_strlit("E.");
    reveal_strlit("E");
    reveal_strlit("F");
    reveal_strlit("G");
    reveal_strlit("H");
    let d = dec(n);
    lemma_dec_digits(n);
    assert(is_digit(d[0]));
    assert(trim_start(d) == d);
    assert(trim_end(d) == d);
    lemma_not_a_row_name(d, d[0]);
    assert(d != "E"@ && d != "F"@ && d != "G"@ && d != "H"@) by {
        assert("E"@[0] == 'E' && "F"@[0] == 'F' && "G"@[0] == 'G' && "H"@[0] == 'H');
    }
    assert(strip_prefix(d, "E."@) is None) by {
        if d.len() >= 2 {
            assert(d.take(2)[0] == d[0]);
        }
    }
    assert(strip_plus(d) == d);
    let t = "E."@ + d;
    assert(t[0] == 'E');
    assert(t.last() == d.last());
    assert(trim_start(t) == t);
    assert(trim_end(t) == t);
    lemma_not_a_row_name(t, 'E');
    assert(t.len() >= 3);
    assert(t.take(2) =~= "E."@);
    assert(t.skip(2) =~= d);
}

/// The named rows, in any ASCII case and with surrounding white space:
/// `blanco` or `blank` is `F`, `ongeldig` or `invalid` is `G`, `totaal
/// geldige stemmen` or `totaal stemmen op kandidaten` is `E`, `totaal
/// uitgebrachte stemmen` or `correctie uitgebrachte stemmen` is `H`.
pub proof fn law_named_row_ids(v: Seq<char>)
    ensures
        eq_ignore_ascii_case(trim(v), "blanco"@) || eq_ignore_ascii_case(trim(v), "blank"@)
            ==> correction_slot(v) == Some(21int),
        eq_ignore_ascii_case(trim(v), "ongeldig"@) || eq_ignore_ascii_case(trim(v), "invalid"@)
            ==> correction_slot(v) == Some(22int),
        eq_ignore_ascii_case(trim(v), "totaal geldige stemmen"@) || eq_ignore_ascii_case(
            trim(v),
            "totaal stemmen op kandidaten"@,
        ) ==> correction_slot(v) == Some(20int),
        eq_ignore_ascii_case(trim(v), "totaal uitgebrachte stemmen"@) || eq_ignore_ascii_case(
            trim(v),
            "correctie uitgebrachte stemmen"@,
        ) ==> correction_slot(v) == Some(23int),
        vote_label(21) == "F"@ && vote_label(22) == "G"@ && vote_label(20) == "E"@
            && vote_label(23) == "H"@,
{
    reveal_strlit("blanco");
    reveal_strlit("blank");
    reveal_strlit("ongeldig");
    reveal_strlit("invalid");
    reveal_strlit("totaal geldige stemmen");
    reveal_strlit("totaal stemmen op kandidaten");
    reveal_strlit("totaal uitgebrachte stemmen");
    reveal_strlit("correctie uitgebrachte stemmen");
}

/// Normalising a correction-table identifier gives the identifier of a
/// vote row (`E.1` to `E.20`, `E`, `F`, `G` or `H`), and normalising that
/// identifier again gives it back unchanged.
pub proof fn law_normalized_ids_are_fixed(v: Seq<char>)
    ensures
        match correction_slot(v) {
            Some(k) => 0 <= k < 24 && correction_slot(vote_label(k)) == Some(k),
            None => true,
        },
{
    match correction_slot(v) {
        Some(k) => {
            lemma_vote_label_slot(k);
        },
        None => {},
    }
}

/// The vote-row identifier that a correction-table identifier refers to.
pub fn normalize_correction_id(value: &str) -> (r: Option<String>)
    ensures
        match correction_slot(value@) {
            Some(k) => r is Some && r->0@ == vote_label(k),
            None => r is None,
        },
{
    let v = to_chars(value);
    match correction_slot_of(&v) {
        Some(k) => {
            let l = vote_label_chars(k);
            Some(from_chars(&l))
        },
        None => None,
    }
}

/// `parse_optional_u32_cell` on characters.
pub fn optional_count_chars(c: &Vec<char>) -> (r: Option<u32>)
    ensures
        r == optional_count(c@),
{
    let v = trim_chars(c);
    if v.len() == 0 || eq_str(&v, "-") {
        None
    } else {
        parse_u32_chars(&v)
    }
}

/// A count cell: `None` for an empty cell, `-`, or text that is not a
/// `u32`.
pub fn parse_optional_u32_cell(cell: &str) -> (r: Option<u32>)
    ensures
        r == optional_count(cell@),
{
    let v = to_chars(cell);
    optional_count_chars(&v)
}

/// `parse_i32_cell` on characters.
pub fn signed_cell_chars(c: &Vec<char>) -> (r: Option<i32>)
    ensures
        r == signed_cell(c@),
{
    let v = trim_chars(c);
    parse_i32_chars(&v)
}

/// A signed difference cell.
pub fn parse_i32_cell(cell: &str) -> (r: Option<i32>)
    ensures
        r == signed_cell(cell@),
{
    let v = to_chars(cell);
    signed_cell_chars(&v)
}

/// One row of a correction table: the counts before and after the
/// correction, when the table gives them consistently, and the signed
/// difference.
#[derive(Clone, Copy, Debug, PartialEq, Eq)]
pub struct Correction {
    pub first: Option<u32>,
    pub second: Option<u32>,
    pub difference: i32,
}

/// `x as i32` for a `u32`: two's-complement reinterpretation.
pub open spec fn wrap_i32(x: u32) -> int {
    if x <= i32::MAX {
        x as int
    } else {
        x - 0x1_0000_0000
    }
}

/// The correction that a table line records, with the slot it applies to:
/// five cells, a known identifier and a signed difference are needed. When
/// both counts are present but disagree with the difference, the counts are
/// dropped and the difference is kept.
pub open spec fn correction_row(line: Seq<char>) -> Option<(int, Correction)> {
    let cells = correction_cells(line);
    if cells.len() != 5 {
        None
    } else {
        match correction_slot(cells[0]) {
            None => None,
            Some(s) => match signed_cell(cells[3]) {
                None => None,
                Some(d) => {
                    let f = optional_count(cells[1]);
                    let sd = optional_count(cells[2]);
                    let conflict = f is Some && sd is Some && wrap_i32(sd->0) - wrap_i32(f->0)
                        != d;
                    Some(
                        (
                            s,
                            Correction {
                                first: if conflict {
                                    None
                                } else {
                                    f
                                },
                                second: if conflict {
                                    None
                                } else {
                                    sd
                                },
                                difference: d,
                            },
                        ),
                    )
                },
            },
        }
    }
}

/// The difference of the two counts of a line fits in `i32` (the tool
/// subtracts them as `i32`).
pub open spec fn correction_row_fits(line: Seq<char>) -> bool {
    let cells = correction_cells(line);
    cells.len() == 5 && correction_slot(cells[0]) is Some && signed_cell(cells[3]) is Some
        && optional_count(cells[1]) is Some && optional_count(cells[2]) is Some ==> {
        let diff = wrap_i32(optional_count(cells[2])->0) - wrap_i32(optional_count(cells[1])->0);
        i32::MIN <= diff <= i32::MAX
    }
}

pub open spec fn no_corrections() -> Seq<Option<Correction>> {
    Seq::new(24, |i: int| None::<Correction>)
}

/// The corrections read from the first `k` of `rows`: a second row for the
/// same identifier drops the counts and adds its difference.
pub open spec fn corrections_fold(rows: Seq<Seq<char>>, k: int) -> Seq<Option<Correction>>
    decreases k,
{
    if k <= 0 {
        no_corrections()
    } else {
        let prev = corrections_fold(rows, k - 1);
        match correction_row(rows[k - 1]) {
            None => prev,
            Some((s, c)) => match prev[s] {
                Some(e) => prev.update(
                    s,
                    Some(
                        Correction {
                            first: None,
                            second: None,
                            difference: (e.difference + c.difference) as i32,
                        },
                    ),
                ),
                None => prev.update(s, Some(c)),
            },
        }
    }
}

/// No arithmetic of reading the first `k` rows overflows `i32`.
pub open spec fn corrections_fold_fits(rows: Seq<Seq<char>>, k: int) -> bool
    decreases k,
{
    if k <= 0 {
        true
    } else {
        &&& corrections_fold_fits(rows, k - 1)
        &&& correction_row_fits(rows[k - 1])
        &&& match correction_row(rows[k - 1]) {
            Some((s, c)) => match corrections_fold(rows, k - 1)[s] {
                Some(e) => i32::MIN <= e.difference + c.difference <= i32::MAX,
                None => true,
            },
            None => true,
        }
    }
}

/// The body lines of a Markdown table: its trimmed lines after the first
/// two.
pub open spec fn body_lines(md: Seq<char>) -> Seq<Seq<char>> {
    let t = trimmed_lines(md);
    if t.len() <= 2 {
        Seq::empty()
    } else {
        t.skip(2)
    }
}

/// The corrections recorded in the Markdown correction table `md`, per
/// vote-row slot.
pub open spec fn corrections_of(md: Seq<char>) -> Seq<Option<Correction>> {
    corrections_fold(body_lines(md), body_lines(md).len() as int)
}

/// Reading the corrections of `md` stays within `i32`.
pub open spec fn corrections_fit(md: Seq<char>) -> bool {
    corrections_fold_fits(body_lines(md), body_lines(md).len() as int)
}

/// Corrections per vote row; the model of a map from row identifier to
/// correction. Slot `i` holds the correction of `vote_label(i)`, if any.
#[derive(Debug)]
pub struct CorrectionTable {
    pub slots: Vec<Option<Correction>>,
}

impl View for CorrectionTable {
    type V = Seq<Option<Correction>>;

    open spec fn view(&self) -> Seq<Option<Correction>> {
        self.slots@
    }
}

impl CorrectionTable {
    /// One slot per vote row.
    pub open spec fn wf(&self) -> bool {
        self.slots@.len() == 24
    }

    /// No corrections.
    pub fn new() -> (r: CorrectionTable)
        ensures
            r.wf(),
            r@ == no_corrections(),
    {
        let mut slots: Vec<Option<Correction>> = Vec::new();
        let mut i: usize = 0;
        while i < 24
            invariant
                i <= 24,
                slots@ == Seq::new(i as nat, |k: int| None::<Correction>),
            decreases 24 - i,
        {
            slots.push(None);
            assert(slots@ =~= Seq::new((i + 1) as nat, |k: int| None::<Correction>));
            i = i + 1;
        }
        assert(slots@ =~= no_corrections());
        CorrectionTable { slots }
    }

    /// The correction in slot `i`.
    pub fn get_slot(&self, i: usize) -> (r: Option<Correction>)
        requires
            self.wf(),
            i < 24,
        ensures
            r == self@[i as int],
    {
        self.slots[i]
    }

    /// Whether any slot holds a correction.
    pub fn is_empty(&self) -> (r: bool)
        requires
            self.wf(),
        ensures
            r == (forall|i: int| 0 <= i < 24 ==> self@[i] is None),
    {
        let mut i: usize = 0;
        while i < 24
            invariant
                self.wf(),
                i <= 24,
                forall|k: int| 0 <= k < i ==> self@[k] is None,
            decreases 24 - i,
        {
            if self.slots[i].is_some() {
                return false;
            }
            i = i + 1;
        }
        true
    }

    /// The correction recorded for the row identified by `id`.
    pub fn get(&self, id: &str) -> (r: Option<Correction>)
        requires
            self.wf(),
        ensures
            r == match crate::votes::vote_slot(id@) {
                Some(i) => self@[i],
                None => None,
            },
    {
        let v = to_chars(id);
        proof {
            crate::votes::lemma_find_vote_slot(id@, 0);
        }
        match crate::votes::vote_slot_of(&v) {
            Some(i) => self.slots[i],
            None => None,
        }
    }
}

/// The correction that `line` records, with its slot.
fn correction_row_exec(line: &Vec<char>) -> (r: Option<(usize, Correction)>)
    requires
        correction_row_fits(line@),
    ensures
        match correction_row(line@) {
            Some((s, c)) => r == Some((s as usize, c)) && 0 <= s < 24,
            None => r is None,
        },
{
    let cells = correction_cells_chars(line);
    let ghost cs = seqs(cells@);
    if cells.len() != 5 {
        return None;
    }
    assert(cs[0] == cells@[0]@ && cs[1] == cells@[1]@ && cs[2] == cells@[2]@ && cs[3]
        == cells@[3]@);
    let s = match correction_slot_of(&cells[0]) {
        Some(s) => s,
        None => {
            return None;
        },
    };
    let d = match signed_cell_chars(&cells[3]) {
        Some(d) => d,
        None => {
            return None;
        },
    };
    let f = optional_count_chars(&cells[1]);
    let sd = optional_count_chars(&cells[2]);
    let conflict = match (f, sd) {
        (Some(a), Some(b)) => (b as i32) as i64 - (a as i32) as i64 != d as i64,
        _ => false,
    };
    proof {
        if f is Some && sd is Some {
            let a = f->0;
            let b = sd->0;
            assert((a as i32) as int == wrap_i32(a)) by (bit_vector);
            assert((b as i32) as int == wrap_i32(b)) by (bit_vector);
        }
    }
    Some(
        (
            s,
            Correction {
                first: if conflict {
                    None
                } else {
                    f
                },
                second: if conflict {
                    None
                } else {
                    sd
                },
                difference: d,
            },
        ),
    )
}

/// The trimmed lines of `s` after the first two.
pub fn body_lines_exec(s: &str) -> (r: Vec<Vec<char>>)
    ensures
        seqs(r@) == body_lines(s@),
{
    let v = to_chars(s);
    let t = trimmed_lines_chars(&v);
    let mut out: Vec<Vec<char>> = Vec::new();
    let ghost st = seqs(t@);
    if t.len() <= 2 {
        assert(seqs(out@) =~= Seq::<Seq<char>>::empty());
        return out;
    }
    let mut i: usize = 2;
    assert(seqs(out@) =~= st.subrange(2, 2));
    while i < t.len()
        invariant
            2 <= i <= t.len(),
            st == seqs(t@),
            seqs(out@) == st.subrange(2, i as int),
        decreases t.len() - i,
    {
        let c = crate::textops::copy_chars(&t[i]);
        let ghost old_out = seqs(out@);
        out.push(c);
        assert(seqs(out@) =~= old_out.push(c@));
        assert(st.subrange(2, i + 1) =~= st.subrange(2, i as int).push(st[i as int]));
        i = i + 1;
    }
    assert(st.subrange(2, t.len() as int) =~= st.skip(2));
    out
}

/// The corrections recorded in a Markdown correction table, per row
/// identifier. Rows without five cells, with an unknown identifier or with
/// a difference that is not a signed integer are ignored. Counts that
/// disagree with the difference are dropped. Repeated rows for one
/// identifier add up their differences and drop the counts.
pub fn parse_correction_markdown_values(markdown: &str) -> (r: CorrectionTable)
    requires
        corrections_fit(markdown@),
    ensures
        r.wf(),
        r@ == corrections_of(markdown@),
{
    let rows = body_lines_exec(markdown);
    let ghost rs = seqs(rows@);
    let mut table = CorrectionTable::new();
    let mut k: usize = 0;
    while k < rows.len()
        invariant
            k <= rows.len(),
            rs == seqs(rows@),
            rs == body_lines(markdown@),
            corrections_fold_fits(rs, rs.len() as int),
            table.wf(),
            table@ == corrections_fold(rs, k as int),
        decreases rows.len() - k,
    {
        proof {
            lemma_fits_prefix(rs, rs.len() as int, k + 1);
        }
        assert(rs[k as int] == rows@[k as int]@);
        match correction_row_exec(&rows[k]) {
            Some((s, c)) => {
                match table.slots[s] {
                    Some(e) => {
                        let nc = Correction {
                            first: None,
                            second: None,
                            difference: e.difference + c.difference,
                        };
                        table.slots.set(s, Some(nc));
                    },
                    None => {
                        table.slots.set(s, Some(c));
                    },
                }
            },
            None => {},
        }
        k = k + 1;
    }
    table
}

proof fn lemma_fits_prefix(rows: Seq<Seq<char>>, k: int, j: int)
    requires
        corrections_fold_fits(rows, k),
        0 <= j <= k,
    ensures
        corrections_fold_fits(rows, j),
    decreases k,
{
    if j < k {
        lemma_fits_prefix(rows, k - 1, j);
    }
}

/// Whether reading the corrections of `markdown` stays within `i32`.
pub fn correction_markdown_fits(markdown: &str) -> (r: bool)
    ensures
        r == corrections_fit(markdown@),
{
    let rows = body_lines_exec(markdown);
    let ghost rs = seqs(rows@);
    let mut table = CorrectionTable::new();
    let mut k: usize = 0;
    while k < rows.len()
        invariant
            k <= rows.len(),
            rs == seqs(rows@),
            rs == body_lines(markdown@),
            corrections_fold_fits(rs, k as int),
            table.wf(),
            table@ == corrections_fold(rs, k as int),
        decreases rows.len() - k,
    {
        assert(rs[k as int] == rows@[k as int]@);
        let cells = correction_cells_chars(&rows[k]);
        let ghost cs = seqs(cells@);
        if cells.len() == 5 {
            assert(cs[0] == cells@[0]@ && cs[1] == cells@[1]@ && cs[2] == cells@[2]@ && cs[3]
                == cells@[3]@);
            if correction_slot_of(&cells[0]).is_some() && signed_cell_chars(&cells[3]).is_some() {
                match (optional_count_chars(&cells[1]), optional_count_chars(&cells[2])) {
                    (Some(a), Some(b)) => {
                        let diff = (b as i32) as i64 - (a as i32) as i64;
                        proof {
                            assert((a as i32) as int == wrap_i32(a)) by (bit_vector);
                            assert((b as i32) as int == wrap_i32(b)) by (bit_vector);
                        }
                        if diff < i32::MIN as i64 || diff > i32::MAX as i64 {
                            proof {
                                lemma_fits_not_extend(rs, k as int, rs.len() as int);
                            }
                            return false;
                        }
                    },
                    _ => {},
                }
            }
        }
        assert(correction_row_fits(rs[k as int]));
        match correction_row_exec(&rows[k]) {
            Some((s, c)) => {
                match table.slots[s] {
                    Some(e) => {
                        let sum = e.difference as i64 + c.difference as i64;
                        if sum < i32::MIN as i64 || sum > i32::MAX as i64 {
                            proof {
                                lemma_fits_not_extend(rs, k as int, rs.len() as int);
                            }
                            return false;
                        }
                        let nc = Correction {
                            first: None,
                            second: None,
                            difference: e.difference + c.difference,
                        };
                        table.slots.set(s, Some(nc));
                    },
                    None => {
                        table.slots.set(s, Some(c));
                    },
                }
            },
            None => {},
        }
        k = k + 1;
    }
    true
}

proof fn lemma_fits_not_extend(rows: Seq<Seq<char>>, k: int, n: int)
    requires
        0 <= k < n,
        !corrections_fold_fits(rows, k + 1),
    ensures
        !corrections_fold_fits(rows, n),
    decreases n - k,
{
    if k + 1 < n {
        lemma_fits_not_extend(rows, k + 1, n);
    }
}

/// The row identifiers of a correction table's body rows that have five
/// cells and a known identifier, in order.
pub open spec fn correction_ids_from(rows: Seq<Seq<char>>) -> Seq<Seq<char>>
    decreases rows.len(),
{
    if rows.len() == 0 {
        Seq::empty()
    } else {
        let prev = correction_ids_from(rows.drop_last());
        let cells = correction_cells(rows.last());
        if cells.len() == 5 && correction_slot(cells[0]) is Some {
            prev.push(vote_label(correction_slot(cells[0])->0))
        } else {
            prev
        }
    }
}

/// The identifiers of the rows of a correction table, in table order.
pub fn correction_ids_in_markdown(markdown: &str) -> (r: Vec<String>)
    ensures
        strs(r@) == correction_ids_from(body_lines(markdown@)),
{
    let rows = body_lines_exec(markdown);
    let ghost rs = seqs(rows@);
    let mut out: Vec<Vec<char>> = Vec::new();
    let mut k: usize = 0;
    assert(rs.take(0) =~= Seq::<Seq<char>>::empty());
    assert(seqs(out@) =~= Seq::<Seq<char>>::empty());
    while k < rows.len()
        invariant
            k <= rows.len(),
            rs == seqs(rows@),
            seqs(out@) == correction_ids_from(rs.take(k as int)),
        decreases rows.len() - k,
    {
        assert(rs.take(k + 1).drop_last() =~= rs.take(k as int));
        assert(rs.take(k + 1).last() == rows@[k as int]@);
        let cells = correction_cells_chars(&rows[k]);
        if cells.len() == 5 {
            assert(seqs(cells@)[0] == cells@[0]@);
            match correction_slot_of(&cells[0]) {
                Some(s) => {
                    let l = vote_label_chars(s);
                    let ghost old_out = seqs(out@);
                    out.push(l);
                    assert(seqs(out@) =~= old_out.push(l@));
                },
                None => {},
            }
        }
        k = k + 1;
    }
    assert(rs.take(rows.len() as int) =~= rs);
    to_strings(&out)
}

} // verus!
