//! The candidate-list pages of a polling-station report: their titles, how
//! many columns of candidates they have, and the names of their crops.
use vstd::prelude::*;
use crate::candidate_compare::digit_run_end;
use crate::error::{error_from_chars, PvError};
use crate::names::{lowercase_of, slug, safe_file_slug};
use crate::paths::{file_stem_of, path_file_stem};
use crate::text::{dec, find_from, lines, parse_u32, seqs, strip_prefix, trim};
use crate::textops::{
    append_chars, dec_chars, find_chars, from_chars, is_ascii_digit, lemma_find_from, lines_chars,
    parse_u32_chars, push_str, strip_prefix_str, subrange_chars, to_chars, trim_chars,
};

verus! {

broadcast use vstd::string::group_string_axioms;

/// A located candidate-list page.
#[derive(Clone, Debug)]
pub struct CandidateListPage {
    pub page: u32,
    pub list_number: u32,
    pub list_name: String,
    pub candidate_count: Option<u32>,
    pub detected_columns: u8,
}

/// What is known in advance of a list in the Utrecht report.
#[derive(Clone, Copy, Debug)]
pub struct UtrechtCandidateList {
    pub number: u32,
    pub page: u32,
    pub name: &'static str,
    pub candidate_count: u32,
}

/// Lists of more than 25 candidates take two columns.
pub fn candidate_columns_from_count(candidate_count: u32) -> (r: u8)
    ensures
        r == if candidate_count > 25 {
            2u8
        } else {
            1u8
        },
{
    if candidate_count > 25 {
        2
    } else {
        1
    }
}

/// The number of candidate columns of a page: from its known candidate
/// count, else what was detected, kept between 1 and 2.
pub fn candidate_list_column_count(page: &CandidateListPage) -> (r: u8)
    ensures
        r == match page.candidate_count {
            Some(c) => if c > 25 {
                2u8
            } else {
                1u8
            },
            None => if page.detected_columns < 1 {
                1u8
            } else if page.detected_columns > 2 {
                2u8
            } else {
                page.detected_columns
            },
        },
{
    match page.candidate_count {
        Some(c) => candidate_columns_from_count(c),
        None => {
            if page.detected_columns < 1 {
                1
            } else if page.detected_columns > 2 {
                2
            } else {
                page.detected_columns
            }
        },
    }
}

/// How many candidates column 1 or 2 of a page holds, when its candidate
/// count is known: the first 25, then the rest.
pub fn candidate_list_rows_in_column(page: &CandidateListPage, column: u8) -> (r: Option<u32>)
    ensures
        r == match page.candidate_count {
            None => None,
            Some(c) => if column == 1 {
                Some(if c < 25 {
                    c
                } else {
                    25u32
                })
            } else if column == 2 {
                Some(if c > 25 {
                    (c - 25) as u32
                } else {
                    0u32
                })
            } else {
                None
            },
        },
{
    let count = match page.candidate_count {
        Some(c) => c,
        None => {
            return None;
        },
    };
    if column == 1 {
        Some(if count < 25 {
            count
        } else {
            25
        })
    } else if column == 2 {
        Some(if count > 25 {
            count - 25
        } else {
            0
        })
    } else {
        None
    }
}

/// The page, name and candidate count of list `n` in the Utrecht report.
pub open spec fn utrecht_entry(n: u32) -> Option<(u32, Seq<char>, u32)> {
    if n == 1 {
        Some((7, "GROENLINKS PvdA"@, 50))
    } else if n == 2 {
        Some((9, "D66"@, 45))
    } else if n == 3 {
        Some((10, "VVD"@, 45))
    } else if n == 4 {
        Some((11, "CDA"@, 44))
    } else if n == 5 {
        Some((12, "Partij voor de Dieren"@, 25))
    } else if n == 6 {
        Some((13, "Volt"@, 20))
    } else if n == 7 {
        Some((14, "Student Starter"@, 50))
    } else if n == 8 {
        Some((15, "ChristenUnie"@, 30))
    } else if n == 9 {
        Some((16, "DENK"@, 13))
    } else if n == 10 {
        Some((17, "BIJ1"@, 20))
    } else if n == 11 {
        Some((18, "EenUtrecht"@, 39))
    } else if n == 12 {
        Some((19, "SP"@, 25))
    } else if n == 13 {
        Some((20, "Stadsbelang Utrecht"@, 16))
    } else if n == 14 {
        Some((21, "PVV"@, 3))
    } else if n == 15 {
        Some((22, "UtrechtNu"@, 18))
    } else if n == 16 {
        Some((23, "Utrecht Solidair"@, 14))
    } else if n == 17 {
        Some((24, "Forum voor Democratie"@, 11))
    } else if n == 18 {
        Some((25, "Lijst 18"@, 1))
    } else if n == 19 {
        Some((26, "JA21"@, 8))
    } else if n == 20 {
        Some((27, "Lijst 20"@, 31))
    } else {
        None
    }
}

/// The lists of the Utrecht report, as printed in it: list 1 GROENLINKS
/// PvdA on page 7 with 50 candidates, list 2 D66 on page 9 with 45, list 3
/// VVD on page 10 with 45, and so on up to list 20 on page 27 with 31; the
/// pages of lists 2 to 20 follow one another, and no other list number has
/// an entry.
pub proof fn law_utrecht_lists()
    ensures
        utrecht_entry(1) == Some((7u32, "GROENLINKS PvdA"@, 50u32)),
        utrecht_entry(2) == Some((9u32, "D66"@, 45u32)),
        utrecht_entry(3) == Some((10u32, "VVD"@, 45u32)),
        utrecht_entry(4) == Some((11u32, "CDA"@, 44u32)),
        utrecht_entry(5) == Some((12u32, "Partij voor de Dieren"@, 25u32)),
        utrecht_entry(6) == Some((13u32, "Volt"@, 20u32)),
        utrecht_entry(7) == Some((14u32, "Student Starter"@, 50u32)),
        utrecht_entry(8) == Some((15u32, "ChristenUnie"@, 30u32)),
        utrecht_entry(9) == Some((16u32, "DENK"@, 13u32)),
        utrecht_entry(10) == Some((17u32, "BIJ1"@, 20u32)),
        utrecht_entry(11) == Some((18u32, "EenUtrecht"@, 39u32)),
        utrecht_entry(12) == Some((19u32, "SP"@, 25u32)),
        utrecht_entry(13) == Some((20u32, "Stadsbelang Utrecht"@, 16u32)),
        utrecht_entry(14) == Some((21u32, "PVV"@, 3u32)),
        utrecht_entry(15) == Some((22u32, "UtrechtNu"@, 18u32)),
        utrecht_entry(16) == Some((23u32, "Utrecht Solidair"@, 14u32)),
        utrecht_entry(17) == Some((24u32, "Forum voor Democratie"@, 11u32)),
        utrecht_entry(18) == Some((25u32, "Lijst 18"@, 1u32)),
        utrecht_entry(19) == Some((26u32, "JA21"@, 8u32)),
        utrecht_entry(20) == Some((27u32, "Lijst 20"@, 31u32)),
        forall|n: u32| (n == 0 || n > 20) ==> #[trigger] utrecht_entry(n) is None,
        forall|n: u32|
            2 <= n <= 20 ==> match #[trigger] utrecht_entry(n) {
                Some(e) => e.0 == n + 7,
                None => false,
            },
{
}

/// The entry of list `number` in the Utrecht report.
pub fn utrecht_candidate_list(number: u32) -> (r: Option<UtrechtCandidateList>)
    ensures
        match utrecht_entry(number) {
            Some((page, name, count)) => r is Some && r->0.number == number && r->0.page == page
                && r->0.name@ == name && r->0.candidate_count == count,
            None => r is None,
        },
{
    let (page, name, count): (u32, &'static str, u32) = if number == 1 {
        (7, "GROENLINKS PvdA", 50)
    } else if number == 2 {
        (9, "D66", 45)
    } else if number == 3 {
        (10, "VVD", 45)
    } else if number == 4 {
        (11, "CDA", 44)
    } else if number == 5 {
        (12, "Partij voor de Dieren", 25)
    } else if number == 6 {
        (13, "Volt", 20)
    } else if number == 7 {
        (14, "Student Starter", 50)
    } else if number == 8 {
        (15, "ChristenUnie", 30)
    } else if number == 9 {
        (16, "DENK", 13)
    } else if number == 10 {
        (17, "BIJ1", 20)
    } else if number == 11 {
        (18, "EenUtrecht", 39)
    } else if number == 12 {
        (19, "SP", 25)
    } else if number == 13 {
        (20, "Stadsbelang Utrecht", 16)
    } else if number == 14 {
        (21, "PVV", 3)
    } else if number == 15 {
        (22, "UtrechtNu", 18)
    } else if number == 16 {
        (23, "Utrecht Solidair", 14)
    } else if number == 17 {
        (24, "Forum voor Democratie", 11)
    } else if number == 18 {
        (25, "Lijst 18", 1)
    } else if number == 19 {
        (26, "JA21", 8)
    } else if number == 20 {
        (27, "Lijst 20", 31)
    } else {
        return None;
    };
    Some(UtrechtCandidateList { number, page, name, candidate_count: count })
}

/// The title of a candidate-list page from line `i` on: the first trimmed
/// line `Lijst {n} {name}` with at least one digit gives the list number
/// and the trimmed name; a number too large for `u32` gives nothing.
pub open spec fn title_from(ls: Seq<Seq<char>>, i: int) -> Option<(u32, Seq<char>)>
    decreases ls.len() - i,
{
    if i < 0 || i >= ls.len() {
        None
    } else {
        match strip_prefix(trim(ls[i]), "Lijst "@) {
            None => title_from(ls, i + 1),
            Some(rest) => {
                let d = digit_run_end(rest, 0);
                if d <= 0 {
                    title_from(ls, i + 1)
                } else {
                    match parse_u32(rest.take(d)) {
                        None => None,
                        Some(n) => Some((n, trim(rest.skip(d)))),
                    }
                }
            },
        }
    }
}

/// The list number and name in the title line `Lijst {n} {name}` of a
/// candidate-list page.
pub fn parse_candidate_list_title(page_text: &str) -> (r: Option<(u32, String)>)
    ensures
        match title_from(lines(page_text@), 0) {
            Some((n, name)) => match r {
                Some((m, s)) => m == n && s@ == name,
                None => false,
            },
            None => r is None,
        },
{
    let v = to_chars(page_text);
    let ls = lines_chars(&v);
    let ghost lv = seqs(ls@);
    let mut i: usize = 0;
    while i < ls.len()
        invariant
            lv == seqs(ls@),
            lv == lines(page_text@),
            i <= ls.len(),
            title_from(lv, 0) == title_from(lv, i as int),
        decreases ls.len() - i,
    {
        assert(lv[i as int] == ls@[i as int]@);
        let t = trim_chars(&ls[i]);
        match strip_prefix_str(&t, "Lijst ") {
            None => {},
            Some(rest) => {
                let mut d: usize = 0;
                while d < rest.len() && is_ascii_digit(rest[d])
                    invariant
                        d <= rest.len(),
                        digit_run_end(rest@, 0) == digit_run_end(rest@, d as int),
                    decreases rest.len() - d,
                {
                    d = d + 1;
                }
                if d > 0 {
                    let digits = subrange_chars(&rest, 0, d);
                    assert(digits@ =~= rest@.take(d as int));
                    match parse_u32_chars(&digits) {
                        None => {
                            return None;
                        },
                        Some(n) => {
                            let tail = subrange_chars(&rest, d, rest.len());
                            assert(tail@ =~= rest@.skip(d as int));
                            let name = trim_chars(&tail);
                            return Some((n, from_chars(&name)));
                        },
                    }
                }
            },
        }
        i = i + 1;
    }
    None
}

/// The number of non-overlapping occurrences of `p` in `s` from index `i`
/// on, found left to right.
pub open spec fn count_from(s: Seq<char>, p: Seq<char>, i: int) -> nat
    decreases s.len() + 1 - i,
{
    if i < 0 || p.len() == 0 {
        0
    } else {
        match find_from(s, p, i) {
            Some(j) => {
                proof {
                    lemma_find_from(s, p, i);
                }
                1 + count_from(s, p, j + p.len())
            },
            None => 0,
        }
    }
}

/// The number of non-overlapping occurrences of `p` in `v`.
fn count_matches(v: &Vec<char>, p: &str) -> (r: usize)
    requires
        p@.len() > 0,
    ensures
        r == count_from(v@, p@, 0),
{
    let pv = to_chars(p);
    let mut n: usize = 0;
    let mut i: usize = 0;
    while i <= v.len()
        invariant
            pv@ == p@,
            p@.len() > 0,
            n <= i,
            count_from(v@, p@, 0) == n + count_from(v@, p@, i as int),
        decreases v.len() + 1 - i,
    {
        proof {
            lemma_find_from(v@, p@, i as int);
        }
        match find_chars(v, &pv, i) {
            Some(j) => {
                assert(find_from(v@, p@, i as int) == Some(j as int));
                n = n + 1;
                i = j + pv.len();
            },
            None => {
                return n;
            },
        }
    }
    assert(count_from(v@, p@, i as int) == 0) by {
        assert(find_from(v@, p@, i as int) is None);
    }
    n
}

/// The number of candidate columns a page appears to have, from its text
/// (ignoring case): two when `kandidaat` and `stemmen` each occur at least
/// twice.
pub fn detected_candidate_columns(page_text: &str) -> (r: u8)
    ensures
        r == if count_from(lowercase_of(page_text@), "kandidaat"@, 0) >= 2 && count_from(
            lowercase_of(page_text@),
            "stemmen"@,
            0,
        ) >= 2 {
            2u8
        } else {
            1u8
        },
{
    proof {
        reveal_strlit("kandidaat");
        reveal_strlit("stemmen");
    }
    let lower = crate::names::to_lowercase(page_text);
    let l = to_chars(lower.as_str());
    if count_matches(&l, "kandidaat") >= 2 && count_matches(&l, "stemmen") >= 2 {
        2
    } else {
        1
    }
}

/// The file stem of `path`, or the error that it has none.
pub fn file_stem_string(path: &str) -> (r: Result<String, PvError>)
    ensures
        match file_stem_of(path@) {
            Some(stem) => r is Ok && r->Ok_0@ == stem,
            None => r is Err && r->Err_0.message@ == "path has no valid file stem: "@ + path@,
        },
{
    match path_file_stem(path) {
        Some(stem) => Ok(stem),
        None => {
            let mut m = to_chars("path has no valid file stem: ");
            push_str(&mut m, path);
            Err(error_from_chars(&m))
        },
    }
}

/// A number written with at least two digits, as `{:02}` writes it.
pub open spec fn two_digits(n: u32) -> Seq<char> {
    if n < 10 {
        "0"@ + dec(n as nat)
    } else {
        dec(n as nat)
    }
}

/// The file stem of the crops of a candidate-list page:
/// `{pdf stem}_lijst-{nn}`, then `_{slug of the list name}` when that slug
/// is not empty.
pub fn candidate_list_output_stem(pdf: &str, page: &CandidateListPage) -> (r: Result<String, PvError>)
    ensures
        match file_stem_of(pdf@) {
            Some(stem) => r is Ok && r->Ok_0@ == stem + "_lijst-"@ + two_digits(page.list_number)
                + if slug(page.list_name@).len() > 0 {
                "_"@ + slug(page.list_name@)
            } else {
                Seq::empty()
            },
            None => r is Err && r->Err_0.message@ == "path has no valid file stem: "@ + pdf@,
        },
{
    let stem = match file_stem_string(pdf) {
        Ok(s) => s,
        Err(e) => {
            return Err(e);
        },
    };
    let mut m = to_chars(stem.as_str());
    push_str(&mut m, "_lijst-");
    if page.list_number < 10 {
        push_str(&mut m, "0");
    }
    let d = dec_chars(page.list_number as u64);
    append_chars(&mut m, &d);
    let slug_text = safe_file_slug(page.list_name.as_str());
    let sc = to_chars(slug_text.as_str());
    if sc.len() > 0 {
        push_str(&mut m, "_");
        append_chars(&mut m, &sc);
    } else {
        assert(m@ =~= m@ + Seq::<char>::empty());
    }
    Ok(from_chars(&m))
}

} // verus!
