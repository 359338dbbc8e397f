//! The official per-station results, read from the municipality's result
//! CSV.
use vstd::prelude::*;
use crate::candidates::{
    lemma_sorted_insert, lookup, sorted_entries, sorted_insert, CandidateKey, CandidateValues,
};
use crate::comparison::OfficialStationResult;
use crate::csv::{
    candidate_number_of_row, csv_cell_value, csv_record_error, csv_records, list_number_of_row,
    official_candidate_number_for_row, official_list_number_for_row, parse_semicolon_csv,
    parse_u32_cell_chars, result_slot_for_row, result_slot_of_row, rows_view,
};
use crate::error::{error_from_chars, PvError};
use crate::text::{join, lines, seqs, strs};
use crate::textops::{append_chars, eq_str, from_chars, join_chars, push_str, to_chars};
use crate::votes::{no_values, vote_label, vote_label_chars, VoteValues};

verus! {

broadcast use vstd::string::group_string_axioms;

/// The official results of every station of a municipality. Stations are
/// kept in the order of their columns in the CSV; `stations[i]` holds the
/// values of the column of `station_order[i]`.
#[derive(Debug)]
pub struct OfficialResults {
    pub source_path: String,
    pub station_order: Vec<String>,
    pub stations: Vec<OfficialStationResult>,
}

impl OfficialResults {
    /// One result per station column, each well-formed.
    pub open spec fn wf(&self) -> bool {
        &&& self.stations@.len() == self.station_order@.len()
        &&& forall|i: int| 0 <= i < self.stations@.len() ==> (#[trigger] self.stations@[i]).wf()
    }
}

impl OfficialResults {
    /// The official result of station `code`: that of the last column with
    /// the code, if any column has it.
    pub fn station(&self, code: &str) -> (r: Option<&OfficialStationResult>)
        requires
            self.wf(),
        ensures
            match last_station(strs(self.station_order@), code@, self.station_order@.len() as int) {
                Some(i) => r is Some && *r->0 == self.stations@[i],
                None => r is None,
            },
    {
        let c = to_chars(code);
        proof {
            lemma_last_station(strs(self.station_order@), c@, self.station_order@.len() as int);
        }
        match last_station_exec(&self.station_order, &c) {
            Some(i) => Some(&self.stations[i]),
            None => None,
        }
    }
}

/// The index of the last of the first `k` stations whose code is `c`: a
/// station code given to two columns takes the values of the later one.
pub open spec fn last_station(order: Seq<Seq<char>>, c: Seq<char>, k: int) -> Option<int>
    decreases k,
{
    if k <= 0 {
        None
    } else if order[k - 1] == c {
        Some(k - 1)
    } else {
        last_station(order, c, k - 1)
    }
}

pub proof fn lemma_last_station(order: Seq<Seq<char>>, c: Seq<char>, k: int)
    requires
        k <= order.len(),
    ensures
        match last_station(order, c, k) {
            Some(i) => 0 <= i < k && order[i] == c,
            None => forall|i: int| 0 <= i < k ==> order[i] != c,
        },
    decreases k,
{
    if k > 0 {
        lemma_last_station(order, c, k - 1);
    }
}

/// The first record at or after `k` whose first field is `label`.
pub open spec fn first_with_label(rows: Seq<Seq<Seq<char>>>, label: Seq<char>, k: int) -> Option<int>
    decreases rows.len() - k,
{
    if k < 0 || k >= rows.len() {
        None
    } else if rows[k].len() > 0 && rows[k][0] == label {
        Some(k)
    } else {
        first_with_label(rows, label, k + 1)
    }
}

/// The columns from the sixth on, among the first `k`, that name a station
/// in the area row.
pub open spec fn station_cols(area: Seq<Seq<char>>, k: int) -> Seq<int>
    decreases k,
{
    if k <= 5 {
        Seq::empty()
    } else {
        let prev = station_cols(area, k - 1);
        if area[k - 1].len() > 0 {
            prev.push(k - 1)
        } else {
            prev
        }
    }
}

/// Field `c` of a record, or the empty text when the record is shorter.
pub open spec fn cell_at(row: Seq<Seq<char>>, c: int) -> Seq<char> {
    if 0 <= c < row.len() {
        row[c]
    } else {
        Seq::empty()
    }
}

/// The list number of the last party row among the first `k` records.
pub open spec fn current_list(rows: Seq<Seq<Seq<char>>>, k: int) -> Option<u32>
    decreases k,
{
    if k <= 0 {
        None
    } else {
        match list_number_of_row(rows[k - 1]) {
            Some(n) => Some(n),
            None => current_list(rows, k - 1),
        }
    }
}

/// Record `r` gives station values: it is a vote row, or a candidate row
/// after some party row.
pub open spec fn is_value_row(rows: Seq<Seq<Seq<char>>>, r: int) -> bool {
    result_slot_of_row(rows[r]) is Some || (current_list(rows, r + 1) is Some
        && candidate_number_of_row(rows[r]) is Some)
}

/// The error of the first of the columns `cols[j..]` whose cell in `row`
/// is not a count.
pub open spec fn first_bad_col(row: Seq<Seq<char>>, cols: Seq<int>, j: int) -> Option<Seq<char>>
    decreases cols.len() - j,
{
    if j < 0 || j >= cols.len() {
        None
    } else {
        match csv_cell_value(cell_at(row, cols[j])) {
            Err(m) => Some(m),
            Ok(_) => first_bad_col(row, cols, j + 1),
        }
    }
}

/// The error of the first station cell, in record order from `r` on and
/// column order within a record, that is not a count.
pub open spec fn first_cell_error(rows: Seq<Seq<Seq<char>>>, cols: Seq<int>, r: int) -> Option<
    Seq<char>,
>
    decreases rows.len() - r,
{
    if r < 0 || r >= rows.len() {
        None
    } else if is_value_row(rows, r) && first_bad_col(rows[r], cols, 0) is Some {
        first_bad_col(rows[r], cols, 0)
    } else {
        first_cell_error(rows, cols, r + 1)
    }
}

/// The count in column `c` of `row`.
pub open spec fn cell_value(row: Seq<Seq<char>>, c: int) -> u32 {
    match csv_cell_value(cell_at(row, c)) {
        Ok(v) => v,
        Err(_) => 0,
    }
}

/// The vote values of column `c` after the first `k` records; a later
/// record for the same vote row replaces an earlier one.
pub open spec fn column_votes(rows: Seq<Seq<Seq<char>>>, c: int, k: int) -> Seq<Option<u32>>
    decreases k,
{
    if k <= 0 {
        no_values()
    } else {
        let prev = column_votes(rows, c, k - 1);
        match result_slot_of_row(rows[k - 1]) {
            Some(s) => prev.update(s, Some(cell_value(rows[k - 1], c))),
            None => prev,
        }
    }
}

/// The candidate values of column `c` after the first `k` records, keyed by
/// the current party's list number and the candidate number.
pub open spec fn column_candidates(rows: Seq<Seq<Seq<char>>>, c: int, k: int) -> Seq<
    (CandidateKey, u32),
>
    decreases k,
{
    if k <= 0 {
        Seq::empty()
    } else {
        let prev = column_candidates(rows, c, k - 1);
        match current_list(rows, k) {
            Some(l) => match candidate_number_of_row(rows[k - 1]) {
                Some(n) => sorted_insert(
                    prev,
                    CandidateKey { list: l, candidate: n },
                    cell_value(rows[k - 1], c),
                ),
                None => prev,
            },
            None => prev,
        }
    }
}

/// The candidate key record `r` gives values for: the current party's list
/// number and the record's candidate number.
spec fn row_key(rows: Seq<Seq<Seq<char>>>, r: int) -> Option<CandidateKey> {
    match current_list(rows, r + 1) {
        Some(l) => match candidate_number_of_row(rows[r]) {
            Some(n) => Some(CandidateKey { list: l, candidate: n }),
            None => None,
        },
        None => None,
    }
}

proof fn lemma_column_candidates(rows: Seq<Seq<Seq<char>>>, c: int, k: int)
    requires
        0 <= k <= rows.len(),
    ensures
        sorted_entries(column_candidates(rows, c, k)),
        forall|r: int|
            #![trigger rows[r]]
            0 <= r < k && row_key(rows, r) is Some && (forall|r2: int|
                r < r2 < k ==> row_key(rows, r2) != row_key(rows, r)) ==> lookup(
                column_candidates(rows, c, k),
                row_key(rows, r)->0,
            ) == Some(cell_value(rows[r], c)),
        forall|key: CandidateKey|
            #[trigger] lookup(column_candidates(rows, c, k), key) is Some ==> exists|r: int|
                0 <= r < k && row_key(rows, r) == Some(key) && lookup(column_candidates(rows, c, k), key)
                    == Some(cell_value(rows[r], c)),
    decreases k,
{
    if k > 0 {
        lemma_column_candidates(rows, c, k - 1);
        let prev = column_candidates(rows, c, k - 1);
        let cur = column_candidates(rows, c, k);
        match row_key(rows, k - 1) {
            Some(key0) => {
                let v0 = cell_value(rows[k - 1], c);
                lemma_sorted_insert(prev, key0, v0);
                assert(cur == sorted_insert(prev, key0, v0));
                assert forall|r: int|
                    #![trigger rows[r]]
                    0 <= r < k && row_key(rows, r) is Some && (forall|r2: int|
                        r < r2 < k ==> row_key(rows, r2) != row_key(rows, r)) implies lookup(
                        cur,
                        row_key(rows, r)->0,
                    ) == Some(cell_value(rows[r], c)) by {
                    if r < k - 1 {
                        assert(row_key(rows, k - 1) != row_key(rows, r));
                        assert(forall|r2: int| r < r2 < k - 1 ==> row_key(rows, r2) != row_key(rows, r));
                    }
                }
                assert forall|key: CandidateKey| #[trigger] lookup(cur, key) is Some implies exists|r: int|
                    0 <= r < k && row_key(rows, r) == Some(key) && lookup(cur, key) == Some(
                        cell_value(rows[r], c),
                    ) by {
                    if key == key0 {
                        assert(row_key(rows, k - 1) == Some(key));
                    } else {
                        assert(lookup(prev, key) is Some);
                        let r = choose|r: int|
                            0 <= r < k - 1 && row_key(rows, r) == Some(key) && lookup(prev, key) == Some(
                                cell_value(rows[r], c),
                            );
                        assert(row_key(rows, r) == Some(key));
                    }
                }
            },
            None => {
                assert(cur == prev);
                assert forall|r: int|
                    #![trigger rows[r]]
                    0 <= r < k && row_key(rows, r) is Some && (forall|r2: int|
                        r < r2 < k ==> row_key(rows, r2) != row_key(rows, r)) implies lookup(
                        cur,
                        row_key(rows, r)->0,
                    ) == Some(cell_value(rows[r], c)) by {
                    if r < k - 1 {
                        assert(forall|r2: int| r < r2 < k - 1 ==> row_key(rows, r2) != row_key(rows, r));
                    }
                }
                assert forall|key: CandidateKey| #[trigger] lookup(cur, key) is Some implies exists|r: int|
                    0 <= r < k && row_key(rows, r) == Some(key) && lookup(cur, key) == Some(
                        cell_value(rows[r], c),
                    ) by {
                    let r = choose|r: int|
                        0 <= r < k - 1 && row_key(rows, r) == Some(key) && lookup(prev, key) == Some(
                            cell_value(rows[r], c),
                        );
                }
            },
        }
    }
}

/// The official candidate values of a station column: every candidate
/// record after a party record gives the candidate (the party's list
/// number and the record's candidate number) the count in the station's
/// cell, whatever it is, zero included, unless a later such record gives
/// the same candidate again; and every candidate of the column has the
/// count of such a record. The candidates come in key order, each once.
pub proof fn law_station_candidate_values(rows: Seq<Seq<Seq<char>>>, c: int)
    ensures
        sorted_entries(column_candidates(rows, c, rows.len() as int)),
        forall|r: int|
            #![trigger rows[r]]
            0 <= r < rows.len() && current_list(rows, r + 1) is Some && candidate_number_of_row(
                rows[r],
            ) is Some && (forall|r2: int|
                #![trigger rows[r2]]
                r < r2 < rows.len() ==> !(current_list(rows, r2 + 1) == current_list(rows, r + 1)
                    && candidate_number_of_row(rows[r2]) == candidate_number_of_row(rows[r])))
                ==> lookup(
                column_candidates(rows, c, rows.len() as int),
                (CandidateKey {
                    list: current_list(rows, r + 1)->0,
                    candidate: candidate_number_of_row(rows[r])->0,
                }),
            ) == match csv_cell_value(cell_at(rows[r], c)) {
                Ok(v) => Some(v),
                Err(_) => Some(0u32),
            },
        forall|key: CandidateKey|
            #[trigger] lookup(column_candidates(rows, c, rows.len() as int), key) is Some
                ==> exists|r: int|
                #![trigger rows[r]]
                0 <= r < rows.len() && current_list(rows, r + 1) == Some(key.list)
                    && candidate_number_of_row(rows[r]) == Some(key.candidate) && lookup(
                    column_candidates(rows, c, rows.len() as int),
                    key,
                ) == Some(cell_value(rows[r], c)),
{
    let k = rows.len() as int;
    lemma_column_candidates(rows, c, k);
    assert forall|r: int|
        #![trigger rows[r]]
        0 <= r < rows.len() && current_list(rows, r + 1) is Some && candidate_number_of_row(
            rows[r],
        ) is Some && (forall|r2: int|
            #![trigger rows[r2]]
            r < r2 < rows.len() ==> !(current_list(rows, r2 + 1) == current_list(rows, r + 1)
                && candidate_number_of_row(rows[r2]) == candidate_number_of_row(rows[r])))
            implies lookup(
            column_candidates(rows, c, k),
            (CandidateKey {
                list: current_list(rows, r + 1)->0,
                candidate: candidate_number_of_row(rows[r])->0,
            }),
        ) == match csv_cell_value(cell_at(rows[r], c)) {
            Ok(v) => Some(v),
            Err(_) => Some(0u32),
        } by {
        assert forall|r2: int| r < r2 < k implies row_key(rows, r2) != row_key(rows, r) by {
            assert(!(current_list(rows, r2 + 1) == current_list(rows, r + 1) && candidate_number_of_row(
                rows[r2],
            ) == candidate_number_of_row(rows[r])));
        }
    }
    assert forall|key: CandidateKey|
        #[trigger] lookup(column_candidates(rows, c, k), key) is Some implies exists|r: int|
            #![trigger rows[r]]
            0 <= r < rows.len() && current_list(rows, r + 1) == Some(key.list)
                && candidate_number_of_row(rows[r]) == Some(key.candidate) && lookup(
                column_candidates(rows, c, k),
                key,
            ) == Some(cell_value(rows[r], c)) by {
        let r = choose|r: int|
            0 <= r < k && row_key(rows, r) == Some(key) && lookup(column_candidates(rows, c, k), key)
                == Some(cell_value(rows[r], c));
        assert(rows[r] == rows[r]);
    }
}

/// The identifiers of the vote rows among the first `k` that have no value.
pub open spec fn missing_ids(vals: Seq<Option<u32>>, k: int) -> Seq<Seq<char>>
    decreases k,
{
    if k <= 0 {
        Seq::empty()
    } else {
        let prev = missing_ids(vals, k - 1);
        if vals[k - 1] is None {
            prev.push(vote_label(k - 1))
        } else {
            prev
        }
    }
}

/// What is read for one station: its location and its values.
pub type StationView = (Seq<char>, Seq<Option<u32>>, Seq<(CandidateKey, u32)>);

/// The view of an official station result.
pub open spec fn station_view(s: OfficialStationResult) -> StationView {
    (s.location@, s.values@, s.candidate_values@)
}

/// The first station, from index `i` on, whose values (those of the last
/// column with its code) lack a vote row, with the rows it lacks.
pub open spec fn first_missing(order: Seq<Seq<char>>, results: Seq<StationView>, i: int) -> Option<
    (Seq<char>, Seq<Seq<char>>),
>
    decreases order.len() - i,
{
    if i < 0 || i >= order.len() {
        None
    } else {
        let v = match last_station(order, order[i], order.len() as int) {
            Some(j) => results[j].1,
            None => no_values(),
        };
        let m = missing_ids(v, 24);
        if m.len() > 0 {
            Some((order[i], m))
        } else {
            first_missing(order, results, i + 1)
        }
    }
}

/// The station codes and results that the CSV `content` read from `path`
/// gives, or the message of its first problem.
pub open spec fn official_results_outcome(path: Seq<char>, content: Seq<char>) -> Result<
    (Seq<Seq<char>>, Seq<StationView>),
    Seq<char>,
> {
    match csv_records(content) {
        Err(j) => Err(csv_record_error(lines(content)[j])),
        Ok(rows) => match first_with_label(rows, "Lijstnummer"@, 0) {
            None => Err(path + " does not contain a Lijstnummer header row"@),
            Some(h) => match first_with_label(rows, "Gebiednummer"@, 0) {
                None => Err(path + " does not contain a Gebiednummer row"@),
                Some(a) => {
                    let cols = station_cols(rows[a], rows[a].len() as int);
                    if cols.len() == 0 {
                        Err(path + " does not contain station-level result columns"@)
                    } else {
                        match first_cell_error(rows, cols, 0) {
                            Some(m) => Err(m),
                            None => {
                                let order = cols.map_values(|c: int| rows[a][c]);
                                let results = cols.map_values(
                                    |c: int|
                                        (
                                            cell_at(rows[h], c),
                                            column_votes(rows, c, rows.len() as int),
                                            column_candidates(rows, c, rows.len() as int),
                                        ),
                                );
                                match first_missing(order, results, 0) {
                                    Some((code, m)) => Err(
                                        path + " is missing official result row(s) for station "@
                                            + code + ": "@ + join(m, ", "@),
                                    ),
                                    None => Ok((order, results)),
                                }
                            },
                        }
                    }
                },
            },
        },
    }
}

/// The index of the first record whose first field is `label`.
fn find_labelled_row(rows: &Vec<Vec<String>>, label: &str) -> (r: Option<usize>)
    ensures
        match first_with_label(rows_view(rows@), label@, 0) {
            Some(k) => r == Some(k as usize),
            None => r is None,
        },
{
    let ghost rv = rows_view(rows@);
    let mut k: usize = 0;
    while k < rows.len()
        invariant
            rv == rows_view(rows@),
            k <= rows.len(),
            first_with_label(rv, label@, 0) == first_with_label(rv, label@, k as int),
        decreases rows.len() - k,
    {
        assert(rv[k as int] == strs(rows@[k as int]@));
        if rows[k].len() > 0 {
            assert(rv[k as int][0] == rows@[k as int]@[0]@);
            let first = to_chars(rows[k][0].as_str());
            if eq_str(&first, label) {
                return Some(k);
            }
        }
        k = k + 1;
    }
    None
}

/// The columns, from the sixth on, whose area-row field names a station.
fn station_columns(area: &Vec<String>) -> (r: Vec<usize>)
    ensures
        r@.len() == station_cols(strs(area@), area@.len() as int).len(),
        forall|i: int|
            0 <= i < r@.len() ==> r@[i] == station_cols(strs(area@), area@.len() as int)[i],
        forall|i: int| 0 <= i < r@.len() ==> r@[i] < area@.len(),
{
    let ghost av = strs(area@);
    let mut out: Vec<usize> = Vec::new();
    if area.len() <= 5 {
        return out;
    }
    let mut k: usize = 5;
    while k < area.len()
        invariant
            av == strs(area@),
            5 <= k <= area.len(),
            out@.len() == station_cols(av, k as int).len(),
            forall|i: int| 0 <= i < out@.len() ==> out@[i] == station_cols(av, k as int)[i],
            forall|i: int| 0 <= i < out@.len() ==> out@[i] < k,
        decreases area.len() - k,
    {
        assert(av[k as int] == area@[k as int]@);
        let code = to_chars(area[k].as_str());
        if code.len() > 0 {
            out.push(k);
        }
        k = k + 1;
    }
    out
}

/// Field `c` of `row`, or the empty text when the record is shorter.
fn cell_chars(row: &Vec<String>, c: usize) -> (r: Vec<char>)
    ensures
        r@ == cell_at(strs(row@), c as int),
{
    if c < row.len() {
        assert(strs(row@)[c as int] == row@[c as int]@);
        to_chars(row[c].as_str())
    } else {
        Vec::new()
    }
}

/// The message of the first station cell of `row` that is not a count.
fn row_cell_error(row: &Vec<String>, cols: &Vec<usize>) -> (r: Option<PvError>)
    ensures
        match first_bad_col(strs(row@), cols@.map_values(|c: usize| c as int), 0) {
            Some(m) => r is Some && r->0.message@ == m,
            None => r is None,
        },
{
    let ghost cs = cols@.map_values(|c: usize| c as int);
    let mut j: usize = 0;
    while j < cols.len()
        invariant
            cs == cols@.map_values(|c: usize| c as int),
            j <= cols.len(),
            first_bad_col(strs(row@), cs, 0) == first_bad_col(strs(row@), cs, j as int),
        decreases cols.len() - j,
    {
        let cell = cell_chars(row, cols[j]);
        match parse_u32_cell_chars(&cell) {
            Err(e) => {
                return Some(e);
            },
            Ok(_) => {},
        }
        j = j + 1;
    }
    None
}

proof fn lemma_current_list_step(rows: Seq<Seq<Seq<char>>>, k: int)
    requires
        0 <= k,
    ensures
        current_list(rows, k + 1) == match list_number_of_row(rows[k]) {
            Some(n) => Some(n),
            None => current_list(rows, k),
        },
{
}

/// The message of the first station cell, in record order, that is not a
/// count.
fn first_cell_error_exec(rows: &Vec<Vec<String>>, cols: &Vec<usize>) -> (r: Option<PvError>)
    ensures
        match first_cell_error(rows_view(rows@), cols@.map_values(|c: usize| c as int), 0) {
            Some(m) => r is Some && r->0.message@ == m,
            None => r is None,
        },
{
    let ghost rv = rows_view(rows@);
    let ghost cs = cols@.map_values(|c: usize| c as int);
    let mut current: Option<u32> = None;
    let mut k: usize = 0;
    while k < rows.len()
        invariant
            rv == rows_view(rows@),
            cs == cols@.map_values(|c: usize| c as int),
            k <= rows.len(),
            current == current_list(rv, k as int),
            first_cell_error(rv, cs, 0) == first_cell_error(rv, cs, k as int),
        decreases rows.len() - k,
    {
        assert(rv[k as int] == strs(rows@[k as int]@));
        proof {
            lemma_current_list_step(rv, k as int);
        }
        match official_list_number_for_row(rows[k].as_slice()) {
            Some(n) => {
                current = Some(n);
            },
            None => {},
        }
        let is_value = result_slot_for_row(rows[k].as_slice()).is_some() || (current.is_some()
            && official_candidate_number_for_row(rows[k].as_slice()).is_some());
        if is_value {
            match row_cell_error(&rows[k], cols) {
                Some(e) => {
                    return Some(e);
                },
                None => {},
            }
        }
        k = k + 1;
    }
    None
}

/// The location and values of the station in column `c`.
fn read_station_column(rows: &Vec<Vec<String>>, header: &Vec<String>, c: usize) -> (r:
    OfficialStationResult)
    requires
        first_cell_error(rows_view(rows@), seq![c as int], 0) is None,
    ensures
        r.wf(),
        station_view(r) == (
            cell_at(strs(header@), c as int),
            column_votes(rows_view(rows@), c as int, rows@.len() as int),
            column_candidates(rows_view(rows@), c as int, rows@.len() as int),
        ),
{
    let ghost rv = rows_view(rows@);
    let loc = cell_chars(header, c);
    let mut values = VoteValues::new();
    let mut candidates = CandidateValues::new();
    let mut current: Option<u32> = None;
    let mut k: usize = 0;
    while k < rows.len()
        invariant
            rv == rows_view(rows@),
            k <= rows.len(),
            first_cell_error(rv, seq![c as int], 0) is None,
            first_cell_error(rv, seq![c as int], 0) == first_cell_error(rv, seq![c as int], k as int),
            current == current_list(rv, k as int),
            values.wf(),
            candidates.wf(),
            values@ == column_votes(rv, c as int, k as int),
            candidates@ == column_candidates(rv, c as int, k as int),
        decreases rows.len() - k,
    {
        assert(rv[k as int] == strs(rows@[k as int]@));
        proof {
            lemma_current_list_step(rv, k as int);
        }
        match official_list_number_for_row(rows[k].as_slice()) {
            Some(n) => {
                current = Some(n);
            },
            None => {},
        }
        let cell = cell_chars(&rows[k], c);
        let slot = result_slot_for_row(rows[k].as_slice());
        let number = official_candidate_number_for_row(rows[k].as_slice());
        let is_value = slot.is_some() || (current.is_some() && number.is_some());
        if is_value {
            let v = match parse_u32_cell_chars(&cell) {
                Ok(v) => v,
                Err(_) => {
                    assert(first_bad_col(rv[k as int], seq![c as int], 0) is Some);
                    assert(false);
                    0
                },
            };
            assert(v == cell_value(rv[k as int], c as int));
            match slot {
                Some(s) => {
                    values.set_slot(s, Some(v));
                },
                None => {},
            }
            match (current, number) {
                (Some(l), Some(n)) => {
                    candidates.insert(CandidateKey { list: l, candidate: n }, v);
                },
                _ => {},
            }
        }
        k = k + 1;
    }
    OfficialStationResult { location: from_chars(&loc), values, candidate_values: candidates }
}

proof fn lemma_bad_col(row: Seq<Seq<char>>, cols: Seq<int>, i: int, j: int)
    requires
        first_bad_col(row, cols, i) is None,
        0 <= i <= j < cols.len(),
    ensures
        csv_cell_value(cell_at(row, cols[j])) is Ok,
    decreases j - i,
{
    if i < j {
        lemma_bad_col(row, cols, i + 1, j);
    }
}

proof fn lemma_col_ok(rows: Seq<Seq<Seq<char>>>, cols: Seq<int>, r: int, j: int)
    requires
        first_cell_error(rows, cols, r) is None,
        0 <= r,
        0 <= j < cols.len(),
    ensures
        first_cell_error(rows, seq![cols[j]], r) is None,
    decreases rows.len() - r,
{
    if r < rows.len() {
        if is_value_row(rows, r) {
            lemma_bad_col(rows[r], cols, 0, j);
            assert(first_bad_col(rows[r], seq![cols[j]], 1) is None);
        }
        lemma_col_ok(rows, cols, r + 1, j);
    }
}

/// The identifiers of the vote rows without a value.
fn missing_ids_exec(values: &VoteValues) -> (r: Vec<Vec<char>>)
    requires
        values.wf(),
    ensures
        seqs(r@) == missing_ids(values@, 24),
{
    let mut out: Vec<Vec<char>> = Vec::new();
    let mut i: usize = 0;
    assert(seqs(out@) =~= Seq::<Seq<char>>::empty());
    while i < 24
        invariant
            values.wf(),
            i <= 24,
            seqs(out@) == missing_ids(values@, i as int),
        decreases 24 - i,
    {
        if values.slots[i].is_none() {
            let l = vote_label_chars(i);
            let ghost o = seqs(out@);
            out.push(l);
            assert(seqs(out@) =~= o.push(l@));
        }
        i = i + 1;
    }
    out
}

/// The index of the last station whose code is `code`, which is one of
/// them.
pub fn last_station_index(order: &Vec<String>, code: &Vec<char>) -> (r: usize)
    requires
        last_station(strs(order@), code@, order@.len() as int) is Some,
    ensures
        last_station(strs(order@), code@, order@.len() as int) == Some(r as int),
        r < order@.len(),
{
    proof {
        lemma_last_station(strs(order@), code@, order@.len() as int);
    }
    last_station_exec(order, code).unwrap()
}

/// The index of the last station whose code is `code`.
fn last_station_exec(order: &Vec<String>, code: &Vec<char>) -> (r: Option<usize>)
    ensures
        match r {
            Some(i) => last_station(strs(order@), code@, order@.len() as int) == Some(i as int),
            None => last_station(strs(order@), code@, order@.len() as int) is None,
        },
{
    let ghost ov = strs(order@);
    let mut k: usize = order.len();
    while k > 0
        invariant
            ov == strs(order@),
            k <= order.len(),
            last_station(ov, code@, order@.len() as int) == last_station(ov, code@, k as int),
        decreases k,
    {
        assert(ov[k - 1] == order@[k - 1]@);
        let c = to_chars(order[k - 1].as_str());
        if crate::textops::chars_eq(&c, code) {
            return Some(k - 1);
        }
        k = k - 1;
    }
    None
}

/// The views of a list of station results.
pub open spec fn stations_view(s: Seq<OfficialStationResult>) -> Seq<StationView> {
    s.map_values(|x: OfficialStationResult| station_view(x))
}

/// Reads the official results of every station from the text of the
/// result CSV at `path`: the station columns named in the `Gebiednummer`
/// row, their locations from the `Lijstnummer` header row, the vote rows
/// (`E.1` to `E.20` from the party rows, `E` to `H` from the ballot rows)
/// and the candidate rows, keyed by the party they follow. Empty cells
/// count as zero. Every station must have a value for every vote row.
pub fn read_official_results_csv(path: &str, content: &str) -> (r: Result<OfficialResults, PvError>)
    ensures
        match official_results_outcome(path@, content@) {
            Ok((order, results)) => {
                &&& r is Ok
                &&& r->Ok_0.wf()
                &&& r->Ok_0.source_path@ == path@
                &&& strs(r->Ok_0.station_order@) == order
                &&& stations_view(r->Ok_0.stations@) == results
            },
            Err(m) => r is Err && r->Err_0.message@ == m,
        },
{
    let rows = match parse_semicolon_csv(content) {
        Ok(rows) => rows,
        Err(e) => {
            return Err(e);
        },
    };
    let ghost rv = rows_view(rows@);
    let h = match find_labelled_row(&rows, "Lijstnummer") {
        Some(h) => h,
        None => {
            let mut m = to_chars(path);
            push_str(&mut m, " does not contain a Lijstnummer header row");
            return Err(error_from_chars(&m));
        },
    };
    let a = match find_labelled_row(&rows, "Gebiednummer") {
        Some(a) => a,
        None => {
            let mut m = to_chars(path);
            push_str(&mut m, " does not contain a Gebiednummer row");
            return Err(error_from_chars(&m));
        },
    };
    proof {
        lemma_first_with_label(rv, "Lijstnummer"@, 0);
        lemma_first_with_label(rv, "Gebiednummer"@, 0);
    }
    assert(rv[a as int] == strs(rows@[a as int]@));
    assert(rv[h as int] == strs(rows@[h as int]@));
    let cols = station_columns(&rows[a]);
    let ghost cs = cols@.map_values(|c: usize| c as int);
    assert(cs =~= station_cols(rv[a as int], rv[a as int].len() as int));
    if cols.len() == 0 {
        let mut m = to_chars(path);
        push_str(&mut m, " does not contain station-level result columns");
        return Err(error_from_chars(&m));
    }
    match first_cell_error_exec(&rows, &cols) {
        Some(e) => {
            return Err(e);
        },
        None => {},
    }
    let ghost order_spec = cs.map_values(|c: int| rv[a as int][c]);
    let ghost results_spec = cs.map_values(
        |c: int|
            (
                cell_at(rv[h as int], c),
                column_votes(rv, c, rv.len() as int),
                column_candidates(rv, c, rv.len() as int),
            ),
    );
    let mut order: Vec<String> = Vec::new();
    let mut stations: Vec<OfficialStationResult> = Vec::new();
    let mut j: usize = 0;
    while j < cols.len()
        invariant
            rv == rows_view(rows@),
            a < rows.len(),
            h < rows.len(),
            rv[a as int] == strs(rows@[a as int]@),
            rv[h as int] == strs(rows@[h as int]@),
            cs == cols@.map_values(|c: usize| c as int),
            forall|i: int| 0 <= i < cols@.len() ==> cols@[i] < rows@[a as int]@.len(),
            first_cell_error(rv, cs, 0) is None,
            order_spec == cs.map_values(|c: int| rv[a as int][c]),
            results_spec == cs.map_values(
                |c: int|
                    (
                        cell_at(rv[h as int], c),
                        column_votes(rv, c, rv.len() as int),
                        column_candidates(rv, c, rv.len() as int),
                    ),
            ),
            j <= cols.len(),
            order@.len() == j,
            stations@.len() == j,
            strs(order@) == order_spec.take(j as int),
            stations_view(stations@) == results_spec.take(j as int),
            forall|i: int| 0 <= i < j ==> (#[trigger] stations@[i]).wf(),
        decreases cols.len() - j,
    {
        let c = cols[j];
        proof {
            lemma_col_ok(rv, cs, 0, j as int);
        }
        assert(seq![cs[j as int]] == seq![c as int]);
        let code = rows[a][c].clone();
        let st = read_station_column(&rows, &rows[h], c);
        let ghost o0 = strs(order@);
        let ghost s0 = stations_view(stations@);
        order.push(code);
        stations.push(st);
        assert(strs(order@) =~= o0.push(code@));
        assert(stations_view(stations@) =~= s0.push(station_view(st)));
        assert(order_spec.take(j + 1) =~= order_spec.take(j as int).push(order_spec[j as int]));
        assert(results_spec.take(j + 1) =~= results_spec.take(j as int).push(results_spec[j as int]));
        assert(rv[a as int][c as int] == rows@[a as int]@[c as int]@);
        j = j + 1;
    }
    assert(order_spec.take(cols.len() as int) =~= order_spec);
    assert(results_spec.take(cols.len() as int) =~= results_spec);
    let ghost ov = strs(order@);
    assert(official_results_outcome(path@, content@) == match first_missing(
        order_spec,
        results_spec,
        0,
    ) {
        Some((code, m)) => Err(
            path@ + " is missing official result row(s) for station "@ + code + ": "@ + join(
                m,
                ", "@,
            ),
        ),
        None => Ok((order_spec, results_spec)),
    });
    let mut i: usize = 0;
    while i < order.len()
        invariant
            ov == strs(order@),
            ov == order_spec,
            stations_view(stations@) == results_spec,
            order@.len() == stations@.len(),
            forall|k: int| 0 <= k < stations@.len() ==> (#[trigger] stations@[k]).wf(),
            i <= order.len(),
            first_missing(order_spec, results_spec, 0) == first_missing(order_spec, results_spec, i as int),
            official_results_outcome(path@, content@) == match first_missing(
                order_spec,
                results_spec,
                0,
            ) {
                Some((code, m)) => Err(
                    path@ + " is missing official result row(s) for station "@ + code + ": "@
                        + join(m, ", "@),
                ),
                None => Ok((order_spec, results_spec)),
            },
        decreases order.len() - i,
    {
        let code = to_chars(order[i].as_str());
        assert(ov[i as int] == code@);
        proof {
            lemma_last_station(ov, code@, ov.len() as int);
        }
        let last = last_station_exec(&order, &code);
        let missing = match last {
            Some(k) => {
                assert(stations_view(stations@)[k as int] == station_view(stations@[k as int]));
                assert(results_spec[k as int].1 == stations@[k as int].values@);
                missing_ids_exec(&stations[k].values)
            },
            None => {
                let empty = VoteValues::new();
                missing_ids_exec(&empty)
            },
        };
        if missing.len() > 0 {
            assert(first_missing(order_spec, results_spec, i as int) == Some(
                (ov[i as int], seqs(missing@)),
            ));
            let mut m = to_chars(path);
            push_str(&mut m, " is missing official result row(s) for station ");
            append_chars(&mut m, &code);
            push_str(&mut m, ": ");
            let jn = join_chars(&missing, ", ");
            append_chars(&mut m, &jn);
            return Err(error_from_chars(&m));
        }
        i = i + 1;
    }
    Ok(OfficialResults { source_path: path.to_owned(), station_order: order, stations })
}

proof fn lemma_first_with_label(rows: Seq<Seq<Seq<char>>>, label: Seq<char>, k: int)
    requires
        0 <= k,
    ensures
        match first_with_label(rows, label, k) {
            Some(i) => k <= i < rows.len(),
            None => true,
        },
    decreases rows.len() - k,
{
    if k < rows.len() {
        lemma_first_with_label(rows, label, k + 1);
    }
}

} // verus!
