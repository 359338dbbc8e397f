//! Choosing which OCR images to process when the number of stations per
//! run is limited: whole stations, in the order they first appear, that
//! still have an image needing work.
use vstd::prelude::*;
use crate::text::strs;
use crate::textops::{chars_eq, to_chars};

verus! {

broadcast use vstd::string::group_string_axioms;

/// The distinct keys among the first `k`, in the order they first appear.
pub open spec fn key_order(keys: Seq<Seq<char>>, k: int) -> Seq<Seq<char>>
    decreases k,
{
    if k <= 0 {
        Seq::empty()
    } else {
        let prev = key_order(keys, k - 1);
        if prev.contains(keys[k - 1]) {
            prev
        } else {
            prev.push(keys[k - 1])
        }
    }
}

/// Some image of station `s` needs work.
pub open spec fn station_needs_work(keys: Seq<Seq<char>>, needs: Seq<bool>, s: Seq<char>) -> bool {
    exists|i: int| 0 <= i < keys.len() && keys[i] == s && #[trigger] needs[i]
}

/// The stations chosen among the first `j` of `order`: those needing work,
/// until `limit` of them are chosen (a limit of 0 chooses them all).
pub open spec fn chosen_stations(
    order: Seq<Seq<char>>,
    keys: Seq<Seq<char>>,
    needs: Seq<bool>,
    limit: nat,
    j: int,
) -> Seq<Seq<char>>
    decreases j,
{
    if j <= 0 {
        Seq::empty()
    } else {
        let prev = chosen_stations(order, keys, needs, limit, j - 1);
        if limit > 0 && prev.len() == limit {
            prev
        } else if station_needs_work(keys, needs, order[j - 1]) {
            prev.push(order[j - 1])
        } else {
            prev
        }
    }
}

/// The positions among the first `k` images whose station is `s`.
pub open spec fn images_of(keys: Seq<Seq<char>>, s: Seq<char>, k: int) -> Seq<int>
    decreases k,
{
    if k <= 0 {
        Seq::empty()
    } else if keys[k - 1] == s {
        images_of(keys, s, k - 1).push(k - 1)
    } else {
        images_of(keys, s, k - 1)
    }
}

/// The images of the chosen stations among the first `j` of `order`,
/// station by station, each station's images in their order.
pub open spec fn chosen_images(
    order: Seq<Seq<char>>,
    chosen: Seq<Seq<char>>,
    keys: Seq<Seq<char>>,
    j: int,
) -> Seq<int>
    decreases j,
{
    if j <= 0 {
        Seq::empty()
    } else if chosen.contains(order[j - 1]) {
        chosen_images(order, chosen, keys, j - 1) + images_of(keys, order[j - 1], keys.len() as int)
    } else {
        chosen_images(order, chosen, keys, j - 1)
    }
}

/// The images to process: with station keys `keys` (one per image) and
/// whether each image needs work, the images of the first `limit`
/// stations (in order of first appearance) that need work, station by
/// station; a limit of 0 takes every station that needs work.
pub open spec fn limited_images(keys: Seq<Seq<char>>, needs: Seq<bool>, limit: nat) -> Seq<int> {
    let order = key_order(keys, keys.len() as int);
    let chosen = chosen_stations(order, keys, needs, limit, order.len() as int);
    chosen_images(order, chosen, keys, order.len() as int)
}

/// Whether `v` is one of `items`.
fn holds(items: &Vec<Vec<char>>, v: &Vec<char>) -> (r: bool)
    ensures
        r == items@.map_values(|x: Vec<char>| x@).contains(v@),
{
    let ghost s = items@.map_values(|x: Vec<char>| x@);
    let mut i: usize = 0;
    while i < items.len()
        invariant
            i <= items@.len(),
            s == items@.map_values(|x: Vec<char>| x@),
            forall|j: int| 0 <= j < i ==> s[j] != v@,
        decreases items@.len() - i,
    {
        if chars_eq(&items[i], v) {
            assert(s[i as int] == v@);
            return true;
        }
        i = i + 1;
    }
    false
}

/// The images to process out of those whose station keys are `keys`,
/// given whether each needs work: the images of the first `limit`
/// stations, in order of first appearance, that have an image needing
/// work, station by station (a limit of 0 takes every such station).
pub fn select_images_of_new_stations(keys: &Vec<String>, needs_work: &Vec<bool>, limit: usize) -> (r:
    Vec<usize>)
    requires
        needs_work@.len() == keys@.len(),
    ensures
        r@.map_values(|i: usize| i as int) == limited_images(strs(keys@), needs_work@, limit as nat),
{
    let ghost ks = strs(keys@);
    let kc = crate::textops::strings_to_chars(keys);
    assert(kc@.map_values(|x: Vec<char>| x@) =~= crate::text::seqs(kc@));
    let ghost kv = kc@.map_values(|x: Vec<char>| x@);
    // The stations in order of first appearance.
    let mut order: Vec<Vec<char>> = Vec::new();
    let mut k: usize = 0;
    while k < kc.len()
        invariant
            k <= kc@.len(),
            kv == kc@.map_values(|x: Vec<char>| x@),
            order@.map_values(|x: Vec<char>| x@) == key_order(kv, k as int),
        decreases kc@.len() - k,
    {
        if !holds(&order, &kc[k]) {
            let ghost prev = order@.map_values(|x: Vec<char>| x@);
            order.push(crate::textops::copy_chars(&kc[k]));
            assert(order@.map_values(|x: Vec<char>| x@) =~= prev.push(kv[k as int]));
        }
        k = k + 1;
    }
    let ghost ov = order@.map_values(|x: Vec<char>| x@);
    // The chosen stations.
    let mut chosen: Vec<Vec<char>> = Vec::new();
    let mut j: usize = 0;
    while j < order.len()
        invariant
            j <= order@.len(),
            kv == kc@.map_values(|x: Vec<char>| x@),
            ov == order@.map_values(|x: Vec<char>| x@),
            needs_work@.len() == kv.len(),
            chosen@.map_values(|x: Vec<char>| x@) == chosen_stations(ov, kv, needs_work@, limit as nat, j as int),
        decreases order@.len() - j,
    {
        let ghost prev = chosen@.map_values(|x: Vec<char>| x@);
        if !(limit > 0 && chosen.len() == limit) {
            let mut needs = false;
            let mut m: usize = 0;
            while m < kc.len()
                invariant
                    m <= kc@.len(),
                    j < order@.len(),
                    kv == kc@.map_values(|x: Vec<char>| x@),
                    ov == order@.map_values(|x: Vec<char>| x@),
                    needs_work@.len() == kv.len(),
                    needs == exists|i: int| 0 <= i < m && kv[i] == ov[j as int] && #[trigger] needs_work@[i],
                decreases kc@.len() - m,
            {
                if needs_work[m] && chars_eq(&kc[m], &order[j]) {
                    needs = true;
                }
                m = m + 1;
            }
            assert(needs == station_needs_work(kv, needs_work@, ov[j as int]));
            if needs {
                chosen.push(crate::textops::copy_chars(&order[j]));
                assert(chosen@.map_values(|x: Vec<char>| x@) =~= prev.push(ov[j as int]));
            }
        }
        j = j + 1;
    }
    let ghost cv = chosen@.map_values(|x: Vec<char>| x@);
    // The images of the chosen stations, station by station.
    let mut out: Vec<usize> = Vec::new();
    let mut j: usize = 0;
    while j < order.len()
        invariant
            j <= order@.len(),
            kv == kc@.map_values(|x: Vec<char>| x@),
            ov == order@.map_values(|x: Vec<char>| x@),
            cv == chosen@.map_values(|x: Vec<char>| x@),
            out@.map_values(|i: usize| i as int) == chosen_images(ov, cv, kv, j as int),
        decreases order@.len() - j,
    {
        if holds(&chosen, &order[j]) {
            let ghost before = out@.map_values(|i: usize| i as int);
            let mut m: usize = 0;
            while m < kc.len()
                invariant
                    m <= kc@.len(),
                    j < order@.len(),
                    kv == kc@.map_values(|x: Vec<char>| x@),
                    ov == order@.map_values(|x: Vec<char>| x@),
                    out@.map_values(|i: usize| i as int) == before + images_of(kv, ov[j as int], m as int),
                decreases kc@.len() - m,
            {
                if chars_eq(&kc[m], &order[j]) {
                    let ghost o = out@.map_values(|i: usize| i as int);
                    out.push(m);
                    assert(out@.map_values(|i: usize| i as int) =~= o.push(m as int));
                }
                m = m + 1;
            }
        }
        j = j + 1;
    }
    assert(kv == ks);
    out
}

/// The first image at or after `m` of station `s` whose need of work is
/// not known to be false: the next image of the station to look at.
pub open spec fn first_unsettled(keys: Seq<Seq<char>>, known: Seq<Option<bool>>, s: Seq<char>, m: int) -> Option<int>
    decreases keys.len() - m,
{
    if m < 0 || m >= keys.len() {
        None
    } else if keys[m] == s && known[m] != Some(false) {
        Some(m)
    } else {
        first_unsettled(keys, known, s, m + 1)
    }
}

/// Which image the choice of stations looks at next, going through the
/// stations of `order` from the `j`-th with `count` already chosen: stop
/// once `limit` stations are chosen (a limit of 0 never stops); in each
/// station, go through its images until one is known to need work (the
/// station is chosen) or one is not known yet (it is the next to look at).
pub open spec fn next_check_from(
    order: Seq<Seq<char>>,
    keys: Seq<Seq<char>>,
    known: Seq<Option<bool>>,
    limit: nat,
    j: int,
    count: nat,
) -> Option<int>
    decreases order.len() - j,
{
    if j < 0 || j >= order.len() || (limit > 0 && count == limit) {
        None
    } else {
        match first_unsettled(keys, known, order[j], 0) {
            None => next_check_from(order, keys, known, limit, j + 1, count),
            Some(i) => if known[i] is None {
                Some(i)
            } else {
                next_check_from(order, keys, known, limit, j + 1, count + 1)
            },
        }
    }
}

/// The image whose need of work the choice of stations looks at next,
/// given what is known so far (`None` when nothing more is needed): the
/// stations in order of first appearance, each image of a station in its
/// order until one needs work, until `limit` stations need work.
pub open spec fn next_check(keys: Seq<Seq<char>>, known: Seq<Option<bool>>, limit: nat) -> Option<int> {
    next_check_from(key_order(keys, keys.len() as int), keys, known, limit, 0, 0)
}

/// The image whose need of work choosing `limit` stations needs next, given
/// what is known of each image so far (`known`, one per image); `None`
/// when the choice is settled, and `select_images_of_new_stations` can
/// take the images known to need work.
pub fn next_image_to_check(keys: &Vec<String>, known: &Vec<Option<bool>>, limit: usize) -> (r: Option<
    usize,
>)
    requires
        known@.len() == keys@.len(),
    ensures
        match next_check(strs(keys@), known@, limit as nat) {
            Some(i) => r == Some(i as usize),
            None => r is None,
        },
{
    let ghost ks = strs(keys@);
    let kc = crate::textops::strings_to_chars(keys);
    assert(kc@.map_values(|x: Vec<char>| x@) =~= crate::text::seqs(kc@));
    let ghost kv = kc@.map_values(|x: Vec<char>| x@);
    let mut order: Vec<Vec<char>> = Vec::new();
    let mut k: usize = 0;
    while k < kc.len()
        invariant
            k <= kc@.len(),
            kv == kc@.map_values(|x: Vec<char>| x@),
            order@.map_values(|x: Vec<char>| x@) == key_order(kv, k as int),
        decreases kc@.len() - k,
    {
        if !holds(&order, &kc[k]) {
            let ghost prev = order@.map_values(|x: Vec<char>| x@);
            order.push(crate::textops::copy_chars(&kc[k]));
            assert(order@.map_values(|x: Vec<char>| x@) =~= prev.push(kv[k as int]));
        }
        k = k + 1;
    }
    assert(kv == ks);
    let ghost ov = order@.map_values(|x: Vec<char>| x@);
    let mut count: usize = 0;
    let mut j: usize = 0;
    while j < order.len()
        invariant
            j <= order@.len(),
            count <= j,
            kv == strs(keys@),
            kv == kc@.map_values(|x: Vec<char>| x@),
            ov == order@.map_values(|x: Vec<char>| x@),
            kv.len() == known@.len(),
            next_check(kv, known@, limit as nat) == next_check_from(
                ov,
                kv,
                known@,
                limit as nat,
                j as int,
                count as nat,
            ),
        decreases order@.len() - j,
    {
        if limit > 0 && count == limit {
            return None;
        }
        let mut m: usize = 0;
        let mut found: Option<usize> = None;
        while m < kc.len()
            invariant
                m <= kc@.len(),
                j < order@.len(),
                kv == kc@.map_values(|x: Vec<char>| x@),
                ov == order@.map_values(|x: Vec<char>| x@),
                kv.len() == known@.len(),
                found is None ==> first_unsettled(kv, known@, ov[j as int], 0) == first_unsettled(
                    kv,
                    known@,
                    ov[j as int],
                    m as int,
                ),
                found matches Some(f) ==> first_unsettled(kv, known@, ov[j as int], 0) == Some(
                    f as int,
                ) && f < kv.len(),
            decreases kc@.len() - m,
        {
            if found.is_none() && chars_eq(&kc[m], &order[j]) && !matches!(known[m], Some(false)) {
                found = Some(m);
            }
            m = m + 1;
        }
        match found {
            None => {},
            Some(f) => {
                if known[f].is_none() {
                    return Some(f);
                }
                count = count + 1;
            },
        }
        j = j + 1;
    }
    None
}

/// The images known to need work, as needs: an image not known yet counts
/// as not needing work.
pub open spec fn known_needs(known: Seq<Option<bool>>) -> Seq<bool> {
    Seq::new(known.len(), |i: int| known[i] == Some(true))
}

proof fn lemma_first_unsettled(keys: Seq<Seq<char>>, known: Seq<Option<bool>>, s: Seq<char>, m: int)
    requires
        0 <= m,
    ensures
        match first_unsettled(keys, known, s, m) {
            None => forall|i: int| m <= i < keys.len() && keys[i] == s ==> known[i] == Some(false),
            Some(i) => m <= i < keys.len() && keys[i] == s && known[i] != Some(false),
        },
    decreases keys.len() - m,
{
    if m < keys.len() {
        lemma_first_unsettled(keys, known, s, m + 1);
    }
}

proof fn lemma_chosen_full(order: Seq<Seq<char>>, keys: Seq<Seq<char>>, needs: Seq<bool>, limit: nat, j: int, n: int)
    requires
        limit > 0,
        0 <= j <= n,
        chosen_stations(order, keys, needs, limit, j).len() == limit,
    ensures
        chosen_stations(order, keys, needs, limit, n) == chosen_stations(order, keys, needs, limit, j),
    decreases n - j,
{
    if j < n {
        lemma_chosen_full(order, keys, needs, limit, j, n - 1);
    }
}

proof fn lemma_settled_choice(
    order: Seq<Seq<char>>,
    keys: Seq<Seq<char>>,
    known: Seq<Option<bool>>,
    needs: Seq<bool>,
    limit: nat,
    j: int,
    count: nat,
)
    requires
        0 <= j <= order.len(),
        known.len() == keys.len(),
        needs.len() == keys.len(),
        forall|i: int| 0 <= i < known.len() && known[i] is Some ==> needs[i] == known[i]->0,
        next_check_from(order, keys, known, limit, j, count) is None,
        chosen_stations(order, keys, known_needs(known), limit, j) == chosen_stations(
            order,
            keys,
            needs,
            limit,
            j,
        ),
        count == chosen_stations(order, keys, needs, limit, j).len(),
    ensures
        chosen_stations(order, keys, known_needs(known), limit, order.len() as int)
            == chosen_stations(order, keys, needs, limit, order.len() as int),
    decreases order.len() - j,
{
    let kb = known_needs(known);
    let n = order.len() as int;
    if j < n {
        if limit > 0 && count == limit {
            lemma_chosen_full(order, keys, kb, limit, j, n);
            lemma_chosen_full(order, keys, needs, limit, j, n);
        } else {
            let s = order[j];
            lemma_first_unsettled(keys, known, s, 0);
            match first_unsettled(keys, known, s, 0) {
                None => {
                    assert(!station_needs_work(keys, kb, s));
                    assert(!station_needs_work(keys, needs, s));
                    lemma_settled_choice(order, keys, known, needs, limit, j + 1, count);
                },
                Some(i) => {
                    assert(known[i] is Some);
                    assert(known[i] == Some(true));
                    assert(needs[i]);
                    assert(kb[i]);
                    assert(station_needs_work(keys, kb, s));
                    assert(station_needs_work(keys, needs, s));
                    lemma_settled_choice(order, keys, known, needs, limit, j + 1, count + 1);
                },
            }
        }
    }
}

/// Once `next_image_to_check` has nothing more to look at, the choice is
/// settled: choosing with the images known to need work gives what
/// choosing with the full knowledge of every image's need would give.
pub proof fn law_settled_choice_is_final(
    keys: Seq<Seq<char>>,
    known: Seq<Option<bool>>,
    needs: Seq<bool>,
    limit: nat,
)
    requires
        known.len() == keys.len(),
        needs.len() == keys.len(),
        forall|i: int| 0 <= i < known.len() && known[i] is Some ==> needs[i] == known[i]->0,
        next_check(keys, known, limit) is None,
    ensures
        limited_images(keys, known_needs(known), limit) == limited_images(keys, needs, limit),
{
    let order = key_order(keys, keys.len() as int);
    lemma_settled_choice(order, keys, known, needs, limit, 0, 0);
}

} // verus!
