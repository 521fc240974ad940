//! Card positions: the numbers in each card's frontmatter that order the cards of a
//! list, given when a list is read, when a card is added and when a card is moved.
use vstd::prelude::*;

use crate::card::{markdown_with_missing_metadata_at, spec_markdown_with_missing_metadata, Card};
use crate::card::current_timestamp;
use crate::filesystem::{apply_order, lowercase_keys, lowercase_order, strings_view, POSITION_STEP};
use crate::sorting::{is_sort_order, lemma_sort_order_distinct, permute};

verus! {

/// `x` as an `i64`, when it is one.
pub open spec fn fit_i64(x: int) -> Option<i64> {
    if i64::MIN <= x <= i64::MAX {
        Some(x as i64)
    } else {
        None
    }
}

/// `s / 2` rounded toward zero, as integer division does.
pub open spec fn half_toward_zero(s: int) -> int {
    if s >= 0 {
        s / 2
    } else {
        -((-s) / 2)
    }
}

/// The positions of `cards`, in order.
pub open spec fn card_positions(cards: Seq<Card>) -> Seq<i64> {
    Seq::new(cards.len(), |i: int| cards[i].position)
}

/// The position for a card put at index `target` (at most the length) among cards
/// whose positions, in display order, are `ps`: one step before the first, one step
/// after the last, the middle of its two neighbours, or one past the one before it
/// when they are adjacent. `None` where that arithmetic leaves the `i64` range.
pub open spec fn insert_position(ps: Seq<i64>, target: int) -> Option<i64> {
    let t = if target < ps.len() {
        target
    } else {
        ps.len() as int
    };
    let step = POSITION_STEP as int;
    if t == 0 {
        if ps.len() == 0 {
            Some(POSITION_STEP)
        } else {
            fit_i64(ps[0] - step)
        }
    } else if t == ps.len() {
        fit_i64(ps[t - 1] + step)
    } else {
        let before = ps[t - 1] as int;
        let after = ps[t] as int;
        if fit_i64(after - before) is None {
            None
        } else if after - before > 1 {
            if fit_i64(before + after) is None {
                None
            } else {
                Some(half_toward_zero(before + after) as i64)
            }
        } else {
            fit_i64(before + 1)
        }
    }
}

fn checked_i64(x: i128) -> (r: Option<i64>)
    ensures
        r == fit_i64(x as int),
{
    if x < -9223372036854775808i128 || x > 9223372036854775807i128 {
        None
    } else {
        Some(x as i64)
    }
}

/// The position for a card moved to index `target_index` of a list whose other cards
/// are `cards`, in display order (see `insert_position`); an index past the end
/// means the end.
pub fn position_for_insert(cards: &Vec<Card>, target_index: usize) -> (r: Option<i64>)
    ensures
        r == insert_position(card_positions(cards@), target_index as int),
{
    let ghost ps = card_positions(cards@);
    let n = cards.len();
    let t = if target_index < n {
        target_index
    } else {
        n
    };
    if t == 0 {
        if n == 0 {
            return Some(POSITION_STEP);
        }
        assert(ps[0] == cards@[0].position);
        return checked_i64(cards[0].position as i128 - 1000);
    }
    let before = cards[t - 1].position as i128;
    assert(ps[t - 1] == cards@[t - 1].position);
    if t == n {
        return checked_i64(before + 1000);
    }
    let after = cards[t].position as i128;
    assert(ps[t as int] == cards@[t as int].position);
    let gap = after - before;
    if checked_i64(gap).is_none() {
        return None;
    }
    if gap > 1 {
        let s = before + after;
        if checked_i64(s).is_none() {
            return None;
        }
        let h: i128 = if s >= 0 {
            s / 2
        } else {
            -((-s) / 2)
        };
        Some(h as i64)
    } else {
        checked_i64(before + 1)
    }
}

/// The largest of the positions `ps` that are recorded (not `i64::MAX`), and at
/// least 0.
pub open spec fn max_recorded(ps: Seq<i64>) -> int
    decreases ps.len(),
{
    if ps.len() == 0 {
        0
    } else {
        let m = max_recorded(ps.drop_last());
        let p = ps.last();
        if p != i64::MAX && p > m {
            p as int
        } else {
            m
        }
    }
}

proof fn lemma_max_recorded_bounds(ps: Seq<i64>)
    ensures
        0 <= max_recorded(ps) < i64::MAX,
    decreases ps.len(),
{
    if ps.len() > 0 {
        lemma_max_recorded_bounds(ps.drop_last());
    }
}

/// The position for a card added at the end of a list holding `cards`: one step past
/// the largest recorded position (or past 0). `None` where that is past `i64::MAX`.
pub fn next_card_position(cards: &Vec<Card>) -> (r: Option<i64>)
    ensures
        r == fit_i64(max_recorded(card_positions(cards@)) + POSITION_STEP),
{
    let ghost ps = card_positions(cards@);
    let mut max: i64 = 0;
    let mut i: usize = 0;
    while i < cards.len()
        invariant
            i <= cards@.len(),
            ps == card_positions(cards@),
            max == max_recorded(ps.take(i as int)),
        decreases cards.len() - i,
    {
        let p = cards[i].position;
        assert(ps.take(i + 1).drop_last() =~= ps.take(i as int));
        if p != i64::MAX && p > max {
            max = p;
        }
        i += 1;
    }
    assert(ps.take(i as int) =~= ps);
    proof {
        lemma_max_recorded_bounds(ps);
    }
    if max > i64::MAX - POSITION_STEP {
        None
    } else {
        Some(max + POSITION_STEP)
    }
}

/// A card file read from a list directory.
pub struct CardFile {
    pub filename: String,
    pub path: String,
    pub content: String,
}

/// The file names of `files`.
pub open spec fn file_names(files: Seq<CardFile>) -> Seq<Seq<char>> {
    Seq::new(files.len(), |i: int| files[i].filename@)
}

/// Whether `r` is what reading a list's card files `files` at the time `now` gives:
/// the files in the order of their lowercase names, the `k`-th given the missing
/// frontmatter fields with position `(k + 1) * 1000`, each paired with whether its
/// text changed (and so must be written back).
pub open spec fn is_prepared(r: Seq<(CardFile, bool)>, files: Seq<CardFile>, now: u64) -> bool {
    exists|order: Seq<usize>|
        {
            &&& #[trigger] is_sort_order(order, lowercase_keys(file_names(files)))
            &&& r.len() == files.len()
            &&& forall|k: int|
                0 <= k < r.len() ==> {
                    let f = #[trigger] apply_order(order, files)[k];
                    let c = spec_markdown_with_missing_metadata(
                        f.content@,
                        ((k + 1) * POSITION_STEP) as i64,
                        now,
                    );
                    &&& r[k].0.filename == f.filename
                    &&& r[k].0.path == f.path
                    &&& r[k].0.content@ == c
                    &&& r[k].1 == (c != f.content@)
                }
        }
}

/// The card files of a list as `load` leaves them at the time `now` (see
/// `is_prepared`).
pub fn cards_with_metadata_at(files: Vec<CardFile>, now: u64) -> (r: Vec<(CardFile, bool)>)
    requires
        files@.len() * POSITION_STEP <= i64::MAX,
    ensures
        is_prepared(r@, files@, now),
{
    let ghost fv = files@;
    let mut names: Vec<String> = Vec::new();
    let mut i: usize = 0;
    while i < files.len()
        invariant
            i <= files@.len(),
            fv == files@,
            names@.len() == i,
            strings_view(names@) == file_names(fv).take(i as int),
        decreases files.len() - i,
    {
        let ghost before = names@;
        names.push(files[i].filename.clone());
        assert forall|t: int| 0 <= t < i + 1 implies strings_view(names@)[t] == file_names(
            fv,
        ).take(i + 1)[t] by {
            if t < i {
                assert(names@[t] == before[t]);
                assert(strings_view(before)[t] == file_names(fv).take(i as int)[t]);
            }
        }
        assert(strings_view(names@) =~= file_names(fv).take(i + 1));
        i += 1;
    }
    assert(file_names(fv).take(i as int) =~= file_names(fv));
    let order = lowercase_order(&names);
    proof {
        lemma_sort_order_distinct(order@, lowercase_keys(file_names(fv)));
    }
    let sorted = permute(files, &order);
    assert(sorted@ == apply_order(order@, fv));
    let n = sorted.len();
    let mut r: Vec<(CardFile, bool)> = Vec::new();
    let mut k: usize = 0;
    while k < n
        invariant
            k <= n,
            n == sorted@.len(),
            n == fv.len(),
            n * POSITION_STEP <= i64::MAX,
            sorted@ == apply_order(order@, fv),
            r@.len() == k,
            forall|j: int|
                0 <= j < k ==> {
                    let f = #[trigger] apply_order(order@, fv)[j];
                    let c = spec_markdown_with_missing_metadata(
                        f.content@,
                        ((j + 1) * POSITION_STEP) as i64,
                        now,
                    );
                    &&& r@[j].0.filename == f.filename
                    &&& r@[j].0.path == f.path
                    &&& r@[j].0.content@ == c
                    &&& r@[j].1 == (c != f.content@)
                },
        decreases n - k,
    {
        assert((k + 1) * POSITION_STEP <= n * POSITION_STEP) by (nonlinear_arith)
            requires
                k < n,
                POSITION_STEP == 1000,
        ;
        let position: i64 = (k as i64 + 1) * POSITION_STEP;
        let f = &sorted[k];
        let content = markdown_with_missing_metadata_at(f.content.as_str(), position, now);
        let changed = content != f.content;
        let file = CardFile { filename: f.filename.clone(), path: f.path.clone(), content };
        r.push((file, changed));
        k += 1;
    }
    r
}

/// The card files of a list as `load` leaves them, stamped with the current time (see
/// `cards_with_metadata_at`).
pub fn cards_with_metadata(files: Vec<CardFile>) -> (r: Vec<(CardFile, bool)>)
    requires
        files@.len() * POSITION_STEP <= i64::MAX,
    ensures
        exists|now: u64| is_prepared(r@, files@, now),
{
    let now = current_timestamp();
    cards_with_metadata_at(files, now)
}

} // verus!
