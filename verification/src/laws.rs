//! Laws of the library: what reading gives back of what was written, and what the
//! placement of cards and columns keeps.
use vstd::prelude::*;

use crate::card::{
    color_from, ensure_field, fence, field_line, frontmatter_block, frontmatter_end,
    fence_from, is_fence, key_color, key_created_at, key_from, key_position, key_updated_at,
    line_has_key, normalize_body, normalized_lines, position_from, quoted, spec_color_from_markdown,
    spec_markdown_with_color, spec_markdown_with_position, spec_position_from_markdown, unquoted,
    upsert_field,
};
use crate::text::{
    crlf_to_lf, decimal_int, eq_ignore_ascii_case, is_ascii_alnum, lowercase_chars, decimal_nat, is_digit, is_white, lines_of, starts_with, strip_cr, trim, trim_end, trim_start,
};
use crate::app::{clamped, resized, wrapped, App};
use crate::card::{slug_state, spec_slug_from_title, trim_dash_end, trim_dash_start, untitled, Card};
use crate::filesystem::{apply_order, moved_entry, renumbered, card_keys, POSITION_STEP,
    all_lists, list_entries, list_entry, parse_lines, parse_start, parse_step, spec_parse_board_metadata,
    spec_render_board_metadata, value_after, BoardMetaView, ListMetaView, ParseState,
};
use crate::keys::{key_handled, typed, Action, Key, KeyCode};
use crate::layout::{spec_board_content_layout, Rect};
use crate::mode::{Mode, Screen};
use crate::positions::{card_positions, fit_i64, half_toward_zero, insert_position, max_recorded};
use crate::sorting::{entry_lt, is_sort_order};
use crate::tui::spec_visible_list_window;
use crate::text_lemmas::{
    lemma_decimal_ends, lemma_decimal_nat, lemma_lines_after_join, lemma_lines_after_line,
    lemma_lines_no_newline, lemma_parse_decimal, lemma_trim_start_space, lemma_trim_strip_cr,
    lemma_trim_unchanged, no_newline, strip_crs,
};

verus! {

// ---------------------------------------------------------------------------
// Lines of a frontmatter block
// ---------------------------------------------------------------------------

/// The lines of a frontmatter block followed by `rest` are the fence, the block's lines
/// (without final `'\r'`s), the fence, then the lines of `rest`.
pub(crate) proof fn lemma_block_lines(fm: Seq<Seq<char>>, rest: Seq<char>)
    requires
        fm.len() >= 1,
        forall|i: int| 0 <= i < fm.len() ==> no_newline(#[trigger] fm[i]),
    ensures
        lines_of(frontmatter_block(fm) + rest) == seq![fence()] + strip_crs(fm) + seq![fence()]
            + lines_of(rest),
{
    let tail = fence() + seq!['\n'] + rest;
    let mid = crate::text::join_lines(fm) + seq!['\n'] + tail;
    assert(frontmatter_block(fm) + rest =~= fence() + seq!['\n'] + mid);
    assert(no_newline(fence()));
    lemma_lines_after_line(fence(), mid);
    lemma_lines_after_join(fm, tail);
    lemma_lines_after_line(fence(), rest);
    assert(strip_cr(fence()) == fence());
    assert(seq![fence()] + (strip_crs(fm) + (seq![fence()] + lines_of(rest))) =~= seq![fence()]
        + strip_crs(fm) + seq![fence()] + lines_of(rest));
}

// ---------------------------------------------------------------------------
// Keys of frontmatter lines
// ---------------------------------------------------------------------------

/// `trim_end(t)` is a prefix of `t` that drops only whitespace.
pub(crate) proof fn lemma_trim_end_prefix(t: Seq<char>)
    ensures
        trim_end(t).len() <= t.len(),
        trim_end(t) == t.take(trim_end(t).len() as int),
        forall|j: int| trim_end(t).len() <= j < t.len() ==> is_white(#[trigger] t[j]),
    decreases t.len(),
{
    if t.len() > 0 && is_white(t.last()) {
        lemma_trim_end_prefix(t.drop_last());
        assert(t.drop_last().take(trim_end(t).len() as int) =~= t.take(trim_end(t).len() as int));
        assert forall|j: int| trim_end(t).len() <= j < t.len() implies is_white(#[trigger] t[j]) by {
            if j < t.len() - 1 {
                assert(t[j] == t.drop_last()[j]);
            }
        }
    } else {
        assert(t.take(t.len() as int) =~= t);
    }
}

/// For a key ending in a character that is not whitespace, a trimmed line starts with
/// it exactly when the line trimmed at the start does.
pub(crate) proof fn lemma_key_trim(l: Seq<char>, p: Seq<char>)
    requires
        p.len() > 0,
        !is_white(p.last()),
    ensures
        starts_with(trim(l), p) == starts_with(trim_start(l), p),
{
    let t = trim_start(l);
    lemma_trim_end_prefix(t);
    let m = trim_end(t).len() as int;
    if starts_with(t, p) {
        assert(t[p.len() - 1] == p.last());
        if m < p.len() {
            assert(is_white(t[p.len() - 1]));
        }
        assert(trim_end(t).take(p.len() as int) =~= t.take(p.len() as int));
    }
    if starts_with(trim_end(t), p) {
        assert(t.take(p.len() as int) =~= trim_end(t).take(p.len() as int));
    }
}

/// The first line from `k` on that sets `key`: the lines between do not.
pub(crate) proof fn lemma_key_from(fm: Seq<Seq<char>>, key: Seq<char>, k: int)
    requires
        0 <= k,
    ensures
        key_from(fm, key, k) matches Some(i) ==> k <= i < fm.len() && line_has_key(fm[i], key)
            && forall|t: int| k <= t < i ==> !line_has_key(#[trigger] fm[t], key),
        key_from(fm, key, k) is None ==> forall|t: int|
            k <= t < fm.len() ==> !line_has_key(#[trigger] fm[t], key),
    decreases fm.len() - k,
{
    if k < fm.len() && !line_has_key(fm[k], key) {
        lemma_key_from(fm, key, k + 1);
    }
}

/// Where `key` is in `fm`: at index `j`, set to `value`, with no line before it a fence
/// or setting `key`.
pub open spec fn field_first_at(fm: Seq<Seq<char>>, key: Seq<char>, value: Seq<char>, j: int) -> bool {
    &&& 0 <= j < fm.len()
    &&& fm[j] == field_line(key, value)
    &&& forall|t: int| 0 <= t < j ==> !is_fence(#[trigger] fm[t]) && !line_has_key(fm[t], key)
}

/// Setting `key` in a block without fences puts it first among the lines that set it.
pub(crate) proof fn lemma_upsert_first(fm: Seq<Seq<char>>, key: Seq<char>, value: Seq<char>) -> (j: int)
    requires
        forall|t: int| 0 <= t < fm.len() ==> !is_fence(#[trigger] fm[t]),
    ensures
        field_first_at(upsert_field(fm, key, value), key, value, j),
{
    lemma_key_from(fm, key, 0);
    let r = upsert_field(fm, key, value);
    match key_from(fm, key, 0) {
        Some(i) => {
            assert forall|t: int| 0 <= t < i implies !is_fence(#[trigger] r[t]) && !line_has_key(
                r[t],
                key,
            ) by {
                assert(r[t] == fm[t]);
            }
            i
        },
        None => {
            assert forall|t: int| 0 <= t < fm.len() implies !is_fence(#[trigger] r[t])
                && !line_has_key(r[t], key) by {
                assert(r[t] == fm[t]);
            }
            fm.len() as int
        },
    }
}

/// Adding or setting another key keeps `key` first where it was.
pub(crate) proof fn lemma_other_key_keeps(
    fm: Seq<Seq<char>>,
    key: Seq<char>,
    value: Seq<char>,
    j: int,
    other: Seq<char>,
    v2: Seq<char>,
)
    requires
        field_first_at(fm, key, value, j),
        !line_has_key(field_line(key, value), other),
        !is_fence(field_line(other, v2)),
        !line_has_key(field_line(other, v2), key),
    ensures
        field_first_at(upsert_field(fm, other, v2), key, value, j),
        field_first_at(ensure_field(fm, other, v2), key, value, j),
{
    lemma_key_from(fm, other, 0);
    let r = upsert_field(fm, other, v2);
    match key_from(fm, other, 0) {
        Some(i) => {
            assert(i != j);
            assert forall|t: int| 0 <= t < j implies !is_fence(#[trigger] r[t]) && !line_has_key(
                r[t],
                key,
            ) by {
                if t != i {
                    assert(r[t] == fm[t]);
                }
            }
        },
        None => {
            assert forall|t: int| 0 <= t < j implies !is_fence(#[trigger] r[t]) && !line_has_key(
                r[t],
                key,
            ) by {
                assert(r[t] == fm[t]);
            }
        },
    }
    let e = ensure_field(fm, other, v2);
    assert forall|t: int| 0 <= t < j implies !is_fence(#[trigger] e[t]) && !line_has_key(e[t], key) by {
        assert(e[t] == fm[t]);
    }
}

/// The lines of a frontmatter block read from a text: none is a fence, and none holds
/// a newline.
pub(crate) proof fn lemma_block_of_text(content: Seq<char>, end: int)
    requires
        frontmatter_end(normalized_lines(content)) == Some(end),
    ensures
        1 <= end < normalized_lines(content).len(),
        forall|t: int|
            0 <= t < normalized_lines(content).subrange(1, end).len() ==> !is_fence(
                #[trigger] normalized_lines(content).subrange(1, end)[t],
            ),
        forall|t: int|
            0 <= t < normalized_lines(content).subrange(1, end).len() ==> no_newline(
                #[trigger] normalized_lines(content).subrange(1, end)[t],
            ),
{
    let ls = normalized_lines(content);
    lemma_fence_from_first(ls, 1);
    lemma_lines_no_newline(crlf_to_lf(content));
    let fm = ls.subrange(1, end);
    assert forall|t: int| 0 <= t < fm.len() implies no_newline(#[trigger] fm[t]) by {
        assert(fm[t] == ls[t + 1]);
    }
    assert forall|t: int| 0 <= t < fm.len() implies !is_fence(#[trigger] fm[t]) by {
        assert(fm[t] == ls[t + 1]);
    }
}

/// The first fence from `k` on: the lines between are not fences.
pub(crate) proof fn lemma_fence_from_first(ls: Seq<Seq<char>>, k: int)
    requires
        0 <= k,
    ensures
        fence_from(ls, k) matches Some(i) ==> k <= i < ls.len() && forall|t: int|
            k <= t < i ==> !is_fence(#[trigger] ls[t]),
    decreases ls.len() - k,
{
    if k < ls.len() && !is_fence(ls[k]) {
        lemma_fence_from_first(ls, k + 1);
    }
}

// ---------------------------------------------------------------------------
// Field lines
// ---------------------------------------------------------------------------

/// A field line with a value that does not end in whitespace: its own trim, and its
/// key then `": "`.
proof fn lemma_field_line_shape(key: Seq<char>, value: Seq<char>)
    requires
        key.len() > 0,
        !is_white(key[0]),
        value.len() > 0,
        !is_white(value.last()),
    ensures
        trim(field_line(key, value)) == field_line(key, value),
        trim_start(field_line(key, value)) == field_line(key, value),
        field_line(key, value).skip(key.len() + 1int) == seq![' '] + value,
{
    let l = field_line(key, value);
    assert(l[0] == key[0]);
    assert(l.last() == value.last());
    lemma_trim_unchanged(l);
    assert(l.skip(key.len() + 1int) =~= seq![' '] + value);
}

/// The value after `": "`, trimmed: the value, when it has no whitespace at its ends.
proof fn lemma_value_trim(value: Seq<char>)
    requires
        value.len() > 0,
        !is_white(value[0]),
        !is_white(value.last()),
    ensures
        trim(seq![' '] + value) == value,
{
    lemma_trim_start_space(value);
    lemma_trim_unchanged(value);
}

/// The lines `ls` from `1 + k` on, up to a fence after the block `fm`, give the same
/// position as the block from `k` on.
pub(crate) proof fn lemma_position_scan(ls: Seq<Seq<char>>, fm: Seq<Seq<char>>, k: int)
    requires
        0 <= k <= fm.len(),
        ls.len() > fm.len() + 1,
        forall|i: int| 0 <= i < fm.len() ==> #[trigger] ls[i + 1] == strip_cr(fm[i]),
        is_fence(ls[fm.len() + 1int]),
    ensures
        position_from(ls, 1 + k) == position_from(fm, k),
    decreases fm.len() - k,
{
    if k < fm.len() {
        assert(ls[k + 1] == strip_cr(fm[k]));
        lemma_trim_strip_cr(fm[k]);
        lemma_position_scan(ls, fm, k + 1);
    }
}

/// The lines `ls` from `1 + k` on, up to a fence after the block `fm`, give the same
/// color as the block from `k` on.
proof fn lemma_color_scan(ls: Seq<Seq<char>>, fm: Seq<Seq<char>>, k: int)
    requires
        0 <= k <= fm.len(),
        ls.len() > fm.len() + 1,
        forall|i: int| 0 <= i < fm.len() ==> #[trigger] ls[i + 1] == strip_cr(fm[i]),
        is_fence(ls[fm.len() + 1int]),
    ensures
        color_from(ls, 1 + k) == color_from(fm, k),
    decreases fm.len() - k,
{
    if k < fm.len() {
        assert(ls[k + 1] == strip_cr(fm[k]));
        lemma_trim_strip_cr(fm[k]);
        lemma_color_scan(ls, fm, k + 1);
    }
}

/// With `position` set first at `j`, the block gives that line's value.
pub(crate) proof fn lemma_position_at(fm: Seq<Seq<char>>, p: i64, j: int, k: int)
    requires
        0 <= k <= j,
        field_first_at(fm, key_position(), decimal_int(p as int), j),
    ensures
        position_from(fm, k) == Some(p),
    decreases j - k,
{
    lemma_key_trim(fm[k], key_position().push(':'));
    if k < j {
        lemma_position_at(fm, p, j, k + 1);
    } else {
        lemma_decimal_ends(p as int);
        lemma_field_line_shape(key_position(), decimal_int(p as int));
        lemma_value_trim(decimal_int(p as int));
        lemma_parse_decimal(p);
        assert(key_position().push(':').len() == 9);
        assert(fm[j].take(9) =~= key_position().push(':'));
        assert(line_has_key(fm[j], key_position()));
    }
}

/// With `color` set first at `j`, the block gives that line's value.
proof fn lemma_color_at(fm: Seq<Seq<char>>, v: Seq<char>, j: int, k: int)
    requires
        0 <= k <= j,
        field_first_at(fm, key_color(), quoted(v), j),
    ensures
        color_from(fm, k) == (if v.len() > 0 {
            Some(v)
        } else {
            None
        }),
    decreases j - k,
{
    lemma_key_trim(fm[k], key_color().push(':'));
    if k < j {
        lemma_color_at(fm, v, j, k + 1);
    } else {
        let q = quoted(v);
        assert(q[0] == '"' && q.last() == '"');
        lemma_field_line_shape(key_color(), q);
        lemma_value_trim(q);
        assert(key_color().push(':').len() == 6);
        assert(fm[j].take(6) =~= key_color().push(':'));
        assert(line_has_key(fm[j], key_color()));
        assert(q.subrange(1, q.len() - 1) =~= v);
        assert(unquoted(q) == v);
    }
}

/// A field line of `key` is its own start-trim.
pub(crate) proof fn lemma_field_trim_start(key: Seq<char>, value: Seq<char>)
    requires
        key.len() > 0,
        !is_white(key[0]),
    ensures
        trim_start(field_line(key, value)) == field_line(key, value),
{
    assert(field_line(key, value)[0] == key[0]);
}

/// A line set to the time `now` is no fence and holds no newline.
pub(crate) proof fn lemma_stamp_line(stamp_key: Seq<char>, now: u64)
    requires
        stamp_key == key_created_at() || stamp_key == key_updated_at(),
    ensures
        !is_fence(field_line(stamp_key, decimal_nat(now as nat))),
        no_newline(field_line(stamp_key, decimal_nat(now as nat))),
{
    let s = decimal_nat(now as nat);
    lemma_decimal_nat(now as nat);
    assert(is_digit(s[s.len() - 1]));
    let c = field_line(stamp_key, s);
    assert(c[0] == stamp_key[0]);
    assert(c.last() == s.last());
    lemma_trim_unchanged(c);
    assert(c[0] != fence()[0]);
    assert forall|i: int| 0 <= i < c.len() implies c[i] != '\n' by {
        if i >= stamp_key.len() + 2 {
            assert(c[i] == s[i - stamp_key.len() - 2]);
            assert(is_digit(s[i - stamp_key.len() - 2]));
        } else if i >= stamp_key.len() {
        } else {
            assert(c[i] == stamp_key[i]);
        }
    }
}

/// A line of one of the keys does not set another key whose text differs within the
/// first `n` characters of both.
pub(crate) proof fn lemma_other_key(key: Seq<char>, value: Seq<char>, other: Seq<char>, n: int)
    requires
        key.len() > 0,
        !is_white(key[0]),
        0 <= n < key.len(),
        n < other.len(),
        key[n] != other[n],
    ensures
        !line_has_key(field_line(key, value), other),
{
    lemma_field_trim_start(key, value);
    let l = field_line(key, value);
    assert(l[n] == key[n]);
    if starts_with(l, other.push(':')) {
        assert(l.take(other.len() + 1int)[n] == other.push(':')[n]);
    }
}

/// A field line of a key and a value without newlines holds none.
pub(crate) proof fn lemma_field_no_newline(key: Seq<char>, value: Seq<char>)
    requires
        no_newline(key),
        no_newline(value),
    ensures
        no_newline(field_line(key, value)),
{
    let l = field_line(key, value);
    assert forall|i: int| 0 <= i < l.len() implies l[i] != '\n' by {
        if i < key.len() {
            assert(l[i] == key[i]);
        } else if i >= key.len() + 2 {
            assert(l[i] == value[i - key.len() - 2]);
        }
    }
}

/// Setting or adding a line without newlines keeps a block free of them.
pub(crate) proof fn lemma_edit_no_newline(fm: Seq<Seq<char>>, key: Seq<char>, value: Seq<char>)
    requires
        forall|t: int| 0 <= t < fm.len() ==> no_newline(#[trigger] fm[t]),
        no_newline(field_line(key, value)),
    ensures
        forall|t: int|
            0 <= t < upsert_field(fm, key, value).len() ==> no_newline(
                #[trigger] upsert_field(fm, key, value)[t],
            ),
        forall|t: int|
            0 <= t < ensure_field(fm, key, value).len() ==> no_newline(
                #[trigger] ensure_field(fm, key, value)[t],
            ),
{
    let u = upsert_field(fm, key, value);
    lemma_key_from(fm, key, 0);
    match key_from(fm, key, 0) {
        Some(i) => {
            assert forall|t: int| 0 <= t < u.len() implies no_newline(#[trigger] u[t]) by {
                if t != i {
                    assert(u[t] == fm[t]);
                }
            }
        },
        None => {
            assert forall|t: int| 0 <= t < u.len() implies no_newline(#[trigger] u[t]) by {
                if t < fm.len() {
                    assert(u[t] == fm[t]);
                }
            }
        },
    }
    let e = ensure_field(fm, key, value);
    assert forall|t: int| 0 <= t < e.len() implies no_newline(#[trigger] e[t]) by {
        if t < fm.len() {
            assert(e[t] == fm[t]);
        }
    }
}

/// The facts about the keys that the round trips need.
pub(crate) proof fn lemma_keys()
    ensures
        no_newline(key_position()),
        no_newline(key_color()),
        no_newline(key_created_at()),
        no_newline(key_updated_at()),
        !is_white(key_position()[0]),
        !is_white(key_color()[0]),
        !is_white(key_created_at()[0]),
        !is_white(key_updated_at()[0]),
{
}

/// Writes `key` set to `value`, with the stamps of `now`, into the frontmatter of
/// `content` the way the card edits do, and shows where `key` then stands.
pub(crate) proof fn lemma_stamped_block(content: Seq<char>, key: Seq<char>, value: Seq<char>, now: u64) -> (r: (
    Seq<Seq<char>>,
    int,
    Seq<char>,
))
    requires
        key == key_position() || key == key_color(),
        value.len() > 0,
        !is_white(value.last()),
        no_newline(value),
    ensures
        ({
            let (fm, j, rest) = r;
            let ls = normalized_lines(content);
            let stamp = decimal_nat(now as nat);
            &&& fm.len() >= 1
            &&& forall|t: int| 0 <= t < fm.len() ==> no_newline(#[trigger] fm[t])
            &&& field_first_at(fm, key, value, j)
            &&& frontmatter_block(fm) + rest == (match frontmatter_end(ls) {
                Some(end) => {
                    let f = upsert_field(
                        ensure_field(upsert_field(ls.subrange(1, end), key, value), key_created_at(), stamp),
                        key_updated_at(),
                        stamp,
                    );
                    frontmatter_block(f) + normalize_body(crate::card::body_after(ls, end))
                },
                None => frontmatter_block(
                    seq![
                        field_line(key, value),
                        field_line(key_created_at(), stamp),
                        field_line(key_updated_at(), stamp),
                    ],
                ) + normalize_body(crlf_to_lf(content)),
            })
        }),
{
    let ls = normalized_lines(content);
    let stamp = decimal_nat(now as nat);
    lemma_keys();
    lemma_decimal_nat(now as nat);
    assert(no_newline(stamp)) by {
        assert forall|i: int| 0 <= i < stamp.len() implies stamp[i] != '\n' by {
            assert(is_digit(stamp[i]));
        }
    }
    lemma_stamp_line(key_created_at(), now);
    lemma_stamp_line(key_updated_at(), now);
    lemma_field_no_newline(key, value);
    if key == key_position() {
        lemma_other_key(key, value, key_created_at(), 0);
        lemma_other_key(key, value, key_updated_at(), 0);
        lemma_other_key(key_created_at(), stamp, key, 0);
        lemma_other_key(key_updated_at(), stamp, key, 0);
    } else {
        lemma_other_key(key, value, key_created_at(), 1);
        lemma_other_key(key, value, key_updated_at(), 0);
        lemma_other_key(key_created_at(), stamp, key, 1);
        lemma_other_key(key_updated_at(), stamp, key, 0);
    }
    match frontmatter_end(ls) {
        Some(end) => {
            lemma_block_of_text(content, end);
            let fm0 = ls.subrange(1, end);
            let j = lemma_upsert_first(fm0, key, value);
            let fm1 = upsert_field(fm0, key, value);
            lemma_other_key_keeps(fm1, key, value, j, key_created_at(), stamp);
            let fm2 = ensure_field(fm1, key_created_at(), stamp);
            lemma_other_key_keeps(fm2, key, value, j, key_updated_at(), stamp);
            let fm3 = upsert_field(fm2, key_updated_at(), stamp);
            lemma_edit_no_newline(fm0, key, value);
            lemma_edit_no_newline(fm1, key_created_at(), stamp);
            lemma_edit_no_newline(fm2, key_updated_at(), stamp);
            (fm3, j, normalize_body(crate::card::body_after(ls, end)))
        },
        None => {
            let fm = seq![
                field_line(key, value),
                field_line(key_created_at(), stamp),
                field_line(key_updated_at(), stamp),
            ];
            (fm, 0, normalize_body(crlf_to_lf(content)))
        },
    }
}

/// A position written into a card is the position read back from it.
pub proof fn law_position_round_trip(content: Seq<char>, position: i64, now: u64)
    ensures
        spec_position_from_markdown(spec_markdown_with_position(content, position, now)) == Some(
            position,
        ),
{
    let v = decimal_int(position as int);
    lemma_decimal_ends(position as int);
    let (fm, j, rest) = lemma_stamped_block(content, key_position(), v, now);
    let out = spec_markdown_with_position(content, position, now);
    assert(out == frontmatter_block(fm) + rest);
    lemma_block_lines(fm, rest);
    let ls = lines_of(out);
    assert(ls == seq![fence()] + strip_crs(fm) + seq![fence()] + lines_of(rest));
    assert(is_fence(ls[0])) by {
        lemma_trim_unchanged(fence());
    }
    assert(is_fence(ls[fm.len() + 1int])) by {
        lemma_trim_unchanged(fence());
    }
    lemma_position_scan(ls, fm, 0);
    lemma_position_at(fm, position, j, 0);
}

/// A color written into a card is the color read back from it (none for an empty
/// color), for a color without newlines.
pub proof fn law_color_round_trip(content: Seq<char>, color: Seq<char>, now: u64)
    requires
        no_newline(color),
    ensures
        spec_color_from_markdown(spec_markdown_with_color(content, color, now)) == (if color.len() > 0 {
            Some(color)
        } else {
            None
        }),
{
    let v = quoted(color);
    assert(no_newline(v)) by {
        assert forall|i: int| 0 <= i < v.len() implies v[i] != '\n' by {
            if 0 < i < v.len() - 1 {
                assert(v[i] == color[i - 1]);
            }
        }
    }
    let (fm, j, rest) = lemma_stamped_block(content, key_color(), v, now);
    let out = spec_markdown_with_color(content, color, now);
    assert(out == frontmatter_block(fm) + rest);
    lemma_block_lines(fm, rest);
    let ls = lines_of(out);
    assert(is_fence(ls[0])) by {
        lemma_trim_unchanged(fence());
    }
    assert(is_fence(ls[fm.len() + 1int])) by {
        lemma_trim_unchanged(fence());
    }
    lemma_color_scan(ls, fm, 0);
    lemma_color_at(fm, color, j, 0);
}

// ---------------------------------------------------------------------------
// The metadata file
// ---------------------------------------------------------------------------

/// The lines `ls`, each followed by a newline.
pub open spec fn with_newlines(ls: Seq<Seq<char>>) -> Seq<char>
    decreases ls.len(),
{
    if ls.len() == 0 {
        Seq::empty()
    } else {
        ls[0] + seq!['\n'] + with_newlines(ls.skip(1))
    }
}

proof fn lemma_with_newlines_concat(a: Seq<Seq<char>>, b: Seq<Seq<char>>)
    ensures
        with_newlines(a + b) == with_newlines(a) + with_newlines(b),
    decreases a.len(),
{
    if a.len() == 0 {
        assert(a + b =~= b);
    } else {
        assert((a + b).skip(1) =~= a.skip(1) + b);
        lemma_with_newlines_concat(a.skip(1), b);
        assert((a + b)[0] == a[0]);
    }
}

/// The lines of newline-terminated lines are those lines (without final `'\r'`s).
proof fn lemma_lines_of_with_newlines(ls: Seq<Seq<char>>)
    requires
        forall|i: int| 0 <= i < ls.len() ==> no_newline(#[trigger] ls[i]),
    ensures
        lines_of(with_newlines(ls)) == strip_crs(ls),
    decreases ls.len(),
{
    if ls.len() == 0 {
        assert(crate::text::split_newlines(Seq::empty()) == seq![Seq::<char>::empty()]);
        assert(lines_of(Seq::empty()) =~= Seq::<Seq<char>>::empty());
        assert(strip_crs(ls) =~= Seq::<Seq<char>>::empty());
    } else {
        assert forall|i: int| 0 <= i < ls.skip(1).len() implies no_newline(#[trigger] ls.skip(1)[i]) by {
            assert(ls.skip(1)[i] == ls[i + 1]);
        }
        lemma_lines_of_with_newlines(ls.skip(1));
        assert(no_newline(ls[0]));
        lemma_lines_after_line(ls[0], with_newlines(ls.skip(1)));
        assert(seq![strip_cr(ls[0])] + strip_crs(ls.skip(1)) =~= strip_crs(ls));
    }
}

/// Reading the lines `ls` after the state `st`.
pub open spec fn parse_fold(st: ParseState, ls: Seq<Seq<char>>) -> ParseState
    decreases ls.len(),
{
    if ls.len() == 0 {
        st
    } else {
        parse_step(parse_fold(st, ls.drop_last()), ls.last())
    }
}

proof fn lemma_parse_fold_start(ls: Seq<Seq<char>>)
    ensures
        parse_lines(ls) == parse_fold(parse_start(), ls),
    decreases ls.len(),
{
    if ls.len() > 0 {
        lemma_parse_fold_start(ls.drop_last());
    }
}

proof fn lemma_parse_fold_concat(st: ParseState, a: Seq<Seq<char>>, b: Seq<Seq<char>>)
    ensures
        parse_fold(st, a + b) == parse_fold(parse_fold(st, a), b),
    decreases b.len(),
{
    if b.len() == 0 {
        assert(a + b =~= a);
    } else {
        assert((a + b).drop_last() =~= a + b.drop_last());
        lemma_parse_fold_concat(st, a, b.drop_last());
    }
}

proof fn lemma_parse_fold_strip(st: ParseState, ls: Seq<Seq<char>>)
    ensures
        parse_fold(st, strip_crs(ls)) == parse_fold(st, ls),
    decreases ls.len(),
{
    if ls.len() > 0 {
        assert(strip_crs(ls).drop_last() =~= strip_crs(ls.drop_last()));
        lemma_parse_fold_strip(st, ls.drop_last());
        lemma_trim_strip_cr(ls.last());
    }
}

/// A text that trims to itself.
pub open spec fn is_trimmed(v: Seq<char>) -> bool {
    trim(v) == v
}

/// A line `indent` + `p` + `" "` + `v`, with `indent` all spaces, `p` a key without
/// whitespace at its ends and `v` trimmed: it trims to `p` followed by `" v"` (or by
/// nothing for an empty `v`), starts with `p` and has the value `v`.
proof fn lemma_keyed_line(indent: Seq<char>, p: Seq<char>, v: Seq<char>)
    requires
        forall|i: int| 0 <= i < indent.len() ==> #[trigger] indent[i] == ' ',
        p.len() > 0,
        !is_white(p[0]),
        !is_white(p.last()),
        is_trimmed(v),
    ensures
        starts_with(trim(indent + p + seq![' '] + v), p),
        value_after(trim(indent + p + seq![' '] + v), p) == v,
        trim(indent + p + seq![' '] + v)[0] == p[0],
{
    let line = indent + p + seq![' '] + v;
    let body = p + seq![' '] + v;
    assert(line.skip(indent.len() as int) =~= body);
    assert forall|j: int| 0 <= j < indent.len() implies is_white(line[j]) by {
        assert(line[j] == indent[j]);
    }
    crate::text::lemma_trim_start_skip(line, indent.len() as int);
    assert(body[0] == p[0]);
    assert(trim_start(body) == body);
    if v.len() > 0 {
        assert(!is_white(v.last())) by {
            lemma_trim_end_last(trim_start(v));
        }
        assert(body.last() == v.last());
        assert(trim_end(body) == body);
        assert(trim(line) == body);
        assert(body.take(p.len() as int) =~= p);
        assert(body.skip(p.len() as int) =~= seq![' '] + v);
        lemma_trim_start_space(v);
        assert(trim(seq![' '] + v) == trim(v));
    } else {
        assert(body =~= p.push(' '));
        assert(body.drop_last() =~= p);
        assert(trim_end(body) == trim_end(p));
        assert(trim_end(p) == p);
        assert(trim(line) == p);
        assert(p.take(p.len() as int) =~= p);
        assert(p.skip(p.len() as int) =~= Seq::<char>::empty());
        assert(v =~= Seq::<char>::empty());
    }
}

/// A text trimmed at the end does not end in whitespace.
pub(crate) proof fn lemma_trim_end_last(x: Seq<char>)
    ensures
        trim_end(x).len() > 0 ==> !is_white(trim_end(x).last()),
    decreases x.len(),
{
    if x.len() > 0 && is_white(x.last()) {
        lemma_trim_end_last(x.drop_last());
    }
}

proof fn lemma_with_newlines_one(x: Seq<char>)
    ensures
        with_newlines(seq![x]) == x + seq!['\n'],
{
    assert(seq![x].skip(1) =~= Seq::<Seq<char>>::empty());
    assert(with_newlines(seq![x].skip(1)) == Seq::<char>::empty());
    assert(seq![x][0] == x);
    assert(with_newlines(seq![x]) == x + seq!['\n'] + with_newlines(seq![x].skip(1)));
    assert(x + seq!['\n'] + Seq::<char>::empty() =~= x + seq!['\n']);
}

/// Whether a list's metadata is written and read back unchanged: id and title trimmed
/// and without newlines, and a border color, if any, not empty and without newlines.
pub open spec fn is_writable_list(l: ListMetaView) -> bool {
    &&& is_trimmed(l.id) && no_newline(l.id)
    &&& is_trimmed(l.title) && no_newline(l.title)
    &&& match l.border_color {
        Some(c) => c.len() > 0 && no_newline(c),
        None => true,
    }
}

/// Whether metadata is written and read back unchanged: the board name trimmed and
/// without newlines, and each list writable.
pub open spec fn is_writable_metadata(m: BoardMetaView) -> bool {
    &&& is_trimmed(m.name) && no_newline(m.name)
    &&& forall|i: int| 0 <= i < m.lists.len() ==> is_writable_list(#[trigger] m.lists[i])
}

/// The lines of a list's entry.
pub open spec fn entry_lines(l: ListMetaView) -> Seq<Seq<char>> {
    seq!["  - id: "@ + l.id, "    title: "@ + l.title, "    position: "@ + decimal_int(l.position as int)]
        + (match l.border_color {
        Some(c) => seq!["    border_color: "@ + quoted(c)],
        None => Seq::empty(),
    }) + seq![Seq::empty()]
}

/// The lines of the entries of `ls`.
pub open spec fn entries_lines(ls: Seq<ListMetaView>) -> Seq<Seq<char>>
    decreases ls.len(),
{
    if ls.len() == 0 {
        Seq::empty()
    } else {
        entries_lines(ls.drop_last()) + entry_lines(ls.last())
    }
}

/// The lines before the entries.
pub open spec fn header_lines(m: BoardMetaView) -> Seq<Seq<char>> {
    seq![
        "name: "@ + m.name,
        "show_preview: "@ + (if m.show_preview {
            "true"@
        } else {
            "false"@
        }),
        Seq::empty(),
        "lists:"@,
    ]
}

proof fn lemma_entry_text(l: ListMetaView)
    ensures
        list_entry(l) == with_newlines(entry_lines(l)),
{
    reveal_strlit("  - id: ");
    reveal_strlit("\n    title: ");
    reveal_strlit("    title: ");
    reveal_strlit("\n    position: ");
    reveal_strlit("    position: ");
    reveal_strlit("\n");
    reveal_strlit("    border_color: \"");
    reveal_strlit("    border_color: ");
    reveal_strlit("\"\n");
    let a = "  - id: "@ + l.id;
    let b = "    title: "@ + l.title;
    let c = "    position: "@ + decimal_int(l.position as int);
    let head = seq![a, b, c];
    lemma_with_newlines_one(a);
    lemma_with_newlines_one(b);
    lemma_with_newlines_one(c);
    lemma_with_newlines_one(Seq::empty());
    assert(head =~= seq![a] + seq![b] + seq![c]);
    lemma_with_newlines_concat(seq![a], seq![b]);
    lemma_with_newlines_concat(seq![a] + seq![b], seq![c]);
    let tail = seq![Seq::<char>::empty()];
    match l.border_color {
        Some(col) => {
            let d = "    border_color: "@ + quoted(col);
            lemma_with_newlines_one(d);
            assert(entry_lines(l) =~= head + seq![d] + tail);
            lemma_with_newlines_concat(head, seq![d]);
            lemma_with_newlines_concat(head + seq![d], tail);
            assert(list_entry(l) =~= with_newlines(head) + (d + seq!['\n']) + (Seq::<char>::empty() + seq![
                '\n',
            ]));
        },
        None => {
            assert(entry_lines(l) =~= head + tail);
            lemma_with_newlines_concat(head, tail);
            assert(list_entry(l) =~= with_newlines(head) + (Seq::<char>::empty() + seq!['\n']));
        },
    }
}

proof fn lemma_entries_text(ls: Seq<ListMetaView>)
    ensures
        list_entries(ls) == with_newlines(entries_lines(ls)),
    decreases ls.len(),
{
    if ls.len() == 0 {
        assert(with_newlines(Seq::<Seq<char>>::empty()) =~= Seq::<char>::empty());
    } else {
        lemma_entries_text(ls.drop_last());
        lemma_entry_text(ls.last());
        lemma_with_newlines_concat(entries_lines(ls.drop_last()), entry_lines(ls.last()));
    }
}

proof fn lemma_render_lines(m: BoardMetaView)
    ensures
        spec_render_board_metadata(m) == with_newlines(header_lines(m) + entries_lines(m.lists)),
{
    reveal_strlit("name: ");
    reveal_strlit("\nshow_preview: ");
    reveal_strlit("show_preview: ");
    reveal_strlit("true");
    reveal_strlit("false");
    reveal_strlit("\n\nlists:\n");
    reveal_strlit("lists:");
    let h = header_lines(m);
    lemma_entries_text(m.lists);
    lemma_with_newlines_concat(h, entries_lines(m.lists));
    assert(h =~= seq![h[0]] + seq![h[1]] + seq![h[2]] + seq![h[3]]);
    lemma_with_newlines_one(h[0]);
    lemma_with_newlines_one(h[1]);
    lemma_with_newlines_one(h[2]);
    lemma_with_newlines_one(h[3]);
    lemma_with_newlines_concat(seq![h[0]], seq![h[1]]);
    lemma_with_newlines_concat(seq![h[0]] + seq![h[1]], seq![h[2]]);
    lemma_with_newlines_concat(seq![h[0]] + seq![h[1]] + seq![h[2]], seq![h[3]]);
    assert(spec_render_board_metadata(m) =~= with_newlines(h) + list_entries(m.lists));
}

/// The lines of `ls` that hold no newline.
proof fn lemma_entries_no_newline(ls: Seq<ListMetaView>)
    requires
        forall|i: int| 0 <= i < ls.len() ==> is_writable_list(#[trigger] ls[i]),
    ensures
        forall|i: int| 0 <= i < entries_lines(ls).len() ==> no_newline(#[trigger] entries_lines(ls)[i]),
    decreases ls.len(),
{
    if ls.len() > 0 {
        assert forall|i: int| 0 <= i < ls.drop_last().len() implies is_writable_list(
            #[trigger] ls.drop_last()[i],
        ) by {
            assert(ls.drop_last()[i] == ls[i]);
        }
        lemma_entries_no_newline(ls.drop_last());
        let l = ls.last();
        assert(is_writable_list(ls[ls.len() - 1]));
        lemma_decimal_ends(l.position as int);
        let e = entry_lines(l);
        assert forall|i: int| 0 <= i < e.len() implies no_newline(#[trigger] e[i]) by {
            reveal_strlit("  - id: ");
            reveal_strlit("    title: ");
            reveal_strlit("    position: ");
            reveal_strlit("    border_color: ");
            if i == 0 {
                lemma_join_no_newline("  - id: "@, l.id);
            } else if i == 1 {
                lemma_join_no_newline("    title: "@, l.title);
            } else if i == 2 {
                lemma_join_no_newline("    position: "@, decimal_int(l.position as int));
            } else if i == 3 && l.border_color is Some {
                let c = l.border_color->0;
                lemma_quoted_no_newline(c);
                lemma_join_no_newline("    border_color: "@, quoted(c));
            }
        }
        let a = entries_lines(ls.drop_last());
        assert forall|i: int| 0 <= i < entries_lines(ls).len() implies no_newline(
            #[trigger] entries_lines(ls)[i],
        ) by {
            if i < a.len() {
                assert(entries_lines(ls)[i] == a[i]);
            } else {
                assert(entries_lines(ls)[i] == e[i - a.len()]);
            }
        }
    }
}

proof fn lemma_join_no_newline(a: Seq<char>, b: Seq<char>)
    requires
        no_newline(a),
        no_newline(b),
    ensures
        no_newline(a + b),
{
    assert forall|i: int| 0 <= i < (a + b).len() implies (a + b)[i] != '\n' by {
        if i >= a.len() {
            assert((a + b)[i] == b[i - a.len()]);
        } else {
            assert((a + b)[i] == a[i]);
        }
    }
}

proof fn lemma_quoted_no_newline(c: Seq<char>)
    requires
        no_newline(c),
    ensures
        no_newline(quoted(c)),
{
    let q = quoted(c);
    assert forall|i: int| 0 <= i < q.len() implies q[i] != '\n' by {
        if 0 < i < q.len() - 1 {
            assert(q[i] == c[i - 1]);
        }
    }
}

/// A text does not start with a key whose first character differs.
proof fn lemma_not_prefix(t: Seq<char>, p: Seq<char>)
    requires
        p.len() > 0,
        t.len() == 0 || t[0] != p[0],
    ensures
        !starts_with(t, p),
{
    if starts_with(t, p) {
        assert(t.take(p.len() as int)[0] == t[0]);
    }
}

proof fn lemma_keys_text()
    ensures
        "name:"@ == seq!['n', 'a', 'm', 'e', ':'],
        "show_preview:"@ == seq!['s', 'h', 'o', 'w', '_', 'p', 'r', 'e', 'v', 'i', 'e', 'w', ':'],
        "- id:"@ == seq!['-', ' ', 'i', 'd', ':'],
        "title:"@ == seq!['t', 'i', 't', 'l', 'e', ':'],
        "position:"@ == seq!['p', 'o', 's', 'i', 't', 'i', 'o', 'n', ':'],
        "border_color:"@ == seq!['b', 'o', 'r', 'd', 'e', 'r', '_', 'c', 'o', 'l', 'o', 'r', ':'],
        "true"@ == seq!['t', 'r', 'u', 'e'],
        "false"@ == seq!['f', 'a', 'l', 's', 'e'],
        "lists:"@ == seq!['l', 'i', 's', 't', 's', ':'],
        "name: "@ == seq![] + "name:"@ + seq![' '],
        "show_preview: "@ == seq![] + "show_preview:"@ + seq![' '],
        "  - id: "@ == seq![' ', ' '] + "- id:"@ + seq![' '],
        "    title: "@ == seq![' ', ' ', ' ', ' '] + "title:"@ + seq![' '],
        "    position: "@ == seq![' ', ' ', ' ', ' '] + "position:"@ + seq![' '],
        "    border_color: "@ == seq![' ', ' ', ' ', ' '] + "border_color:"@ + seq![' '],
{
    reveal_strlit("name:");
    reveal_strlit("show_preview:");
    reveal_strlit("- id:");
    reveal_strlit("title:");
    reveal_strlit("position:");
    reveal_strlit("border_color:");
    reveal_strlit("true");
    reveal_strlit("false");
    reveal_strlit("lists:");
    reveal_strlit("name: ");
    reveal_strlit("show_preview: ");
    reveal_strlit("  - id: ");
    reveal_strlit("    title: ");
    reveal_strlit("    position: ");
    reveal_strlit("    border_color: ");
    assert("name: "@ =~= seq![] + "name:"@ + seq![' ']);
    assert("show_preview: "@ =~= seq![] + "show_preview:"@ + seq![' ']);
    assert("  - id: "@ =~= seq![' ', ' '] + "- id:"@ + seq![' ']);
    assert("    title: "@ =~= seq![' ', ' ', ' ', ' '] + "title:"@ + seq![' ']);
    assert("    position: "@ =~= seq![' ', ' ', ' ', ' '] + "position:"@ + seq![' ']);
    assert("    border_color: "@ =~= seq![' ', ' ', ' ', ' '] + "border_color:"@ + seq![' ']);
}

/// Reading the lines before the entries gives the name and the preview setting.
proof fn lemma_header_parse(m: BoardMetaView)
    requires
        is_trimmed(m.name),
    ensures
        parse_fold(parse_start(), header_lines(m)) == (ParseState {
            name: Some(m.name),
            show_preview: m.show_preview,
            lists: Seq::empty(),
            current: None,
        }),
{
    lemma_keys_text();
    let h = header_lines(m);
    let b = if m.show_preview {
        "true"@
    } else {
        "false"@
    };
    assert(is_trimmed(b)) by {
        lemma_trim_unchanged(b);
    }
    lemma_keyed_line(seq![], "name:"@, m.name);
    lemma_keyed_line(seq![], "show_preview:"@, b);
    assert(h[0] == seq![] + "name:"@ + seq![' '] + m.name);
    assert(h[1] == seq![] + "show_preview:"@ + seq![' '] + b);
    let t1 = trim(h[1]);
    lemma_not_prefix(t1, "name:"@);
    assert(trim(h[2]) == Seq::<char>::empty());
    lemma_not_prefix(trim(h[2]), "name:"@);
    lemma_not_prefix(trim(h[2]), "show_preview:"@);
    lemma_not_prefix(trim(h[2]), "- id:"@);
    assert(trim(h[3]) == h[3]) by {
        lemma_trim_unchanged(h[3]);
    }
    lemma_not_prefix(trim(h[3]), "name:"@);
    lemma_not_prefix(trim(h[3]), "show_preview:"@);
    lemma_not_prefix(trim(h[3]), "- id:"@);
    assert(eq_ignore_ascii_case(b, "true"@) == m.show_preview);
    assert(h.take(1).drop_last() =~= Seq::<Seq<char>>::empty());
    assert(h.take(2).drop_last() =~= h.take(1));
    assert(h.take(3).drop_last() =~= h.take(2));
    assert(h.take(4).drop_last() =~= h.take(3));
    assert(h.take(4) =~= h);
    assert(parse_fold(parse_start(), h.take(1).drop_last()) == parse_start());
    assert(h.take(1).last() == h[0]);
    assert(h.take(2).last() == h[1]);
    assert(h.take(3).last() == h[2]);
    assert(h.take(4).last() == h[3]);
    let s1 = parse_fold(parse_start(), h.take(1));
    assert(s1 == parse_step(parse_start(), h[0]));
    assert(s1 == ParseState { name: Some(m.name), ..parse_start() });
    let s2 = parse_fold(parse_start(), h.take(2));
    assert(s2 == ParseState { show_preview: m.show_preview, ..s1 });
    let s3 = parse_fold(parse_start(), h.take(3));
    assert(s3 == s2);
    let s4 = parse_fold(parse_start(), h.take(4));
    assert(s4 == s3);
}

/// Reading a list's entry after a state with a name adds the list read before (if
/// any) and makes this one the list being read.
proof fn lemma_entry_parse(st: ParseState, l: ListMetaView)
    requires
        is_writable_list(l),
    ensures
        parse_fold(st, entry_lines(l)) == (ParseState {
            lists: all_lists(st),
            current: Some(l),
            ..st
        }),
{
    lemma_keys_text();
    let e = entry_lines(l);
    let dec = decimal_int(l.position as int);
    lemma_decimal_ends(l.position as int);
    lemma_parse_decimal(l.position);
    assert(is_trimmed(dec)) by {
        lemma_trim_unchanged(dec);
    }
    let sp2 = seq![' ', ' '];
    let sp4 = seq![' ', ' ', ' ', ' '];
    lemma_keyed_line(sp2, "- id:"@, l.id);
    lemma_keyed_line(sp4, "title:"@, l.title);
    lemma_keyed_line(sp4, "position:"@, dec);
    assert(e[0] == sp2 + "- id:"@ + seq![' '] + l.id);
    assert(e[1] == sp4 + "title:"@ + seq![' '] + l.title);
    assert(e[2] == sp4 + "position:"@ + seq![' '] + dec);
    let t0 = trim(e[0]);
    let t1 = trim(e[1]);
    let t2 = trim(e[2]);
    lemma_not_prefix(t0, "name:"@);
    lemma_not_prefix(t0, "show_preview:"@);
    lemma_not_prefix(t1, "name:"@);
    lemma_not_prefix(t1, "show_preview:"@);
    lemma_not_prefix(t1, "- id:"@);
    lemma_not_prefix(t2, "name:"@);
    lemma_not_prefix(t2, "show_preview:"@);
    lemma_not_prefix(t2, "- id:"@);
    lemma_not_prefix(t2, "title:"@);
    let st1 = ParseState {
        lists: all_lists(st),
        current: Some(ListMetaView { id: l.id, title: l.id, position: i64::MAX, border_color: None }),
        ..st
    };
    let st2 = ParseState {
        current: Some(ListMetaView { id: l.id, title: l.title, position: i64::MAX, border_color: None }),
        ..st1
    };
    let st3 = ParseState {
        current: Some(ListMetaView { id: l.id, title: l.title, position: l.position, border_color: None }),
        ..st1
    };
    assert(parse_step(st, e[0]) == st1);
    assert(parse_step(st1, e[1]) == st2);
    assert(parse_step(st2, e[2]) == st3);
    let head = seq![e[0], e[1], e[2]];
    assert(head.drop_last().drop_last().drop_last() =~= Seq::<Seq<char>>::empty());
    assert(head.drop_last().drop_last() =~= seq![e[0]]);
    assert(seq![e[0]].drop_last() =~= Seq::<Seq<char>>::empty());
    assert(parse_fold(st, seq![e[0]].drop_last()) == st);
    assert(parse_fold(st, seq![e[0]]) == parse_step(st, e[0]));
    assert(parse_fold(st, head.drop_last().drop_last()) == st1);
    assert(head.drop_last() =~= seq![e[0], e[1]]);
    assert(head.drop_last().last() == e[1]);
    assert(parse_fold(st, head.drop_last()) == parse_step(parse_fold(st, head.drop_last().drop_last()), e[1]));
    assert(parse_fold(st, head.drop_last()) == st2);
    assert(head.last() == e[2]);
    assert(parse_fold(st, head) == parse_step(parse_fold(st, head.drop_last()), e[2]));
    assert(parse_fold(st, head) == st3);
    let blank = Seq::<char>::empty();
    let tb = trim(blank);
    assert(tb == blank);
    lemma_not_prefix(tb, "name:"@);
    lemma_not_prefix(tb, "show_preview:"@);
    lemma_not_prefix(tb, "- id:"@);
    lemma_not_prefix(tb, "title:"@);
    lemma_not_prefix(tb, "position:"@);
    lemma_not_prefix(tb, "border_color:"@);
    match l.border_color {
        Some(c) => {
            let q = quoted(c);
            assert(q[0] == '"' && q.last() == '"');
            assert(is_trimmed(q)) by {
                lemma_trim_unchanged(q);
            }
            lemma_keyed_line(sp4, "border_color:"@, q);
            let d = sp4 + "border_color:"@ + seq![' '] + q;
            assert(e[3] == "    border_color: "@ + q);
            assert(e[3] == d);
            let t3 = trim(d);
            lemma_not_prefix(t3, "name:"@);
            lemma_not_prefix(t3, "show_preview:"@);
            lemma_not_prefix(t3, "- id:"@);
            lemma_not_prefix(t3, "title:"@);
            lemma_not_prefix(t3, "position:"@);
            assert(q.subrange(1, q.len() - 1) =~= c);
            assert(unquoted(q) == c);
            let st4 = ParseState { current: Some(l), ..st1 };
            assert(parse_step(st3, e[3]) == st4);
            assert(parse_step(st4, e[4]) == st4);
            assert(e =~= head + seq![e[3], e[4]]);
            lemma_parse_fold_concat(st, head, seq![e[3], e[4]]);
            assert(seq![e[3], e[4]].drop_last() =~= seq![e[3]]);
            assert(seq![e[3]].drop_last() =~= Seq::<Seq<char>>::empty());
            assert(parse_fold(st3, seq![e[3]].drop_last()) == st3);
            assert(parse_fold(st3, seq![e[3]]) == st4);
            assert(seq![e[3], e[4]].last() == e[4]);
            assert(parse_fold(st3, seq![e[3], e[4]]) == parse_step(parse_fold(st3, seq![e[3]]), e[4]));
            assert(parse_fold(st3, seq![e[3], e[4]]) == st4);
        },
        None => {
            assert(parse_step(st3, e[3]) == st3);
            assert(st3 == ParseState { current: Some(l), ..st1 });
            assert(e =~= head + seq![e[3]]);
            lemma_parse_fold_concat(st, head, seq![e[3]]);
            assert(seq![e[3]].drop_last() =~= Seq::<Seq<char>>::empty());
            assert(parse_fold(st3, seq![e[3]].drop_last()) == st3);
            assert(parse_fold(st3, seq![e[3]]) == parse_step(st3, e[3]));
        },
    }
}

/// Reading the entries of `ls` after the header: all lists but the last are read,
/// and the last is being read.
proof fn lemma_entries_parse(st0: ParseState, ls: Seq<ListMetaView>)
    requires
        st0.lists == Seq::<ListMetaView>::empty(),
        st0.current is None,
        forall|i: int| 0 <= i < ls.len() ==> is_writable_list(#[trigger] ls[i]),
    ensures
        all_lists(parse_fold(st0, entries_lines(ls))) == ls,
        parse_fold(st0, entries_lines(ls)).name == st0.name,
        parse_fold(st0, entries_lines(ls)).show_preview == st0.show_preview,
    decreases ls.len(),
{
    if ls.len() == 0 {
        assert(entries_lines(ls) =~= Seq::<Seq<char>>::empty());
        assert(all_lists(st0) =~= ls);
    } else {
        assert forall|i: int| 0 <= i < ls.drop_last().len() implies is_writable_list(
            #[trigger] ls.drop_last()[i],
        ) by {
            assert(ls.drop_last()[i] == ls[i]);
        }
        lemma_entries_parse(st0, ls.drop_last());
        let mid = parse_fold(st0, entries_lines(ls.drop_last()));
        assert(is_writable_list(ls[ls.len() - 1]));
        lemma_entry_parse(mid, ls.last());
        lemma_parse_fold_concat(st0, entries_lines(ls.drop_last()), entry_lines(ls.last()));
        assert(all_lists(mid) == ls.drop_last());
        assert(ls.drop_last().push(ls.last()) =~= ls);
    }
}

/// Metadata written to the metadata file is read back unchanged, for a board name,
/// list ids and titles trimmed and without newlines, and border colors not empty and
/// without newlines.
pub proof fn law_metadata_round_trip(m: BoardMetaView)
    requires
        is_writable_metadata(m),
    ensures
        spec_parse_board_metadata(spec_render_board_metadata(m)) == Some(m),
{
    lemma_keys_text();
    let h = header_lines(m);
    let e = entries_lines(m.lists);
    lemma_render_lines(m);
    lemma_entries_no_newline(m.lists);
    assert(no_newline(h[0])) by {
        lemma_join_no_newline("name: "@, m.name);
    }
    assert(no_newline(h[1])) by {
        reveal_strlit("show_preview: ");
    }
    let all = h + e;
    assert forall|i: int| 0 <= i < all.len() implies no_newline(#[trigger] all[i]) by {
        if i < 4 {
            assert(all[i] == h[i]);
        } else {
            assert(all[i] == e[i - 4]);
        }
    }
    lemma_lines_of_with_newlines(all);
    lemma_parse_fold_start(strip_crs(all));
    lemma_parse_fold_strip(parse_start(), all);
    lemma_parse_fold_concat(parse_start(), h, e);
    lemma_header_parse(m);
    let st0 = parse_fold(parse_start(), h);
    lemma_entries_parse(st0, m.lists);
}

// ---------------------------------------------------------------------------
// Card positions and order
// ---------------------------------------------------------------------------

/// A card put at a slot sorts after the card before it, and before the card after it
/// unless those two are adjacent (then it ties with the later one, which its file name
/// orders).
pub proof fn law_insert_position_between(ps: Seq<i64>, target: int)
    requires
        insert_position(ps, target) is Some,
    ensures
        ({
            let t = if target < ps.len() {
                target
            } else {
                ps.len() as int
            };
            let p = insert_position(ps, target)->0;
            &&& t > 0 ==> ps[t - 1] < p
            &&& (t < ps.len() && (t == 0 || ps[t] - ps[t - 1] > 1)) ==> p < ps[t]
        }),
{
    let t = if target < ps.len() {
        target
    } else {
        ps.len() as int
    };
    if 0 < t < ps.len() {
        let b = ps[t - 1] as int;
        let a = ps[t] as int;
        if a - b > 1 {
            let h = half_toward_zero(b + a);
            if b + a >= 0 {
                assert(b < h < a) by (nonlinear_arith)
                    requires
                        a - b > 1,
                        b + a >= 0,
                        h == (b + a) / 2,
                ;
            } else {
                assert(b < h < a) by (nonlinear_arith)
                    requires
                        a - b > 1,
                        b + a < 0,
                        h == -((-(b + a)) / 2),
                ;
            }
        }
    }
}

proof fn lemma_max_recorded_above(ps: Seq<i64>)
    ensures
        forall|i: int| 0 <= i < ps.len() && ps[i] != i64::MAX ==> ps[i] <= max_recorded(ps),
    decreases ps.len(),
{
    if ps.len() > 0 {
        lemma_max_recorded_above(ps.drop_last());
        assert forall|i: int| 0 <= i < ps.len() && ps[i] != i64::MAX implies ps[i] <= max_recorded(ps) by {
            if i < ps.len() - 1 {
                assert(ps[i] == ps.drop_last()[i]);
            }
        }
    }
}

/// A card added at the end of a list sorts after every card of it that has a position.
pub proof fn law_next_position_after_all(cards: Seq<Card>)
    requires
        fit_i64(max_recorded(card_positions(cards)) + POSITION_STEP) is Some,
    ensures
        forall|i: int|
            0 <= i < cards.len() && cards[i].position != i64::MAX ==> cards[i].position < fit_i64(
                max_recorded(card_positions(cards)) + POSITION_STEP,
            )->0,
{
    let ps = card_positions(cards);
    lemma_max_recorded_above(ps);
    assert forall|i: int| 0 <= i < cards.len() && cards[i].position != i64::MAX implies cards[i].position
        < fit_i64(max_recorded(ps) + POSITION_STEP)->0 by {
        assert(ps[i] == cards[i].position);
    }
}

/// Cards in a sort order by position and file name come by increasing position.
pub proof fn law_sorted_cards_by_position(order: Seq<usize>, cards: Seq<Card>)
    requires
        is_sort_order(order, card_keys(cards)),
    ensures
        forall|i: int, j: int|
            0 <= i < j < order.len() ==> #[trigger] apply_order(order, cards)[i].position
                <= #[trigger] apply_order(order, cards)[j].position,
{
    assert forall|i: int, j: int| 0 <= i < j < order.len() implies #[trigger] apply_order(
        order,
        cards,
    )[i].position <= #[trigger] apply_order(order, cards)[j].position by {
        assert(entry_lt(card_keys(cards), order[i] as int, order[j] as int));
    }
}

// ---------------------------------------------------------------------------
// Columns and panels
// ---------------------------------------------------------------------------

/// The window of list columns shows the focused list, as many lists as fit, and no
/// list past the last.
pub proof fn law_window_shows_focus(focus: int, columns: int, lists: int)
    requires
        columns > 0,
        lists > 0,
        0 <= focus < lists,
    ensures
        ({
            let (start, end) = spec_visible_list_window(focus, columns, lists);
            &&& 0 <= start <= focus < end <= lists
            &&& end - start == (if columns < lists {
                columns
            } else {
                lists
            })
        }),
{
}

/// With the preview shown, the lists area and the preview area split the board area
/// side by side: same top and height, the preview right after the lists, the widths
/// adding up.
pub proof fn law_preview_splits_area(area: Rect)
    requires
        area.x + area.width <= u16::MAX,
        spec_board_content_layout(area, true).1 is Some,
    ensures
        ({
            let (lists, preview) = spec_board_content_layout(area, true);
            let p = preview->0;
            &&& lists.x == area.x && lists.y == area.y && lists.height == area.height
            &&& p.y == area.y && p.height == area.height
            &&& p.x == lists.x + lists.width
            &&& lists.width + p.width == area.width
        }),
{
}

// ---------------------------------------------------------------------------
// Keys
// ---------------------------------------------------------------------------

/// Backspace takes back a character just typed into a prompt.
pub proof fn law_backspace_undoes_typing(input: Seq<char>, c: char)
    ensures
        typed(
            typed(input, Key { code: KeyCode::Char(c), plain: true }),
            Key { code: KeyCode::Backspace, plain: true },
        ) == input,
{
    assert(input.push(c).drop_last() =~= input);
}

/// Pressing `p` twice on a board leaves the preview setting as it was.
pub proof fn law_preview_toggle_twice(a: App, b: App, c: App, x: Action, y: Action)
    requires
        a.screen == Screen::Board,
        a.mode == Mode::Normal,
        key_handled(a, Key { code: KeyCode::Char('p'), plain: true }, b, x),
        key_handled(b, Key { code: KeyCode::Char('p'), plain: true }, c, y),
    ensures
        c == a,
{
}

/// Esc closes whatever popup or move is open: the mode goes back to normal, nothing
/// else changes and nothing is to be done. (The board list has only the help, the new
/// board and rename prompts and the delete confirmation.)
pub proof fn law_escape_closes_popups(a: App, b: App, x: Action)
    requires
        a.mode != Mode::Normal,
        a.screen == Screen::Projects ==> (a.mode is Help || a.mode is CreateProject
            || a.mode is Rename || a.mode is ConfirmDelete),
        key_handled(a, Key { code: KeyCode::Esc, plain: true }, b, x),
    ensures
        b == (App { mode: Mode::Normal, ..a }),
        x == Action::Nothing,
{
}

// ---------------------------------------------------------------------------
// Slugs
// ---------------------------------------------------------------------------

/// What the slug built so far keeps: ASCII letters, digits and single dashes, no dash
/// first, and the flag telling whether it ends in a dash.
pub open spec fn slug_so_far_ok(st: (Seq<char>, bool)) -> bool {
    let t = st.0;
    &&& forall|i: int| 0 <= i < t.len() ==> is_ascii_alnum(#[trigger] t[i]) || t[i] == '-'
    &&& forall|i: int| 0 <= i < t.len() - 1 ==> !(#[trigger] t[i] == '-' && t[i + 1] == '-')
    &&& t.len() > 0 ==> t[0] != '-'
    &&& st.1 == (t.len() > 0 && t.last() == '-')
}

pub(crate) proof fn lemma_slug_state(s: Seq<char>)
    ensures
        slug_so_far_ok(slug_state(s)),
    decreases s.len(),
{
    if s.len() > 0 {
        lemma_slug_state(s.drop_last());
        let prev = slug_state(s.drop_last());
        let c = s.last();
        let t = slug_state(s).0;
        if is_ascii_alnum(c) || (!prev.1 && prev.0.len() > 0) {
            assert forall|i: int| 0 <= i < t.len() implies is_ascii_alnum(#[trigger] t[i]) || t[i] == '-' by {
                if i < prev.0.len() {
                    assert(t[i] == prev.0[i]);
                }
            }
            assert forall|i: int| 0 <= i < t.len() - 1 implies !(#[trigger] t[i] == '-' && t[i + 1] == '-') by {
                if i < prev.0.len() - 1 {
                    assert(t[i] == prev.0[i]);
                    assert(t[i + 1] == prev.0[i + 1]);
                }
            }
            if prev.0.len() > 0 {
                assert(t[0] == prev.0[0]);
            }
        }
    }
}

pub(crate) proof fn lemma_trim_dash_end(t: Seq<char>)
    requires
        forall|i: int| 0 <= i < t.len() - 1 ==> !(#[trigger] t[i] == '-' && t[i + 1] == '-'),
    ensures
        trim_dash_end(t) == (if t.len() > 0 && t.last() == '-' {
            t.drop_last()
        } else {
            t
        }),
{
    if t.len() > 0 && t.last() == '-' {
        let u = t.drop_last();
        if u.len() > 0 {
            assert(!(t[t.len() - 2] == '-' && t[t.len() - 1] == '-'));
            assert(u.last() == t[t.len() - 2]);
        }
        assert(trim_dash_end(u) == u);
        assert(trim_dash_end(t) == trim_dash_end(u));
    }
}

/// A slug is a name the file system takes as it is: not empty, made of ASCII letters,
/// digits and single dashes, and neither starting nor ending with a dash.
pub proof fn law_slug_is_file_name(title: Seq<char>)
    ensures
        ({
            let slug = spec_slug_from_title(title);
            &&& slug.len() > 0
            &&& forall|i: int| 0 <= i < slug.len() ==> is_ascii_alnum(#[trigger] slug[i]) || slug[i] == '-'
            &&& slug[0] != '-'
            &&& slug.last() != '-'
            &&& forall|i: int| 0 <= i < slug.len() - 1 ==> !(#[trigger] slug[i] == '-' && slug[i + 1] == '-')
        }),
{
    let st = slug_state(lowercase_chars(title));
    lemma_slug_state(lowercase_chars(title));
    let t = st.0;
    assert(trim_dash_start(t) == t);
    lemma_trim_dash_end(t);
    let u = trim_dash_end(t);
    let slug = spec_slug_from_title(title);
    if u.len() == 0 {
        assert(slug == untitled());
        assert forall|i: int| 0 <= i < slug.len() implies is_ascii_alnum(#[trigger] slug[i]) || slug[i] == '-' by {
        }
    } else {
        assert(slug == u);
        assert forall|i: int| 0 <= i < u.len() implies is_ascii_alnum(#[trigger] u[i]) || u[i] == '-' by {
            assert(u[i] == t[i]);
        }
        assert forall|i: int| 0 <= i < u.len() - 1 implies !(#[trigger] u[i] == '-' && u[i + 1] == '-') by {
            assert(u[i] == t[i]);
            assert(u[i + 1] == t[i + 1]);
        }
        assert(u[0] == t[0]);
        if t.len() > 0 && t.last() == '-' {
            if u.last() == '-' {
                assert(!(t[u.len() - 1] == '-' && t[u.len() as int] == '-'));
            }
        }
    }
}

// ---------------------------------------------------------------------------
// The selection
// ---------------------------------------------------------------------------

/// Focusing the next list and then the previous one (or the other way round) comes
/// back to the list focused first; either step stays among the lists.
pub proof fn law_focus_steps_undo(i: int, n: int)
    requires
        0 <= i < n,
    ensures
        0 <= wrapped(i, n, 1) < n,
        0 <= wrapped(i, n, -1) < n,
        wrapped(wrapped(i, n, 1), n, -1) == i,
        wrapped(wrapped(i, n, -1), n, 1) == i,
{
    assert(0 <= wrapped(i, n, 1) < n) by (nonlinear_arith)
        requires
            0 <= i < n,
            wrapped(i, n, 1) == (i + 1) % n,
    ;
    if i + 1 == n {
        assert((i + 1) % n == 0) by (nonlinear_arith)
            requires
                i + 1 == n,
                n > 0,
        ;
    } else {
        assert((i + 1) % n == i + 1) by (nonlinear_arith)
            requires
                0 <= i + 1 < n,
        ;
    }
    if i == 0 {
        assert((i - 1) % n == n - 1) by (nonlinear_arith)
            requires
                i == 0,
                n > 0,
        ;
    } else {
        assert((i - 1) % n == i - 1) by (nonlinear_arith)
            requires
                0 <= i - 1 < n,
        ;
    }
    let a = wrapped(i, n, 1);
    let b = wrapped(i, n, -1);
    if a == 0 {
        assert((a - 1) % n == n - 1) by (nonlinear_arith)
            requires
                a == 0,
                n > 0,
        ;
    } else {
        assert((a - 1) % n == a - 1) by (nonlinear_arith)
            requires
                0 <= a - 1 < n,
        ;
    }
    if b + 1 == n {
        assert((b + 1) % n == 0) by (nonlinear_arith)
            requires
                b + 1 == n,
                n > 0,
        ;
    } else {
        assert((b + 1) % n == b + 1) by (nonlinear_arith)
            requires
                0 <= b + 1 < n,
        ;
    }
}

/// Taking a board as read again leaves the selection fitting it, whatever it was
/// before.
pub proof fn law_reload_fits_selection(new: App, old: App, b: crate::board::Board)
    requires
        App::is_reload_of(new, old, b),
    ensures
        new.selection_fits(),
{
    let n = b.lists@.len() as int;
    let r = resized(old.selected_cards@, n);
    assert(r.len() == n);
    assert forall|i: int| 0 <= i < n implies {
        ||| (#[trigger] new.selected_cards@[i]) < b.lists@[i].cards@.len()
        ||| b.lists@[i].cards@.len() == 0 && new.selected_cards@[i] == 0
    } by {
        assert(new.selected_cards@[i] == clamped(r[i] as int, b.lists@[i].cards@.len() as int) as usize);
    }
}

/// Moving a list puts it at the target index (the last one past the end), keeps the
/// other lists in their order, and numbers the lists so that their positions increase
/// in the new order.
pub proof fn law_moved_list_lands_at_target(ls: Seq<ListMetaView>, from: int, to: int)
    requires
        0 <= from < ls.len(),
        0 <= to,
        ls.len() * POSITION_STEP <= i64::MAX,
    ensures
        ({
            let r = renumbered(moved_entry(ls, from, to));
            let t = if to < ls.len() {
                to
            } else {
                ls.len() - 1
            };
            &&& r.len() == ls.len()
            &&& r[t] == (ListMetaView { position: r[t].position, ..ls[from] })
            &&& forall|i: int|
                0 <= i < ls.len() - 1 ==> (#[trigger] r.remove(t)[i]) == (ListMetaView {
                    position: r.remove(t)[i].position,
                    ..ls.remove(from)[i]
                })
            &&& forall|i: int, j: int| 0 <= i < j < r.len() ==> #[trigger] r[i].position < #[trigger] r[j].position
        }),
{
    let m = moved_entry(ls, from, to);
    let r = renumbered(m);
    let rest = ls.remove(from);
    let t = if to < ls.len() {
        to
    } else {
        ls.len() - 1
    };
    assert(m == rest.insert(t, ls[from]));
    assert forall|i: int| 0 <= i < ls.len() - 1 implies (#[trigger] r.remove(t)[i]) == (ListMetaView {
        position: r.remove(t)[i].position,
        ..rest[i]
    }) by {
        if i < t {
            assert(r.remove(t)[i] == r[i]);
            assert(m[i] == rest[i]);
        } else {
            assert(r.remove(t)[i] == r[i + 1]);
            assert(m[i + 1] == rest[i]);
        }
    }
    assert forall|i: int, j: int| 0 <= i < j < r.len() implies #[trigger] r[i].position
        < #[trigger] r[j].position by {
        assert((i + 1) * POSITION_STEP < (j + 1) * POSITION_STEP) by (nonlinear_arith)
            requires
                i < j,
                POSITION_STEP == 1000,
        ;
        assert((j + 1) * POSITION_STEP <= i64::MAX) by (nonlinear_arith)
            requires
                j + 1 <= r.len(),
                r.len() * POSITION_STEP <= i64::MAX,
                POSITION_STEP == 1000,
        ;
    }
}

} // verus!
