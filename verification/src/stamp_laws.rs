//! Setting a card's position or color stamps it: `updated_at` becomes the time of the
//! edit, and a recorded `created_at` is kept.
use vstd::prelude::*;

use crate::card::{
    body_after, ensure_field, fence, fence_from, field_line, frontmatter_block, frontmatter_end,
    has_field, is_fence, key_color, key_created_at, key_from, key_position, key_updated_at,
    line_has_key, normalize_body, normalized_lines, quoted, spec_markdown_with_color,
    spec_markdown_with_position, upsert_field,
};
use crate::laws::{
    lemma_block_lines, lemma_block_of_text, lemma_edit_no_newline,
    lemma_field_no_newline, lemma_key_from, lemma_keys, lemma_other_key, lemma_stamp_line,
    lemma_upsert_first,
};
use crate::text::{crlf_to_lf, decimal_int, decimal_nat, is_white, lines_of, starts_with, strip_cr, trim, trim_start};
use crate::text_lemmas::{lemma_decimal_ends, lemma_trim_strip_cr, lemma_trim_unchanged, no_newline, strip_crs};

verus! {

/// The first line of `fm` that sets `key`.
pub open spec fn first_field_line(fm: Seq<Seq<char>>, key: Seq<char>) -> Option<Seq<char>> {
    match key_from(fm, key, 0) {
        Some(j) => Some(fm[j]),
        None => None,
    }
}

/// The frontmatter block of a text: the lines between its fences.
pub open spec fn block_of(content: Seq<char>) -> Seq<Seq<char>> {
    let ls = lines_of(content);
    match frontmatter_end(ls) {
        Some(end) => ls.subrange(1, end),
        None => Seq::empty(),
    }
}

// ---------------------------------------------------------------------------
// Keys and trailing carriage returns
// ---------------------------------------------------------------------------

proof fn lemma_trim_start_cr(l: Seq<char>)
    requires
        l.len() > 0,
        l.last() == '\r',
    ensures
        trim_start(l) == (if trim_start(l.drop_last()).len() == 0 {
            trim_start(l.drop_last())
        } else {
            trim_start(l.drop_last()).push('\r')
        }),
    decreases l.len(),
{
    let d = l.drop_last();
    if l.len() == 1 {
        assert(is_white(l[0]));
        assert(l.drop_first() =~= Seq::<char>::empty());
        assert(trim_start(l) == trim_start(l.drop_first()));
        assert(trim_start(Seq::<char>::empty()) == Seq::<char>::empty());
        assert(d =~= Seq::<char>::empty());
    } else if is_white(l[0]) {
        let r = l.drop_first();
        assert(r.last() == l.last());
        lemma_trim_start_cr(r);
        assert(r.drop_last() =~= d.drop_first());
        assert(d[0] == l[0]);
        assert(trim_start(l) == trim_start(r));
        assert(trim_start(d) == trim_start(d.drop_first()));
    } else {
        assert(d[0] == l[0]);
        assert(d.push('\r') =~= l);
    }
}

/// Dropping a trailing `'\r'` does not change which key a line sets.
pub(crate) proof fn lemma_cr_key(l: Seq<char>, key: Seq<char>)
    ensures
        line_has_key(strip_cr(l), key) == line_has_key(l, key),
{
    if l.len() > 0 && l.last() == '\r' {
        lemma_trim_start_cr(l);
        let d = l.drop_last();
        let p = key.push(':');
        let x = trim_start(d);
        if x.len() > 0 {
            if starts_with(x, p) {
                assert(x.push('\r').take(p.len() as int) =~= x.take(p.len() as int));
            }
            if starts_with(x.push('\r'), p) {
                if p.len() == x.len() + 1 {
                    assert(x.push('\r').take(p.len() as int)[x.len() as int] == '\r');
                    assert(p[x.len() as int] == ':');
                } else {
                    assert(x.push('\r').take(p.len() as int) =~= x.take(p.len() as int));
                }
            }
        }
    }
}

proof fn lemma_strip_key_from(fm: Seq<Seq<char>>, key: Seq<char>, k: int)
    requires
        0 <= k,
    ensures
        key_from(strip_crs(fm), key, k) == key_from(fm, key, k),
    decreases fm.len() - k,
{
    if k < fm.len() {
        lemma_cr_key(fm[k], key);
        lemma_strip_key_from(fm, key, k + 1);
    }
}

/// No line sets two keys that differ at index `n`.
proof fn lemma_two_keys(l: Seq<char>, k1: Seq<char>, k2: Seq<char>, n: int)
    requires
        0 <= n < k1.len(),
        n < k2.len(),
        k1[n] != k2[n],
    ensures
        !(line_has_key(l, k1) && line_has_key(l, k2)),
{
    let t = trim_start(l);
    if line_has_key(l, k1) && line_has_key(l, k2) {
        assert(t.take(k1.len() + 1int)[n] == t[n]);
        assert(t.take(k2.len() + 1int)[n] == t[n]);
        assert(k1.push(':')[n] == k1[n]);
        assert(k2.push(':')[n] == k2[n]);
    }
}

proof fn lemma_key_from_update(fm: Seq<Seq<char>>, i: int, x: Seq<char>, key: Seq<char>, k: int)
    requires
        0 <= i < fm.len(),
        0 <= k,
        !line_has_key(fm[i], key),
        !line_has_key(x, key),
    ensures
        key_from(fm.update(i, x), key, k) == key_from(fm, key, k),
    decreases fm.len() - k,
{
    if k < fm.len() {
        lemma_key_from_update(fm, i, x, key, k + 1);
    }
}

proof fn lemma_key_from_push(fm: Seq<Seq<char>>, x: Seq<char>, key: Seq<char>, k: int)
    requires
        0 <= k <= fm.len(),
    ensures
        key_from(fm.push(x), key, k) == (match key_from(fm, key, k) {
            Some(j) => Some(j),
            None => if line_has_key(x, key) {
                Some(fm.len() as int)
            } else {
                None
            },
        }),
    decreases fm.len() - k,
{
    if k < fm.len() {
        assert(fm.push(x)[k] == fm[k]);
        lemma_key_from_push(fm, x, key, k + 1);
    } else {
        assert(fm.push(x)[k] == x);
        assert(key_from(fm.push(x), key, k + 1) is None);
    }
}

/// Setting a key leaves the first line of another key where and as it was.
proof fn lemma_upsert_other(fm: Seq<Seq<char>>, key: Seq<char>, value: Seq<char>, other: Seq<char>, n: int)
    requires
        0 <= n < key.len(),
        n < other.len(),
        key[n] != other[n],
        key.len() > 0,
        !is_white(key[0]),
    ensures
        key_from(upsert_field(fm, key, value), other, 0) == key_from(fm, other, 0),
        first_field_line(upsert_field(fm, key, value), other) == first_field_line(fm, other),
{
    lemma_other_key(key, value, other, n);
    lemma_key_from(fm, key, 0);
    lemma_key_from(fm, other, 0);
    match key_from(fm, key, 0) {
        Some(p) => {
            lemma_two_keys(fm[p], key, other, n);
            lemma_key_from_update(fm, p, field_line(key, value), other, 0);
        },
        None => {
            lemma_key_from_push(fm, field_line(key, value), other, 0);
        },
    }
}

/// The first `key` line of a block after `ensure_field`: as it was, or the added one.
proof fn lemma_ensure_first(fm: Seq<Seq<char>>, key: Seq<char>, value: Seq<char>)
    requires
        key.len() > 0,
        !is_white(key[0]),
    ensures
        first_field_line(ensure_field(fm, key, value), key) == (match first_field_line(fm, key) {
            Some(l) => Some(l),
            None => Some(field_line(key, value)),
        }),
{
    lemma_key_from(fm, key, 0);
    if !has_field(fm, key) {
        lemma_key_from_push(fm, field_line(key, value), key, 0);
        let l = field_line(key, value);
        assert(trim_start(l) == l) by {
            assert(l[0] == key[0]);
        }
        assert(l.take(key.len() + 1int) =~= key.push(':'));
        match key_from(fm, key, 0) {
            Some(j) => {
                assert(line_has_key(fm[j], key));
            },
            None => {},
        }
    } else {
        let i = choose|i: int| 0 <= i < fm.len() && line_has_key(#[trigger] fm[i], key);
        assert(key_from(fm, key, 0) is Some);
    }
}

// ---------------------------------------------------------------------------
// Reading the block back
// ---------------------------------------------------------------------------

pub(crate) proof fn lemma_fence_walk(ls: Seq<Seq<char>>, k: int, e: int)
    requires
        0 <= k <= e < ls.len(),
        forall|t: int| k <= t < e ==> !is_fence(#[trigger] ls[t]),
        is_fence(ls[e]),
    ensures
        fence_from(ls, k) == Some(e),
    decreases e - k,
{
    if k < e {
        lemma_fence_walk(ls, k + 1, e);
    }
}

/// A text made of a frontmatter block and a rest has that block, each line without a
/// trailing `'\r'`.
pub(crate) proof fn lemma_block_read(fm: Seq<Seq<char>>, rest: Seq<char>)
    requires
        fm.len() >= 1,
        forall|i: int| 0 <= i < fm.len() ==> no_newline(#[trigger] fm[i]),
        forall|i: int| 0 <= i < fm.len() ==> !is_fence(#[trigger] fm[i]),
    ensures
        block_of(frontmatter_block(fm) + rest) == strip_crs(fm),
{
    lemma_block_lines(fm, rest);
    let ls = lines_of(frontmatter_block(fm) + rest);
    assert(ls == seq![fence()] + strip_crs(fm) + seq![fence()] + lines_of(rest));
    assert(is_fence(ls[0])) by {
        lemma_trim_unchanged(fence());
    }
    assert(is_fence(ls[fm.len() + 1int])) by {
        lemma_trim_unchanged(fence());
    }
    assert forall|t: int| 1 <= t < fm.len() + 1 implies !is_fence(#[trigger] ls[t]) by {
        assert(ls[t] == strip_cr(fm[t - 1]));
        lemma_trim_strip_cr(fm[t - 1]);
    }
    lemma_fence_walk(ls, 1, fm.len() + 1int);
    assert(ls.subrange(1, fm.len() + 1int) =~= strip_crs(fm));
}

/// A stamp line is its own line with the `'\r'` dropped.
pub(crate) proof fn lemma_stamp_no_cr(key: Seq<char>, now: u64)
    ensures
        strip_cr(field_line(key, decimal_nat(now as nat))) == field_line(key, decimal_nat(now as nat)),
{
    crate::text_lemmas::lemma_decimal_nat(now as nat);
    let s = decimal_nat(now as nat);
    assert(crate::text::is_digit(s[s.len() - 1]));
    assert(s.last() != '\r');
    assert(field_line(key, s).last() == s.last());
}

/// Writing `key` set to `value` with the stamps of `now`: the block read back has
/// `updated_at` at `now`, and `created_at` as recorded before (else at `now`).
proof fn lemma_stamped(content: Seq<char>, key: Seq<char>, value: Seq<char>, now: u64)
    requires
        key == key_position() || key == key_color(),
        value.len() > 0,
        no_newline(value),
    ensures
        ({
            let ls = normalized_lines(content);
            let stamp = decimal_nat(now as nat);
            let out = match frontmatter_end(ls) {
                Some(end) => {
                    let f = upsert_field(
                        ensure_field(upsert_field(ls.subrange(1, end), key, value), key_created_at(), stamp),
                        key_updated_at(),
                        stamp,
                    );
                    frontmatter_block(f) + normalize_body(body_after(ls, end))
                },
                None => frontmatter_block(
                    seq![
                        field_line(key, value),
                        field_line(key_created_at(), stamp),
                        field_line(key_updated_at(), stamp),
                    ],
                ) + normalize_body(crlf_to_lf(content)),
            };
            &&& frontmatter_end(lines_of(out)) is Some
            &&& first_field_line(block_of(out), key_updated_at()) == Some(field_line(key_updated_at(), stamp))
            &&& first_field_line(block_of(out), key_created_at()) == (match frontmatter_end(ls) {
                Some(end) => match first_field_line(ls.subrange(1, end), key_created_at()) {
                    Some(l) => Some(strip_cr(l)),
                    None => Some(field_line(key_created_at(), stamp)),
                },
                None => Some(field_line(key_created_at(), stamp)),
            })
        }),
{
    let ls = normalized_lines(content);
    let stamp = decimal_nat(now as nat);
    lemma_keys();
    lemma_stamp_line(key_created_at(), now);
    lemma_stamp_line(key_updated_at(), now);
    lemma_stamp_no_cr(key_created_at(), now);
    lemma_stamp_no_cr(key_updated_at(), now);
    lemma_field_no_newline(key, value);
    assert(!is_fence(field_line(key, value))) by {
        let l = field_line(key, value);
        assert(l[0] == key[0]);
        if is_fence(l) {
            assert(trim(l) == fence());
            lemma_trim_unchanged_start(l);
            crate::laws::lemma_trim_end_prefix(l);
            assert(trim(l)[0] == l[0]);
        }
    }
    let n_cr = if key == key_position() { 0int } else { 1int };
    match frontmatter_end(ls) {
        Some(end) => {
            lemma_block_of_text(content, end);
            let fm0 = ls.subrange(1, end);
            let f1 = upsert_field(fm0, key, value);
            let f2 = ensure_field(f1, key_created_at(), stamp);
            let f3 = upsert_field(f2, key_updated_at(), stamp);
            lemma_edit_no_newline(fm0, key, value);
            lemma_edit_no_newline(f1, key_created_at(), stamp);
            lemma_edit_no_newline(f2, key_updated_at(), stamp);
            lemma_no_fence_edit(fm0, key, value);
            lemma_no_fence_edit(f1, key_created_at(), stamp);
            lemma_no_fence_edit(f2, key_updated_at(), stamp);
            lemma_upsert_other(fm0, key, value, key_created_at(), n_cr);
            lemma_ensure_first(f1, key_created_at(), stamp);
            lemma_upsert_other(f2, key_updated_at(), stamp, key_created_at(), 0);
            let j = lemma_upsert_first(f2, key_updated_at(), stamp);
            lemma_key_from(f3, key_updated_at(), 0);
            assert(f3[j] == field_line(key_updated_at(), stamp));
            lemma_field_has_key(key_updated_at(), stamp);
            assert(key_from(f3, key_updated_at(), 0) == Some(j));
            lemma_key_from(f3, key_updated_at(), 0);
            assert(f3.len() >= 1);
            let rest = normalize_body(body_after(ls, end));
            lemma_block_read(f3, rest);
            lemma_strip_key_from(f3, key_updated_at(), 0);
            lemma_strip_key_from(f3, key_created_at(), 0);
            lemma_block_lines(f3, rest);
            let out = frontmatter_block(f3) + rest;
            let b = block_of(out);
            assert(b == strip_crs(f3));
            assert(b[j] == strip_cr(f3[j]));
            assert(first_field_line(b, key_updated_at()) == Some(field_line(key_updated_at(), stamp)));
            lemma_key_from(f3, key_created_at(), 0);
            match key_from(f3, key_created_at(), 0) {
                Some(i) => {
                    assert(b[i] == strip_cr(f3[i]));
                    assert(first_field_line(f3, key_created_at()) == Some(f3[i]));
                    assert(first_field_line(b, key_created_at()) == Some(strip_cr(f3[i])));
                    match first_field_line(fm0, key_created_at()) {
                        Some(l) => {
                            assert(f3[i] == l);
                        },
                        None => {
                            assert(f3[i] == field_line(key_created_at(), stamp));
                        },
                    }
                },
                None => {
                    assert(first_field_line(f2, key_created_at()) is None);
                },
            }
            assert(frontmatter_end(lines_of(out)) is Some);
        },
        None => {
            let f = seq![
                field_line(key, value),
                field_line(key_created_at(), stamp),
                field_line(key_updated_at(), stamp),
            ];
            assert forall|i: int| 0 <= i < f.len() implies no_newline(#[trigger] f[i]) by {
            }
            assert forall|i: int| 0 <= i < f.len() implies !is_fence(#[trigger] f[i]) by {
            }
            let rest = normalize_body(crlf_to_lf(content));
            lemma_block_read(f, rest);
            lemma_block_lines(f, rest);
            lemma_strip_key_from(f, key_updated_at(), 0);
            lemma_strip_key_from(f, key_created_at(), 0);
            lemma_field_has_key(key_updated_at(), stamp);
            lemma_field_has_key(key_created_at(), stamp);
            lemma_other_key(key, value, key_created_at(), n_cr);
            lemma_other_key(key, value, key_updated_at(), 0);
            lemma_other_key(key_created_at(), stamp, key_updated_at(), 0);
            assert(strip_crs(f)[1] == f[1]);
            assert(strip_crs(f)[2] == f[2]);
            assert(key_from(f, key_created_at(), 1) == Some(1int));
            assert(key_from(f, key_created_at(), 0) == Some(1int));
            assert(key_from(f, key_updated_at(), 2) == Some(2int));
            assert(key_from(f, key_updated_at(), 1) == Some(2int));
            assert(key_from(f, key_updated_at(), 0) == Some(2int));
            let out = frontmatter_block(f) + rest;
            assert(block_of(out) == strip_crs(f));
            assert(block_of(out).len() == 3);
            assert(frontmatter_end(lines_of(out)) is Some);
        },
    }
}

/// A field line sets its key.
pub(crate) proof fn lemma_field_has_key(key: Seq<char>, value: Seq<char>)
    requires
        key.len() > 0,
        !is_white(key[0]),
    ensures
        line_has_key(field_line(key, value), key),
{
    let l = field_line(key, value);
    assert(trim_start(l) == l) by {
        assert(l[0] == key[0]);
    }
    assert(l.take(key.len() + 1int) =~= key.push(':'));
}

/// A line whose first character is not whitespace is its own start-trim.
proof fn lemma_trim_unchanged_start(l: Seq<char>)
    requires
        l.len() > 0,
        !is_white(l[0]),
    ensures
        trim_start(l) == l,
{
}

/// Setting or adding a field line that is no fence keeps a block free of fences.
pub(crate) proof fn lemma_no_fence_edit(fm: Seq<Seq<char>>, key: Seq<char>, value: Seq<char>)
    requires
        forall|i: int| 0 <= i < fm.len() ==> !is_fence(#[trigger] fm[i]),
        !is_fence(field_line(key, value)),
    ensures
        forall|i: int|
            0 <= i < upsert_field(fm, key, value).len() ==> !is_fence(#[trigger] upsert_field(fm, key, value)[i]),
        forall|i: int|
            0 <= i < ensure_field(fm, key, value).len() ==> !is_fence(#[trigger] ensure_field(fm, key, value)[i]),
{
    let u = upsert_field(fm, key, value);
    lemma_key_from(fm, key, 0);
    assert forall|i: int| 0 <= i < u.len() implies !is_fence(#[trigger] u[i]) by {
        match key_from(fm, key, 0) {
            Some(p) => {
                if i != p {
                    assert(u[i] == fm[i]);
                }
            },
            None => {
                if i < fm.len() {
                    assert(u[i] == fm[i]);
                }
            },
        }
    }
    let e = ensure_field(fm, key, value);
    assert forall|i: int| 0 <= i < e.len() implies !is_fence(#[trigger] e[i]) by {
        if i < fm.len() {
            assert(e[i] == fm[i]);
        }
    }
}

/// Moving a card (setting its position) stamps it: the frontmatter it then has records
/// `updated_at` as the time of the move, and `created_at` as it recorded before (or the
/// time of the move, when it recorded none).
pub proof fn law_position_stamps_card(content: Seq<char>, position: i64, now: u64)
    ensures
        ({
            let out = spec_markdown_with_position(content, position, now);
            let ls = normalized_lines(content);
            let stamp = decimal_nat(now as nat);
            &&& frontmatter_end(lines_of(out)) is Some
            &&& first_field_line(block_of(out), key_updated_at()) == Some(field_line(key_updated_at(), stamp))
            &&& first_field_line(block_of(out), key_created_at()) == (match frontmatter_end(ls) {
                Some(end) => match first_field_line(ls.subrange(1, end), key_created_at()) {
                    Some(l) => Some(strip_cr(l)),
                    None => Some(field_line(key_created_at(), stamp)),
                },
                None => Some(field_line(key_created_at(), stamp)),
            })
        }),
{
    lemma_decimal_ends(position as int);
    lemma_stamped(content, key_position(), decimal_int(position as int), now);
}

/// Coloring a card stamps it the same way (for a color without newlines).
pub proof fn law_color_stamps_card(content: Seq<char>, color: Seq<char>, now: u64)
    requires
        no_newline(color),
    ensures
        ({
            let out = spec_markdown_with_color(content, color, now);
            let ls = normalized_lines(content);
            let stamp = decimal_nat(now as nat);
            &&& frontmatter_end(lines_of(out)) is Some
            &&& first_field_line(block_of(out), key_updated_at()) == Some(field_line(key_updated_at(), stamp))
            &&& first_field_line(block_of(out), key_created_at()) == (match frontmatter_end(ls) {
                Some(end) => match first_field_line(ls.subrange(1, end), key_created_at()) {
                    Some(l) => Some(strip_cr(l)),
                    None => Some(field_line(key_created_at(), stamp)),
                },
                None => Some(field_line(key_created_at(), stamp)),
            })
        }),
{
    let v = quoted(color);
    assert(no_newline(v)) by {
        assert forall|i: int| 0 <= i < v.len() implies v[i] != '\n' by {
            if 0 < i < v.len() - 1 {
                assert(v[i] == color[i - 1]);
            }
        }
    }
    lemma_stamped(content, key_color(), v, now);
}

/// Whether `l` is one of the lines that filling in missing metadata adds.
pub open spec fn is_added_field(l: Seq<char>, default_position: i64, now: u64) -> bool {
    ||| l == field_line(key_position(), decimal_int(default_position as int))
    ||| l == field_line(key_created_at(), decimal_nat(now as nat))
    ||| l == field_line(key_updated_at(), decimal_nat(now as nat))
}

/// The line of a key starting with a letter is no fence.
pub(crate) proof fn lemma_field_not_fence(key: Seq<char>, value: Seq<char>)
    requires
        key.len() > 0,
        'a' <= key[0] <= 'z',
    ensures
        !is_fence(field_line(key, value)),
{
    let l = field_line(key, value);
    assert(l[0] == key[0]);
    if is_fence(l) {
        lemma_trim_unchanged_start(l);
        crate::laws::lemma_trim_end_prefix(l);
        assert(trim(l)[0] == l[0]);
    }
}

/// Filling in the metadata a card lacks keeps the lines of its frontmatter, in order
/// (a kept line may lose a trailing `'\r'`), and only adds the missing `position`,
/// `created_at` and `updated_at` lines after them.
pub proof fn law_filling_metadata_keeps_lines(content: Seq<char>, default_position: i64, now: u64)
    ensures
        ({
            let ls = normalized_lines(content);
            let out = crate::card::spec_markdown_with_missing_metadata(content, default_position, now);
            let b = block_of(out);
            frontmatter_end(ls) matches Some(end) ==> {
                let fm0 = ls.subrange(1, end);
                &&& frontmatter_end(lines_of(out)) is Some
                &&& fm0.len() <= b.len() <= fm0.len() + 3
                &&& forall|i: int| 0 <= i < fm0.len() ==> #[trigger] b[i] == fm0[i] || b[i] == strip_cr(fm0[i])
                &&& forall|i: int|
                    fm0.len() <= i < b.len() ==> is_added_field(#[trigger] b[i], default_position, now)
            }
        }),
{
    let ls = normalized_lines(content);
    let out = crate::card::spec_markdown_with_missing_metadata(content, default_position, now);
    let stamp = decimal_nat(now as nat);
    let v = decimal_int(default_position as int);
    match frontmatter_end(ls) {
        Some(end) => {
            let fm0 = ls.subrange(1, end);
            lemma_block_of_text(content, end);
            if has_field(fm0, key_position()) && has_field(fm0, key_created_at()) && has_field(
                fm0,
                key_updated_at(),
            ) {
                assert(out == crlf_to_lf(content));
                assert(lines_of(out) == ls);
                assert(block_of(out) == fm0);
            } else {
                lemma_keys();
                lemma_decimal_ends(default_position as int);
                lemma_stamp_line(key_created_at(), now);
                lemma_stamp_line(key_updated_at(), now);
                lemma_stamp_no_cr(key_created_at(), now);
                lemma_stamp_no_cr(key_updated_at(), now);
                lemma_field_no_newline(key_position(), v);
                lemma_field_not_fence(key_position(), v);
                let f1 = ensure_field(fm0, key_position(), v);
                let f2 = ensure_field(f1, key_created_at(), stamp);
                let f3 = ensure_field(f2, key_updated_at(), stamp);
                lemma_edit_no_newline(fm0, key_position(), v);
                lemma_edit_no_newline(f1, key_created_at(), stamp);
                lemma_edit_no_newline(f2, key_updated_at(), stamp);
                lemma_no_fence_edit(fm0, key_position(), v);
                lemma_no_fence_edit(f1, key_created_at(), stamp);
                lemma_no_fence_edit(f2, key_updated_at(), stamp);
                assert(f3.len() >= 1) by {
                    if fm0.len() == 0 {
                        assert(!has_field(fm0, key_position()));
                    }
                }
                let rest = normalize_body(body_after(ls, end));
                assert(out == frontmatter_block(f3) + rest);
                lemma_block_read(f3, rest);
                lemma_block_lines(f3, rest);
                let b = block_of(out);
                assert(strip_cr(v) == v) by {
                    assert(v.last() != '\r');
                    assert(field_line(key_position(), v).last() == v.last());
                }
                assert(strip_cr(field_line(key_position(), v)) == field_line(key_position(), v)) by {
                    assert(field_line(key_position(), v).last() == v.last());
                }
                assert forall|i: int| 0 <= i < fm0.len() implies #[trigger] b[i] == fm0[i] || b[i]
                    == strip_cr(fm0[i]) by {
                    assert(f3[i] == f2[i]);
                    assert(f2[i] == f1[i]);
                    assert(f1[i] == fm0[i]);
                    assert(b[i] == strip_cr(f3[i]));
                }
                assert forall|i: int| fm0.len() <= i < b.len() implies is_added_field(
                    #[trigger] b[i],
                    default_position,
                    now,
                ) by {
                    assert(b[i] == strip_cr(f3[i]));
                    if i < f1.len() {
                        assert(f3[i] == f1[i]);
                        assert(f1[i] == field_line(key_position(), v));
                    } else if i < f2.len() {
                        assert(f3[i] == f2[i]);
                        assert(f2[i] == field_line(key_created_at(), stamp));
                    } else {
                        assert(f3[i] == field_line(key_updated_at(), stamp));
                    }
                }
            }
        },
        None => {},
    }
}

// ---------------------------------------------------------------------------
// Stamping lines and joining them again
// ---------------------------------------------------------------------------

/// The lines of lines joined again (with a final newline or not): each line but the
/// last loses a trailing `'\r'`; the last is kept as it is, or loses its `'\r'` too, or
/// is dropped when empty.
pub(crate) proof fn lemma_rejoined_lines(m: Seq<Seq<char>>, content: Seq<char>)
    requires
        m.len() >= 1,
        forall|i: int| 0 <= i < m.len() ==> no_newline(#[trigger] m[i]),
    ensures
        ({
            let r = lines_of(crate::card::rejoined(m, content));
            &&& m.len() - 1 <= r.len() <= m.len()
            &&& forall|i: int| 0 <= i < m.len() - 1 ==> #[trigger] r[i] == strip_cr(m[i])
            &&& r.len() == m.len() ==> (r[m.len() - 1] == m.last() || r[m.len() - 1] == strip_cr(m.last()))
            &&& m.last().len() > 0 ==> r.len() == m.len()
        }),
{
    let last = m.last();
    let init = m.drop_last();
    let tail_nl = crate::text::ends_with_char(content, '\n');
    let tail = if tail_nl {
        last + seq!['\n']
    } else {
        last
    };
    assert(no_newline(m[m.len() - 1]));
    let e = lines_of(tail);
    if tail_nl {
        lemma_lines_after_line_local(last);
    } else {
        crate::title_laws::lemma_lines_of_line(last);
    }
    if m.len() == 1 {
        assert(crate::card::rejoined(m, content) =~= tail);
    } else {
        assert forall|i: int| 0 <= i < init.len() implies no_newline(#[trigger] init[i]) by {
            assert(init[i] == m[i]);
        }
        crate::text_lemmas::lemma_lines_after_join(init, tail);
        assert(crate::text::join_lines(m) == crate::text::join_lines(init) + seq!['\n'] + last);
        assert(crate::card::rejoined(m, content) =~= crate::text::join_lines(init) + seq!['\n'] + tail);
    }
}

/// The lines of a line with a newline after it: that line, without a trailing `'\r'`.
proof fn lemma_lines_after_line_local(last: Seq<char>)
    requires
        no_newline(last),
    ensures
        lines_of(last + seq!['\n']) == seq![strip_cr(last)],
{
    crate::text_lemmas::lemma_lines_after_line(last, Seq::empty());
    crate::title_laws::lemma_lines_of_line(Seq::<char>::empty());
    assert(last + seq!['\n'] =~= last + seq!['\n'] + Seq::<char>::empty());
    assert(seq![strip_cr(last)] + Seq::<Seq<char>>::empty() =~= seq![strip_cr(last)]);
}

/// Stamping lines without newlines and joining them again: the text read back has a
/// frontmatter whose `updated_at` is `now`, and whose `created_at` is the one the lines
/// recorded (else `now`).
proof fn lemma_touched_text(l: Seq<Seq<char>>, content: Seq<char>, now: u64)
    requires
        forall|i: int| 0 <= i < l.len() ==> no_newline(#[trigger] l[i]),
    ensures
        ({
            let out = crate::card::rejoined(crate::card::spec_touch_updated_at(l, now), content);
            let stamp = decimal_nat(now as nat);
            &&& frontmatter_end(lines_of(out)) is Some
            &&& first_field_line(block_of(out), key_updated_at()) == Some(field_line(key_updated_at(), stamp))
            &&& first_field_line(block_of(out), key_created_at()) == (match frontmatter_end(l) {
                Some(end) => match first_field_line(l.subrange(1, end), key_created_at()) {
                    Some(x) => Some(strip_cr(x)),
                    None => Some(field_line(key_created_at(), stamp)),
                },
                None => Some(field_line(key_created_at(), stamp)),
            })
        }),
{
    let stamp = decimal_nat(now as nat);
    let m = crate::card::spec_touch_updated_at(l, now);
    let out = crate::card::rejoined(m, content);
    lemma_keys();
    lemma_stamp_line(key_created_at(), now);
    lemma_stamp_line(key_updated_at(), now);
    lemma_stamp_no_cr(key_created_at(), now);
    lemma_stamp_no_cr(key_updated_at(), now);
    lemma_field_has_key(key_updated_at(), stamp);
    lemma_field_has_key(key_created_at(), stamp);
    assert(is_fence(fence())) by {
        lemma_trim_unchanged(fence());
    }
    // The stamped lines: a fence, the block `fm`, and a fence at `e`.
    let (fm, e) = match frontmatter_end(l) {
        Some(end) => {
            crate::laws::lemma_fence_from_first(l, 1);
            lemma_fence_found(l, 1);
            let fm0 = l.subrange(1, end);
            assert forall|i: int| 0 <= i < fm0.len() implies no_newline(#[trigger] fm0[i]) && !is_fence(
                fm0[i],
            ) by {
                assert(fm0[i] == l[i + 1]);
            }
            let f1 = ensure_field(fm0, key_created_at(), stamp);
            let f2 = upsert_field(f1, key_updated_at(), stamp);
            lemma_edit_no_newline(fm0, key_created_at(), stamp);
            lemma_edit_no_newline(f1, key_updated_at(), stamp);
            lemma_no_fence_edit(fm0, key_created_at(), stamp);
            lemma_no_fence_edit(f1, key_updated_at(), stamp);
            lemma_ensure_first(fm0, key_created_at(), stamp);
            lemma_upsert_other(f1, key_updated_at(), stamp, key_created_at(), 0);
            let j = lemma_upsert_first(f1, key_updated_at(), stamp);
            lemma_key_from(f2, key_updated_at(), 0);
            assert(key_from(f2, key_updated_at(), 0) == Some(j));
            assert(m == l.take(1) + f2 + l.skip(end));
            assert(m[0] == l[0]);
            assert(m[f2.len() + 1int] == l[end]);
            assert forall|i: int| 0 <= i < m.len() implies no_newline(#[trigger] m[i]) by {
                if i == 0 {
                    assert(m[0] == l[0]);
                } else if i < f2.len() + 1 {
                    assert(m[i] == f2[i - 1]);
                } else {
                    assert(m[i] == l[i - f2.len() - 1 + end]);
                }
            }
            assert forall|i: int| 1 <= i < f2.len() + 1 implies #[trigger] m[i] == f2[i - 1] by {
            }
            (f2, f2.len() + 1int)
        },
        None => {
            let f = seq![field_line(key_created_at(), stamp), field_line(key_updated_at(), stamp)];
            lemma_other_key(key_created_at(), stamp, key_updated_at(), 0);
            assert(key_from(f, key_updated_at(), 1) == Some(1int));
            assert(key_from(f, key_updated_at(), 0) == Some(1int));
            assert(key_from(f, key_created_at(), 0) == Some(0int));
            assert(m =~= seq![fence()] + f + seq![fence(), Seq::<char>::empty()] + l);
            assert forall|i: int| 0 <= i < m.len() implies no_newline(#[trigger] m[i]) by {
                if i >= 5 {
                    assert(m[i] == l[i - 5]);
                } else if i == 4 {
                    assert(m[4] == Seq::<char>::empty());
                }
            }
            assert forall|i: int| 1 <= i < 3 implies #[trigger] m[i] == f[i - 1] by {
            }
            assert forall|i: int| 0 <= i < f.len() implies !is_fence(#[trigger] f[i]) by {
            }
            (f, 3int)
        },
    };
    assert(m[0] == fence() || is_fence(m[0]));
    assert(is_fence(m[0]));
    assert(is_fence(m[e]));
    assert(e < m.len());
    lemma_rejoined_lines(m, content);
    let r = lines_of(out);
    // Read back: the same fences and block, lines without a trailing `'\r'`.
    assert(e <= r.len() - 1) by {
        if e == m.len() - 1 {
            assert(m.last() == m[e]);
            assert(m.last().len() > 0) by {
                if m.last().len() == 0 {
                    assert(trim(m.last()) == Seq::<char>::empty());
                }
            }
        }
    }
    assert forall|i: int| 0 <= i <= e implies #[trigger] trim(r[i]) == trim(m[i]) by {
        if i < m.len() - 1 {
            lemma_trim_strip_cr(m[i]);
        } else {
            lemma_trim_strip_cr(m.last());
        }
    }
    assert(is_fence(r[0]));
    assert(is_fence(r[e]));
    assert forall|t: int| 1 <= t < e implies !is_fence(#[trigger] r[t]) by {
        assert(m[t] == fm[t - 1]);
        assert(trim(r[t]) == trim(m[t]));
    }
    lemma_fence_walk(r, 1, e);
    let b = block_of(out);
    assert(b == r.subrange(1, e));
    assert forall|i: int| 0 <= i < fm.len() implies #[trigger] b[i] == strip_cr(fm[i]) by {
        assert(r[i + 1] == strip_cr(m[i + 1]));
        assert(m[i + 1] == fm[i]);
    }
    assert(b =~= strip_crs(fm));
    lemma_strip_key_from(fm, key_updated_at(), 0);
    lemma_strip_key_from(fm, key_created_at(), 0);
    lemma_key_from(fm, key_created_at(), 0);
    lemma_key_from(fm, key_updated_at(), 0);
}

pub(crate) proof fn lemma_fence_found(ls: Seq<Seq<char>>, k: int)
    requires
        0 <= k,
    ensures
        fence_from(ls, k) matches Some(i) ==> k <= i < ls.len() && is_fence(ls[i]),
    decreases ls.len() - k,
{
    if k < ls.len() && !is_fence(ls[k]) {
        lemma_fence_found(ls, k + 1);
    }
}

/// Stamping a card records `updated_at` as the time of the stamp, adds `created_at`
/// only when its frontmatter has none, and keeps the one it has.
pub proof fn law_updated_at_stamps_card(content: Seq<char>, now: u64)
    ensures
        ({
            let out = crate::card::spec_markdown_with_updated_at(content, now);
            let ls = normalized_lines(content);
            let stamp = decimal_nat(now as nat);
            &&& frontmatter_end(lines_of(out)) is Some
            &&& first_field_line(block_of(out), key_updated_at()) == Some(field_line(key_updated_at(), stamp))
            &&& first_field_line(block_of(out), key_created_at()) == (match frontmatter_end(ls) {
                Some(end) => match first_field_line(ls.subrange(1, end), key_created_at()) {
                    Some(x) => Some(strip_cr(x)),
                    None => Some(field_line(key_created_at(), stamp)),
                },
                None => Some(field_line(key_created_at(), stamp)),
            })
        }),
{
    crate::text_lemmas::lemma_lines_no_newline(crlf_to_lf(content));
    lemma_touched_text(normalized_lines(content), content, now);
}

/// Renaming a card stamps it too: the text then begins with a frontmatter whose
/// `updated_at` is the time of the rename and which records a `created_at` (for a
/// title without newlines).
pub proof fn law_title_stamps_card(content: Seq<char>, title: Seq<char>, now: u64)
    requires
        no_newline(title),
    ensures
        ({
            let out = crate::card::spec_markdown_with_title(content, title, now);
            let stamp = decimal_nat(now as nat);
            &&& frontmatter_end(lines_of(out)) is Some
            &&& first_field_line(block_of(out), key_updated_at()) == Some(field_line(key_updated_at(), stamp))
            &&& first_field_line(block_of(out), key_created_at()) is Some
        }),
{
    let ls = normalized_lines(content);
    crate::text_lemmas::lemma_lines_no_newline(crlf_to_lf(content));
    crate::title_laws::lemma_tt_no_newline(title);
    let tl = crate::card::title_line(title);
    assert(no_newline(tl)) by {
        assert forall|i: int| 0 <= i < tl.len() implies tl[i] != '\n' by {
            if i >= 2 {
                assert(tl[i] == trim(title)[i - 2]);
            }
        }
    }
    let l2 = crate::card::titled_lines(ls, title);
    crate::title_laws::lemma_heading_line_from(ls, 0);
    lemma_fence_found(ls, 1);
    assert forall|i: int| 0 <= i < l2.len() implies no_newline(#[trigger] l2[i]) by {
        match crate::card::heading_line_from(ls, 0) {
            Some(h) => {
                if i != h {
                    assert(l2[i] == ls[i]);
                }
            },
            None => match frontmatter_end(ls) {
                Some(end) => {
                    if i <= end {
                        assert(l2[i] == ls[i]);
                    } else if i >= end + 3 {
                        assert(l2[i] == ls[i - 2]);
                    }
                },
                None => {
                    if i >= 2 {
                        assert(l2[i] == ls[i - 2]);
                    }
                },
            },
        }
    }
    lemma_touched_text(l2, content, now);
}

// ---------------------------------------------------------------------------
// Stamping keeps the position
// ---------------------------------------------------------------------------

/// Whether `l` is neither a fence nor a `position:` line.
pub open spec fn plain_field(l: Seq<char>) -> bool {
    !is_fence(l) && !starts_with(trim(l), key_position().push(':'))
}

proof fn lemma_position_update(fm: Seq<Seq<char>>, u: int, x: Seq<char>, k: int)
    requires
        0 <= u < fm.len(),
        0 <= k,
        plain_field(fm[u]),
        plain_field(x),
    ensures
        crate::card::position_from(fm.update(u, x), k) == crate::card::position_from(fm, k),
    decreases fm.len() - k,
{
    if k < fm.len() {
        lemma_position_update(fm, u, x, k + 1);
    }
}

proof fn lemma_position_push(fm: Seq<Seq<char>>, x: Seq<char>, k: int)
    requires
        0 <= k,
        plain_field(x),
    ensures
        crate::card::position_from(fm.push(x), k) == crate::card::position_from(fm, k),
    decreases fm.len() + 1 - k,
{
    if k < fm.len() {
        assert(fm.push(x)[k] == fm[k]);
        lemma_position_push(fm, x, k + 1);
    } else if k == fm.len() {
        assert(fm.push(x)[k] == x);
        assert(crate::card::position_from(fm.push(x), k + 1) is None);
    }
}

/// A line that sets a key other than `position` is no `position:` line.
proof fn lemma_key_not_position(l: Seq<char>, key: Seq<char>)
    requires
        key == key_created_at() || key == key_updated_at(),
        line_has_key(l, key),
    ensures
        plain_field(l),
{
    lemma_two_keys(l, key, key_position(), 0);
    crate::laws::lemma_key_trim(l, key_position().push(':'));
    if is_fence(l) {
        let t = trim_start(l);
        crate::laws::lemma_trim_end_prefix(t);
        assert(t.take(key.len() + 1int)[0] == t[0]);
        assert(t.take(key.len() + 1int)[key.len() as int] == ':');
        assert(t[key.len() as int] == ':');
        let n = crate::text::trim_end(t).len() as int;
        if n <= key.len() {
            assert(is_white(t[key.len() as int]));
        }
        assert(trim(l)[0] == t[0]);
        assert(trim(l)[0] == key[0]);
    }
}

/// Setting or adding a stamp keeps the position a block gives.
proof fn lemma_stamp_keeps_position(fm: Seq<Seq<char>>, key: Seq<char>, value: Seq<char>)
    requires
        key == key_created_at() || key == key_updated_at(),
        forall|i: int| 0 <= i < fm.len() ==> !is_fence(#[trigger] fm[i]),
    ensures
        crate::card::position_from(upsert_field(fm, key, value), 0) == crate::card::position_from(fm, 0),
        crate::card::position_from(ensure_field(fm, key, value), 0) == crate::card::position_from(fm, 0),
{
    lemma_keys();
    lemma_field_has_key(key, value);
    lemma_key_not_position(field_line(key, value), key);
    lemma_key_from(fm, key, 0);
    match key_from(fm, key, 0) {
        Some(u) => {
            lemma_key_not_position(fm[u], key);
            lemma_position_update(fm, u, field_line(key, value), 0);
        },
        None => {
            lemma_position_push(fm, field_line(key, value), 0);
        },
    }
    if !has_field(fm, key) {
        lemma_position_push(fm, field_line(key, value), 0);
    }
}

proof fn lemma_trimmed_position(a: Seq<Seq<char>>, b: Seq<Seq<char>>, k: int, e: int)
    requires
        0 <= k <= e,
        e < a.len(),
        e < b.len(),
        forall|t: int| k <= t <= e ==> #[trigger] trim(a[t]) == trim(b[t]),
        is_fence(a[e]),
    ensures
        crate::card::position_from(a, k) == crate::card::position_from(b, k),
    decreases e - k,
{
    assert(trim(a[k]) == trim(b[k]));
    if k < e {
        lemma_trimmed_position(a, b, k + 1, e);
    }
}

/// Stamping a card keeps the position it records in a closed frontmatter.
pub proof fn law_updated_at_keeps_position(content: Seq<char>, now: u64)
    requires
        frontmatter_end(normalized_lines(content)) is Some,
    ensures
        crate::card::spec_position_from_markdown(crate::card::spec_markdown_with_updated_at(content, now))
            == crate::card::spec_position_from_markdown(content),
{
    let ls = normalized_lines(content);
    let end = frontmatter_end(ls)->0;
    let stamp = decimal_nat(now as nat);
    crate::fill_laws::lemma_position_crlf(content);
    crate::laws::lemma_fence_from_first(ls, 1);
    lemma_fence_found(ls, 1);
    crate::text_lemmas::lemma_lines_no_newline(crlf_to_lf(content));
    let fm0 = ls.subrange(1, end);
    assert forall|i: int| 0 <= i < fm0.len() implies #[trigger] ls[i + 1] == fm0[i] && !is_fence(fm0[i]) by {
    }
    crate::fill_laws::lemma_scan_block(ls, fm0, 0);
    let f1 = ensure_field(fm0, key_created_at(), stamp);
    let f2 = upsert_field(f1, key_updated_at(), stamp);
    lemma_keys();
    lemma_stamp_line(key_created_at(), now);
    lemma_stamp_line(key_updated_at(), now);
    lemma_no_fence_edit(fm0, key_created_at(), stamp);
    lemma_stamp_keeps_position(fm0, key_created_at(), stamp);
    lemma_stamp_keeps_position(f1, key_updated_at(), stamp);
    lemma_edit_no_newline(fm0, key_created_at(), stamp);
    lemma_edit_no_newline(f1, key_updated_at(), stamp);
    let m = crate::card::spec_touch_updated_at(ls, now);
    assert(m == ls.take(1) + f2 + ls.skip(end));
    let e: int = f2.len() + 1int;
    assert(m[0] == ls[0]);
    assert(m[e] == ls[end]);
    assert forall|i: int| 0 <= i < f2.len() implies #[trigger] m[i + 1] == f2[i] by {
    }
    crate::fill_laws::lemma_scan_block(m, f2, 0);
    assert forall|i: int| 0 <= i < m.len() implies no_newline(#[trigger] m[i]) by {
        if i == 0 {
            assert(m[0] == ls[0]);
        } else if i < f2.len() + 1 {
            assert(m[i] == f2[i - 1]);
        } else {
            assert(m[i] == ls[i - f2.len() - 1 + end]);
        }
    }
    let out = crate::card::rejoined(m, content);
    lemma_rejoined_lines(m, content);
    let r = lines_of(out);
    assert(e <= r.len() - 1) by {
        if e == m.len() - 1 {
            assert(m.last() == m[e]);
            if m.last().len() == 0 {
                assert(trim(m.last()) == Seq::<char>::empty());
            }
        }
    }
    assert forall|i: int| 0 <= i <= e implies #[trigger] trim(m[i]) == trim(r[i]) by {
        if i < m.len() - 1 {
            lemma_trim_strip_cr(m[i]);
        } else {
            lemma_trim_strip_cr(m.last());
        }
    }
    assert(is_fence(m[e]));
    lemma_trimmed_position(m, r, 1, e);
    assert(trim(m[0]) == trim(r[0]));
}

} // verus!
