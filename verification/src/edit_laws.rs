//! Setting a card's position or color keeps its title.
use vstd::prelude::*;

use crate::card::{
    body_after, ensure_field, fence, field_line, first_heading_from, frontmatter_block,
    frontmatter_end, heading_prefix, heading_title, key_color, key_created_at, key_from,
    key_position, key_updated_at, line_has_key, normalize_body, normalized_lines, quoted,
    spec_markdown_with_color, spec_markdown_with_position, spec_title_from_markdown, upsert_field,
};
use crate::fill_laws::{lemma_lines_crlf, same_trimmed};
use crate::laws::{
    lemma_block_lines, lemma_block_of_text, lemma_edit_no_newline, lemma_fence_from_first,
    lemma_field_no_newline, lemma_key_from, lemma_keys, lemma_stamp_line, lemma_trim_end_prefix,
};
use crate::text::{
    crlf_to_lf, decimal_int, decimal_nat, is_white, join_lines, lines_of, starts_with, strip_cr, trim,
    trim_leading_newlines, trim_start,
};
use crate::text_lemmas::{
    lemma_decimal_ends, lemma_lines_after_join, lemma_lines_after_line, lemma_lines_no_newline,
    lemma_trim_strip_cr, no_newline, strip_crs,
};
use crate::title_laws::lemma_lines_of_line;

verus! {

/// The first title among the lines `ls`.
pub open spec fn first_title(ls: Seq<Seq<char>>) -> Option<Seq<char>> {
    first_heading_from(ls, 0)
}

/// Whether no line of `ls` gives a title.
pub open spec fn no_titles(ls: Seq<Seq<char>>) -> bool {
    forall|i: int| 0 <= i < ls.len() ==> heading_title(#[trigger] ls[i]) is None
}

// ---------------------------------------------------------------------------
// The first title of joined line sequences
// ---------------------------------------------------------------------------

proof fn lemma_heading_concat(a: Seq<Seq<char>>, b: Seq<Seq<char>>, k: int)
    requires
        0 <= k <= a.len(),
    ensures
        first_heading_from(a + b, k) == (match first_heading_from(a, k) {
            Some(t) => Some(t),
            None => first_heading_from(b, 0),
        }),
    decreases a.len() + b.len() - k,
{
    if k < a.len() {
        assert((a + b)[k] == a[k]);
        lemma_heading_concat(a, b, k + 1);
    } else {
        lemma_heading_shift(a, b, 0);
    }
}

proof fn lemma_heading_shift(a: Seq<Seq<char>>, b: Seq<Seq<char>>, j: int)
    requires
        0 <= j <= b.len(),
    ensures
        first_heading_from(a + b, a.len() + j) == first_heading_from(b, j),
    decreases b.len() - j,
{
    if j < b.len() {
        assert((a + b)[a.len() + j] == b[j]);
        lemma_heading_shift(a, b, j + 1);
    }
}

/// The first title of `a + b`: that of `a`, or else that of `b`.
proof fn lemma_title_concat(a: Seq<Seq<char>>, b: Seq<Seq<char>>)
    ensures
        first_title(a + b) == (match first_title(a) {
            Some(t) => Some(t),
            None => first_title(b),
        }),
{
    lemma_heading_concat(a, b, 0);
}

proof fn lemma_no_titles_from(ls: Seq<Seq<char>>, k: int)
    requires
        no_titles(ls),
        0 <= k,
    ensures
        first_heading_from(ls, k) is None,
    decreases ls.len() - k,
{
    if k < ls.len() {
        lemma_no_titles_from(ls, k + 1);
    }
}

proof fn lemma_trimmed_headings(a: Seq<Seq<char>>, b: Seq<Seq<char>>, k: int)
    requires
        same_trimmed(a, b),
        0 <= k,
    ensures
        first_heading_from(a, k) == first_heading_from(b, k),
    decreases a.len() - k,
{
    if k < a.len() {
        assert(trim(a[k]) == trim(b[k]));
        lemma_trimmed_headings(a, b, k + 1);
    }
}

/// Lines that agree once trimmed have the same first title.
proof fn lemma_trimmed_title(a: Seq<Seq<char>>, b: Seq<Seq<char>>)
    requires
        same_trimmed(a, b),
    ensures
        first_title(a) == first_title(b),
{
    lemma_trimmed_headings(a, b, 0);
}

/// Dropping a trailing `'\r'` from each line keeps the first title.
proof fn lemma_strip_crs_title(ls: Seq<Seq<char>>)
    ensures
        first_title(strip_crs(ls)) == first_title(ls),
{
    assert forall|i: int| 0 <= i < ls.len() implies #[trigger] trim(strip_crs(ls)[i]) == trim(ls[i]) by {
        lemma_trim_strip_cr(ls[i]);
    }
    lemma_trimmed_title(strip_crs(ls), ls);
}

proof fn lemma_update_headings(ls: Seq<Seq<char>>, i: int, x: Seq<char>, k: int)
    requires
        0 <= i < ls.len(),
        heading_title(ls[i]) is None,
        heading_title(x) is None,
        0 <= k,
    ensures
        first_heading_from(ls.update(i, x), k) == first_heading_from(ls, k),
    decreases ls.len() - k,
{
    if k < ls.len() {
        lemma_update_headings(ls, i, x, k + 1);
    }
}

// ---------------------------------------------------------------------------
// Field lines are no titles
// ---------------------------------------------------------------------------

/// A line whose trim starts with a character other than `#` gives no title.
proof fn lemma_not_hash(l: Seq<char>)
    requires
        trim(l).len() > 0,
        trim(l)[0] != '#',
    ensures
        heading_title(l) is None,
{
    if starts_with(trim(l), heading_prefix()) {
        assert(trim(l).take(2)[0] == heading_prefix()[0]);
    }
}

/// A line that sets a key starting with a letter gives no title.
proof fn lemma_key_line_no_title(l: Seq<char>, key: Seq<char>)
    requires
        key.len() > 0,
        'a' <= key[0] <= 'z',
        line_has_key(l, key),
    ensures
        heading_title(l) is None,
{
    let t = trim_start(l);
    lemma_trim_end_prefix(t);
    let k = key.len() as int;
    assert(t.take(k + 1)[0] == key[0]);
    assert(t.take(k + 1)[k] == ':');
    assert(t[k] == ':');
    let m = crate::text::trim_end(t).len() as int;
    if m <= k {
        assert(is_white(t[k]));
    }
    assert(trim(l)[0] == t[0]);
    lemma_not_hash(l);
}

/// A field line of a key starting with a letter sets that key and gives no title.
proof fn lemma_field_line_no_title(key: Seq<char>, value: Seq<char>)
    requires
        key.len() > 0,
        'a' <= key[0] <= 'z',
    ensures
        heading_title(field_line(key, value)) is None,
{
    let l = field_line(key, value);
    assert(trim_start(l) == l) by {
        assert(l[0] == key[0]);
    }
    assert(l.take(key.len() + 1int) =~= key.push(':'));
    lemma_key_line_no_title(l, key);
}

/// Setting or adding a field keeps the first title of a block.
proof fn lemma_edit_keeps_title(fm: Seq<Seq<char>>, key: Seq<char>, value: Seq<char>)
    requires
        key.len() > 0,
        'a' <= key[0] <= 'z',
    ensures
        first_title(upsert_field(fm, key, value)) == first_title(fm),
        first_title(ensure_field(fm, key, value)) == first_title(fm),
{
    lemma_field_line_no_title(key, value);
    lemma_key_from(fm, key, 0);
    match key_from(fm, key, 0) {
        Some(i) => {
            lemma_key_line_no_title(fm[i], key);
            lemma_update_headings(fm, i, field_line(key, value), 0);
        },
        None => {
            lemma_title_concat(fm, seq![field_line(key, value)]);
            assert(fm.push(field_line(key, value)) == fm + seq![field_line(key, value)]);
            assert(first_heading_from(seq![field_line(key, value)], 1) is None);
        },
    }
    if !crate::card::has_field(fm, key) {
        lemma_title_concat(fm, seq![field_line(key, value)]);
        assert(fm.push(field_line(key, value)) == fm + seq![field_line(key, value)]);
        assert(first_heading_from(seq![field_line(key, value)], 1) is None);
    }
}

// ---------------------------------------------------------------------------
// The body after the frontmatter
// ---------------------------------------------------------------------------

/// Newlines in front of a text add only empty lines, which give no title.
proof fn lemma_leading_newlines_title(s: Seq<char>)
    ensures
        first_title(lines_of(trim_leading_newlines(s))) == first_title(lines_of(s)),
    decreases s.len(),
{
    if s.len() > 0 && s[0] == '\n' {
        let r = s.drop_first();
        lemma_leading_newlines_title(r);
        assert(s =~= Seq::<char>::empty() + seq!['\n'] + r);
        lemma_lines_after_line(Seq::<char>::empty(), r);
        assert(strip_cr(Seq::<char>::empty()) == Seq::<char>::empty());
        lemma_title_concat(seq![Seq::<char>::empty()], lines_of(r));
        assert(trim(Seq::<char>::empty()) == Seq::<char>::empty());
        assert(first_heading_from(seq![Seq::<char>::empty()], 1) is None);
    }
}

/// The empty line gives no title, alone or in front of other lines.
proof fn lemma_empty_line_title(rest: Seq<Seq<char>>)
    ensures
        heading_title(Seq::<char>::empty()) is None,
        first_title(seq![Seq::<char>::empty()] + rest) == first_title(rest),
{
    assert(trim(Seq::<char>::empty()) =~= Seq::<char>::empty());
    lemma_title_concat(seq![Seq::<char>::empty()], rest);
    assert(first_heading_from(seq![Seq::<char>::empty()], 1) is None);
}

/// The lines of joined lines give the title those lines give.
proof fn lemma_joined_title(ls: Seq<Seq<char>>)
    requires
        forall|i: int| 0 <= i < ls.len() ==> no_newline(#[trigger] ls[i]),
    ensures
        first_title(lines_of(join_lines(ls))) == first_title(ls),
{
    lemma_empty_line_title(Seq::empty());
    if ls.len() == 0 {
        lemma_lines_of_line(Seq::<char>::empty());
        assert(lines_of(join_lines(ls)) =~= Seq::<Seq<char>>::empty());
    } else if ls.len() == 1 {
        lemma_lines_of_line(ls[0]);
        if ls[0].len() == 0 {
            assert(ls[0] =~= Seq::<char>::empty());
            assert(ls =~= seq![Seq::<char>::empty()] + Seq::<Seq<char>>::empty());
        } else {
            assert(lines_of(join_lines(ls)) =~= ls);
        }
    } else {
        let init = ls.drop_last();
        let last = ls.last();
        assert forall|i: int| 0 <= i < init.len() implies no_newline(#[trigger] init[i]) by {
            assert(init[i] == ls[i]);
        }
        lemma_lines_after_join(init, last);
        lemma_lines_of_line(last);
        lemma_strip_crs_title(init);
        lemma_title_concat(strip_crs(init), lines_of(last));
        lemma_title_concat(init, seq![last]);
        assert(ls =~= init + seq![last]);
        if last.len() == 0 {
            assert(last =~= Seq::<char>::empty());
            assert(seq![last] =~= seq![Seq::<char>::empty()] + Seq::<Seq<char>>::empty());
            assert(lines_of(last) =~= Seq::<Seq<char>>::empty());
        } else {
            assert(lines_of(last) =~= seq![last]);
        }
    }
}

/// A body made by `normalize_body` gives the title of the text it was made from.
proof fn lemma_body_title(s: Seq<char>)
    ensures
        first_title(lines_of(normalize_body(s))) == first_title(lines_of(s)),
{
    let t = trim_leading_newlines(s);
    lemma_leading_newlines_title(s);
    let n = normalize_body(s);
    if t.len() == 0 {
        assert(n =~= Seq::<char>::empty() + seq!['\n'] + Seq::<char>::empty());
        lemma_lines_after_line(Seq::<char>::empty(), Seq::<char>::empty());
        lemma_lines_of_line(Seq::<char>::empty());
        lemma_lines_of_line(t);
        assert(lines_of(t) =~= Seq::<Seq<char>>::empty());
    } else {
        assert(n =~= Seq::<char>::empty() + seq!['\n'] + t);
        lemma_lines_after_line(Seq::<char>::empty(), t);
    }
    assert(strip_cr(Seq::<char>::empty()) =~= Seq::<char>::empty());
    lemma_empty_line_title(lines_of(t));
}

// ---------------------------------------------------------------------------
// The law
// ---------------------------------------------------------------------------

/// Writing `key` set to `value` with the stamps of `now` keeps the title of the card.
proof fn lemma_stamped_title(content: Seq<char>, key: Seq<char>, value: Seq<char>, now: u64)
    requires
        key == key_position() || key == key_color(),
        value.len() > 0,
        !is_white(value.last()),
        no_newline(value),
    ensures
        ({
            let ls = normalized_lines(content);
            let stamp = decimal_nat(now as nat);
            first_title(lines_of(match frontmatter_end(ls) {
                Some(end) => {
                    let f = upsert_field(
                        ensure_field(upsert_field(ls.subrange(1, end), key, value), key_created_at(), stamp),
                        key_updated_at(),
                        stamp,
                    );
                    frontmatter_block(f) + normalize_body(body_after(ls, end))
                },
                None => frontmatter_block(
                    seq![
                        field_line(key, value),
                        field_line(key_created_at(), stamp),
                        field_line(key_updated_at(), stamp),
                    ],
                ) + normalize_body(crlf_to_lf(content)),
            })) == spec_title_from_markdown(content)
        }),
{
    let ls = normalized_lines(content);
    let stamp = decimal_nat(now as nat);
    lemma_lines_crlf(content);
    lemma_trimmed_title(ls, lines_of(content));
    lemma_lines_no_newline(crlf_to_lf(content));
    lemma_keys();
    lemma_stamp_line(key_created_at(), now);
    lemma_stamp_line(key_updated_at(), now);
    lemma_field_no_newline(key, value);
    let (fm, rest) = match frontmatter_end(ls) {
        Some(end) => {
            lemma_block_of_text(content, end);
            let fm0 = ls.subrange(1, end);
            let f1 = upsert_field(fm0, key, value);
            let f2 = ensure_field(f1, key_created_at(), stamp);
            let f3 = upsert_field(f2, key_updated_at(), stamp);
            lemma_edit_no_newline(fm0, key, value);
            lemma_edit_no_newline(f1, key_created_at(), stamp);
            lemma_edit_no_newline(f2, key_updated_at(), stamp);
            lemma_edit_keeps_title(fm0, key, value);
            lemma_edit_keeps_title(f1, key_created_at(), stamp);
            lemma_edit_keeps_title(f2, key_updated_at(), stamp);
            lemma_key_from(f2, key_updated_at(), 0);
            assert(f3.len() >= 1);
            let tail = ls.skip(end + 1);
            assert forall|i: int| 0 <= i < tail.len() implies no_newline(#[trigger] tail[i]) by {
                assert(tail[i] == ls[end + 1 + i]);
            }
            lemma_joined_title(tail);
            lemma_body_title(join_lines(tail));
            lemma_fence_no_title(ls[0]);
            lemma_fence_found_is_fence(ls, end);
            lemma_fence_no_title(ls[end]);
            lemma_fence_from_first(ls, 1);
            assert(ls =~= seq![ls[0]] + fm0 + seq![ls[end]] + tail);
            lemma_title_concat(seq![ls[0]], fm0);
            lemma_title_concat(seq![ls[0]] + fm0, seq![ls[end]]);
            lemma_title_concat(seq![ls[0]] + fm0 + seq![ls[end]], tail);
            assert(first_heading_from(seq![ls[0]], 1) is None);
            assert(first_heading_from(seq![ls[0]], 0) is None);
            assert(first_heading_from(seq![ls[end]], 1) is None);
            assert(first_heading_from(seq![ls[end]], 0) is None);
            (f3, normalize_body(body_after(ls, end)))
        },
        None => {
            let f = seq![
                field_line(key, value),
                field_line(key_created_at(), stamp),
                field_line(key_updated_at(), stamp),
            ];
            lemma_field_line_no_title(key, value);
            lemma_field_line_no_title(key_created_at(), stamp);
            lemma_field_line_no_title(key_updated_at(), stamp);
            assert(no_titles(f));
            lemma_no_titles_from(f, 0);
            assert forall|i: int| 0 <= i < f.len() implies no_newline(#[trigger] f[i]) by {
            }
            lemma_body_title(crlf_to_lf(content));
            (f, normalize_body(crlf_to_lf(content)))
        },
    };
    lemma_block_lines(fm, rest);
    let out_lines = lines_of(frontmatter_block(fm) + rest);
    assert(out_lines == seq![fence()] + strip_crs(fm) + seq![fence()] + lines_of(rest));
    assert(heading_title(fence()) is None) by {
        crate::text_lemmas::lemma_trim_unchanged(fence());
        lemma_not_hash(fence());
    }
    lemma_strip_crs_title(fm);
    lemma_title_concat(seq![fence()], strip_crs(fm));
    lemma_title_concat(seq![fence()] + strip_crs(fm), seq![fence()]);
    lemma_title_concat(seq![fence()] + strip_crs(fm) + seq![fence()], lines_of(rest));
    assert(first_heading_from(seq![fence()], 1) is None);
    assert(first_heading_from(seq![fence()], 0) is None);
}

proof fn lemma_fence_no_title(l: Seq<char>)
    requires
        crate::card::is_fence(l),
    ensures
        heading_title(l) is None,
{
    assert(trim(l)[0] == '-');
    lemma_not_hash(l);
}

proof fn lemma_fence_found_is_fence(ls: Seq<Seq<char>>, end: int)
    requires
        frontmatter_end(ls) == Some(end),
    ensures
        crate::card::is_fence(ls[end]),
{
    lemma_fence_found_from(ls, 1);
}

proof fn lemma_fence_found_from(ls: Seq<Seq<char>>, k: int)
    requires
        0 <= k,
    ensures
        crate::card::fence_from(ls, k) matches Some(i) ==> 0 <= i < ls.len() && crate::card::is_fence(ls[i]),
    decreases ls.len() - k,
{
    if k < ls.len() && !crate::card::is_fence(ls[k]) {
        lemma_fence_found_from(ls, k + 1);
    }
}

/// Moving a card (setting its position) keeps its title.
pub proof fn law_position_keeps_title(content: Seq<char>, position: i64, now: u64)
    ensures
        spec_title_from_markdown(spec_markdown_with_position(content, position, now))
            == spec_title_from_markdown(content),
{
    let v = decimal_int(position as int);
    lemma_decimal_ends(position as int);
    lemma_stamped_title(content, key_position(), v, now);
}

/// Coloring a card keeps its title, for a color without newlines.
pub proof fn law_color_keeps_title(content: Seq<char>, color: Seq<char>, now: u64)
    requires
        no_newline(color),
    ensures
        spec_title_from_markdown(spec_markdown_with_color(content, color, now))
            == spec_title_from_markdown(content),
{
    let v = quoted(color);
    assert(no_newline(v)) by {
        assert forall|i: int| 0 <= i < v.len() implies v[i] != '\n' by {
            if 0 < i < v.len() - 1 {
                assert(v[i] == color[i - 1]);
            }
        }
    }
    lemma_stamped_title(content, key_color(), v, now);
}

} // verus!
