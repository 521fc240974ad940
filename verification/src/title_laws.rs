//! The title of a card reads back as it was written.
use vstd::prelude::*;

use crate::card::{
    ensure_field, fence, field_line, first_heading_from, frontmatter_end, heading_line_from,
    heading_prefix, heading_title, is_fence, key_created_at, key_from, key_updated_at, line_has_key,
    normalized_lines, rejoined, spec_markdown_with_title, spec_title_from_markdown,
    spec_touch_updated_at, title_line, titled_lines, upsert_field,
};
use crate::laws::{
    lemma_fence_from_first, lemma_field_trim_start, lemma_key_from,
    lemma_stamp_line, lemma_trim_end_last, lemma_trim_end_prefix,
};
use crate::text::{
    crlf_to_lf, decimal_nat, ends_with_char, is_white, join_lines, lines_of, starts_with, strip_cr, trim, trim_end, trim_start,
};
use crate::text_lemmas::{
    lemma_lines_after_join, lemma_lines_after_line, lemma_lines_no_newline,
    lemma_split_no_newline, lemma_trim_strip_cr, lemma_trim_unchanged, no_newline, strip_crs,
};

verus! {

/// The first heading of `ls` is at `h` and gives `v`.
pub open spec fn heading_at(ls: Seq<Seq<char>>, h: int, v: Seq<char>) -> bool {
    &&& 0 <= h < ls.len()
    &&& heading_title(ls[h]) == Some(v)
    &&& forall|t: int| 0 <= t < h ==> heading_title(#[trigger] ls[t]) is None
}

proof fn lemma_first_heading(ls: Seq<Seq<char>>, h: int, v: Seq<char>, k: int)
    requires
        heading_at(ls, h, v),
        0 <= k <= h,
    ensures
        first_heading_from(ls, k) == Some(v),
    decreases h - k,
{
    if k < h {
        lemma_first_heading(ls, h, v, k + 1);
    }
}

/// A line that, trimmed at the start, does not begin with `# ` gives no title.
proof fn lemma_no_heading(l: Seq<char>)
    requires
        !starts_with(trim_start(l), heading_prefix()),
    ensures
        heading_title(l) is None,
{
    let t = trim_start(l);
    lemma_trim_end_prefix(t);
    if starts_with(trim(l), heading_prefix()) {
        assert(t.take(2) =~= trim_end(t).take(2));
    }
}

/// A trimmed text that is not empty has no whitespace at its ends.
pub(crate) proof fn lemma_trim_ends(x: Seq<char>)
    ensures
        trim(x).len() > 0 ==> !is_white(trim(x)[0]) && !is_white(trim(x).last()),
        trim(trim(x)) == trim(x),
    decreases x.len(),
{
    lemma_trim_end_last(trim_start(x));
    lemma_trim_start_first(x);
    lemma_trim_end_prefix(trim_start(x));
    if trim(x).len() > 0 {
        assert(trim(x)[0] == trim_start(x)[0]);
        lemma_trim_unchanged(trim(x));
    } else {
        assert(trim(x) =~= Seq::<char>::empty());
    }
}

proof fn lemma_trim_start_first(x: Seq<char>)
    ensures
        trim_start(x).len() > 0 ==> !is_white(trim_start(x)[0]),
    decreases x.len(),
{
    if x.len() > 0 && is_white(x[0]) {
        lemma_trim_start_first(x.drop_first());
    }
}

/// The heading line for a title that trims to something gives that title.
proof fn lemma_title_line(title: Seq<char>)
    requires
        trim(title).len() > 0,
        no_newline(title),
    ensures
        heading_title(title_line(title)) == Some(trim(title)),
        no_newline(title_line(title)),
        starts_with(trim_start(title_line(title)), heading_prefix()),
{
    let tt = trim(title);
    lemma_trim_ends(title);
    let l = title_line(title);
    assert(l[0] == '#');
    assert(l.last() == tt.last());
    lemma_trim_unchanged(l);
    assert(trim_start(l) == l);
    assert(l.take(2) =~= heading_prefix());
    assert(l.skip(2) =~= tt);
    lemma_tt_no_newline(title);
    assert forall|i: int| 0 <= i < l.len() implies l[i] != '\n' by {
        if i >= 2 {
            assert(l[i] == tt[i - 2]);
        }
    }
}

/// Trimming keeps a text free of newlines.
pub(crate) proof fn lemma_tt_no_newline(title: Seq<char>)
    requires
        no_newline(title),
    ensures
        no_newline(trim(title)),
{
    lemma_trim_start_tail_nl(title);
    lemma_trim_end_prefix(trim_start(title));
    let t = trim_start(title);
    assert forall|i: int| 0 <= i < trim(title).len() implies trim(title)[i] != '\n' by {
        assert(trim(title)[i] == t[i]);
    }
}

proof fn lemma_trim_start_tail_nl(x: Seq<char>)
    requires
        no_newline(x),
    ensures
        no_newline(trim_start(x)),
    decreases x.len(),
{
    if x.len() > 0 && is_white(x[0]) {
        assert forall|i: int| 0 <= i < x.drop_first().len() implies x.drop_first()[i] != '\n' by {
            assert(x.drop_first()[i] == x[i + 1]);
        }
        lemma_trim_start_tail_nl(x.drop_first());
    }
}

pub(crate) proof fn lemma_heading_line_from(ls: Seq<Seq<char>>, k: int)
    requires
        0 <= k,
    ensures
        heading_line_from(ls, k) matches Some(i) ==> k <= i < ls.len() && starts_with(
            trim_start(ls[i]),
            heading_prefix(),
        ) && forall|t: int| k <= t < i ==> !starts_with(trim_start(#[trigger] ls[t]), heading_prefix()),
        heading_line_from(ls, k) is None ==> forall|t: int|
            k <= t < ls.len() ==> !starts_with(trim_start(#[trigger] ls[t]), heading_prefix()),
    decreases ls.len() - k,
{
    if k < ls.len() && !starts_with(trim_start(ls[k]), heading_prefix()) {
        lemma_heading_line_from(ls, k + 1);
    }
}

/// The lines with the title set: where the first heading stands, and that the lines
/// hold no newline.
proof fn lemma_titled(ls: Seq<Seq<char>>, title: Seq<char>) -> (h: int)
    requires
        trim(title).len() > 0,
        no_newline(title),
        forall|i: int| 0 <= i < ls.len() ==> no_newline(#[trigger] ls[i]),
    ensures
        heading_at(titled_lines(ls, title), h, trim(title)),
        forall|i: int|
            0 <= i < titled_lines(ls, title).len() ==> no_newline(#[trigger] titled_lines(ls, title)[i]),
        frontmatter_end(titled_lines(ls, title)) matches Some(end) ==> forall|t: int|
            1 <= t < end ==> !is_fence(#[trigger] titled_lines(ls, title)[t]),
{
    lemma_title_line(title);
    lemma_heading_line_from(ls, 0);
    let l2 = titled_lines(ls, title);
    let tl = title_line(title);
    let h = match heading_line_from(ls, 0) {
        Some(i) => {
            assert forall|t: int| 0 <= t < i implies heading_title(#[trigger] l2[t]) is None by {
                assert(l2[t] == ls[t]);
                lemma_no_heading(ls[t]);
            }
            assert forall|t: int| 0 <= t < l2.len() implies no_newline(#[trigger] l2[t]) by {
                if t != i {
                    assert(l2[t] == ls[t]);
                }
            }
            i
        },
        None => match frontmatter_end(ls) {
            Some(end) => {
                lemma_fence_from_first(ls, 1);
                assert forall|t: int| 0 <= t < end + 2 implies heading_title(#[trigger] l2[t]) is None by {
                    if t <= end {
                        assert(l2[t] == ls[t]);
                        lemma_no_heading(ls[t]);
                    } else {
                        assert(l2[t] == Seq::<char>::empty());
                        assert(trim(Seq::<char>::empty()) == Seq::<char>::empty());
                    }
                }
                assert forall|t: int| 0 <= t < l2.len() implies no_newline(#[trigger] l2[t]) by {
                    if t <= end {
                        assert(l2[t] == ls[t]);
                    } else if t >= end + 3 {
                        assert(l2[t] == ls[t - 2]);
                    }
                }
                end + 2
            },
            None => {
                assert forall|t: int| 0 <= t < l2.len() implies no_newline(#[trigger] l2[t]) by {
                    if t >= 2 {
                        assert(l2[t] == ls[t - 2]);
                    }
                }
                0
            },
        },
    };
    match frontmatter_end(l2) {
        Some(end) => {
            lemma_fence_from_first(l2, 1);
        },
        None => {},
    }
    h
}

/// Setting or adding a stamp keeps the first heading of a block where it was.
proof fn lemma_stamp_keeps_heading(fm: Seq<Seq<char>>, j: int, v: Seq<char>, key: Seq<char>, value: Seq<char>)
    requires
        heading_at(fm, j, v),
        !line_has_key(fm[j], key),
        heading_title(field_line(key, value)) is None,
    ensures
        heading_at(upsert_field(fm, key, value), j, v),
        heading_at(ensure_field(fm, key, value), j, v),
{
    lemma_key_from(fm, key, 0);
    let u = upsert_field(fm, key, value);
    match key_from(fm, key, 0) {
        Some(i) => {
            assert(i != j);
            assert forall|t: int| 0 <= t < j implies heading_title(#[trigger] u[t]) is None by {
                if t != i {
                    assert(u[t] == fm[t]);
                }
            }
        },
        None => {
            assert forall|t: int| 0 <= t < j implies heading_title(#[trigger] u[t]) is None by {
                assert(u[t] == fm[t]);
            }
        },
    }
    let e = ensure_field(fm, key, value);
    assert forall|t: int| 0 <= t < j implies heading_title(#[trigger] e[t]) is None by {
        assert(e[t] == fm[t]);
    }
}

/// Setting or adding a stamp in a block without headings adds none.
proof fn lemma_stamp_no_heading(fm: Seq<Seq<char>>, key: Seq<char>, value: Seq<char>)
    requires
        forall|t: int| 0 <= t < fm.len() ==> heading_title(#[trigger] fm[t]) is None,
        heading_title(field_line(key, value)) is None,
    ensures
        forall|t: int|
            0 <= t < upsert_field(fm, key, value).len() ==> heading_title(
                #[trigger] upsert_field(fm, key, value)[t],
            ) is None,
        forall|t: int|
            0 <= t < ensure_field(fm, key, value).len() ==> heading_title(
                #[trigger] ensure_field(fm, key, value)[t],
            ) is None,
{
    lemma_key_from(fm, key, 0);
    let u = upsert_field(fm, key, value);
    assert forall|t: int| 0 <= t < u.len() implies heading_title(#[trigger] u[t]) is None by {
        if t < fm.len() && u[t] != field_line(key, value) {
            match key_from(fm, key, 0) {
                Some(i) => {
                    assert(t != i);
                    assert(u[t] == fm[t]);
                },
                None => {
                    assert(u[t] == fm[t]);
                },
            }
        }
    }
    let e = ensure_field(fm, key, value);
    assert forall|t: int| 0 <= t < e.len() implies heading_title(#[trigger] e[t]) is None by {
        if t < fm.len() {
            assert(e[t] == fm[t]);
        }
    }
}

/// Stamps and fences give no title, and hold no newline.
proof fn lemma_stamps_not_headings(now: u64)
    ensures
        heading_title(field_line(key_created_at(), decimal_nat(now as nat))) is None,
        heading_title(field_line(key_updated_at(), decimal_nat(now as nat))) is None,
        heading_title(fence()) is None,
        heading_title(Seq::<char>::empty()) is None,
        no_newline(field_line(key_created_at(), decimal_nat(now as nat))),
        no_newline(field_line(key_updated_at(), decimal_nat(now as nat))),
        no_newline(fence()),
{
    let s = decimal_nat(now as nat);
    lemma_stamp_line(key_created_at(), now);
    lemma_stamp_line(key_updated_at(), now);
    lemma_field_trim_start(key_created_at(), s);
    lemma_field_trim_start(key_updated_at(), s);
    assert(field_line(key_created_at(), s)[0] == 'c');
    assert(field_line(key_updated_at(), s)[0] == 'u');
    lemma_no_heading(field_line(key_created_at(), s));
    lemma_no_heading(field_line(key_updated_at(), s));
    assert(trim_start(fence()) == fence());
    lemma_no_heading(fence());
    assert(trim(Seq::<char>::empty()) == Seq::<char>::empty());
}

/// Stamping keeps the first heading first, and the lines free of newlines.
proof fn lemma_touched(ls: Seq<Seq<char>>, h: int, v: Seq<char>, now: u64) -> (h2: int)
    requires
        heading_at(ls, h, v),
        forall|i: int| 0 <= i < ls.len() ==> no_newline(#[trigger] ls[i]),
        frontmatter_end(ls) matches Some(end) ==> forall|t: int| 1 <= t < end ==> !is_fence(#[trigger] ls[t]),
    ensures
        heading_at(spec_touch_updated_at(ls, now), h2, v),
        forall|i: int|
            0 <= i < spec_touch_updated_at(ls, now).len() ==> no_newline(
                #[trigger] spec_touch_updated_at(ls, now)[i],
            ),
{
    let stamp = decimal_nat(now as nat);
    lemma_stamps_not_headings(now);
    let l3 = spec_touch_updated_at(ls, now);
    match frontmatter_end(ls) {
        Some(end) => {
            lemma_fence_from_first(ls, 1);
            assert(is_fence(ls[0]));
            assert(heading_title(ls[0]) is None) by {
                assert(trim(ls[0]) == fence());
                assert(!starts_with(fence(), heading_prefix())) by {
                    assert(fence().take(2)[0] == '-');
                }
            }
            let fm0 = ls.subrange(1, end);
            let fm1 = ensure_field(fm0, key_created_at(), stamp);
            let fm2 = upsert_field(fm1, key_updated_at(), stamp);
            lemma_edit_newlines(fm0, key_created_at(), stamp);
            lemma_edit_newlines(fm1, key_updated_at(), stamp);
            assert(l3 == ls.take(1) + fm2 + ls.skip(end));
            if h < end {
                assert(h >= 1);
                let j = h - 1;
                assert(heading_at(fm0, j, v)) by {
                    assert forall|t: int| 0 <= t < j implies heading_title(#[trigger] fm0[t]) is None by {
                        assert(fm0[t] == ls[t + 1]);
                    }
                }
                assert(!line_has_key(fm0[j], key_created_at())) by {
                    lemma_heading_no_key(fm0[j], v, key_created_at());
                }
                lemma_stamp_keeps_heading(fm0, j, v, key_created_at(), stamp);
                assert(fm1[j] == fm0[j]);
                assert(!line_has_key(fm1[j], key_updated_at())) by {
                    lemma_heading_no_key(fm1[j], v, key_updated_at());
                }
                lemma_stamp_keeps_heading(fm1, j, v, key_updated_at(), stamp);
                assert forall|t: int| 0 <= t < h implies heading_title(#[trigger] l3[t]) is None by {
                    if t == 0 {
                        assert(l3[0] == ls[0]);
                    } else {
                        assert(l3[t] == fm2[t - 1]);
                    }
                }
                assert(l3[h] == fm2[j]);
                assert forall|i: int| 0 <= i < l3.len() implies no_newline(#[trigger] l3[i]) by {
                    if i == 0 {
                        assert(l3[0] == ls[0]);
                    } else if i < 1 + fm2.len() {
                        assert(l3[i] == fm2[i - 1]);
                    } else {
                        assert(l3[i] == ls[i - 1 - fm2.len() + end]);
                    }
                }
                h
            } else {
                assert forall|t: int| 0 <= t < fm0.len() implies heading_title(#[trigger] fm0[t]) is None by {
                    assert(fm0[t] == ls[t + 1]);
                }
                lemma_stamp_no_heading(fm0, key_created_at(), stamp);
                lemma_stamp_no_heading(fm1, key_updated_at(), stamp);
                let h2 = 1 + fm2.len() + (h - end);
                assert forall|t: int| 0 <= t < h2 implies heading_title(#[trigger] l3[t]) is None by {
                    if t == 0 {
                        assert(l3[0] == ls[0]);
                    } else if t < 1 + fm2.len() {
                        assert(l3[t] == fm2[t - 1]);
                    } else {
                        assert(l3[t] == ls[t - 1 - fm2.len() + end]);
                    }
                }
                assert(l3[h2] == ls[h]);
                assert forall|i: int| 0 <= i < l3.len() implies no_newline(#[trigger] l3[i]) by {
                    if i == 0 {
                        assert(l3[0] == ls[0]);
                    } else if i < 1 + fm2.len() {
                        assert(l3[i] == fm2[i - 1]);
                    } else {
                        assert(l3[i] == ls[i - 1 - fm2.len() + end]);
                    }
                }
                h2
            }
        },
        None => {
            let head = seq![
                fence(),
                field_line(key_created_at(), stamp),
                field_line(key_updated_at(), stamp),
                fence(),
                Seq::empty(),
            ];
            assert(l3 == head + ls);
            assert forall|t: int| 0 <= t < h + 5 implies heading_title(#[trigger] l3[t]) is None by {
                if t >= 5 {
                    assert(l3[t] == ls[t - 5]);
                }
            }
            assert(l3[h + 5] == ls[h]);
            assert forall|i: int| 0 <= i < l3.len() implies no_newline(#[trigger] l3[i]) by {
                if i >= 5 {
                    assert(l3[i] == ls[i - 5]);
                } else if i == 4 {
                    assert(l3[4] == Seq::<char>::empty());
                }
            }
            h + 5
        },
    }
}

/// A heading line sets no field whose key begins with a letter.
proof fn lemma_heading_no_key(l: Seq<char>, v: Seq<char>, key: Seq<char>)
    requires
        heading_title(l) == Some(v),
        key == key_created_at() || key == key_updated_at(),
    ensures
        !line_has_key(l, key),
{
    let t = trim_start(l);
    lemma_trim_end_prefix(t);
    assert(trim(l).take(2) =~= heading_prefix());
    assert(t[0] == trim(l)[0]);
    if starts_with(t, key.push(':')) {
        assert(t.take(key.len() + 1int)[0] == t[0]);
    }
}

/// Setting or adding a stamp keeps a block free of newlines.
proof fn lemma_edit_newlines(fm: Seq<Seq<char>>, key: Seq<char>, value: Seq<char>)
    requires
        forall|t: int| 0 <= t < fm.len() ==> no_newline(#[trigger] fm[t]),
        no_newline(field_line(key, value)),
    ensures
        forall|t: int|
            0 <= t < upsert_field(fm, key, value).len() ==> no_newline(
                #[trigger] upsert_field(fm, key, value)[t],
            ),
        forall|t: int|
            0 <= t < ensure_field(fm, key, value).len() ==> no_newline(
                #[trigger] ensure_field(fm, key, value)[t],
            ),
{
    lemma_key_from(fm, key, 0);
    let u = upsert_field(fm, key, value);
    assert forall|t: int| 0 <= t < u.len() implies no_newline(#[trigger] u[t]) by {
        match key_from(fm, key, 0) {
            Some(i) => {
                if t != i {
                    assert(u[t] == fm[t]);
                }
            },
            None => {
                if t < fm.len() {
                    assert(u[t] == fm[t]);
                }
            },
        }
    }
    let e = ensure_field(fm, key, value);
    assert forall|t: int| 0 <= t < e.len() implies no_newline(#[trigger] e[t]) by {
        if t < fm.len() {
            assert(e[t] == fm[t]);
        }
    }
}

/// The lines of a text without newlines: none for an empty one, else itself.
pub(crate) proof fn lemma_lines_of_line(x: Seq<char>)
    requires
        no_newline(x),
    ensures
        lines_of(x) == (if x.len() == 0 {
            Seq::<Seq<char>>::empty()
        } else {
            seq![x]
        }),
{
    lemma_split_no_newline(x);
    assert(lines_of(x) =~= (if x.len() == 0 {
        Seq::<Seq<char>>::empty()
    } else {
        seq![x]
    }));
}

/// Joining lines and reading them again keeps the first heading where it was.
proof fn lemma_rejoined_heading(ls: Seq<Seq<char>>, h: int, v: Seq<char>, content: Seq<char>)
    requires
        heading_at(ls, h, v),
        forall|i: int| 0 <= i < ls.len() ==> no_newline(#[trigger] ls[i]),
    ensures
        heading_at(lines_of(rejoined(ls, content)), h, v),
{
    let last = ls.last();
    let init = ls.drop_last();
    let tail_nl = ends_with_char(content, '\n');
    let tail = if tail_nl {
        last + seq!['\n']
    } else {
        last
    };
    assert(no_newline(ls[ls.len() - 1]));
    let big = lines_of(rejoined(ls, content));
    let e = lines_of(tail);
    if tail_nl {
        lemma_lines_after_line(last, Seq::empty());
        lemma_lines_of_line(Seq::<char>::empty());
        assert(last + seq!['\n'] =~= last + seq!['\n'] + Seq::<char>::empty());
        assert(e =~= seq![strip_cr(last)]);
    } else {
        lemma_lines_of_line(last);
    }
    if ls.len() == 1 {
        assert(rejoined(ls, content) =~= tail);
        assert(big == e);
    } else {
        assert forall|i: int| 0 <= i < init.len() implies no_newline(#[trigger] init[i]) by {
            assert(init[i] == ls[i]);
        }
        lemma_lines_after_join(init, tail);
        assert(join_lines(ls) == join_lines(init) + seq!['\n'] + last);
        assert(rejoined(ls, content) =~= join_lines(init) + seq!['\n'] + tail);
        assert(big == strip_crs(init) + e);
    }
    assert(heading_title(ls[h]) == Some(v));
    if h == ls.len() - 1 && !tail_nl {
        assert(last.len() > 0) by {
            if last.len() == 0 {
                assert(trim(last) == Seq::<char>::empty());
            }
        }
    }
    assert(big.len() > h) by {
        if h == ls.len() - 1 && !tail_nl {
            assert(last.len() > 0) by {
                if last.len() == 0 {
                    assert(trim(last) == Seq::<char>::empty());
                }
            }
        }
    }
    assert forall|t: int| 0 <= t <= h implies #[trigger] trim(big[t]) == trim(ls[t]) by {
        if t < ls.len() - 1 {
            assert(big[t] == strip_cr(init[t]));
            assert(init[t] == ls[t]);
            lemma_trim_strip_cr(ls[t]);
        } else {
            lemma_trim_strip_cr(last);
        }
    }
    assert forall|t: int| 0 <= t < h implies heading_title(#[trigger] big[t]) is None by {
        assert(trim(big[t]) == trim(ls[t]));
    }
    assert(trim(big[h]) == trim(ls[h]));
}

/// A card renamed to a title that is not blank (and has no newline) reads back that
/// title, trimmed.
pub proof fn law_title_round_trip(content: Seq<char>, title: Seq<char>, now: u64)
    requires
        trim(title).len() > 0,
        no_newline(title),
    ensures
        spec_title_from_markdown(spec_markdown_with_title(content, title, now)) == Some(trim(title)),
{
    let ls = normalized_lines(content);
    lemma_lines_no_newline(crlf_to_lf(content));
    let h = lemma_titled(ls, title);
    let l2 = titled_lines(ls, title);
    let h2 = lemma_touched(l2, h, trim(title), now);
    let l3 = spec_touch_updated_at(l2, now);
    lemma_rejoined_heading(l3, h2, trim(title), content);
    lemma_first_heading(lines_of(rejoined(l3, content)), h2, trim(title), 0);
}

} // verus!
