//! Filling in a card's missing metadata a second time changes nothing.
use vstd::prelude::*;

use crate::card::{
    body_after, ensure_field, fence, field_line, frontmatter_block, frontmatter_end, has_field,
    is_fence, key_created_at, key_position, key_updated_at, line_has_key, normalize_body,
    normalized_lines, spec_markdown_with_missing_metadata,
};
use crate::fill_laws::lemma_split_last;
use crate::laws::{lemma_block_lines, lemma_block_of_text, lemma_edit_no_newline};
use crate::preview_laws::{lemma_added_line, lemma_digits_no_cr};
use crate::stamp_laws::{lemma_fence_walk, lemma_no_fence_edit};
use crate::text::{
    crlf_to_lf, decimal_int, decimal_nat, join_lines, lines_of, split_newlines, strip_cr,
    trim, trim_leading_newlines,
};
use crate::text_lemmas::{lemma_trim_unchanged, no_newline, strip_crs};

verus! {

/// Whether no `'\r'` in `s` stands right before a `'\n'`.
pub open spec fn no_crlf(s: Seq<char>) -> bool {
    forall|i: int| 0 <= i < s.len() - 1 ==> !(#[trigger] s[i] == '\r' && s[i + 1] == '\n')
}

/// Whether `l` does not end with `'\r'`.
pub open spec fn no_final_cr(l: Seq<char>) -> bool {
    l.len() == 0 || l.last() != '\r'
}

proof fn lemma_crlf_fixed(s: Seq<char>)
    requires
        no_crlf(s),
    ensures
        crlf_to_lf(s) == s,
    decreases s.len(),
{
    if s.len() >= 2 {
        let r = s.skip(1);
        assert forall|i: int| 0 <= i < r.len() - 1 implies !(#[trigger] r[i] == '\r' && r[i + 1] == '\n') by {
            assert(r[i] == s[i + 1]);
            assert(r[i + 1] == s[i + 2]);
        }
        lemma_crlf_fixed(r);
        assert(!(s[0] == '\r' && s[1] == '\n'));
        assert(seq![s[0]] + r =~= s);
    }
}

proof fn lemma_concat(a: Seq<char>, b: Seq<char>)
    requires
        no_crlf(a),
        no_crlf(b),
        a.len() == 0 || b.len() == 0 || !(a.last() == '\r' && b[0] == '\n'),
    ensures
        no_crlf(a + b),
{
    let s = a + b;
    assert forall|i: int| 0 <= i < s.len() - 1 implies !(#[trigger] s[i] == '\r' && s[i + 1] == '\n') by {
        if i + 1 < a.len() {
            assert(s[i] == a[i] && s[i + 1] == a[i + 1]);
        } else if i >= a.len() {
            assert(s[i] == b[i - a.len()] && s[i + 1] == b[i - a.len() + 1]);
        } else {
            assert(s[i] == a.last());
            assert(s[i + 1] == b[0]);
        }
    }
}

proof fn lemma_no_newline_crlf(l: Seq<char>)
    requires
        no_newline(l),
    ensures
        no_crlf(l),
{
}

proof fn lemma_trim_newlines_suffix(s: Seq<char>)
    requires
        no_crlf(s),
    ensures
        no_crlf(trim_leading_newlines(s)),
    decreases s.len(),
{
    if s.len() > 0 && s[0] == '\n' {
        let r = s.drop_first();
        assert forall|i: int| 0 <= i < r.len() - 1 implies !(#[trigger] r[i] == '\r' && r[i + 1] == '\n') by {
            assert(r[i] == s[i + 1]);
            assert(r[i + 1] == s[i + 2]);
        }
        lemma_trim_newlines_suffix(r);
    }
}

/// Lines joined: no `"\r\n"` when no line but the last ends with `'\r'`.
proof fn lemma_join(ls: Seq<Seq<char>>)
    requires
        forall|i: int| 0 <= i < ls.len() ==> no_newline(#[trigger] ls[i]),
        forall|i: int| 0 <= i < ls.len() - 1 ==> no_final_cr(#[trigger] ls[i]),
    ensures
        no_crlf(join_lines(ls)),
        ls.len() > 0 && no_final_cr(ls.last()) ==> no_final_cr(join_lines(ls)),
    decreases ls.len(),
{
    if ls.len() == 1 {
        lemma_no_newline_crlf(ls[0]);
    } else if ls.len() > 1 {
        let g = ls.drop_last();
        assert forall|i: int| 0 <= i < g.len() implies no_newline(#[trigger] g[i]) by {
            assert(g[i] == ls[i]);
        }
        assert forall|i: int| 0 <= i < g.len() - 1 implies no_final_cr(#[trigger] g[i]) by {
            assert(g[i] == ls[i]);
        }
        assert(no_final_cr(ls[ls.len() - 2]));
        assert(g.last() == ls[ls.len() - 2]);
        lemma_join(g);
        let a = join_lines(g);
        let l = ls.last();
        assert(no_newline(ls[ls.len() - 1]));
        lemma_no_newline_crlf(l);
        lemma_concat(a, seq!['\n']);
        lemma_concat(a + seq!['\n'], l);
        if l.len() > 0 {
            assert((a + seq!['\n'] + l).last() == l.last());
        }
    } else {
        assert(join_lines(ls) =~= Seq::<char>::empty());
    }
}

/// The pieces of a text with no `"\r\n"`: every piece followed by a newline has no
/// final `'\r'`.
proof fn lemma_pieces(s: Seq<char>)
    requires
        no_crlf(s),
    ensures
        forall|i: int| 0 <= i < split_newlines(s).len() - 1 ==> no_final_cr(#[trigger] split_newlines(s)[i]),
    decreases s.len(),
{
    if s.len() > 0 {
        let s0 = s.drop_last();
        assert forall|i: int| 0 <= i < s0.len() - 1 implies !(#[trigger] s0[i] == '\r' && s0[i + 1] == '\n') by {
            assert(s0[i] == s[i]);
            assert(s0[i + 1] == s[i + 1]);
        }
        lemma_pieces(s0);
        lemma_split_last(s0);
        crate::text::lemma_split_newlines_len(s0);
        let p0 = split_newlines(s0);
        assert(s =~= s0.push(s.last()));
        if s.last() == '\n' {
            if s0.len() > 0 {
                assert(!(s[s.len() - 2] == '\r' && s[s.len() - 1] == '\n'));
                assert(s0.last() == s[s.len() - 2]);
            }
            assert forall|i: int| 0 <= i < split_newlines(s).len() - 1 implies no_final_cr(
                #[trigger] split_newlines(s)[i],
            ) by {
                assert(split_newlines(s)[i] == p0[i]);
            }
        } else {
            assert forall|i: int| 0 <= i < split_newlines(s).len() - 1 implies no_final_cr(
                #[trigger] split_newlines(s)[i],
            ) by {
                assert(split_newlines(s)[i] == p0[i]);
            }
        }
    }
}

/// The lines of a text with no `"\r\n"`: none holds a newline, and every line but
/// the last has no final `'\r'`; so the text's lines, joined, show no `"\r\n"`.
proof fn lemma_lines(s: Seq<char>)
    requires
        no_crlf(s),
    ensures
        forall|i: int| 0 <= i < lines_of(s).len() - 1 ==> no_final_cr(#[trigger] lines_of(s)[i]),
        forall|i: int| 0 <= i < lines_of(s).len() ==> no_newline(#[trigger] lines_of(s)[i]),
{
    lemma_pieces(s);
    crate::text_lemmas::lemma_lines_no_newline(s);
    crate::text::lemma_split_newlines_len(s);
    let p = split_newlines(s);
    assert forall|i: int| 0 <= i < lines_of(s).len() - 1 implies no_final_cr(#[trigger] lines_of(s)[i]) by {
        assert(i < p.len() - 1);
        assert(lines_of(s)[i] == strip_cr(p[i]));
        assert(no_final_cr(p[i]));
    }
}

/// The keys filled in are present after filling.
proof fn lemma_ensured(fm: Seq<Seq<char>>, key: Seq<char>, value: Seq<char>)
    requires
        key.len() > 0,
        'a' <= key[0] <= 'z',
    ensures
        has_field(ensure_field(fm, key, value), key),
        forall|k2: Seq<char>| #[trigger] has_field(fm, k2) ==> has_field(ensure_field(fm, key, value), k2),
{
    crate::stamp_laws::lemma_field_has_key(key, value);
    let e = ensure_field(fm, key, value);
    if !has_field(fm, key) {
        assert(e[fm.len() as int] == field_line(key, value));
    }
    assert forall|k2: Seq<char>| #[trigger] has_field(fm, k2) implies has_field(e, k2) by {
        let i = choose|i: int| 0 <= i < fm.len() && line_has_key(#[trigger] fm[i], k2);
        assert(e[i] == fm[i]);
    }
}

/// A text made of a frontmatter block that sets the three fields, with lines that have
/// no newline, no final `'\r'` and are no fences, then a body with no `"\r\n"` that
/// starts with a newline: filling it in gives it back.
proof fn lemma_filled_text(f: Seq<Seq<char>>, rest: Seq<char>, d: i64, now: u64)
    requires
        f.len() >= 1,
        forall|i: int| 0 <= i < f.len() ==> no_newline(#[trigger] f[i]) && no_final_cr(f[i]) && !is_fence(f[i]),
        has_field(f, key_position()),
        has_field(f, key_created_at()),
        has_field(f, key_updated_at()),
        no_crlf(rest),
        rest.len() > 0 && rest[0] == '\n',
    ensures
        no_crlf(frontmatter_block(f) + rest),
        spec_markdown_with_missing_metadata(frontmatter_block(f) + rest, d, now) == frontmatter_block(f) + rest,
{
    let out = frontmatter_block(f) + rest;
    let j = join_lines(f);
    lemma_join(f);
    let head = fence() + seq!['\n'];
    assert(no_crlf(head));
    assert(no_crlf(fence() + seq!['\n'])) by {
    }
    lemma_concat(head, j);
    lemma_concat(head + j, seq!['\n']);
    lemma_concat(head + j + seq!['\n'], fence() + seq!['\n']);
    lemma_concat(head + j + seq!['\n'] + fence() + seq!['\n'], rest);
    assert(frontmatter_block(f) =~= head + j + seq!['\n'] + (fence() + seq!['\n']));
    assert(out =~= head + j + seq!['\n'] + (fence() + seq!['\n']) + rest);
    lemma_crlf_fixed(out);
    lemma_block_lines(f, rest);
    let ls = lines_of(out);
    assert(normalized_lines(out) == ls);
    assert forall|i: int| 0 <= i < f.len() implies #[trigger] strip_crs(f)[i] == f[i] by {
        assert(no_final_cr(f[i]));
    }
    assert(strip_crs(f) =~= f);
    assert(ls == seq![fence()] + f + seq![fence()] + lines_of(rest));
    let e = f.len() + 1int;
    assert(is_fence(ls[0])) by {
        lemma_trim_unchanged(fence());
    }
    assert(is_fence(ls[e])) by {
        lemma_trim_unchanged(fence());
    }
    assert forall|t: int| 1 <= t < e implies !is_fence(#[trigger] ls[t]) by {
        assert(ls[t] == f[t - 1]);
    }
    lemma_fence_walk(ls, 1, e);
    assert(ls.subrange(1, e) =~= f);
}

/// Filling in a card's missing metadata a second time, at any time and with any default
/// position, gives the text back unchanged. This holds of every text whose `"\r\n"`
/// made `"\n"` holds no `"\r\n"` any more (a text with `"\r\r\n"` keeps being
/// changed).
pub proof fn law_filling_metadata_twice_changes_nothing(c: Seq<char>, p: i64, now: u64, q: i64, later: u64)
    requires
        no_crlf(crlf_to_lf(c)),
    ensures
        spec_markdown_with_missing_metadata(spec_markdown_with_missing_metadata(c, p, now), q, later)
            == spec_markdown_with_missing_metadata(c, p, now),
{
    let n = crlf_to_lf(c);
    let ls = normalized_lines(c);
    let r = spec_markdown_with_missing_metadata(c, p, now);
    let v = decimal_int(p as int);
    let s = decimal_nat(now as nat);
    lemma_lines(n);
    lemma_digits_no_cr(p, now);
    lemma_added_line(key_position(), v);
    lemma_added_line(key_created_at(), s);
    lemma_added_line(key_updated_at(), s);
    lemma_no_final(field_line(key_position(), v));
    lemma_no_final(field_line(key_created_at(), s));
    lemma_no_final(field_line(key_updated_at(), s));
    match frontmatter_end(ls) {
        Some(end) => {
            let fm0 = ls.subrange(1, end);
            lemma_block_of_text(c, end);
            crate::laws::lemma_fence_from_first(ls, 1);
            if has_field(fm0, key_position()) && has_field(fm0, key_created_at()) && has_field(
                fm0,
                key_updated_at(),
            ) {
                assert(r == n);
                lemma_crlf_fixed(n);
                assert(normalized_lines(r) == ls);
            } else {
                let f1 = ensure_field(fm0, key_position(), v);
                let f2 = ensure_field(f1, key_created_at(), s);
                let f3 = ensure_field(f2, key_updated_at(), s);
                lemma_ensured(fm0, key_position(), v);
                lemma_ensured(f1, key_created_at(), s);
                lemma_ensured(f2, key_updated_at(), s);
                lemma_edit_no_newline(fm0, key_position(), v);
                lemma_edit_no_newline(f1, key_created_at(), s);
                lemma_edit_no_newline(f2, key_updated_at(), s);
                lemma_no_fence_edit(fm0, key_position(), v);
                lemma_no_fence_edit(f1, key_created_at(), s);
                lemma_no_fence_edit(f2, key_updated_at(), s);
                assert forall|i: int| 0 <= i < fm0.len() implies no_final_cr(#[trigger] fm0[i]) by {
                    assert(fm0[i] == ls[i + 1]);
                    assert(i + 1 < ls.len() - 1);
                }
                assert forall|i: int| 0 <= i < f3.len() implies no_final_cr(#[trigger] f3[i]) by {
                    if i < fm0.len() {
                        assert(f3[i] == f2[i]);
                        assert(f2[i] == f1[i]);
                        assert(f1[i] == fm0[i]);
                    } else if i < f1.len() {
                        assert(f3[i] == f1[i]);
                    } else if i < f2.len() {
                        assert(f3[i] == f2[i]);
                    }
                }
                assert(f3.len() >= 1) by {
                    assert(has_field(f3, key_position()));
                }
                let tail = ls.skip(end + 1);
                assert forall|i: int| 0 <= i < tail.len() implies no_newline(#[trigger] tail[i]) by {
                    assert(tail[i] == ls[end + 1 + i]);
                }
                assert forall|i: int| 0 <= i < tail.len() - 1 implies no_final_cr(#[trigger] tail[i]) by {
                    assert(tail[i] == ls[end + 1 + i]);
                }
                lemma_join(tail);
                let b = join_lines(tail);
                assert(body_after(ls, end) == b);
                lemma_trim_newlines_suffix(b);
                let t = trim_leading_newlines(b);
                let rest = normalize_body(b);
                assert(no_crlf(rest)) by {
                    if t.len() == 0 {
                        assert(rest == seq!['\n']);
                    } else {
                        lemma_concat(seq!['\n'], t);
                    }
                }
                assert(r == frontmatter_block(f3) + rest);
                lemma_filled_text(f3, rest, q, later);
            }
        },
        None => {
            let f = seq![field_line(key_position(), v), field_line(key_created_at(), s), field_line(key_updated_at(), s)];
            crate::stamp_laws::lemma_field_has_key(key_position(), v);
            crate::stamp_laws::lemma_field_has_key(key_created_at(), s);
            crate::stamp_laws::lemma_field_has_key(key_updated_at(), s);
            assert(line_has_key(f[0], key_position()));
            assert(line_has_key(f[1], key_created_at()));
            assert(line_has_key(f[2], key_updated_at()));
            assert forall|i: int| 0 <= i < f.len() implies no_newline(#[trigger] f[i]) && no_final_cr(f[i])
                && !is_fence(f[i]) by {
            }
            lemma_trim_newlines_suffix(n);
            let t = trim_leading_newlines(n);
            let rest = normalize_body(n);
            assert(no_crlf(rest)) by {
                if t.len() == 0 {
                    assert(rest == seq!['\n']);
                } else {
                    lemma_concat(seq!['\n'], t);
                }
            }
            assert(r == frontmatter_block(f) + rest);
            lemma_filled_text(f, rest, q, later);
        },
    }
}

/// A line without carriage returns has no final `'\r'`.
proof fn lemma_no_final(l: Seq<char>)
    requires
        crate::preview_laws::no_cr(l),
    ensures
        no_final_cr(l),
{
    if l.len() > 0 {
        assert(l[l.len() - 1] != '\r');
    }
}

/// Whether every line of `c` (with `"\r\n"` made `"\n"`) that a newline follows ends
/// without a `'\r'` of its own (one that survives reading).
pub open spec fn lines_end_clean(c: Seq<char>) -> bool {
    let ls = normalized_lines(c);
    forall|i: int|
        0 <= i < ls.len() && (i < ls.len() - 1 || crate::text::ends_with_char(c, '\n')) ==> no_final_cr(
            #[trigger] ls[i],
        )
}

/// Stamping a card keeps what its preview shows, for a card with a closed frontmatter
/// none of whose lines followed by a newline still ends with `'\r'` once read (a line
/// `x\r\r\r\n` reads as `x\r`; stamping writes it as `x\r\n`, which previews as `x`).
pub proof fn law_updated_at_keeps_preview(c: Seq<char>, now: u64)
    requires
        frontmatter_end(normalized_lines(c)) is Some,
        lines_end_clean(c),
    ensures
        crate::card::spec_preview_content(crate::card::spec_markdown_with_updated_at(c, now))
            == crate::card::spec_preview_content(c),
{
    let n = crlf_to_lf(c);
    let ls = normalized_lines(c);
    let end = frontmatter_end(ls)->0;
    let stamp = decimal_nat(now as nat);
    crate::text_lemmas::lemma_lines_no_newline(n);
    crate::laws::lemma_fence_from_first(ls, 1);
    crate::stamp_laws::lemma_fence_found(ls, 1);
    crate::fill_laws::lemma_crlf_last(c);
    assert(crate::text::ends_with_char(n, '\n') == crate::text::ends_with_char(c, '\n'));
    assert forall|i: int| 0 <= i < ls.len() - 1 implies no_final_cr(#[trigger] ls[i]) by {
    }
    let fm0 = ls.subrange(1, end);
    assert forall|i: int| 0 <= i < fm0.len() implies #[trigger] fm0[i] == ls[i + 1] && !is_fence(fm0[i]) by {
    }
    crate::laws::lemma_keys();
    crate::laws::lemma_stamp_line(key_created_at(), now);
    crate::laws::lemma_stamp_line(key_updated_at(), now);
    lemma_digits_no_cr(0, now);
    lemma_added_line(key_created_at(), stamp);
    lemma_added_line(key_updated_at(), stamp);
    lemma_no_final(field_line(key_created_at(), stamp));
    lemma_no_final(field_line(key_updated_at(), stamp));
    let f1 = ensure_field(fm0, key_created_at(), stamp);
    let f2 = crate::card::upsert_field(f1, key_updated_at(), stamp);
    lemma_edit_no_newline(fm0, key_created_at(), stamp);
    lemma_edit_no_newline(f1, key_updated_at(), stamp);
    lemma_no_fence_edit(fm0, key_created_at(), stamp);
    lemma_no_fence_edit(f1, key_updated_at(), stamp);
    crate::laws::lemma_key_from(f1, key_updated_at(), 0);
    assert forall|i: int| 0 <= i < fm0.len() implies no_final_cr(#[trigger] fm0[i]) by {
        assert(i + 1 < ls.len() - 1);
    }
    assert forall|i: int| 0 <= i < f1.len() implies no_final_cr(#[trigger] f1[i]) by {
        if i < fm0.len() {
            assert(f1[i] == fm0[i]);
        }
    }
    assert forall|i: int| 0 <= i < f2.len() implies no_final_cr(#[trigger] f2[i]) by {
        match crate::card::key_from(f1, key_updated_at(), 0) {
            Some(u) => {
                if i != u {
                    assert(f2[i] == f1[i]);
                }
            },
            None => {
                if i < f1.len() {
                    assert(f2[i] == f1[i]);
                }
            },
        }
    }
    let m = crate::card::spec_touch_updated_at(ls, now);
    assert(m == ls.take(1) + f2 + ls.skip(end));
    let e: int = f2.len() + 1int;
    assert(m.len() == ls.len() + f2.len() - fm0.len());
    assert forall|i: int| 0 <= i < m.len() implies no_newline(#[trigger] m[i]) by {
        if i == 0 {
            assert(m[0] == ls[0]);
        } else if i < e {
            assert(m[i] == f2[i - 1]);
        } else {
            assert(m[i] == ls[i - e + end]);
        }
    }
    assert forall|i: int| e <= i < m.len() implies #[trigger] m[i] == ls[i - e + end] by {
    }
    assert(is_fence(m[0]));
    assert(is_fence(m[e]));
    // The joined text has no `"\r\n"`: only the last line may end with `'\r'`, and only
    // when no newline follows it.
    assert forall|i: int| 0 <= i < m.len() - 1 implies no_final_cr(#[trigger] m[i]) by {
        if i == 0 {
            assert(m[0] == ls[0]);
        } else if i < e {
            assert(m[i] == f2[i - 1]);
        } else {
            assert(m[i] == ls[i - e + end]);
        }
    }
    lemma_join(m);
    let out = crate::card::rejoined(m, c);
    let tail_nl = crate::text::ends_with_char(c, '\n');
    crate::fill_laws::lemma_crlf_last(c);
    assert(crate::text::ends_with_char(n, '\n') == tail_nl);
    assert(no_crlf(out)) by {
        if tail_nl {
            assert(no_final_cr(ls[ls.len() - 1]));
            assert(m.last() == ls.last()) by {
                if e < m.len() - 1 {
                } else {
                    assert(ls.last() == ls[end]);
                }
            }
            assert(no_final_cr(m.last()));
            lemma_concat(join_lines(m), seq!['\n']);
        }
    }
    lemma_crlf_fixed(out);
    rejoined_facts(m, c);
    lemma_last_nonempty(n);
    assert(tail_nl ==> no_final_cr(ls[ls.len() - 1]));
    let r = lines_of(out);
    let last = m.last();
    assert(last == ls.last()) by {
        if e < m.len() - 1 {
            assert(m[m.len() - 1] == ls[m.len() - 1 - e + end]);
        } else {
            assert(ls.last() == ls[end]);
        }
    }
    assert(last.len() > 0 || tail_nl) by {
        if e == m.len() - 1 {
            if last.len() == 0 {
                assert(trim(last) == Seq::<char>::empty());
            }
        }
    }
    assert(tail_nl ==> strip_cr(last) == last);
    assert(r.len() == m.len());
    assert forall|i: int| 0 <= i < r.len() implies #[trigger] r[i] == m[i] by {
        if i < m.len() - 1 {
            assert(r[i] == strip_cr(m[i]));
            assert(no_final_cr(m[i]));
        }
    }
    assert(r =~= m);
    assert(is_fence(r[0]));
    assert(is_fence(r[e]));
    assert forall|t: int| 1 <= t < e implies !is_fence(#[trigger] r[t]) by {
        assert(m[t] == f2[t - 1]);
    }
    lemma_fence_walk(r, 1, e);
    assert(frontmatter_end(r) == Some(e));
    assert(r.skip(e + 1) =~= ls.skip(end + 1));
    assert(crate::text::ends_with_char(out, '\n') == tail_nl) by {
        if !tail_nl {
            if m.len() == 1 {
                assert(join_lines(m) == m[0]);
            } else {
                assert(join_lines(m) == join_lines(m.drop_last()) + seq!['\n'] + last);
            }
            assert(no_newline(m[m.len() - 1]));
            assert(out.last() == last.last());
        }
    }
}

/// A text that does not end with a newline has a last line that is not empty.
proof fn lemma_last_nonempty(s: Seq<char>)
    ensures
        lines_of(s).len() > 0 && !crate::text::ends_with_char(s, '\n') ==> lines_of(s).last().len() > 0,
{
    crate::text::lemma_split_newlines_len(s);
    let p = split_newlines(s);
    if lines_of(s).len() > 0 && s.len() > 0 && s.last() != '\n' {
        crate::text::lemma_split_newlines_len(s.drop_last());
        assert(s =~= s.drop_last().push(s.last()));
        assert(p.last() == split_newlines(s.drop_last()).last().push(s.last()));
        assert(lines_of(s).last() == p.last());
    }
}

/// The lines of lines joined again: each but the last loses a final `'\r'`; the last is
/// kept when no newline follows it (and dropped when empty), and loses a final `'\r'`
/// when one does.
proof fn rejoined_facts(m: Seq<Seq<char>>, c: Seq<char>)
    requires
        m.len() >= 1,
        forall|i: int| 0 <= i < m.len() ==> no_newline(#[trigger] m[i]),
    ensures
        !crate::text::ends_with_char(c, '\n') ==> lines_of(crate::card::rejoined(m, c)) == strip_crs(m.drop_last())
            + (if m.last().len() == 0 {
            Seq::<Seq<char>>::empty()
        } else {
            seq![m.last()]
        }),
        crate::text::ends_with_char(c, '\n') ==> lines_of(crate::card::rejoined(m, c)) == strip_crs(m.drop_last())
            + seq![strip_cr(m.last())],
{
    let last = m.last();
    let init = m.drop_last();
    assert(no_newline(m[m.len() - 1]));
    crate::title_laws::lemma_lines_of_line(last);
    crate::title_laws::lemma_lines_of_line(Seq::<char>::empty());
    crate::text_lemmas::lemma_lines_after_line(last, Seq::empty());
    assert(last.push('\n') =~= last + seq!['\n'] + Seq::<char>::empty());
    if m.len() == 1 {
        assert(init =~= Seq::<Seq<char>>::empty());
        assert(strip_crs(init) =~= Seq::<Seq<char>>::empty());
        assert(join_lines(m) == last);
        assert(seq![strip_cr(last)] + Seq::<Seq<char>>::empty() =~= seq![strip_cr(last)]);
        assert(strip_crs(init) + seq![strip_cr(last)] =~= seq![strip_cr(last)]);
        assert(strip_crs(init) + (if last.len() == 0 {
            Seq::<Seq<char>>::empty()
        } else {
            seq![last]
        }) =~= (if last.len() == 0 {
            Seq::<Seq<char>>::empty()
        } else {
            seq![last]
        }));
    } else {
        assert forall|i: int| 0 <= i < init.len() implies no_newline(#[trigger] init[i]) by {
            assert(init[i] == m[i]);
        }
        assert(join_lines(m) == join_lines(init) + seq!['\n'] + last);
        crate::text_lemmas::lemma_lines_after_join(init, last.push('\n'));
        crate::text_lemmas::lemma_lines_after_join(init, last);
        assert(seq![strip_cr(last)] + Seq::<Seq<char>>::empty() =~= seq![strip_cr(last)]);
        assert(join_lines(m).push('\n') =~= join_lines(init) + seq!['\n'] + last.push('\n'));
    }
}

} // verus!
