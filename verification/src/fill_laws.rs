//! Filling in the metadata a card lacks keeps the position it records.
use vstd::prelude::*;

use crate::card::{
    fence, fence_from, field_line, frontmatter_block, frontmatter_end, has_field, is_fence,
    key_created_at, key_position, key_updated_at, line_has_key, normalized_lines, position_from,
    spec_markdown_with_missing_metadata, spec_position_from_markdown, ensure_field, body_after,
    normalize_body,
};
use crate::laws::{
    field_first_at, lemma_block_lines, lemma_block_of_text, lemma_edit_no_newline,
    lemma_fence_from_first, lemma_field_no_newline, lemma_keys, lemma_position_at,
    lemma_position_scan, lemma_stamp_line,
};
use crate::text::{crlf_to_lf, decimal_int, decimal_nat, lines_of, split_newlines, strip_cr, trim};
use crate::text_lemmas::{lemma_decimal_ends, lemma_trim_strip_cr, lemma_trim_unchanged, no_newline, strip_crs};

verus! {

// ---------------------------------------------------------------------------
// Line endings
// ---------------------------------------------------------------------------

/// `crlf_to_lf` keeps the last character of a text that is not empty.
pub(crate) proof fn lemma_crlf_last(s: Seq<char>)
    ensures
        s.len() > 0 ==> crlf_to_lf(s).len() > 0 && crlf_to_lf(s).last() == s.last(),
    decreases s.len(),
{
    if s.len() >= 2 {
        if s[0] == '\r' && s[1] == '\n' {
            assert(crlf_to_lf(s) == seq!['\n'] + crlf_to_lf(s.skip(2)));
            lemma_crlf_last(s.skip(2));
            if s.len() > 2 {
                assert(s.skip(2).last() == s.last());
            } else {
                assert(crlf_to_lf(s.skip(2)) == s.skip(2));
                assert(s.skip(2).len() == 0);
            }
        } else {
            assert(crlf_to_lf(s) == seq![s[0]] + crlf_to_lf(s.skip(1)));
            lemma_crlf_last(s.skip(1));
            assert(s.skip(1).last() == s.last());
        }
    }
}

/// `crlf_to_lf` of a text with one more character at its end.
proof fn lemma_crlf_push(s: Seq<char>, c: char)
    ensures
        crlf_to_lf(s.push(c)) == (if c == '\n' && s.len() > 0 && s.last() == '\r' {
            crlf_to_lf(s).drop_last().push('\n')
        } else {
            crlf_to_lf(s).push(c)
        }),
    decreases s.len(),
{
    let t = s.push(c);
    if s.len() == 0 {
        assert(crlf_to_lf(t) == t);
        assert(crlf_to_lf(s) == s);
        assert(t =~= s.push(c));
    } else if s.len() == 1 {
        if s[0] == '\r' && c == '\n' {
            assert(t[0] == '\r' && t[1] == '\n');
            assert(t.skip(2) =~= Seq::<char>::empty());
            assert(crlf_to_lf(t.skip(2)) == t.skip(2));
            assert(crlf_to_lf(t) =~= seq!['\n']);
            assert(crlf_to_lf(s).drop_last().push('\n') =~= seq!['\n']);
        } else {
            assert(t[0] == s[0] && t[1] == c);
            assert(t.skip(1) =~= seq![c]);
            assert(crlf_to_lf(t.skip(1)) == t.skip(1));
            assert(crlf_to_lf(t) =~= seq![s[0], c]);
            assert(crlf_to_lf(s).push(c) =~= seq![s[0], c]);
        }
    } else if s[0] == '\r' && s[1] == '\n' {
        let u = s.skip(2);
        assert(t.skip(2) =~= u.push(c));
        lemma_crlf_push(u, c);
        lemma_crlf_last(u);
        if u.len() > 0 {
            assert(u.last() == s.last());
        }
        let x = crlf_to_lf(u);
        if c == '\n' && s.last() == '\r' {
            assert(u.len() > 0);
            assert(seq!['\n'] + x.drop_last().push('\n') =~= (seq!['\n'] + x).drop_last().push('\n'));
        } else {
            assert(seq!['\n'] + x.push(c) =~= (seq!['\n'] + x).push(c));
        }
    } else {
        let u = s.skip(1);
        assert(t.skip(1) =~= u.push(c));
        lemma_crlf_push(u, c);
        lemma_crlf_last(u);
        assert(u.last() == s.last());
        let x = crlf_to_lf(u);
        if c == '\n' && s.last() == '\r' {
            assert(seq![s[0]] + x.drop_last().push('\n') =~= (seq![s[0]] + x).drop_last().push('\n'));
        } else {
            assert(seq![s[0]] + x.push(c) =~= (seq![s[0]] + x).push(c));
        }
    }
}

/// The last piece of a split is empty or ends with the text's last character.
pub(crate) proof fn lemma_split_last(s: Seq<char>)
    ensures
        split_newlines(s).len() >= 1,
        split_newlines(s).last().len() == 0 || (s.len() > 0 && s.last() != '\n'
            && split_newlines(s).last().last() == s.last()),
    decreases s.len(),
{
    if s.len() > 0 {
        lemma_split_last(s.drop_last());
    }
}

/// The pieces of a text with `"\r\n"` made `"\n"`: each piece but the last loses a
/// trailing `'\r'`.
pub open spec fn crlf_pieces(p: Seq<Seq<char>>) -> Seq<Seq<char>> {
    Seq::new(p.len(), |i: int| if i < p.len() - 1 { strip_cr(p[i]) } else { p[i] })
}

proof fn lemma_split_crlf(s: Seq<char>)
    ensures
        split_newlines(crlf_to_lf(s)) == crlf_pieces(split_newlines(s)),
    decreases s.len(),
{
    if s.len() == 0 {
        assert(crlf_to_lf(s) == s);
        assert(crlf_pieces(split_newlines(s)) =~= split_newlines(s));
    } else {
        let s0 = s.drop_last();
        let c = s.last();
        assert(s =~= s0.push(c));
        lemma_split_crlf(s0);
        lemma_crlf_push(s0, c);
        lemma_split_last(s0);
        let p0 = split_newlines(s0);
        let q0 = split_newlines(crlf_to_lf(s0));
        let p = split_newlines(s);
        let x = crlf_to_lf(s0);
        if c != '\n' {
            assert(crlf_to_lf(s) == x.push(c));
            assert(x.push(c).drop_last() =~= x);
            assert(split_newlines(crlf_to_lf(s)) =~= crlf_pieces(p));
        } else if s0.len() > 0 && s0.last() == '\r' {
            lemma_crlf_last(s0);
            let y = x.drop_last();
            assert(x =~= y.push('\r'));
            assert(split_newlines(x) == split_newlines(y).update(
                split_newlines(y).len() - 1,
                split_newlines(y).last().push('\r'),
            ));
            assert(crlf_to_lf(s) == y.push('\n'));
            assert(y.push('\n').drop_last() =~= y);
            crate::text::lemma_split_newlines_len(s0.drop_last());
            crate::text::lemma_split_newlines_len(y);
            assert(s0 =~= s0.drop_last().push('\r'));
            assert(p0.last() == split_newlines(s0.drop_last()).last().push('\r'));
            assert(p0.last().last() == '\r');
            assert(strip_cr(p0.last()) =~= p0.last().drop_last());
            assert(split_newlines(y).last().push('\r').drop_last() =~= split_newlines(y).last());
            assert(p =~= p0.push(Seq::<char>::empty()));
            assert(split_newlines(y.push('\n')) =~= split_newlines(y).push(Seq::<char>::empty()));
            assert(q0 == crlf_pieces(p0));
            assert forall|i: int| 0 <= i < p0.len() implies #[trigger] split_newlines(y)[i] == strip_cr(p0[i]) by {
                if i < p0.len() - 1 {
                    assert(q0 == split_newlines(x));
                    assert(split_newlines(x)[i] == split_newlines(y)[i]);
                    assert(split_newlines(y)[i] == q0[i]);
                } else {
                    assert(q0[i] == p0[i]);
                    assert(split_newlines(y)[i] == q0[i].drop_last());
                }
            }
            assert(split_newlines(crlf_to_lf(s)) =~= crlf_pieces(p));
        } else {
            assert(crlf_to_lf(s) == x.push('\n'));
            assert(x.push('\n').drop_last() =~= x);
            assert(strip_cr(p0.last()) == p0.last());
            assert(split_newlines(crlf_to_lf(s)) =~= crlf_pieces(p));
        }
    }
}

// ---------------------------------------------------------------------------
// Lines equal once trimmed
// ---------------------------------------------------------------------------

/// Whether `a` and `b` have the same lines once each is trimmed.
pub open spec fn same_trimmed(a: Seq<Seq<char>>, b: Seq<Seq<char>>) -> bool {
    &&& a.len() == b.len()
    &&& forall|i: int| 0 <= i < a.len() ==> #[trigger] trim(a[i]) == trim(b[i])
}

/// Making `"\r\n"` into `"\n"` changes the lines of a text only by trailing `'\r'`s.
pub(crate) proof fn lemma_lines_crlf(s: Seq<char>)
    ensures
        same_trimmed(lines_of(crlf_to_lf(s)), lines_of(s)),
{
    lemma_split_crlf(s);
    lemma_split_last(s);
    let p = split_newlines(s);
    let a = lines_of(crlf_to_lf(s));
    let b = lines_of(s);
    assert(split_newlines(crlf_to_lf(s)).last() == p.last());
    assert forall|i: int| 0 <= i < a.len() implies #[trigger] trim(a[i]) == trim(b[i]) by {
        if i < p.len() - 1 {
            assert(a[i] == strip_cr(strip_cr(p[i])));
            assert(b[i] == strip_cr(p[i]));
            lemma_trim_strip_cr(strip_cr(p[i]));
        }
    }
}

proof fn lemma_same_trimmed_position(a: Seq<Seq<char>>, b: Seq<Seq<char>>, k: int)
    requires
        same_trimmed(a, b),
        0 <= k,
    ensures
        position_from(a, k) == position_from(b, k),
        fence_from(a, k) == fence_from(b, k),
    decreases a.len() - k,
{
    if k < a.len() {
        assert(trim(a[k]) == trim(b[k]));
        lemma_same_trimmed_position(a, b, k + 1);
    }
}

/// The position a card gives and where its frontmatter closes do not depend on its
/// line endings.
pub(crate) proof fn lemma_position_crlf(content: Seq<char>)
    ensures
        spec_position_from_markdown(crlf_to_lf(content)) == spec_position_from_markdown(content),
        frontmatter_end(normalized_lines(content)) == frontmatter_end(lines_of(content)),
        spec_position_from_markdown(content) == (if normalized_lines(content).len() > 0 && is_fence(
            normalized_lines(content)[0],
        ) {
            position_from(normalized_lines(content), 1)
        } else {
            None
        }),
{
    lemma_lines_crlf(content);
    let a = normalized_lines(content);
    let b = lines_of(content);
    lemma_same_trimmed_position(a, b, 1);
    if a.len() > 0 {
        assert(trim(a[0]) == trim(b[0]));
    }
}

// ---------------------------------------------------------------------------
// Positions inside a frontmatter block
// ---------------------------------------------------------------------------

proof fn lemma_fence_found(ls: Seq<Seq<char>>, k: int)
    requires
        0 <= k,
    ensures
        fence_from(ls, k) matches Some(i) ==> k <= i < ls.len() && is_fence(ls[i]),
    decreases ls.len() - k,
{
    if k < ls.len() && !is_fence(ls[k]) {
        lemma_fence_found(ls, k + 1);
    }
}

/// Within a closed frontmatter, scanning the text from its second line gives what
/// scanning the block gives.
pub(crate) proof fn lemma_scan_block(ls: Seq<Seq<char>>, fm: Seq<Seq<char>>, k: int)
    requires
        0 <= k <= fm.len(),
        fm.len() + 1 < ls.len(),
        forall|i: int| 0 <= i < fm.len() ==> #[trigger] ls[i + 1] == fm[i],
        is_fence(ls[fm.len() + 1int]),
    ensures
        position_from(ls, 1 + k) == position_from(fm, k),
    decreases fm.len() - k,
{
    if k < fm.len() {
        assert(ls[k + 1] == fm[k]);
        lemma_scan_block(ls, fm, k + 1);
    }
}

/// Lines added after a block that gives a position do not change it.
proof fn lemma_position_prefix(fm0: Seq<Seq<char>>, fm: Seq<Seq<char>>, k: int)
    requires
        0 <= k,
        fm0.len() <= fm.len(),
        forall|i: int| 0 <= i < fm0.len() ==> #[trigger] fm[i] == fm0[i],
        position_from(fm0, k) is Some,
    ensures
        position_from(fm, k) == position_from(fm0, k),
    decreases fm0.len() - k,
{
    if k < fm0.len() {
        assert(fm[k] == fm0[k]);
        if !is_fence(fm0[k]) && !crate::text::starts_with(trim(fm0[k]), key_position().push(':')) {
            lemma_position_prefix(fm0, fm, k + 1);
        }
    }
}

/// `ensure_field` keeps every line and adds at most one at the end.
proof fn lemma_ensure_prefix(fm: Seq<Seq<char>>, key: Seq<char>, value: Seq<char>)
    ensures
        fm.len() <= ensure_field(fm, key, value).len() <= fm.len() + 1,
        forall|i: int| 0 <= i < fm.len() ==> #[trigger] ensure_field(fm, key, value)[i] == fm[i],
{
}

/// The block after filling in the missing fields, and what the text made from it reads
/// as its position: the position the block gives.
proof fn lemma_filled_block(content: Seq<char>, d: i64, now: u64, end: int) -> (fm: Seq<Seq<char>>)
    requires
        frontmatter_end(normalized_lines(content)) == Some(end),
    ensures
        ({
            let ls = normalized_lines(content);
            let fm0 = ls.subrange(1, end);
            let stamp = decimal_nat(now as nat);
            &&& fm == ensure_field(
                ensure_field(ensure_field(fm0, key_position(), decimal_int(d as int)), key_created_at(), stamp),
                key_updated_at(),
                stamp,
            )
            &&& fm0.len() <= fm.len()
            &&& forall|i: int| 0 <= i < fm0.len() ==> #[trigger] fm[i] == fm0[i]
            &&& !has_field(fm0, key_position()) ==> field_first_at(
                fm,
                key_position(),
                decimal_int(d as int),
                fm0.len() as int,
            )
            &&& spec_position_from_markdown(
                frontmatter_block(fm) + normalize_body(body_after(ls, end)),
            ) == position_from(fm, 0)
        }),
{
    let ls = normalized_lines(content);
    let fm0 = ls.subrange(1, end);
    let stamp = decimal_nat(now as nat);
    let v = decimal_int(d as int);
    lemma_block_of_text(content, end);
    lemma_keys();
    lemma_decimal_ends(d as int);
    lemma_stamp_line(key_created_at(), now);
    lemma_stamp_line(key_updated_at(), now);
    lemma_field_no_newline(key_position(), v);
    let fm1 = ensure_field(fm0, key_position(), v);
    let fm2 = ensure_field(fm1, key_created_at(), stamp);
    let fm3 = ensure_field(fm2, key_updated_at(), stamp);
    lemma_ensure_prefix(fm0, key_position(), v);
    lemma_ensure_prefix(fm1, key_created_at(), stamp);
    lemma_ensure_prefix(fm2, key_updated_at(), stamp);
    lemma_edit_no_newline(fm0, key_position(), v);
    lemma_edit_no_newline(fm1, key_created_at(), stamp);
    lemma_edit_no_newline(fm2, key_updated_at(), stamp);
    assert forall|i: int| 0 <= i < fm0.len() implies #[trigger] fm3[i] == fm0[i] by {
        assert(fm3[i] == fm2[i]);
        assert(fm2[i] == fm1[i]);
    }
    if !has_field(fm0, key_position()) {
        let j = fm0.len() as int;
        assert(fm1 == fm0.push(field_line(key_position(), v)));
        assert(fm3[j] == fm2[j]);
        assert(fm2[j] == fm1[j]);
        assert forall|t: int| 0 <= t < j implies !is_fence(#[trigger] fm3[t]) && !line_has_key(
            fm3[t],
            key_position(),
        ) by {
            assert(fm3[t] == fm0[t]);
        }
    }
    let rest = normalize_body(body_after(ls, end));
    let out = frontmatter_block(fm3) + rest;
    assert(fm3.len() >= 1) by {
        if fm0.len() == 0 {
            assert(!has_field(fm0, key_position()));
        }
    }
    lemma_block_lines(fm3, rest);
    let lo = lines_of(out);
    assert(lo == seq![fence()] + strip_crs(fm3) + seq![fence()] + lines_of(rest));
    assert(is_fence(lo[0])) by {
        lemma_trim_unchanged(fence());
    }
    assert(is_fence(lo[fm3.len() + 1int])) by {
        lemma_trim_unchanged(fence());
    }
    lemma_position_scan(lo, fm3, 0);
    fm3
}

/// Filling in the metadata a card lacks keeps the position its frontmatter records;
/// a card without a frontmatter block, or whose block records no position, gets the
/// default position.
pub proof fn law_filling_metadata_keeps_position(content: Seq<char>, default_position: i64, now: u64)
    ensures
        ({
            let ls = normalized_lines(content);
            let out = spec_markdown_with_missing_metadata(content, default_position, now);
            &&& (frontmatter_end(ls) is Some && spec_position_from_markdown(content) is Some)
                ==> spec_position_from_markdown(out) == spec_position_from_markdown(content)
            &&& frontmatter_end(ls) is None ==> spec_position_from_markdown(out) == Some(
                default_position,
            )
            &&& (frontmatter_end(ls) matches Some(end) && !has_field(
                ls.subrange(1, end),
                key_position(),
            )) ==> spec_position_from_markdown(out) == Some(default_position)
        }),
{
    let ls = normalized_lines(content);
    let out = spec_markdown_with_missing_metadata(content, default_position, now);
    let stamp = decimal_nat(now as nat);
    let v = decimal_int(default_position as int);
    lemma_position_crlf(content);
    match frontmatter_end(ls) {
        Some(end) => {
            let fm0 = ls.subrange(1, end);
            lemma_fence_from_first(ls, 1);
            lemma_fence_found(ls, 1);
            assert forall|i: int| 0 <= i < fm0.len() implies #[trigger] ls[i + 1] == fm0[i] by {
            }
            lemma_scan_block(ls, fm0, 0);
            if has_field(fm0, key_position()) && has_field(fm0, key_created_at()) && has_field(
                fm0,
                key_updated_at(),
            ) {
                assert(out == crlf_to_lf(content));
            } else {
                let fm = lemma_filled_block(content, default_position, now, end);
                assert(out == frontmatter_block(fm) + normalize_body(body_after(ls, end)));
                if spec_position_from_markdown(content) is Some {
                    lemma_position_prefix(fm0, fm, 0);
                }
                if !has_field(fm0, key_position()) {
                    lemma_position_at(fm, default_position, fm0.len() as int, 0);
                }
            }
        },
        None => {
            let fm = seq![
                field_line(key_position(), v),
                field_line(key_created_at(), stamp),
                field_line(key_updated_at(), stamp),
            ];
            let rest = normalize_body(crlf_to_lf(content));
            assert(out == frontmatter_block(fm) + rest);
            lemma_keys();
            lemma_decimal_ends(default_position as int);
            lemma_stamp_line(key_created_at(), now);
            lemma_stamp_line(key_updated_at(), now);
            lemma_field_no_newline(key_position(), v);
            assert forall|i: int| 0 <= i < fm.len() implies no_newline(#[trigger] fm[i]) by {
            }
            lemma_block_lines(fm, rest);
            let lo = lines_of(out);
            assert(is_fence(lo[0])) by {
                lemma_trim_unchanged(fence());
            }
            assert(is_fence(lo[fm.len() + 1int])) by {
                lemma_trim_unchanged(fence());
            }
            lemma_position_scan(lo, fm, 0);
            assert(field_first_at(fm, key_position(), v, 0));
            lemma_position_at(fm, default_position, 0, 0);
        },
    }
}

} // verus!
