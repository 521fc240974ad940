//! The preview of a card hides the frontmatter that its edits add.
use vstd::prelude::*;

use crate::card::{
    body_after, fence, field_line, frontmatter_block, frontmatter_end, is_fence, key_created_at,
    key_position, key_updated_at, normalize_body, spec_markdown_with_missing_metadata,
    spec_markdown_with_position, spec_preview_content,
};
use crate::fill_laws::lemma_split_last;
use crate::laws::{lemma_block_lines, lemma_field_no_newline, lemma_keys};
use crate::stamp_laws::{lemma_fence_walk, lemma_field_not_fence};
use crate::text::{
    crlf_to_lf, decimal_int, decimal_nat, ends_with_char, join_lines, lines_of, split_newlines,
    strip_cr, trim_leading_newlines,
};
use crate::text_lemmas::{lemma_decimal_ends, lemma_lines_after_line, lemma_trim_unchanged, no_newline, strip_crs};

verus! {

/// Whether `s` holds no carriage return.
pub open spec fn no_cr(s: Seq<char>) -> bool {
    forall|i: int| 0 <= i < s.len() ==> s[i] != '\r'
}

proof fn lemma_crlf_id(s: Seq<char>)
    requires
        no_cr(s),
    ensures
        crlf_to_lf(s) == s,
    decreases s.len(),
{
    if s.len() >= 2 {
        assert(s[0] != '\r');
        let r = s.skip(1);
        assert forall|i: int| 0 <= i < r.len() implies r[i] != '\r' by {
            assert(r[i] == s[i + 1]);
        }
        lemma_crlf_id(r);
        assert(seq![s[0]] + r =~= s);
    }
}

/// Joining the pieces of a text split at newlines gives the text.
proof fn lemma_join_split(s: Seq<char>)
    ensures
        join_lines(split_newlines(s)) == s,
    decreases s.len(),
{
    if s.len() > 0 {
        let p0 = s.drop_last();
        lemma_join_split(p0);
        crate::text::lemma_split_newlines_len(p0);
        let p = split_newlines(p0);
        let c = s.last();
        assert(s =~= p0.push(c));
        if c == '\n' {
            assert(split_newlines(s) == p.push(Seq::empty()));
            assert(p.push(Seq::<char>::empty()).drop_last() =~= p);
            assert(join_lines(p.push(Seq::empty())) =~= join_lines(p) + seq!['\n'] + Seq::<char>::empty());
        } else {
            let q = p.update(p.len() - 1, p.last().push(c));
            assert(split_newlines(s) == q);
            if p.len() == 1 {
                assert(join_lines(p) == p[0]);
            } else {
                assert(q.drop_last() =~= p.drop_last());
                assert(join_lines(q) =~= join_lines(p.drop_last()) + seq!['\n'] + p.last().push(c));
            }
        }
    }
}

proof fn lemma_split_no_cr(s: Seq<char>)
    requires
        no_cr(s),
    ensures
        forall|i: int| 0 <= i < split_newlines(s).len() ==> no_cr(#[trigger] split_newlines(s)[i]),
    decreases s.len(),
{
    if s.len() > 0 {
        let p0 = s.drop_last();
        assert forall|i: int| 0 <= i < p0.len() implies p0[i] != '\r' by {
            assert(p0[i] == s[i]);
        }
        lemma_split_no_cr(p0);
        crate::text::lemma_split_newlines_len(p0);
        let p = split_newlines(p0);
        assert(s =~= p0.push(s.last()));
        if s.last() != '\n' {
            let l = p.last().push(s.last());
            assert(no_cr(p[p.len() - 1]));
            assert forall|i: int| 0 <= i < l.len() implies l[i] != '\r' by {
                if i < l.len() - 1 {
                    assert(l[i] == p[p.len() - 1][i]);
                }
            }
        }
    }
}

/// Joining the lines of a text without carriage returns gives it back, without a final
/// newline.
proof fn lemma_join_lines_of(c: Seq<char>)
    requires
        no_cr(c),
    ensures
        join_lines(lines_of(c)) == (if c.len() > 0 && c.last() == '\n' {
            c.drop_last()
        } else {
            c
        }),
{
    let p = split_newlines(c);
    lemma_join_split(c);
    lemma_split_no_cr(c);
    lemma_split_last(c);
    let ls = lines_of(c);
    assert forall|i: int| 0 <= i < p.len() implies strip_cr(#[trigger] p[i]) == p[i] by {
        assert(no_cr(p[i]));
        if p[i].len() > 0 {
            assert(p[i][p[i].len() - 1] != '\r');
        }
    }
    if p.last().len() == 0 {
        assert(ls =~= p.drop_last());
        if p.len() == 1 {
            assert(join_lines(p) == p[0]);
            assert(c.len() == 0);
        } else {
            assert(join_lines(p) == join_lines(p.drop_last()) + seq!['\n'] + p.last());
            assert(c.last() == '\n') by {
                if c.len() > 0 && c.last() != '\n' {
                    assert(p.last().last() == c.last());
                }
                if c.len() == 0 {
                    assert(p.len() == 1);
                }
            }
            assert(c =~= join_lines(p.drop_last()) + seq!['\n']);
            assert(c.drop_last() =~= join_lines(p.drop_last()));
        }
    } else {
        assert(ls =~= p);
    }
}

/// Joining a line in front of other lines.
proof fn lemma_join_front(a: Seq<char>, l: Seq<Seq<char>>)
    requires
        l.len() > 0,
    ensures
        join_lines(seq![a] + l) == a + seq!['\n'] + join_lines(l),
    decreases l.len(),
{
    let x = seq![a] + l;
    if l.len() == 1 {
        assert(x.drop_last() =~= seq![a]);
        assert(join_lines(x) == join_lines(seq![a]) + seq!['\n'] + l[0]);
    } else {
        lemma_join_front(a, l.drop_last());
        assert(x.drop_last() =~= seq![a] + l.drop_last());
        assert(x.last() == l.last());
        assert(join_lines(x) =~= a + seq!['\n'] + join_lines(l));
    }
}

/// A text made of a frontmatter block of lines `f` and the body made from `c` previews
/// as `c`.
proof fn lemma_preview_block(f: Seq<Seq<char>>, c: Seq<char>)
    requires
        f.len() >= 1,
        forall|i: int| 0 <= i < f.len() ==> no_newline(#[trigger] f[i]) && no_cr(f[i]) && !is_fence(f[i]),
        c.len() > 0,
        no_cr(c),
        c[0] != '\n',
        !(c.len() >= 2 && c[c.len() - 1] == '\n' && c[c.len() - 2] == '\n'),
    ensures
        spec_preview_content(frontmatter_block(f) + normalize_body(c)) == c,
{
    let n = normalize_body(c);
    assert(trim_leading_newlines(c) == c);
    assert(n == seq!['\n'] + c);
    let out = frontmatter_block(f) + n;
    // No carriage return anywhere.
    let j = join_lines(f);
    lemma_join_no_cr(f);
    assert(no_cr(out)) by {
        assert(out =~= fence() + seq!['\n'] + j + seq!['\n'] + fence() + seq!['\n'] + n);
        assert forall|i: int| 0 <= i < out.len() implies out[i] != '\r' by {
            let a = fence().len() + 1;
            let b = a + j.len();
            if i >= a && i < b {
                assert(out[i] == j[i - a]);
            } else if i >= b + 5 && i < out.len() {
                if i >= b + 6 {
                    assert(out[i] == c[i - b - 6]);
                }
            }
        }
    }
    lemma_crlf_id(out);
    lemma_block_lines(f, n);
    let ls = lines_of(out);
    assert forall|i: int| 0 <= i < f.len() implies #[trigger] strip_crs(f)[i] == f[i] by {
        if f[i].len() > 0 {
            assert(f[i][f[i].len() - 1] != '\r');
        }
    }
    assert(strip_crs(f) =~= f);
    assert(ls == seq![fence()] + f + seq![fence()] + lines_of(n));
    let e = f.len() + 1int;
    assert(is_fence(ls[0])) by {
        lemma_trim_unchanged(fence());
    }
    assert(is_fence(ls[e])) by {
        lemma_trim_unchanged(fence());
    }
    assert forall|t: int| 1 <= t < e implies !is_fence(#[trigger] ls[t]) by {
        assert(ls[t] == f[t - 1]);
    }
    lemma_fence_walk(ls, 1, e);
    assert(frontmatter_end(ls) == Some(e));
    // The body: an empty line, then the lines of `c`.
    assert(n =~= Seq::<char>::empty() + seq!['\n'] + c);
    lemma_lines_after_line(Seq::<char>::empty(), c);
    assert(strip_cr(Seq::<char>::empty()) =~= Seq::<char>::empty());
    let lc = lines_of(c);
    assert(ls.skip(e + 1) =~= seq![Seq::<char>::empty()] + lc);
    crate::text::lemma_split_newlines_len(c);
    lemma_split_last(c);
    assert(lc.len() > 0) by {
        let p = split_newlines(c);
        assert(p[0].len() > 0) by {
            lemma_first_piece(c);
        }
        if p.len() == 1 {
            assert(p.last() == p[0]);
        }
    }
    lemma_join_front(Seq::<char>::empty(), lc);
    lemma_join_lines_of(c);
    let jc = join_lines(lc);
    assert(body_after(ls, e) == Seq::<char>::empty() + seq!['\n'] + jc);
    assert(jc.len() > 0 && jc[0] == c[0]) by {
        if c.len() > 0 && c.last() == '\n' {
            assert(c.len() >= 2);
            assert(jc[0] == c[0]);
        }
    }
    assert((Seq::<char>::empty() + seq!['\n'] + jc).drop_first() =~= jc);
    assert(trim_leading_newlines(Seq::<char>::empty() + seq!['\n'] + jc) == trim_leading_newlines(jc));
    assert(trim_leading_newlines(jc) == jc);
    assert(ends_with_char(out, '\n') == ends_with_char(c, '\n')) by {
        assert(out.last() == c.last());
    }
    if c.last() == '\n' {
        assert(jc == c.drop_last());
        assert(jc.last() == c[c.len() - 2]);
        assert(jc.push('\n') =~= c);
    }
}

/// The first piece of a text that does not start with a newline is not empty.
proof fn lemma_first_piece(c: Seq<char>)
    requires
        c.len() > 0,
        c[0] != '\n',
    ensures
        split_newlines(c)[0].len() > 0,
    decreases c.len(),
{
    crate::text::lemma_split_newlines_len(c);
    if c.len() > 1 {
        let p0 = c.drop_last();
        lemma_first_piece(p0);
        crate::text::lemma_split_newlines_len(p0);
        if c.last() != '\n' {
            if split_newlines(p0).len() == 1 {
                assert(split_newlines(c)[0] == split_newlines(p0)[0].push(c.last()));
            } else {
                assert(split_newlines(c)[0] == split_newlines(p0)[0]);
            }
        } else {
            assert(split_newlines(c)[0] == split_newlines(p0)[0]);
        }
    } else {
        assert(c.drop_last() =~= Seq::<char>::empty());
        assert(split_newlines(c.drop_last()) == seq![Seq::<char>::empty()]);
        assert(c.last() == c[0]);
        assert(split_newlines(c)[0] == Seq::<char>::empty().push(c[0]));
    }
}

proof fn lemma_join_no_cr(f: Seq<Seq<char>>)
    requires
        forall|i: int| 0 <= i < f.len() ==> no_cr(#[trigger] f[i]),
    ensures
        no_cr(join_lines(f)),
    decreases f.len(),
{
    if f.len() == 1 {
        assert(no_cr(f[0]));
    } else if f.len() > 1 {
        let g = f.drop_last();
        assert forall|i: int| 0 <= i < g.len() implies no_cr(#[trigger] g[i]) by {
            assert(g[i] == f[i]);
        }
        lemma_join_no_cr(g);
        let a = join_lines(g);
        let l = f.last();
        assert(no_cr(f[f.len() - 1]));
        let x = a + seq!['\n'] + l;
        assert forall|i: int| 0 <= i < x.len() implies x[i] != '\r' by {
            if i < a.len() {
                assert(x[i] == a[i]);
            } else if i > a.len() {
                assert(x[i] == l[i - a.len() - 1]);
            }
        }
    }
}

/// A stamp or position line holds neither a newline nor a carriage return, and is no
/// fence.
pub(crate) proof fn lemma_added_line(key: Seq<char>, v: Seq<char>)
    requires
        key == key_position() || key == key_created_at() || key == key_updated_at(),
        no_newline(v),
        no_cr(v),
    ensures
        no_newline(field_line(key, v)),
        no_cr(field_line(key, v)),
        !is_fence(field_line(key, v)),
{
    lemma_keys();
    lemma_field_no_newline(key, v);
    lemma_field_not_fence(key, v);
    let l = field_line(key, v);
    assert forall|i: int| 0 <= i < l.len() implies l[i] != '\r' by {
        if i < key.len() {
            assert(l[i] == key[i]);
        } else if i >= key.len() + 2 {
            assert(l[i] == v[i - key.len() - 2]);
        }
    }
}

pub(crate) proof fn lemma_digits_no_cr(p: i64, now: u64)
    ensures
        no_cr(decimal_int(p as int)),
        no_newline(decimal_int(p as int)),
        no_cr(decimal_nat(now as nat)),
        no_newline(decimal_nat(now as nat)),
{
    lemma_decimal_ends(p as int);
    crate::text_lemmas::lemma_decimal_nat(now as nat);
    let d = decimal_nat(now as nat);
    assert forall|i: int| 0 <= i < d.len() implies d[i] != '\r' && d[i] != '\n' by {
        assert(crate::text::is_digit(d[i]));
    }
    let s = decimal_int(p as int);
    if p < 0 {
        crate::text_lemmas::lemma_decimal_nat((-p) as nat);
        let m = decimal_nat((-p) as nat);
        assert forall|i: int| 0 <= i < m.len() implies m[i] != '\r' by {
            assert(crate::text::is_digit(m[i]));
        }
        assert(s == seq!['-'] + m);
        assert forall|i: int| 0 <= i < s.len() implies s[i] != '\r' by {
            if i > 0 {
                assert(s[i] == m[i - 1]);
            }
        }
    } else {
        crate::text_lemmas::lemma_decimal_nat(p as nat);
        let m = decimal_nat(p as nat);
        assert(s == m);
        assert forall|i: int| 0 <= i < s.len() implies s[i] != '\r' by {
            assert(crate::text::is_digit(m[i]));
        }
    }
}

/// A card written without frontmatter (no carriage returns, not starting with a blank
/// line, not ending with more than one newline) previews as it was after its missing
/// metadata is filled in, or after a position is set: the added frontmatter is hidden
/// and the body comes back unchanged.
pub proof fn law_preview_hides_added_metadata(c: Seq<char>, p: i64, now: u64)
    requires
        c.len() > 0,
        no_cr(c),
        c[0] != '\n',
        !(c.len() >= 2 && c[c.len() - 1] == '\n' && c[c.len() - 2] == '\n'),
        !is_fence(lines_of(c)[0]),
    ensures
        spec_preview_content(spec_markdown_with_missing_metadata(c, p, now)) == c,
        spec_preview_content(spec_markdown_with_position(c, p, now)) == c,
{
    lemma_crlf_id(c);
    let v = decimal_int(p as int);
    let s = decimal_nat(now as nat);
    lemma_digits_no_cr(p, now);
    lemma_added_line(key_position(), v);
    lemma_added_line(key_created_at(), s);
    lemma_added_line(key_updated_at(), s);
    let f = seq![field_line(key_position(), v), field_line(key_created_at(), s), field_line(key_updated_at(), s)];
    assert forall|i: int| 0 <= i < f.len() implies no_newline(#[trigger] f[i]) && no_cr(f[i]) && !is_fence(f[i]) by {
    }
    assert(crate::card::normalized_lines(c) == lines_of(c));
    assert(frontmatter_end(lines_of(c)) is None);
    assert(spec_markdown_with_missing_metadata(c, p, now) == frontmatter_block(f) + normalize_body(c));
    assert(spec_markdown_with_position(c, p, now) == frontmatter_block(f) + normalize_body(c));
    lemma_preview_block(f, c);
}

} // verus!
