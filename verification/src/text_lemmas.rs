//! Facts about the text model: how `str::lines` splits text that was joined from
//! lines, what trimming does to a line, and that a number printed in decimal parses
//! back to itself.
use vstd::prelude::*;

use crate::text::{
    all_digits, decimal_int, decimal_nat, digit_char, digit_value, digits_value, has_sign, is_digit,
    is_white, join_lines, lemma_split_newlines_len, lines_of, parse_i64, signed_value, split_newlines, strip_cr, trim, trim_end,
    trim_start, unsigned_part,
};

verus! {

/// Whether `s` holds no `'\n'`.
pub open spec fn no_newline(s: Seq<char>) -> bool {
    forall|i: int| 0 <= i < s.len() ==> s[i] != '\n'
}

/// Each line with a trailing `'\r'` removed.
pub open spec fn strip_crs(ls: Seq<Seq<char>>) -> Seq<Seq<char>> {
    Seq::new(ls.len(), |i: int| strip_cr(ls[i]))
}

/// A text without newlines is one piece.
pub proof fn lemma_split_no_newline(a: Seq<char>)
    requires
        no_newline(a),
    ensures
        split_newlines(a) == seq![a],
    decreases a.len(),
{
    if a.len() > 0 {
        assert(a[a.len() - 1] != '\n');
        assert forall|i: int| 0 <= i < a.drop_last().len() implies a.drop_last()[i] != '\n' by {
            assert(a.drop_last()[i] == a[i]);
        }
        lemma_split_no_newline(a.drop_last());
        assert(a.drop_last().push(a.last()) =~= a);
        assert(seq![a.drop_last()].update(0, a.drop_last().push(a.last())) =~= seq![a]);
    } else {
        assert(a =~= Seq::<char>::empty());
        assert(split_newlines(a) =~= seq![a]);
    }
}

/// Splitting `a\nb` gives `a`, then the pieces of `b`.
pub proof fn lemma_split_after_line(a: Seq<char>, b: Seq<char>)
    requires
        no_newline(a),
    ensures
        split_newlines(a + seq!['\n'] + b) == seq![a] + split_newlines(b),
    decreases b.len(),
{
    let s = a + seq!['\n'] + b;
    if b.len() == 0 {
        assert(s.drop_last() =~= a);
        lemma_split_no_newline(a);
        assert(split_newlines(b) == seq![Seq::<char>::empty()]);
        assert(seq![a].push(Seq::<char>::empty()) =~= seq![a] + seq![Seq::<char>::empty()]);
    } else {
        assert(s.drop_last() =~= a + seq!['\n'] + b.drop_last());
        lemma_split_after_line(a, b.drop_last());
        lemma_split_newlines_len(b.drop_last());
        let q = split_newlines(b.drop_last());
        assert(s.last() == b.last());
        if b.last() == '\n' {
            assert((seq![a] + q).push(Seq::<char>::empty()) =~= seq![a] + q.push(Seq::<char>::empty()));
        } else {
            let p = seq![a] + q;
            assert(p.update(p.len() - 1, p.last().push(b.last())) =~= seq![a] + q.update(
                q.len() - 1,
                q.last().push(b.last()),
            ));
        }
    }
}

/// The lines of `a\nb` are `a` (without a final `'\r'`), then the lines of `b`.
pub proof fn lemma_lines_after_line(a: Seq<char>, b: Seq<char>)
    requires
        no_newline(a),
    ensures
        lines_of(a + seq!['\n'] + b) == seq![strip_cr(a)] + lines_of(b),
{
    lemma_split_after_line(a, b);
    lemma_split_newlines_len(b);
    let q = split_newlines(b);
    let p = split_newlines(a + seq!['\n'] + b);
    assert(p == seq![a] + q);
    assert(p.last() == q.last());
    assert(lines_of(a + seq!['\n'] + b) =~= seq![strip_cr(a)] + lines_of(b));
}

/// The lines of `join_lines(ls)\nb` are those of `ls` (without final `'\r'`s), then
/// the lines of `b`.
pub proof fn lemma_lines_after_join(ls: Seq<Seq<char>>, b: Seq<char>)
    requires
        ls.len() >= 1,
        forall|i: int| 0 <= i < ls.len() ==> no_newline(#[trigger] ls[i]),
    ensures
        lines_of(join_lines(ls) + seq!['\n'] + b) == strip_crs(ls) + lines_of(b),
    decreases ls.len(),
{
    if ls.len() == 1 {
        lemma_lines_after_line(ls[0], b);
        assert(strip_crs(ls) =~= seq![strip_cr(ls[0])]);
    } else {
        let init = ls.drop_last();
        let rest = ls.last() + seq!['\n'] + b;
        assert(join_lines(ls) + seq!['\n'] + b =~= join_lines(init) + seq!['\n'] + rest);
        assert(no_newline(ls[ls.len() - 1]));
        lemma_lines_after_join(init, rest);
        lemma_lines_after_line(ls.last(), b);
        assert(strip_crs(init) + (seq![strip_cr(ls.last())] + lines_of(b)) =~= strip_crs(ls) + lines_of(
            b,
        ));
    }
}

/// The pieces of a split hold no newline.
proof fn lemma_split_pieces(s: Seq<char>)
    ensures
        forall|i: int| 0 <= i < split_newlines(s).len() ==> no_newline(#[trigger] split_newlines(s)[i]),
    decreases s.len(),
{
    if s.len() > 0 {
        lemma_split_pieces(s.drop_last());
        lemma_split_newlines_len(s.drop_last());
    }
}

/// The lines of a text hold no newline.
pub proof fn lemma_lines_no_newline(s: Seq<char>)
    ensures
        forall|i: int| 0 <= i < lines_of(s).len() ==> no_newline(#[trigger] lines_of(s)[i]),
{
    lemma_split_pieces(s);
    lemma_split_newlines_len(s);
    let p = split_newlines(s);
    assert forall|i: int| 0 <= i < lines_of(s).len() implies no_newline(#[trigger] lines_of(s)[i]) by {
        assert(no_newline(p[i]));
    }
}

/// Trimming ignores a final whitespace character.
proof fn lemma_trim_drop_white(l: Seq<char>)
    requires
        l.len() > 0,
        is_white(l.last()),
    ensures
        trim(l) == trim(l.drop_last()),
    decreases l.len(),
{
    if is_white(l[0]) {
        assert(trim_start(l) == trim_start(l.drop_first()));
        if l.len() >= 2 {
            assert(l.drop_last().drop_first() =~= l.drop_first().drop_last());
            assert(l.drop_last()[0] == l[0]);
            assert(trim_start(l.drop_last()) == trim_start(l.drop_last().drop_first()));
            assert(l.drop_first().last() == l.last());
            lemma_trim_drop_white(l.drop_first());
        } else {
            assert(l.drop_first().len() == 0);
            assert(l.drop_last().len() == 0);
        }
    } else {
        assert(l.len() >= 2);
        assert(trim_start(l) == l);
        assert(l.drop_last()[0] == l[0]);
        assert(trim_start(l.drop_last()) == l.drop_last());
        assert(trim_end(l) == trim_end(l.drop_last()));
    }
}

/// Trimming ignores a trailing `'\r'`.
pub proof fn lemma_trim_strip_cr(l: Seq<char>)
    ensures
        trim(strip_cr(l)) == trim(l),
{
    if l.len() > 0 && l.last() == '\r' {
        lemma_trim_drop_white(l);
    }
}

/// A text with no whitespace at either end is its own trim.
pub proof fn lemma_trim_unchanged(s: Seq<char>)
    requires
        s.len() > 0,
        !is_white(s[0]),
        !is_white(s.last()),
    ensures
        trim(s) == s,
{
}

/// Trimming the start skips leading whitespace.
pub proof fn lemma_trim_start_space(s: Seq<char>)
    ensures
        trim_start(seq![' '] + s) == trim_start(s),
{
    assert((seq![' '] + s).drop_first() =~= s);
}

/// A digit character denotes its digit.
proof fn lemma_digit_char(d: nat)
    requires
        d < 10,
    ensures
        is_digit(digit_char(d)),
        digit_value(digit_char(d)) == d,
{
}

/// The decimal digits of `n` are digits, at least one, and denote `n`.
pub proof fn lemma_decimal_nat(n: nat)
    ensures
        decimal_nat(n).len() > 0,
        all_digits(decimal_nat(n)),
        digits_value(decimal_nat(n)) == n,
    decreases n,
{
    if n < 10 {
        lemma_digit_char(n);
        let s = decimal_nat(n);
        assert(s == seq![digit_char(n)]);
        assert(s.drop_last() =~= Seq::<char>::empty());
        assert(digits_value(s.drop_last()) == 0);
        assert(digits_value(s) == digits_value(s.drop_last()) * 10 + digit_value(s.last()));
    } else {
        lemma_decimal_nat(n / 10);
        lemma_digit_char(n % 10);
        assert(n == (n / 10) * 10 + n % 10) by (nonlinear_arith);
        let s = decimal_nat(n);
        assert(s.drop_last() =~= decimal_nat(n / 10));
        assert(s.last() == digit_char(n % 10));
        assert(digits_value(s) == digits_value(s.drop_last()) * 10 + digit_value(s.last()));
        assert forall|i: int| 0 <= i < s.len() implies is_digit(#[trigger] s[i]) by {
            if i < s.len() - 1 {
                assert(s[i] == decimal_nat(n / 10)[i]);
            }
        }
    }
}

/// A number printed in decimal parses back to itself.
pub proof fn lemma_parse_decimal(p: i64)
    ensures
        parse_i64(decimal_int(p as int)) == Some(p),
{
    if p < 0 {
        let m = (-p) as nat;
        lemma_decimal_nat(m);
        let s = decimal_int(p as int);
        assert(has_sign(s));
        assert(unsigned_part(s) =~= decimal_nat(m));
        assert(signed_value(s) == -(m as int));
    } else {
        let m = p as nat;
        lemma_decimal_nat(m);
        let s = decimal_int(p as int);
        assert(is_digit(s[0]));
        assert(!has_sign(s));
        assert(unsigned_part(s) == s);
    }
}

/// The first character of a decimal number is a digit or `'-'`, and the last a digit.
pub proof fn lemma_decimal_ends(p: int)
    ensures
        decimal_int(p).len() > 0,
        !is_white(decimal_int(p)[0]),
        !is_white(decimal_int(p).last()),
        no_newline(decimal_int(p)),
{
    if p < 0 {
        lemma_decimal_nat((-p) as nat);
        let s = decimal_nat((-p) as nat);
        assert(is_digit(s[s.len() - 1]));
        assert(decimal_int(p).last() == s.last());
        assert forall|i: int| 0 <= i < decimal_int(p).len() implies decimal_int(p)[i] != '\n' by {
            if i > 0 {
                assert(decimal_int(p)[i] == s[i - 1]);
                assert(is_digit(s[i - 1]));
            }
        }
    } else {
        lemma_decimal_nat(p as nat);
        let s = decimal_nat(p as nat);
        assert(is_digit(s[0]));
        assert(is_digit(s[s.len() - 1]));
        assert forall|i: int| 0 <= i < s.len() implies s[i] != '\n' by {
            assert(is_digit(s[i]));
        }
    }
}

} // verus!
