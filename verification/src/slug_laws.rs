//! What a slug is made of, and that slugging a slug gives it back.
use vstd::prelude::*;

use crate::card::{slug_state, spec_slug_from_title, trim_dash_end, trim_dash_start, untitled};
use crate::laws::{law_slug_is_file_name, lemma_slug_state, lemma_trim_dash_end};
use crate::text::{ascii_lowercase, is_ascii_alnum, lowercase_chars, lowercase_of};

verus! {

/// Whether `c` is an ASCII capital letter.
pub open spec fn is_ascii_capital(c: char) -> bool {
    'A' <= c && c <= 'Z'
}

/// Whether `c` may stand in a slug: a small ASCII letter, a digit or a dash.
pub open spec fn is_slug_char(c: char) -> bool {
    ('a' <= c && c <= 'z') || ('0' <= c && c <= '9') || c == '-'
}

/// What `char_to_lowercase` states of each ASCII character it is called on: the
/// lowercase mapping of an ASCII character is its ASCII lowercase, alone.
pub open spec fn lowercase_is_ascii_on_ascii() -> bool {
    forall|c: char| c < '\u{80}' ==> #[trigger] lowercase_of(c) == seq![ascii_lowercase(c)]
}

/// What `char_to_lowercase` states of each character it is called on: no lowercase
/// mapping holds an ASCII capital letter.
pub open spec fn lowercase_has_no_capital() -> bool {
    forall|c: char, i: int| 0 <= i < lowercase_of(c).len() ==> !is_ascii_capital(#[trigger] lowercase_of(c)[i])
}

/// Lowercasing a text gives no ASCII capital.
proof fn lemma_lowercase_no_capital(s: Seq<char>)
    requires
        lowercase_has_no_capital(),
    ensures
        forall|i: int| 0 <= i < lowercase_chars(s).len() ==> !is_ascii_capital(#[trigger] lowercase_chars(s)[i]),
    decreases s.len(),
{
    if s.len() > 0 {
        lemma_lowercase_no_capital(s.drop_last());
        let a = lowercase_chars(s.drop_last());
        let b = lowercase_of(s.last());
        assert(lowercase_chars(s) == a + b);
        assert forall|i: int| 0 <= i < (a + b).len() implies !is_ascii_capital(#[trigger] (a + b)[i]) by {
            if i >= a.len() {
                assert((a + b)[i] == b[i - a.len()]);
            }
        }
    }
}

/// Building a slug from characters without ASCII letters or digits gives nothing.
proof fn lemma_state_empty(s: Seq<char>)
    requires
        forall|i: int| 0 <= i < s.len() ==> !is_ascii_alnum(#[trigger] s[i]),
    ensures
        slug_state(s).0.len() == 0,
    decreases s.len(),
{
    if s.len() > 0 {
        assert forall|i: int| 0 <= i < s.drop_last().len() implies !is_ascii_alnum(
            #[trigger] s.drop_last()[i],
        ) by {
            assert(s.drop_last()[i] == s[i]);
        }
        lemma_state_empty(s.drop_last());
    }
}

/// A title none of whose lowercased characters is an ASCII letter or digit gets the
/// slug `untitled`.
pub proof fn law_slug_untitled(title: Seq<char>)
    requires
        forall|i: int|
            0 <= i < lowercase_chars(title).len() ==> !is_ascii_alnum(#[trigger] lowercase_chars(title)[i]),
    ensures
        spec_slug_from_title(title) == untitled(),
{
    lemma_state_empty(lowercase_chars(title));
    let t = slug_state(lowercase_chars(title)).0;
    assert(trim_dash_start(t) == t);
    assert(trim_dash_end(t) == t);
}

/// Building a slug from characters without ASCII capitals gives none.
proof fn lemma_state_no_capital(s: Seq<char>)
    requires
        forall|i: int| 0 <= i < s.len() ==> !is_ascii_capital(#[trigger] s[i]),
    ensures
        forall|i: int| 0 <= i < slug_state(s).0.len() ==> !is_ascii_capital(#[trigger] slug_state(s).0[i]),
    decreases s.len(),
{
    if s.len() > 0 {
        let p = s.drop_last();
        assert forall|i: int| 0 <= i < p.len() implies !is_ascii_capital(#[trigger] p[i]) by {
            assert(p[i] == s[i]);
        }
        lemma_state_no_capital(p);
        let t = slug_state(s).0;
        assert forall|i: int| 0 <= i < t.len() implies !is_ascii_capital(#[trigger] t[i]) by {
            if i < slug_state(p).0.len() {
                assert(t[i] == slug_state(p).0[i]);
            }
        }
    }
}

/// Lowercasing characters that may stand in a slug keeps them.
proof fn lemma_lowercase_slug_chars(s: Seq<char>)
    requires
        lowercase_is_ascii_on_ascii(),
        forall|i: int| 0 <= i < s.len() ==> is_slug_char(#[trigger] s[i]),
    ensures
        lowercase_chars(s) == s,
    decreases s.len(),
{
    if s.len() > 0 {
        let p = s.drop_last();
        assert forall|i: int| 0 <= i < p.len() implies is_slug_char(#[trigger] p[i]) by {
            assert(p[i] == s[i]);
        }
        lemma_lowercase_slug_chars(p);
        let c = s.last();
        assert(is_slug_char(s[s.len() - 1]));
        assert(lowercase_of(c) == seq![ascii_lowercase(c)]);
        assert(s =~= p.push(c));
    }
}

/// Building a slug from a slug gives the slug back, prefix by prefix.
proof fn lemma_state_of_slug(s: Seq<char>, k: int)
    requires
        0 <= k <= s.len(),
        forall|i: int| 0 <= i < s.len() ==> is_slug_char(#[trigger] s[i]),
        s.len() > 0 ==> s[0] != '-',
        forall|i: int| 0 <= i < s.len() - 1 ==> !(#[trigger] s[i] == '-' && s[i + 1] == '-'),
    ensures
        slug_state(s.take(k)) == (s.take(k), k > 0 && s[k - 1] == '-'),
    decreases k,
{
    if k > 0 {
        lemma_state_of_slug(s, k - 1);
        let p = s.take(k);
        assert(p.drop_last() =~= s.take(k - 1));
        assert(p.last() == s[k - 1]);
        assert(is_slug_char(s[k - 1]));
        if s[k - 1] == '-' {
            assert(k - 1 > 0);
            assert(!(s[k - 2] == '-' && s[k - 1] == '-'));
        }
        assert(s.take(k - 1).push(s[k - 1]) =~= p);
    }
}

/// A slug is made of small ASCII letters, digits and dashes, and slugging it again
/// gives it back, given what `char_to_lowercase` states of the lowercase mapping: ASCII
/// characters map to their ASCII lowercase, and no mapping holds an ASCII capital.
pub proof fn law_slug_is_lowercase_and_stable(title: Seq<char>)
    requires
        lowercase_is_ascii_on_ascii(),
        lowercase_has_no_capital(),
    ensures
        forall|i: int|
            0 <= i < spec_slug_from_title(title).len() ==> is_slug_char(#[trigger] spec_slug_from_title(title)[i]),
        spec_slug_from_title(spec_slug_from_title(title)) == spec_slug_from_title(title),
{
    let s = spec_slug_from_title(title);
    lemma_lowercase_no_capital(title);
    law_slug_is_file_name(title);
    let st = slug_state(lowercase_chars(title));
    lemma_slug_state(lowercase_chars(title));
    lemma_state_no_capital(lowercase_chars(title));
    let t = st.0;
    assert(trim_dash_start(t) == t);
    lemma_trim_dash_end(t);
    assert forall|i: int| 0 <= i < s.len() implies is_slug_char(#[trigger] s[i]) by {
        assert(is_ascii_alnum(s[i]) || s[i] == '-');
        if s != untitled() {
            assert(s[i] == t[i]);
            assert(!is_ascii_capital(t[i]));
        } else {
            assert(s == untitled());
        }
    }
    lemma_lowercase_slug_chars(s);
    lemma_state_of_slug(s, s.len() as int);
    assert(s.take(s.len() as int) =~= s);
    assert(trim_dash_start(s) == s);
    assert(trim_dash_end(s) == s);
}

} // verus!
