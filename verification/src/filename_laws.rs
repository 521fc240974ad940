//! Titles made from file names: `-` and `_` separate words as spaces do.
use vstd::prelude::*;

use crate::card::{capitalized, md_suffix, separators_to_spaces, spec_title_from_filename, strip_md};
use crate::text::{ends_with, is_white, join_with, uppercase_of, words};

verus! {

/// `f` with every `-` and every `_` written as a space.
pub open spec fn dashes_as_spaces(f: Seq<char>) -> Seq<char> {
    f.map_values(|c: char| if c == '-' || c == '_' { ' ' } else { c })
}

/// Writing separators as spaces touches none of the characters of `.md`, so it keeps
/// whether a text ends with `.md`, and what is left once the suffixes are cut.
proof fn lemma_strip_md_spaced(s: Seq<char>)
    ensures
        strip_md(dashes_as_spaces(s)) == dashes_as_spaces(strip_md(s)),
    decreases s.len(),
{
    let t = dashes_as_spaces(s);
    let suffix = md_suffix();
    if s.len() >= 3 {
        assert(t.skip(s.len() - 3) =~= dashes_as_spaces(s.skip(s.len() - 3)));
        let tail = s.skip(s.len() - 3);
        if ends_with(s, suffix) {
            assert(tail =~= suffix);
            assert(dashes_as_spaces(tail) =~= suffix);
        }
        if ends_with(t, suffix) {
            assert(dashes_as_spaces(tail) =~= suffix);
            assert(tail[0] == '.' && tail[1] == 'm' && tail[2] == 'd') by {
                assert(dashes_as_spaces(tail)[0] == suffix[0]);
                assert(dashes_as_spaces(tail)[1] == suffix[1]);
                assert(dashes_as_spaces(tail)[2] == suffix[2]);
            }
            assert(tail =~= suffix);
        }
        assert(ends_with(t, suffix) == ends_with(s, suffix));
        if ends_with(s, suffix) {
            let rest = s.take(s.len() - 3);
            assert(t.take(t.len() - 3) =~= dashes_as_spaces(rest));
            lemma_strip_md_spaced(rest);
        }
    } else {
        assert(!ends_with(s, suffix));
        assert(!ends_with(t, suffix));
    }
}

/// In a file name, `-` and `_` act as spaces: the title made from the name is the
/// title made from the name with each of them written as a space.
pub proof fn law_title_separators_are_spaces(f: Seq<char>)
    ensures
        spec_title_from_filename(dashes_as_spaces(f)) == spec_title_from_filename(f),
{
    lemma_strip_md_spaced(f);
    let s = strip_md(f);
    assert(separators_to_spaces(dashes_as_spaces(s)) =~= separators_to_spaces(s));
}

/// `w` is one word of a file name: not empty, without whitespace, `-` or `_`, and not
/// ending in `.md`.
pub open spec fn plain_word(w: Seq<char>) -> bool {
    &&& w.len() > 0
    &&& !ends_with(w, md_suffix())
    &&& forall|i: int| 0 <= i < w.len() ==> !is_white(#[trigger] w[i]) && w[i] != '-' && w[i] != '_'
}

/// Text without whitespace after an empty text or whitespace adds one word.
proof fn lemma_words_append(s: Seq<char>, y: Seq<char>)
    requires
        s.len() == 0 || is_white(s.last()),
        y.len() > 0,
        forall|i: int| 0 <= i < y.len() ==> !is_white(#[trigger] y[i]),
    ensures
        words(s + y) == words(s).push(y),
    decreases y.len(),
{
    let z = s + y;
    assert(z.drop_last() =~= s + y.drop_last());
    assert(z.last() == y.last());
    if y.len() == 1 {
        assert(z.drop_last() =~= s);
        if z.len() >= 2 {
            assert(z[z.len() - 2] == s.last());
        }
        assert(seq![y.last()] =~= y);
    } else {
        lemma_words_append(s, y.drop_last());
        assert(z[z.len() - 2] == y[y.len() - 2]);
        let w = words(s + y.drop_last());
        assert(w.update(w.len() - 1, w.last().push(y.last())) =~= words(s).push(y)) by {
            assert(y.drop_last().push(y.last()) =~= y);
        }
    }
}

/// The title of one plain word: the word with its first character in uppercase.
proof fn lemma_title_of_word(w: Seq<char>)
    requires
        plain_word(w),
    ensures
        spec_title_from_filename(w) == capitalized(w),
        words(w) == seq![w],
{
    assert(strip_md(w) == w);
    assert(separators_to_spaces(w) =~= w);
    lemma_words_append(Seq::empty(), w);
    assert(Seq::<char>::empty() + w =~= w);
    assert(words(w) =~= seq![w]);
    let ws = words(w).map_values(|x: Seq<char>| capitalized(x));
    assert(ws =~= seq![capitalized(w)]);
}

/// A file name made of two plain words joined by `-`, `_` or a space has the title
/// of the first word and that of the second, joined by a space; the title of a plain
/// word is that word with its first character in uppercase.
pub proof fn law_title_of_joined_names(a: Seq<char>, b: Seq<char>, sep: char)
    requires
        plain_word(a),
        plain_word(b),
        sep == '-' || sep == '_' || sep == ' ',
    ensures
        spec_title_from_filename(a + seq![sep] + b) == spec_title_from_filename(a) + seq![' ']
            + spec_title_from_filename(b),
        spec_title_from_filename(a) == uppercase_of(a[0]) + a.skip(1),
{
    let z = a + seq![sep] + b;
    let suffix = md_suffix();
    lemma_title_of_word(a);
    lemma_title_of_word(b);
    // The joined name does not end in `.md`.
    if ends_with(z, suffix) {
        let tail = z.skip(z.len() - 3);
        if b.len() >= 3 {
            assert(tail =~= b.skip(b.len() - 3));
            assert(ends_with(b, suffix));
        } else {
            let j = 2 - b.len();
            assert(tail[j] == sep);
            assert(tail[j] == suffix[j]);
        }
    }
    assert(strip_md(z) == z);
    let spaced = a + seq![' '] + b;
    assert(separators_to_spaces(z) =~= spaced);
    // Its words are the two words.
    assert(words(a + seq![' ']) == words(a)) by {
        assert((a + seq![' ']).drop_last() =~= a);
    }
    assert(forall|i: int| 0 <= i < b.len() ==> !is_white(#[trigger] b[i]));
    lemma_words_append(a + seq![' '], b);
    assert(spaced =~= (a + seq![' ']) + b);
    assert(words(spaced) =~= seq![a, b]);
    let ws = words(spaced).map_values(|x: Seq<char>| capitalized(x));
    assert(ws =~= seq![capitalized(a), capitalized(b)]);
    assert(ws.drop_last() =~= seq![capitalized(a)]);
    assert(join_with(ws, ' ') == join_with(ws.drop_last(), ' ') + seq![' '] + ws.last());
}

} // verus!
