//! Metadata read from a file can be written back: it reads back the same, and a
//! preview setting recorded in it reads back as set.
use vstd::prelude::*;

use crate::filesystem::{
    all_lists, parse_lines, parse_start, parse_step, spec_parse_board_metadata,
    spec_render_board_metadata, BoardMetaView, ListMetaView, ParseState,
};
use crate::card::unquoted;
use crate::laws::{is_trimmed, is_writable_list, is_writable_metadata, law_metadata_round_trip};
use crate::text::{lines_of, trim};
use crate::text_lemmas::{lemma_lines_no_newline, no_newline};
use crate::title_laws::{lemma_trim_ends, lemma_tt_no_newline};

verus! {

/// What reading keeps of every state: the name and every list read are writable.
pub open spec fn state_writable(st: ParseState) -> bool {
    &&& st.name matches Some(n) ==> is_trimmed(n) && no_newline(n)
    &&& forall|i: int| 0 <= i < all_lists(st).len() ==> is_writable_list(#[trigger] all_lists(st)[i])
}

/// A value read after a key: trimmed and without newlines.
proof fn lemma_value(t: Seq<char>, n: int)
    requires
        no_newline(t),
        0 <= n <= t.len(),
    ensures
        is_trimmed(trim(t.skip(n))),
        no_newline(trim(t.skip(n))),
        no_newline(unquoted(trim(t.skip(n)))),
{
    let v = t.skip(n);
    assert(no_newline(v)) by {
        assert forall|i: int| 0 <= i < v.len() implies v[i] != '\n' by {
            assert(v[i] == t[i + n]);
        }
    }
    lemma_trim_ends(v);
    lemma_tt_no_newline(v);
    let w = trim(v);
    let u = unquoted(w);
    assert forall|i: int| 0 <= i < u.len() implies u[i] != '\n' by {
        if w.len() >= 2 && w[0] == '"' && w.last() == '"' {
            assert(u[i] == w[i + 1]);
        }
    }
}

/// Reading a line without newlines keeps the state writable.
proof fn lemma_step(st: ParseState, line: Seq<char>)
    requires
        state_writable(st),
        no_newline(line),
    ensures
        state_writable(parse_step(st, line)),
{
    lemma_tt_no_newline(line);
    let t = trim(line);
    reveal_strlit("name:");
    reveal_strlit("show_preview:");
    reveal_strlit("- id:");
    reveal_strlit("title:");
    reveal_strlit("position:");
    reveal_strlit("border_color:");
    let r = parse_step(st, line);
    let old_all = all_lists(st);
    if t.len() >= 5 {
        lemma_value(t, 5);
    }
    if t.len() >= 6 {
        lemma_value(t, 6);
    }
    if t.len() >= 13 {
        lemma_value(t, 13);
    }
    let ar = all_lists(r);
    assert forall|i: int| 0 <= i < ar.len() implies is_writable_list(#[trigger] ar[i]) by {
        if i < old_all.len() {
            match st.current {
                Some(c) => {
                    if i < old_all.len() - 1 {
                        assert(ar[i] == old_all[i]);
                    }
                },
                None => {
                    assert(ar[i] == old_all[i]);
                },
            }
        }
    }
}

proof fn lemma_lines(ls: Seq<Seq<char>>)
    requires
        forall|i: int| 0 <= i < ls.len() ==> no_newline(#[trigger] ls[i]),
    ensures
        state_writable(parse_lines(ls)),
    decreases ls.len(),
{
    if ls.len() == 0 {
        assert(all_lists(parse_start()) =~= Seq::<ListMetaView>::empty());
    } else {
        let p = ls.drop_last();
        assert forall|i: int| 0 <= i < p.len() implies no_newline(#[trigger] p[i]) by {
            assert(p[i] == ls[i]);
        }
        lemma_lines(p);
        lemma_step(parse_lines(p), ls.last());
    }
}

/// Metadata read from a file is writable: its name, list ids and titles are trimmed and
/// without newlines, and its border colors are not empty and without newlines.
pub proof fn law_read_metadata_is_writable(content: Seq<char>)
    ensures
        spec_parse_board_metadata(content) matches Some(m) ==> is_writable_metadata(m),
{
    lemma_lines_no_newline(content);
    lemma_lines(lines_of(content));
}

/// Metadata read from a file, written again, reads back the same.
pub proof fn law_read_metadata_round_trip(content: Seq<char>)
    ensures
        spec_parse_board_metadata(content) matches Some(m) ==> spec_parse_board_metadata(
            spec_render_board_metadata(m),
        ) == Some(m),
{
    law_read_metadata_is_writable(content);
    if spec_parse_board_metadata(content) is Some {
        law_metadata_round_trip(spec_parse_board_metadata(content)->0);
    }
}

/// A preview setting recorded in metadata read from a file, written and read again,
/// reads back as set, the rest of the metadata unchanged.
pub proof fn law_preview_setting_round_trip(content: Seq<char>, show_preview: bool)
    ensures
        spec_parse_board_metadata(content) matches Some(m) ==> spec_parse_board_metadata(
            spec_render_board_metadata(BoardMetaView { show_preview, ..m }),
        ) == Some(BoardMetaView { show_preview, ..m }),
{
    law_read_metadata_is_writable(content);
    if spec_parse_board_metadata(content) is Some {
        let m = spec_parse_board_metadata(content)->0;
        law_metadata_round_trip(BoardMetaView { show_preview, ..m });
    }
}

} // verus!
