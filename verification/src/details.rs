//! Texts of the panels: the details of a board shown beside the board list, and the
//! key hints of the status bar split into plain text and `[key]` labels.
use vstd::prelude::*;

use crate::board::{Board, List};
use crate::text::{append_chars, chars_of, string_of};
use crate::tui::{card_count, card_total, count_label, spec_count_label};

verus! {

broadcast use crate::views::lemma_chars_deep_view;

/// A line of the board details, by kind: the caller styles each kind.
#[derive(Debug, PartialEq, Eq)]
pub enum DetailLine {
    /// The board's name.
    Name(String),
    /// `N lists / M cards`.
    Summary(String),
    Blank,
    /// `No lists yet`, for a board without lists.
    NoLists,
    /// A list's name and `  N cards`.
    ListHeading { name: String, count: String },
    /// `  No cards`, for a list without cards.
    NoCards,
    /// A card's title, shown after `  - `.
    CardTitle(String),
}

/// A detail line as values.
pub enum DetailView {
    Name(Seq<char>),
    Summary(Seq<char>),
    Blank,
    NoLists,
    ListHeading(Seq<char>, Seq<char>),
    NoCards,
    CardTitle(Seq<char>),
}

impl DetailLine {
    /// The line as values.
    pub open spec fn view(&self) -> DetailView {
        match self {
            DetailLine::Name(s) => DetailView::Name(s@),
            DetailLine::Summary(s) => DetailView::Summary(s@),
            DetailLine::Blank => DetailView::Blank,
            DetailLine::NoLists => DetailView::NoLists,
            DetailLine::ListHeading { name, count } => DetailView::ListHeading(name@, count@),
            DetailLine::NoCards => DetailView::NoCards,
            DetailLine::CardTitle(s) => DetailView::CardTitle(s@),
        }
    }
}

/// The lines as values.
pub open spec fn details_view(ls: Seq<DetailLine>) -> Seq<DetailView> {
    Seq::new(ls.len(), |i: int| ls[i].view())
}

/// The lines of one list: its heading, its card titles (or `No cards`), a blank line.
pub open spec fn list_detail_lines(l: List) -> Seq<DetailView> {
    seq![DetailView::ListHeading(l.name@, spec_count_label(l.cards@.len(), "card"@))] + (if l.cards@.len()
        == 0 {
        seq![DetailView::NoCards]
    } else {
        Seq::new(l.cards@.len(), |i: int| DetailView::CardTitle(l.cards@[i].title@))
    }) + seq![DetailView::Blank]
}

/// The lines of the lists `ls`, in order.
pub open spec fn lists_detail_lines(ls: Seq<List>) -> Seq<DetailView>
    decreases ls.len(),
{
    if ls.len() == 0 {
        Seq::empty()
    } else {
        lists_detail_lines(ls.drop_last()) + list_detail_lines(ls.last())
    }
}

/// The details of a board: its name, its counts, a blank line, then each list with its
/// cards, lists parted by blank lines (or `No lists yet`).
pub open spec fn spec_board_details(b: Board) -> Seq<DetailView> {
    let head = seq![
        DetailView::Name(b.name@),
        DetailView::Summary(
            spec_count_label(b.lists@.len(), "list"@) + " / "@ + spec_count_label(
                card_total(b),
                "card"@,
            ),
        ),
        DetailView::Blank,
    ];
    if b.lists@.len() == 0 {
        head.push(DetailView::NoLists)
    } else {
        (head + lists_detail_lines(b.lists@)).drop_last()
    }
}

/// The details of a board (see `spec_board_details`).
pub fn board_details_lines(board: &Board) -> (r: Vec<DetailLine>)
    requires
        card_total(*board) <= usize::MAX,
    ensures
        details_view(r@) == spec_board_details(*board),
{
    let mut r: Vec<DetailLine> = Vec::new();
    r.push(DetailLine::Name(board.name.clone()));
    let mut summary = chars_of(count_label(board.lists.len(), "list").as_str());
    append_chars(&mut summary, &chars_of(" / "));
    append_chars(&mut summary, &chars_of(count_label(card_count(board), "card").as_str()));
    r.push(DetailLine::Summary(string_of(&summary)));
    r.push(DetailLine::Blank);
    let ghost head = details_view(r@);
    if board.lists.len() == 0 {
        r.push(DetailLine::NoLists);
        assert(details_view(r@) =~= head.push(DetailView::NoLists));
        return r;
    }
    let mut i: usize = 0;
    while i < board.lists.len()
        invariant
            i <= board.lists@.len(),
            details_view(r@) == head + lists_detail_lines(board.lists@.take(i as int)),
        decreases board.lists.len() - i,
    {
        let ghost before = details_view(r@);
        let list = &board.lists[i];
        r.push(
            DetailLine::ListHeading {
                name: list.name.clone(),
                count: count_label(list.cards.len(), "card"),
            },
        );
        let ghost heading = DetailView::ListHeading(
            list.name@,
            spec_count_label(list.cards@.len(), "card"@),
        );
        assert(details_view(r@) =~= before + seq![heading] + Seq::new(
            0,
            |j: int| DetailView::CardTitle(list.cards@[j].title@),
        ));
        if list.cards.len() == 0 {
            r.push(DetailLine::NoCards);
            assert(details_view(r@) =~= before + seq![heading] + seq![DetailView::NoCards]);
        } else {
            let mut k: usize = 0;
            while k < list.cards.len()
                invariant
                    k <= list.cards@.len(),
                    details_view(r@) == before + seq![
                        DetailView::ListHeading(list.name@, spec_count_label(list.cards@.len(), "card"@)),
                    ] + Seq::new(k as nat, |j: int| DetailView::CardTitle(list.cards@[j].title@)),
                decreases list.cards.len() - k,
            {
                let ghost b2 = details_view(r@);
                r.push(DetailLine::CardTitle(list.cards[k].title.clone()));
                assert(details_view(r@) =~= b2.push(DetailView::CardTitle(list.cards@[k as int].title@)));
                assert(Seq::new((k + 1) as nat, |j: int| DetailView::CardTitle(list.cards@[j].title@))
                    =~= Seq::new(k as nat, |j: int| DetailView::CardTitle(list.cards@[j].title@)).push(
                    DetailView::CardTitle(list.cards@[k as int].title@),
                ));
                k += 1;
            }
            assert(details_view(r@) == before + seq![heading] + Seq::new(
                list.cards@.len(),
                |j: int| DetailView::CardTitle(list.cards@[j].title@),
            ));
        }
        let ghost mid = details_view(r@);
        r.push(DetailLine::Blank);
        assert(details_view(r@) =~= mid.push(DetailView::Blank));
        assert(board.lists@.take(i + 1).drop_last() =~= board.lists@.take(i as int));
        assert(details_view(r@) =~= before + list_detail_lines(board.lists@[i as int]));
        i += 1;
    }
    assert(board.lists@.take(i as int) =~= board.lists@);
    let ghost full = details_view(r@);
    r.pop();
    assert(details_view(r@) =~= full.drop_last());
    r
}

/// The plain text of a detail line.
pub open spec fn detail_text(l: DetailView) -> Seq<char> {
    match l {
        DetailView::Name(s) => s,
        DetailView::Summary(s) => s,
        DetailView::Blank => Seq::empty(),
        DetailView::NoLists => "No lists yet"@,
        DetailView::ListHeading(name, count) => name + "  "@ + count,
        DetailView::NoCards => "  No cards"@,
        DetailView::CardTitle(t) => "  - "@ + t,
    }
}

/// The plain texts of `ls` joined by newlines.
pub open spec fn joined_details(ls: Seq<DetailView>) -> Seq<char>
    decreases ls.len(),
{
    if ls.len() == 0 {
        Seq::empty()
    } else if ls.len() == 1 {
        detail_text(ls[0])
    } else {
        joined_details(ls.drop_last()) + "\n"@ + detail_text(ls.last())
    }
}

fn detail_chars(l: &DetailLine) -> (r: Vec<char>)
    ensures
        r@ == detail_text(l.view()),
{
    match l {
        DetailLine::Name(s) => chars_of(s.as_str()),
        DetailLine::Summary(s) => chars_of(s.as_str()),
        DetailLine::Blank => Vec::new(),
        DetailLine::NoLists => chars_of("No lists yet"),
        DetailLine::ListHeading { name, count } => {
            let mut v = chars_of(name.as_str());
            append_chars(&mut v, &chars_of("  "));
            append_chars(&mut v, &chars_of(count.as_str()));
            v
        },
        DetailLine::NoCards => chars_of("  No cards"),
        DetailLine::CardTitle(t) => {
            let mut v = chars_of("  - ");
            append_chars(&mut v, &chars_of(t.as_str()));
            v
        },
    }
}

/// The details of a board as plain text, one line each.
pub fn board_details_plain_text(board: &Board) -> (r: String)
    requires
        card_total(*board) <= usize::MAX,
    ensures
        r@ == joined_details(spec_board_details(*board)),
{
    let ls = board_details_lines(board);
    let ghost lv = details_view(ls@);
    let mut v: Vec<char> = Vec::new();
    let mut i: usize = 0;
    while i < ls.len()
        invariant
            i <= ls@.len(),
            lv == details_view(ls@),
            v@ == joined_details(lv.take(i as int)),
        decreases ls.len() - i,
    {
        assert(lv.take(i + 1).drop_last() =~= lv.take(i as int));
        if i > 0 {
            append_chars(&mut v, &chars_of("\n"));
        }
        append_chars(&mut v, &detail_chars(&ls[i]));
        i += 1;
    }
    assert(lv.take(i as int) =~= lv);
    string_of(&v)
}

// ---------------------------------------------------------------------------
// The status bar
// ---------------------------------------------------------------------------

/// A piece of the status bar: plain text, or a key label from `[` to `]`.
pub struct Segment {
    pub text: String,
    pub is_key: bool,
}

/// The pieces of `t` from index `i` on, with `cur` read so far into the current piece
/// (a key label when `in_key`): a `[` starts a key label, which runs through the next
/// `]` (or to the end); plain text runs up to the next `[`.
pub open spec fn segments_from(t: Seq<char>, i: int, cur: Seq<char>, in_key: bool) -> Seq<(Seq<char>, bool)>
    decreases t.len() - i,
{
    if i < 0 || i >= t.len() {
        if cur.len() > 0 {
            seq![(cur, in_key)]
        } else {
            Seq::empty()
        }
    } else if in_key {
        if t[i] == ']' {
            seq![(cur.push(']'), true)] + segments_from(t, i + 1, Seq::empty(), false)
        } else {
            segments_from(t, i + 1, cur.push(t[i]), true)
        }
    } else if t[i] == '[' {
        (if cur.len() > 0 {
            seq![(cur, false)]
        } else {
            Seq::empty()
        }) + segments_from(t, i + 1, seq!['['], true)
    } else {
        segments_from(t, i + 1, cur.push(t[i]), false)
    }
}

/// The pieces as values.
pub open spec fn segments_view(s: Seq<Segment>) -> Seq<(Seq<char>, bool)> {
    Seq::new(s.len(), |i: int| (s[i].text@, s[i].is_key))
}

/// The status bar text `text` split into plain text and key labels (see
/// `segments_from`).
pub fn status_bar_segments(text: &str) -> (r: Vec<Segment>)
    ensures
        segments_view(r@) == segments_from(text@, 0, Seq::empty(), false),
{
    let t = chars_of(text);
    let mut r: Vec<Segment> = Vec::new();
    let mut cur: Vec<char> = Vec::new();
    let mut in_key = false;
    let mut i: usize = 0;
    while i < t.len()
        invariant
            i <= t@.len(),
            t@ == text@,
            in_key ==> cur@.len() > 0,
            segments_view(r@) + segments_from(t@, i as int, cur@, in_key) == segments_from(
                t@,
                0,
                Seq::empty(),
                false,
            ),
        decreases t.len() - i,
    {
        let ghost before = segments_view(r@);
        let ghost cur0 = cur@;
        let ghost key0 = in_key;
        let c = t[i];
        if in_key {
            cur.push(c);
            if c == ']' {
                r.push(Segment { text: string_of(&cur), is_key: true });
                assert(segments_view(r@) =~= before.push((cur@, true)));
                cur = Vec::new();
                in_key = false;
            }
        } else if c == '[' {
            if cur.len() > 0 {
                r.push(Segment { text: string_of(&cur), is_key: false });
                assert(segments_view(r@) =~= before.push((cur@, false)));
            }
            cur = vec!['['];
            in_key = true;
        } else {
            cur.push(c);
        }
        proof {
            let step = segments_from(t@, i as int, cur0, key0);
            if key0 {
                if c == ']' {
                    assert(step == seq![(cur0.push(']'), true)] + segments_from(
                        t@,
                        i + 1,
                        Seq::empty(),
                        false,
                    ));
                    assert(before.push((cur0.push(']'), true)) + segments_from(t@, i + 1, Seq::empty(), false)
                        =~= before + step);
                } else {
                    assert(step == segments_from(t@, i + 1, cur0.push(c), true));
                }
            } else if c == '[' {
                let head = if cur0.len() > 0 {
                    seq![(cur0, false)]
                } else {
                    Seq::<(Seq<char>, bool)>::empty()
                };
                assert(step == head + segments_from(t@, i + 1, seq!['['], true));
                assert(segments_view(r@) =~= before + head);
                assert(cur@ =~= seq!['[']);
                assert(before + head + segments_from(t@, i + 1, seq!['['], true) =~= before + step);
            } else {
                assert(step == segments_from(t@, i + 1, cur0.push(c), false));
            }
        }
        i += 1;
    }
    if cur.len() > 0 {
        let ghost before = segments_view(r@);
        r.push(Segment { text: string_of(&cur), is_key: in_key });
        assert(segments_view(r@) =~= before.push((cur@, in_key)));
    }
    r
}

} // verus!
