//! Which editor edits a card, how it is started, and the name of the temporary copy
//! of the card that it edits.
use vstd::prelude::*;

use crate::filesystem::strings_view;
use crate::text::{append_chars, chars_of, decimal_nat, decimal_u128, split_words, string_of, words};

verus! {

broadcast use crate::views::lemma_chars_deep_view;

/// The editor command: `NIFFLER_EDITOR`, else `EDITOR`, else `vi`.
pub fn configured_editor_from(niffler_editor: Option<String>, editor: Option<String>) -> (r: String)
    ensures
        r@ == (match niffler_editor {
            Some(e) => e@,
            None => match editor {
                Some(e) => e@,
                None => "vi"@,
            },
        }),
{
    match niffler_editor {
        Some(e) => e,
        None => match editor {
            Some(e) => e,
            None => String::from_str("vi"),
        },
    }
}

/// The program and arguments of an editor command: its words, the first being the
/// program (`vi` when there are none).
pub fn editor_command(editor: &str) -> (r: (String, Vec<String>))
    ensures
        ({
            let ws = words(editor@);
            &&& r.0@ == (if ws.len() > 0 {
                ws[0]
            } else {
                "vi"@
            })
            &&& strings_view(r.1@) == (if ws.len() > 0 {
                ws.skip(1)
            } else {
                Seq::empty()
            })
        }),
{
    let ws = split_words(&chars_of(editor));
    let ghost wv = ws.deep_view();
    if ws.len() == 0 {
        let args: Vec<String> = Vec::new();
        assert(strings_view(args@) =~= Seq::<Seq<char>>::empty());
        return (String::from_str("vi"), args);
    }
    let program = string_of(&ws[0]);
    assert(wv[0] == ws@[0]@);
    let mut args: Vec<String> = Vec::new();
    let mut i: usize = 1;
    while i < ws.len()
        invariant
            1 <= i <= ws@.len(),
            wv == ws.deep_view(),
            args@.len() == i - 1,
            strings_view(args@) == wv.subrange(1, i as int),
        decreases ws.len() - i,
    {
        let ghost before = args@;
        args.push(string_of(&ws[i]));
        assert(wv[i as int] == ws@[i as int]@);
        assert forall|t: int| 0 <= t < i implies strings_view(args@)[t] == wv.subrange(1, i + 1)[t] by {
            if t < i - 1 {
                assert(args@[t] == before[t]);
                assert(strings_view(before)[t] == wv.subrange(1, i as int)[t]);
            }
        }
        assert(strings_view(args@) =~= wv.subrange(1, i + 1));
        i += 1;
    }
    assert(wv.subrange(1, i as int) =~= wv.skip(1));
    (program, args)
}

/// The name of the temporary copy of a card: `niffler-`, the number `id`, `-`, and
/// the card's file name (`card.md` when it has none).
pub fn temp_card_name(id: u128, filename: Option<&str>) -> (r: String)
    ensures
        r@ == "niffler-"@ + decimal_nat(id as nat) + "-"@ + (match filename {
            Some(f) => f@,
            None => "card.md"@,
        }),
{
    let mut v = chars_of("niffler-");
    append_chars(&mut v, &decimal_u128(id));
    append_chars(&mut v, &chars_of("-"));
    match filename {
        Some(f) => append_chars(&mut v, &chars_of(f)),
        None => append_chars(&mut v, &chars_of("card.md")),
    }
    string_of(&v)
}

} // verus!
