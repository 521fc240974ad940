//! Cards: markdown files with an optional frontmatter block between `---` lines that
//! holds `position`, `created_at` and `updated_at` fields.
use vstd::prelude::*;

use crate::text::{
    append_chars, chars_eq, copy_range, crlf_to_lf, decimal_int, decimal_nat, ends_with_char,
    has_prefix_at, join_all, join_lines, lines_of, parse_i64, starts_with, trim, trim_leading_newlines,
    trim_start, trim_start_index, trimmed, without_leading_newlines, chars_of, decimal_i64,
    decimal_u64, join_range, ends_with, words, is_ascii_alnum, lowercase_chars, uppercase_of, join_with,
    split_words, join_chars_with, to_lowercase_chars, ascii_alphanumeric, char_to_uppercase, lines, normalize_newlines, string_of, last_is, parse_i64_chars, has_prefix,
};

verus! {

broadcast use crate::views::lemma_chars_deep_view;

/// A card of a list: one markdown file.
#[derive(Clone, Debug, PartialEq, Eq)]
pub struct Card {
    pub title: String,
    pub filename: String,
    pub path: String,
    pub content: String,
    pub position: i64,
    pub color: Option<String>,
}

// ---------------------------------------------------------------------------
// The model
// ---------------------------------------------------------------------------

/// `---`
pub open spec fn fence() -> Seq<char> {
    seq!['-', '-', '-']
}

/// A line that opens or closes the frontmatter: `---` once trimmed.
pub open spec fn is_fence(l: Seq<char>) -> bool {
    trim(l) == fence()
}

/// The first index at or after `k` of a fence line in `ls`.
pub open spec fn fence_from(ls: Seq<Seq<char>>, k: int) -> Option<int>
    decreases ls.len() - k,
{
    if k < 0 || k >= ls.len() {
        None
    } else if is_fence(ls[k]) {
        Some(k)
    } else {
        fence_from(ls, k + 1)
    }
}

/// The index of the line that closes the frontmatter, when the first line opens one
/// and a later line closes it.
pub open spec fn frontmatter_end(ls: Seq<Seq<char>>) -> Option<int> {
    if ls.len() > 0 && is_fence(ls[0]) {
        fence_from(ls, 1)
    } else {
        None
    }
}

/// `position`
pub open spec fn key_position() -> Seq<char> {
    seq!['p', 'o', 's', 'i', 't', 'i', 'o', 'n']
}

/// `created_at`
pub open spec fn key_created_at() -> Seq<char> {
    seq!['c', 'r', 'e', 'a', 't', 'e', 'd', '_', 'a', 't']
}

/// `updated_at`
pub open spec fn key_updated_at() -> Seq<char> {
    seq!['u', 'p', 'd', 'a', 't', 'e', 'd', '_', 'a', 't']
}

/// `color`
pub open spec fn key_color() -> Seq<char> {
    seq!['c', 'o', 'l', 'o', 'r']
}

/// Whether a frontmatter line sets `key`: once trimmed at the start it begins `key:`.
pub open spec fn line_has_key(line: Seq<char>, key: Seq<char>) -> bool {
    starts_with(trim_start(line), key.push(':'))
}

/// The line `key: value`.
pub open spec fn field_line(key: Seq<char>, value: Seq<char>) -> Seq<char> {
    key + seq![':', ' '] + value
}

/// Whether some line of `fm` sets `key`.
pub open spec fn has_field(fm: Seq<Seq<char>>, key: Seq<char>) -> bool {
    exists|i: int| 0 <= i < fm.len() && line_has_key(#[trigger] fm[i], key)
}

/// The index of the first line of `fm` at or after `k` that sets `key`.
pub open spec fn key_from(fm: Seq<Seq<char>>, key: Seq<char>, k: int) -> Option<int>
    decreases fm.len() - k,
{
    if k < 0 || k >= fm.len() {
        None
    } else if line_has_key(fm[k], key) {
        Some(k)
    } else {
        key_from(fm, key, k + 1)
    }
}

/// `fm` with `key: value` added at the end unless some line sets `key` already.
pub open spec fn ensure_field(fm: Seq<Seq<char>>, key: Seq<char>, value: Seq<char>) -> Seq<
    Seq<char>,
> {
    if has_field(fm, key) {
        fm
    } else {
        fm.push(field_line(key, value))
    }
}

/// `fm` with the first line that sets `key` replaced by `key: value`, or with that line
/// added at the end when no line sets `key`.
pub open spec fn upsert_field(fm: Seq<Seq<char>>, key: Seq<char>, value: Seq<char>) -> Seq<
    Seq<char>,
> {
    match key_from(fm, key, 0) {
        Some(i) => fm.update(i, field_line(key, value)),
        None => fm.push(field_line(key, value)),
    }
}

/// The frontmatter block for the lines `fm`: `---\n{fm joined}\n---\n`.
pub open spec fn frontmatter_block(fm: Seq<Seq<char>>) -> Seq<char> {
    fence() + seq!['\n'] + join_lines(fm) + seq!['\n'] + fence() + seq!['\n']
}

/// The body that follows a frontmatter block: its leading newlines become exactly
/// one, and an empty body becomes a single newline.
pub open spec fn normalize_body(body: Seq<char>) -> Seq<char> {
    let t = trim_leading_newlines(body);
    if t.len() == 0 {
        seq!['\n']
    } else {
        seq!['\n'] + t
    }
}

/// The lines of `content` once `\r\n` has become `\n`.
pub open spec fn normalized_lines(content: Seq<char>) -> Seq<Seq<char>> {
    lines_of(crlf_to_lf(content))
}

/// The text after the closing fence at `end`: the lines that follow it, joined.
pub open spec fn body_after(ls: Seq<Seq<char>>, end: int) -> Seq<char> {
    join_lines(ls.skip(end + 1))
}

/// What `markdown_with_position` returns for `content`, `position` and the time `now`.
pub open spec fn spec_markdown_with_position(content: Seq<char>, position: i64, now: u64) -> Seq<
    char,
> {
    let ls = normalized_lines(content);
    let stamp = decimal_nat(now as nat);
    match frontmatter_end(ls) {
        Some(end) => {
            let fm = upsert_field(
                ensure_field(
                    upsert_field(ls.subrange(1, end), key_position(), decimal_int(position as int)),
                    key_created_at(),
                    stamp,
                ),
                key_updated_at(),
                stamp,
            );
            frontmatter_block(fm) + normalize_body(body_after(ls, end))
        },
        None => frontmatter_block(
            seq![
                field_line(key_position(), decimal_int(position as int)),
                field_line(key_created_at(), stamp),
                field_line(key_updated_at(), stamp),
            ],
        ) + normalize_body(crlf_to_lf(content)),
    }
}

/// What `markdown_with_missing_metadata` returns for `content`, the position
/// `default_position` and the time `now`.
pub open spec fn spec_markdown_with_missing_metadata(
    content: Seq<char>,
    default_position: i64,
    now: u64,
) -> Seq<char> {
    let ls = normalized_lines(content);
    let stamp = decimal_nat(now as nat);
    match frontmatter_end(ls) {
        Some(end) => {
            let fm0 = ls.subrange(1, end);
            if has_field(fm0, key_position()) && has_field(fm0, key_created_at()) && has_field(
                fm0,
                key_updated_at(),
            ) {
                crlf_to_lf(content)
            } else {
                let fm = ensure_field(
                    ensure_field(
                        ensure_field(fm0, key_position(), decimal_int(default_position as int)),
                        key_created_at(),
                        stamp,
                    ),
                    key_updated_at(),
                    stamp,
                );
                frontmatter_block(fm) + normalize_body(body_after(ls, end))
            }
        },
        None => frontmatter_block(
            seq![
                field_line(key_position(), decimal_int(default_position as int)),
                field_line(key_created_at(), stamp),
                field_line(key_updated_at(), stamp),
            ],
        ) + normalize_body(crlf_to_lf(content)),
    }
}

/// What `preview_content` returns: the text without its frontmatter block and the
/// newlines that follow it, keeping a final newline if the text had one.
pub open spec fn spec_preview_content(content: Seq<char>) -> Seq<char> {
    let normalized = crlf_to_lf(content);
    let ls = lines_of(normalized);
    match frontmatter_end(ls) {
        Some(end) => {
            let body = trim_leading_newlines(body_after(ls, end));
            if ends_with_char(normalized, '\n') && !ends_with_char(body, '\n') {
                body.push('\n')
            } else {
                body
            }
        },
        None => normalized,
    }
}

/// `# `
pub open spec fn heading_prefix() -> Seq<char> {
    seq!['#', ' ']
}

/// The title that a line gives: trimmed, it begins with `# ` and what follows,
/// trimmed, is not empty.
pub open spec fn heading_title(line: Seq<char>) -> Option<Seq<char>> {
    let t = trim(line);
    if starts_with(t, heading_prefix()) && trim(t.skip(2)).len() > 0 {
        Some(trim(t.skip(2)))
    } else {
        None
    }
}

/// The first title that a line of `ls` at or after `k` gives.
pub open spec fn first_heading_from(ls: Seq<Seq<char>>, k: int) -> Option<Seq<char>>
    decreases ls.len() - k,
{
    if k < 0 || k >= ls.len() {
        None
    } else if heading_title(ls[k]) is Some {
        heading_title(ls[k])
    } else {
        first_heading_from(ls, k + 1)
    }
}

/// What `title_from_markdown` returns: the first markdown `# ` heading.
pub open spec fn spec_title_from_markdown(content: Seq<char>) -> Option<Seq<char>> {
    first_heading_from(lines_of(content), 0)
}

/// The value of the first `position:` line of the frontmatter, scanning from line `k`
/// up to the closing fence.
pub open spec fn position_from(ls: Seq<Seq<char>>, k: int) -> Option<i64>
    decreases ls.len() - k,
{
    if k < 0 || k >= ls.len() {
        None
    } else if is_fence(ls[k]) {
        None
    } else if starts_with(trim(ls[k]), key_position().push(':')) {
        parse_i64(trim(trim(ls[k]).skip(9)))
    } else {
        position_from(ls, k + 1)
    }
}

/// What `position_from_markdown` returns: the `position` field of the frontmatter,
/// when the first line opens one and the value parses as an `i64`.
pub open spec fn spec_position_from_markdown(content: Seq<char>) -> Option<i64> {
    let ls = lines_of(content);
    if ls.len() > 0 && is_fence(ls[0]) {
        position_from(ls, 1)
    } else {
        None
    }
}

/// The lines `ls` with the metadata stamped at `now`: `updated_at` is set and
/// `created_at` added if missing, inside the frontmatter or in a new block in front.
pub open spec fn spec_touch_updated_at(ls: Seq<Seq<char>>, now: u64) -> Seq<Seq<char>> {
    let stamp = decimal_nat(now as nat);
    match frontmatter_end(ls) {
        Some(end) => {
            let fm = upsert_field(
                ensure_field(ls.subrange(1, end), key_created_at(), stamp),
                key_updated_at(),
                stamp,
            );
            ls.take(1) + fm + ls.skip(end)
        },
        None => seq![
            fence(),
            field_line(key_created_at(), stamp),
            field_line(key_updated_at(), stamp),
            fence(),
            Seq::empty(),
        ] + ls,
    }
}

/// The heading line for `title`: `# ` and the trimmed title.
pub open spec fn title_line(title: Seq<char>) -> Seq<char> {
    heading_prefix() + trim(title)
}

/// The index of the first line at or after `k` that, trimmed at the start, begins
/// with `# `.
pub open spec fn heading_line_from(ls: Seq<Seq<char>>, k: int) -> Option<int>
    decreases ls.len() - k,
{
    if k < 0 || k >= ls.len() {
        None
    } else if starts_with(trim_start(ls[k]), heading_prefix()) {
        Some(k)
    } else {
        heading_line_from(ls, k + 1)
    }
}

/// The lines `ls` with the first heading line replaced by the heading for `title`;
/// without one, the heading goes after the frontmatter behind an empty line, or
/// first, followed by an empty line.
pub open spec fn titled_lines(ls: Seq<Seq<char>>, title: Seq<char>) -> Seq<Seq<char>> {
    match heading_line_from(ls, 0) {
        Some(i) => ls.update(i, title_line(title)),
        None => match frontmatter_end(ls) {
            Some(end) => ls.take(end + 1) + seq![Seq::empty(), title_line(title)] + ls.skip(
                end + 1,
            ),
            None => seq![title_line(title), Seq::empty()] + ls,
        },
    }
}

/// The lines joined, with a final newline when `content` ended with one.
pub open spec fn rejoined(ls: Seq<Seq<char>>, content: Seq<char>) -> Seq<char> {
    if ends_with_char(content, '\n') {
        join_lines(ls).push('\n')
    } else {
        join_lines(ls)
    }
}

/// What `markdown_with_title` returns at the time `now`.
pub open spec fn spec_markdown_with_title(content: Seq<char>, title: Seq<char>, now: u64) -> Seq<
    char,
> {
    rejoined(spec_touch_updated_at(titled_lines(normalized_lines(content), title), now), content)
}

/// What `markdown_with_updated_at` returns at the time `now`.
pub open spec fn spec_markdown_with_updated_at(content: Seq<char>, now: u64) -> Seq<char> {
    rejoined(spec_touch_updated_at(normalized_lines(content), now), content)
}

/// `.md`
pub open spec fn md_suffix() -> Seq<char> {
    seq!['.', 'm', 'd']
}

/// `s` without its trailing `.md` suffixes (`trim_end_matches(".md")`).
pub open spec fn strip_md(s: Seq<char>) -> Seq<char>
    decreases s.len(),
{
    if ends_with(s, md_suffix()) && s.len() >= 3 {
        strip_md(s.take(s.len() - 3))
    } else {
        s
    }
}

/// `s` with `-` and `_` made spaces.
pub open spec fn separators_to_spaces(s: Seq<char>) -> Seq<char> {
    s.map_values(|c: char| if c == '-' || c == '_' { ' ' } else { c })
}

/// A word with its first character in uppercase.
pub open spec fn capitalized(w: Seq<char>) -> Seq<char> {
    if w.len() == 0 {
        Seq::empty()
    } else {
        uppercase_of(w[0]) + w.skip(1)
    }
}

/// What `title_from_filename` returns: the file name without `.md`, with `-` and
/// `_` as spaces, split into words that each start in uppercase, joined by spaces.
pub open spec fn spec_title_from_filename(filename: Seq<char>) -> Seq<char> {
    join_with(
        words(separators_to_spaces(strip_md(filename))).map_values(|w: Seq<char>| capitalized(w)),
        ' ',
    )
}

/// The slug built so far and whether it ends with a dash, after the characters `s`:
/// ASCII letters and digits are kept, and a run of other characters after some kept
/// character becomes one `-`.
pub open spec fn slug_state(s: Seq<char>) -> (Seq<char>, bool)
    decreases s.len(),
{
    if s.len() == 0 {
        (Seq::empty(), false)
    } else {
        let prev = slug_state(s.drop_last());
        let c = s.last();
        if is_ascii_alnum(c) {
            (prev.0.push(c), false)
        } else if !prev.1 && prev.0.len() > 0 {
            (prev.0.push('-'), true)
        } else {
            prev
        }
    }
}

/// `s` without leading `-` characters.
pub open spec fn trim_dash_start(s: Seq<char>) -> Seq<char>
    decreases s.len(),
{
    if s.len() > 0 && s[0] == '-' {
        trim_dash_start(s.drop_first())
    } else {
        s
    }
}

/// `s` without trailing `-` characters.
pub open spec fn trim_dash_end(s: Seq<char>) -> Seq<char>
    decreases s.len(),
{
    if s.len() > 0 && s.last() == '-' {
        trim_dash_end(s.drop_last())
    } else {
        s
    }
}

/// `untitled`
pub open spec fn untitled() -> Seq<char> {
    seq!['u', 'n', 't', 'i', 't', 'l', 'e', 'd']
}

/// What `slug_from_title` returns.
pub open spec fn spec_slug_from_title(title: Seq<char>) -> Seq<char> {
    let t = trim_dash_end(trim_dash_start(slug_state(lowercase_chars(title)).0));
    if t.len() == 0 {
        untitled()
    } else {
        t
    }
}

/// `value` without one pair of surrounding double quotes.
pub open spec fn unquoted(value: Seq<char>) -> Seq<char> {
    if value.len() >= 2 && value[0] == '"' && value.last() == '"' {
        value.subrange(1, value.len() - 1)
    } else {
        value
    }
}

/// The value of the first `color:` line of the frontmatter, scanning from line `k` up
/// to the closing fence: trimmed and unquoted, when not empty.
pub open spec fn color_from(ls: Seq<Seq<char>>, k: int) -> Option<Seq<char>>
    decreases ls.len() - k,
{
    if k < 0 || k >= ls.len() {
        None
    } else if is_fence(ls[k]) {
        None
    } else if starts_with(trim(ls[k]), key_color().push(':')) {
        let v = unquoted(trim(trim(ls[k]).skip(6)));
        if v.len() > 0 {
            Some(v)
        } else {
            None
        }
    } else {
        color_from(ls, k + 1)
    }
}

/// The `color` field of the frontmatter of `content`.
pub open spec fn spec_color_from_markdown(content: Seq<char>) -> Option<Seq<char>> {
    let ls = lines_of(content);
    if ls.len() > 0 && is_fence(ls[0]) {
        color_from(ls, 1)
    } else {
        None
    }
}

/// `"value"`
pub open spec fn quoted(value: Seq<char>) -> Seq<char> {
    seq!['"'] + value + seq!['"']
}

/// What `markdown_with_color` returns for `content`, `color` and the time `now`: the
/// frontmatter gets `color: "color"`, `updated_at` set to `now`, and `created_at` set
/// to `now` unless present; a text without frontmatter gets one with those fields.
pub open spec fn spec_markdown_with_color(content: Seq<char>, color: Seq<char>, now: u64) -> Seq<char> {
    let ls = normalized_lines(content);
    let stamp = decimal_nat(now as nat);
    match frontmatter_end(ls) {
        Some(end) => {
            let fm = upsert_field(
                ensure_field(
                    upsert_field(ls.subrange(1, end), key_color(), quoted(color)),
                    key_created_at(),
                    stamp,
                ),
                key_updated_at(),
                stamp,
            );
            frontmatter_block(fm) + normalize_body(body_after(ls, end))
        },
        None => frontmatter_block(
            seq![
                field_line(key_color(), quoted(color)),
                field_line(key_created_at(), stamp),
                field_line(key_updated_at(), stamp),
            ],
        ) + normalize_body(crlf_to_lf(content)),
    }
}

/// The markdown of a new card titled `title`: the heading `# title` (trimmed).
pub open spec fn new_card_text(title: Seq<char>) -> Seq<char> {
    seq!['#', ' '] + trim(title) + seq!['\n']
}

// ---------------------------------------------------------------------------
// Frontmatter lines
// ---------------------------------------------------------------------------

/// `---`
fn fence_chars() -> (r: Vec<char>)
    ensures
        r@ == fence(),
{
    let r = vec!['-', '-', '-'];
    assert(r@ =~= fence());
    r
}

/// `position`
fn position_key() -> (r: Vec<char>)
    ensures
        r@ == key_position(),
{
    let r = vec!['p', 'o', 's', 'i', 't', 'i', 'o', 'n'];
    assert(r@ =~= key_position());
    r
}

/// `created_at`
fn created_at_key() -> (r: Vec<char>)
    ensures
        r@ == key_created_at(),
{
    let r = vec!['c', 'r', 'e', 'a', 't', 'e', 'd', '_', 'a', 't'];
    assert(r@ =~= key_created_at());
    r
}

/// `updated_at`
fn updated_at_key() -> (r: Vec<char>)
    ensures
        r@ == key_updated_at(),
{
    let r = vec!['u', 'p', 'd', 'a', 't', 'e', 'd', '_', 'a', 't'];
    assert(r@ =~= key_updated_at());
    r
}

/// Whether `line` trims to `---`.
pub fn is_fence_line(line: &Vec<char>) -> (r: bool)
    ensures
        r == is_fence(line@),
{
    let t = trimmed(line);
    chars_eq(&t, &fence_chars())
}

/// The first index at or after `k` of a fence line.
fn find_fence(ls: &Vec<Vec<char>>, k: usize) -> (r: Option<usize>)
    ensures
        r matches Some(i) ==> i < ls.len() && fence_from(ls.deep_view(), k as int) == Some(i as int),
        r is None ==> fence_from(ls.deep_view(), k as int) is None,
{
    let mut i = k;
    while i < ls.len()
        invariant
            k <= i,
            fence_from(ls.deep_view(), i as int) == fence_from(ls.deep_view(), k as int),
        decreases ls.len() - i,
    {
        assert(ls.deep_view()[i as int] == ls@[i as int]@);
        if is_fence_line(&ls[i]) {
            return Some(i);
        }
        i += 1;
    }
    None
}

/// The index of the line that closes the frontmatter.
pub fn frontmatter_end_index(ls: &Vec<Vec<char>>) -> (r: Option<usize>)
    ensures
        r matches Some(i) ==> 1 <= i < ls.len() && frontmatter_end(ls.deep_view()) == Some(i as int),
        r is None ==> frontmatter_end(ls.deep_view()) is None,
{
    if ls.len() > 0 && is_fence_line(&ls[0]) {
        assert(ls.deep_view()[0] == ls@[0]@);
        let r = find_fence(ls, 1);
        proof {
            lemma_fence_from_bounds(ls.deep_view(), 1);
        }
        r
    } else {
        proof {
            if ls.len() > 0 {
                assert(ls.deep_view()[0] == ls@[0]@);
            }
        }
        None
    }
}

proof fn lemma_fence_from_bounds(ls: Seq<Seq<char>>, k: int)
    ensures
        fence_from(ls, k) matches Some(i) ==> k <= i < ls.len(),
    decreases ls.len() - k,
{
    if 0 <= k < ls.len() && !is_fence(ls[k]) {
        lemma_fence_from_bounds(ls, k + 1);
    }
}

/// Whether `line` sets `key`.
pub fn frontmatter_line_has_key(line: &Vec<char>, key: &Vec<char>) -> (r: bool)
    ensures
        r == line_has_key(line@, key@),
{
    let start = trim_start_index(line);
    let mut kc = copy_range(key, 0, key.len());
    kc.push(':');
    assert(key@.subrange(0, key@.len() as int) =~= key@);
    has_prefix_at(line, start, &kc)
}

/// The index of the first line at or after `k` that sets `key`.
fn find_key(fm: &Vec<Vec<char>>, key: &Vec<char>, k: usize) -> (r: Option<usize>)
    ensures
        r matches Some(i) ==> i < fm.len() && key_from(fm.deep_view(), key@, k as int) == Some(
            i as int,
        ),
        r is None ==> key_from(fm.deep_view(), key@, k as int) is None,
{
    let mut i = k;
    while i < fm.len()
        invariant
            k <= i,
            key_from(fm.deep_view(), key@, i as int) == key_from(fm.deep_view(), key@, k as int),
        decreases fm.len() - i,
    {
        assert(fm.deep_view()[i as int] == fm@[i as int]@);
        if frontmatter_line_has_key(&fm[i], key) {
            return Some(i);
        }
        i += 1;
    }
    None
}

proof fn lemma_key_from_none(fm: Seq<Seq<char>>, key: Seq<char>, k: int)
    requires
        0 <= k,
    ensures
        key_from(fm, key, k) is None <==> !(exists|i: int|
            k <= i < fm.len() && line_has_key(#[trigger] fm[i], key)),
        key_from(fm, key, k) matches Some(i) ==> k <= i < fm.len() && line_has_key(fm[i], key),
    decreases fm.len() - k,
{
    if k < fm.len() && !line_has_key(fm[k], key) {
        lemma_key_from_none(fm, key, k + 1);
        if exists|i: int| k <= i < fm.len() && line_has_key(#[trigger] fm[i], key) {
            let i = choose|i: int| k <= i < fm.len() && line_has_key(#[trigger] fm[i], key);
            assert(k + 1 <= i);
        }
    }
}

/// Whether some line of `fm` sets `key`.
pub fn frontmatter_has_field(fm: &Vec<Vec<char>>, key: &Vec<char>) -> (r: bool)
    ensures
        r == has_field(fm.deep_view(), key@),
{
    let r = find_key(fm, key, 0);
    proof {
        lemma_key_from_none(fm.deep_view(), key@, 0);
    }
    r.is_some()
}

/// The line `key: value`.
fn make_field_line(key: &Vec<char>, value: &Vec<char>) -> (r: Vec<char>)
    ensures
        r@ == field_line(key@, value@),
{
    let mut r = copy_range(key, 0, key.len());
    assert(key@.subrange(0, key@.len() as int) =~= key@);
    r.push(':');
    r.push(' ');
    append_chars(&mut r, value);
    assert(r@ =~= field_line(key@, value@));
    r
}

/// Adds `key: value` at the end of `fm` unless some line sets `key` already.
pub fn ensure_frontmatter_field(fm: &mut Vec<Vec<char>>, key: &Vec<char>, value: &Vec<char>)
    ensures
        final(fm).deep_view() == ensure_field(old(fm).deep_view(), key@, value@),
{
    if !frontmatter_has_field(fm, key) {
        let line = make_field_line(key, value);
        let ghost before = fm.deep_view();
        fm.push(line);
        assert(fm.deep_view() =~= before.push(field_line(key@, value@)));
    }
}

/// Replaces the first line of `fm` that sets `key` by `key: value`, or adds that line
/// at the end when none does.
pub fn upsert_frontmatter_field(fm: &mut Vec<Vec<char>>, key: &Vec<char>, value: &Vec<char>)
    ensures
        final(fm).deep_view() == upsert_field(old(fm).deep_view(), key@, value@),
{
    let line = make_field_line(key, value);
    let ghost before = fm.deep_view();
    proof {
        lemma_key_from_none(before, key@, 0);
    }
    match find_key(fm, key, 0) {
        Some(i) => {
            fm.set(i, line);
            assert(fm.deep_view() =~= before.update(i as int, field_line(key@, value@)));
        },
        None => {
            fm.push(line);
            assert(fm.deep_view() =~= before.push(field_line(key@, value@)));
        },
    }
}

/// A copy of the lines `ls[from..to]`.
pub fn copy_lines(ls: &Vec<Vec<char>>, from: usize, to: usize) -> (r: Vec<Vec<char>>)
    requires
        from <= to <= ls.len(),
    ensures
        r.deep_view() == ls.deep_view().subrange(from as int, to as int),
{
    let mut r: Vec<Vec<char>> = Vec::new();
    let mut i = from;
    while i < to
        invariant
            from <= i <= to <= ls.len(),
            r.deep_view() == ls.deep_view().subrange(from as int, i as int),
        decreases to - i,
    {
        let line = copy_range(&ls[i], 0, ls[i].len());
        assert(ls@[i as int]@.subrange(0, ls@[i as int]@.len() as int) =~= ls@[i as int]@);
        let ghost before = r.deep_view();
        let ghost before_v = r@;
        r.push(line);
        proof {
            let want = ls.deep_view().subrange(from as int, i + 1);
            assert(before.len() == before_v.len());
            assert(before.len() == i - from);
            assert(r@.len() == before_v.len() + 1);
            assert(r.deep_view().len() == r@.len());
            assert(r.deep_view().len() == want.len());
            assert forall|j: int| 0 <= j < want.len() implies r.deep_view()[j] == want[j] by {
                if j < before.len() {
                    assert(r@[j] == before_v[j]);
                    assert(before[j] == before_v[j].deep_view());
                } else {
                    assert(r@[j] == line);
                    assert(ls.deep_view()[i as int] == ls@[i as int].deep_view());
                }
            }
        }
        assert(r.deep_view() =~= ls.deep_view().subrange(from as int, i + 1));
        i += 1;
    }
    r
}

/// `---\n{fm joined}\n---\n`
fn frontmatter_block_chars(fm: &Vec<Vec<char>>) -> (r: Vec<char>)
    ensures
        r@ == frontmatter_block(fm.deep_view()),
{
    let mut r = fence_chars();
    r.push('\n');
    let joined = join_all(fm);
    append_chars(&mut r, &joined);
    r.push('\n');
    append_chars(&mut r, &fence_chars());
    r.push('\n');
    assert(r@ =~= frontmatter_block(fm.deep_view()));
    r
}

/// The body after a frontmatter block: one leading newline, or a lone newline.
pub fn normalize_body_chars(body: &Vec<char>) -> (r: Vec<char>)
    ensures
        r@ == normalize_body(body@),
{
    let t = without_leading_newlines(body);
    let mut r: Vec<char> = vec!['\n'];
    append_chars(&mut r, &t);
    assert(t@.len() == 0 ==> r@ =~= seq!['\n']);
    assert(r@ =~= seq!['\n'] + t@);
    r
}


/// Appends a copy of the lines `b[from..to]` to `a`.
fn extend_lines(a: &mut Vec<Vec<char>>, b: &Vec<Vec<char>>, from: usize, to: usize)
    requires
        from <= to <= b.len(),
    ensures
        final(a).deep_view() == old(a).deep_view() + b.deep_view().subrange(from as int, to as int),
{
    let ghost start = a.deep_view();
    let mut i = from;
    while i < to
        invariant
            from <= i <= to <= b.len(),
            a.deep_view() == start + b.deep_view().subrange(from as int, i as int),
        decreases to - i,
    {
        let line = copy_range(&b[i], 0, b[i].len());
        assert(b@[i as int]@.subrange(0, b@[i as int]@.len() as int) =~= b@[i as int]@);
        push_line(a, line);
        assert(a.deep_view() =~= start + b.deep_view().subrange(from as int, i + 1));
        i += 1;
    }
}

/// Adds one line at the end of `a`.
fn push_line(a: &mut Vec<Vec<char>>, line: Vec<char>)
    ensures
        final(a).deep_view() == old(a).deep_view().push(line@),
{
    let ghost d = a.deep_view();
    let ghost v = a@;
    a.push(line);
    proof {
        assert forall|j: int| 0 <= j < d.len() implies a@[j] == v[j] by {}
        assert(a.deep_view() =~= d.push(line@));
    }
}

/// The three metadata lines of a new frontmatter block.
fn new_metadata_lines(position: i64, stamp: &Vec<char>) -> (r: Vec<Vec<char>>)
    ensures
        r.deep_view() == seq![
            field_line(key_position(), decimal_int(position as int)),
            field_line(key_created_at(), stamp@),
            field_line(key_updated_at(), stamp@),
        ],
{
    let mut r: Vec<Vec<char>> = Vec::new();
    push_line(&mut r, make_field_line(&position_key(), &decimal_i64(position)));
    push_line(&mut r, make_field_line(&created_at_key(), stamp));
    push_line(&mut r, make_field_line(&updated_at_key(), stamp));
    assert(r.deep_view() =~= seq![
        field_line(key_position(), decimal_int(position as int)),
        field_line(key_created_at(), stamp@),
        field_line(key_updated_at(), stamp@),
    ]);
    r
}

/// The lines after the closing fence at `end`, joined.
fn body_after_chars(ls: &Vec<Vec<char>>, end: usize) -> (r: Vec<char>)
    requires
        end < ls.len(),
    ensures
        r@ == body_after(ls.deep_view(), end as int),
{
    let r = join_range(ls, end + 1, ls.len());
    assert(ls.deep_view().subrange(end + 1, ls.len() as int) =~= ls.deep_view().skip(end + 1));
    r
}

#[verifier::external_type_specification]
#[verifier::external_body]
pub struct ExSystemTime(std::time::SystemTime);

/// `SystemTime::now`: the clock's reading; nothing is stated of it.
#[verifier::external_body]
fn system_now() -> (r: std::time::SystemTime) {
    std::time::SystemTime::now()
}

/// `SystemTime::duration_since` the Unix epoch, with its error (a clock set before
/// the epoch) turned into `None`; nothing is stated of the duration.
#[verifier::external_body]
fn since_epoch(t: &std::time::SystemTime) -> (r: Option<core::time::Duration>) {
    t.duration_since(std::time::UNIX_EPOCH).ok()
}

/// `Duration::as_secs`: the whole seconds of a duration, which Verus cannot see into.
#[verifier::external_body]
fn whole_seconds(d: &core::time::Duration) -> (r: u64) {
    d.as_secs()
}

/// The current time in seconds since the Unix epoch (0 for a clock set before it).
/// It depends on the clock, so nothing is stated of it.
pub(crate) fn current_timestamp() -> (r: u64) {
    match since_epoch(&system_now()) {
        Some(elapsed) => whole_seconds(&elapsed),
        None => 0,
    }
}

/// The `position` field of the frontmatter, when the first line opens one and the
/// value parses as an `i64`.
pub fn position_from_markdown(content: &str) -> (r: Option<i64>)
    ensures
        r == spec_position_from_markdown(content@),
{
    let c = chars_of(content);
    let ls = lines(&c);
    if ls.len() == 0 || !is_fence_line(&ls[0]) {
        proof {
            if ls.len() > 0 {
                assert(ls.deep_view()[0] == ls@[0]@);
            }
        }
        return None;
    }
    assert(ls.deep_view()[0] == ls@[0]@);
    let prefix = {
        let mut p = position_key();
        p.push(':');
        p
    };
    let mut i: usize = 1;
    while i < ls.len()
        invariant
            1 <= i <= ls.len(),
            ls.deep_view() == lines_of(content@),
            is_fence(ls.deep_view()[0]),
            prefix@ == key_position().push(':'),
            position_from(ls.deep_view(), i as int) == position_from(ls.deep_view(), 1),
        decreases ls.len() - i,
    {
        assert(ls.deep_view()[i as int] == ls@[i as int]@);
        let t = trimmed(&ls[i]);
        if is_fence_line(&ls[i]) {
            return None;
        }
        if has_prefix(&t, &prefix) {
            assert(prefix@.len() == 9);
            let rest = copy_range(&t, 9, t.len());
            assert(rest@ =~= t@.skip(9));
            let value = trimmed(&rest);
            assert(trim(ls.deep_view()[i as int]) == t@);
            assert(starts_with(trim(ls.deep_view()[i as int]), key_position().push(':')));
            assert(!is_fence(ls.deep_view()[i as int]));
            assert(position_from(ls.deep_view(), i as int) == parse_i64(value@));
            return parse_i64_chars(&value);
        }
        i += 1;
    }
    None
}

/// `markdown_with_position` at the time `now`: the frontmatter gets `position`,
/// `updated_at` set to `now`, and `created_at` set to `now` unless present.
pub fn markdown_with_position_at(content: &str, position: i64, now: u64) -> (r: String)
    ensures
        r@ == spec_markdown_with_position(content@, position, now),
{
    let c = chars_of(content);
    let normalized = normalize_newlines(&c);
    let ls = lines(&normalized);
    let stamp = decimal_u64(now);
    let out = match frontmatter_end_index(&ls) {
        Some(end) => {
            let mut fm = copy_lines(&ls, 1, end);
            upsert_frontmatter_field(&mut fm, &position_key(), &decimal_i64(position));
            ensure_frontmatter_field(&mut fm, &created_at_key(), &stamp);
            upsert_frontmatter_field(&mut fm, &updated_at_key(), &stamp);
            let body = body_after_chars(&ls, end);
            let mut out = frontmatter_block_chars(&fm);
            append_chars(&mut out, &normalize_body_chars(&body));
            out
        },
        None => {
            let fm = new_metadata_lines(position, &stamp);
            let mut out = frontmatter_block_chars(&fm);
            append_chars(&mut out, &normalize_body_chars(&normalized));
            out
        },
    };
    string_of(&out)
}

/// Sets the frontmatter `position` of a card's markdown and stamps it with the
/// current time (see `markdown_with_position_at`).
pub fn markdown_with_position(content: &str, position: i64) -> (r: String)
    ensures
        exists|now: u64| r@ == spec_markdown_with_position(content@, position, now),
{
    let now = current_timestamp();
    markdown_with_position_at(content, position, now)
}

/// `markdown_with_missing_metadata` at the time `now`: the text is returned as it is
/// (with `\r\n` made `\n`) when its frontmatter has all three fields; otherwise each
/// missing field is added, with `default_position` and `now`.
pub fn markdown_with_missing_metadata_at(content: &str, default_position: i64, now: u64) -> (r:
    String)
    ensures
        r@ == spec_markdown_with_missing_metadata(content@, default_position, now),
{
    let c = chars_of(content);
    let normalized = normalize_newlines(&c);
    let ls = lines(&normalized);
    let stamp = decimal_u64(now);
    let out = match frontmatter_end_index(&ls) {
        Some(end) => {
            let mut fm = copy_lines(&ls, 1, end);
            if frontmatter_has_field(&fm, &position_key()) && frontmatter_has_field(
                &fm,
                &created_at_key(),
            ) && frontmatter_has_field(&fm, &updated_at_key()) {
                return string_of(&normalized);
            }
            ensure_frontmatter_field(&mut fm, &position_key(), &decimal_i64(default_position));
            ensure_frontmatter_field(&mut fm, &created_at_key(), &stamp);
            ensure_frontmatter_field(&mut fm, &updated_at_key(), &stamp);
            let body = body_after_chars(&ls, end);
            let mut out = frontmatter_block_chars(&fm);
            append_chars(&mut out, &normalize_body_chars(&body));
            out
        },
        None => {
            let fm = new_metadata_lines(default_position, &stamp);
            let mut out = frontmatter_block_chars(&fm);
            append_chars(&mut out, &normalize_body_chars(&normalized));
            out
        },
    };
    string_of(&out)
}

/// Adds the frontmatter fields a card lacks, stamped with the current time (see
/// `markdown_with_missing_metadata_at`).
pub fn markdown_with_missing_metadata(content: &str, default_position: i64) -> (r: String)
    ensures
        exists|now: u64|
            r@ == spec_markdown_with_missing_metadata(content@, default_position, now),
{
    let now = current_timestamp();
    markdown_with_missing_metadata_at(content, default_position, now)
}

/// The markdown of a card without its frontmatter block.
pub fn preview_content(content: &str) -> (r: String)
    ensures
        r@ == spec_preview_content(content@),
{
    let c = chars_of(content);
    let normalized = normalize_newlines(&c);
    let ls = lines(&normalized);
    match frontmatter_end_index(&ls) {
        Some(end) => {
            let body0 = body_after_chars(&ls, end);
            let mut body = without_leading_newlines(&body0);
            if last_is(&normalized, '\n') && !last_is(&body, '\n') {
                body.push('\n');
            }
            string_of(&body)
        },
        None => string_of(&normalized),
    }
}

/// The title a line gives, if it is a `# ` heading with a non-empty title.
fn heading_title_of(line: &Vec<char>) -> (r: Option<Vec<char>>)
    ensures
        r matches Some(v) ==> heading_title(line@) == Some(v@),
        r is None ==> heading_title(line@) is None,
{
    let t = trimmed(line);
    let prefix = vec!['#', ' '];
    assert(prefix@ =~= heading_prefix());
    if has_prefix(&t, &prefix) {
        let rest = copy_range(&t, 2, t.len());
        assert(rest@ =~= t@.skip(2));
        let title = trimmed(&rest);
        if title.len() > 0 {
            return Some(title);
        }
    }
    None
}

/// The first markdown `# ` heading of `content`, trimmed.
pub fn title_from_markdown(content: &str) -> (r: Option<String>)
    ensures
        r matches Some(t) ==> spec_title_from_markdown(content@) == Some(t@),
        r is None ==> spec_title_from_markdown(content@) is None,
{
    let c = chars_of(content);
    let ls = lines(&c);
    let mut i: usize = 0;
    while i < ls.len()
        invariant
            i <= ls.len(),
            ls.deep_view() == lines_of(content@),
            first_heading_from(ls.deep_view(), i as int) == first_heading_from(ls.deep_view(), 0),
        decreases ls.len() - i,
    {
        assert(ls.deep_view()[i as int] == ls@[i as int]@);
        if let Some(t) = heading_title_of(&ls[i]) {
            return Some(string_of(&t));
        }
        i += 1;
    }
    None
}


/// Stamps the lines of a card at `now` (see `spec_touch_updated_at`).
pub fn touch_updated_at(ls: &mut Vec<Vec<char>>, now: u64)
    ensures
        final(ls).deep_view() == spec_touch_updated_at(old(ls).deep_view(), now),
{
    let stamp = decimal_u64(now);
    let ghost before = ls.deep_view();
    match frontmatter_end_index(ls) {
        Some(end) => {
            let mut fm = copy_lines(ls, 1, end);
            ensure_frontmatter_field(&mut fm, &created_at_key(), &stamp);
            upsert_frontmatter_field(&mut fm, &updated_at_key(), &stamp);
            let mut out = copy_lines(ls, 0, 1);
            extend_lines(&mut out, &fm, 0, fm.len());
            extend_lines(&mut out, ls, end, ls.len());
            proof {
                assert(fm.deep_view().subrange(0, fm.len() as int) =~= fm.deep_view());
                assert(before.subrange(0, 1) =~= before.take(1));
                assert(before.subrange(end as int, before.len() as int) =~= before.skip(end as int));
            }
            *ls = out;
        },
        None => {
            let mut out: Vec<Vec<char>> = Vec::new();
            push_line(&mut out, fence_chars());
            push_line(&mut out, make_field_line(&created_at_key(), &stamp));
            push_line(&mut out, make_field_line(&updated_at_key(), &stamp));
            push_line(&mut out, fence_chars());
            push_line(&mut out, Vec::new());
            extend_lines(&mut out, ls, 0, ls.len());
            proof {
                assert(before.subrange(0, before.len() as int) =~= before);
            }
            *ls = out;
        },
    }
}

/// The index of the first line that, trimmed at the start, begins with `# `.
fn find_heading_line(ls: &Vec<Vec<char>>) -> (r: Option<usize>)
    ensures
        r matches Some(i) ==> i < ls.len() && heading_line_from(ls.deep_view(), 0) == Some(
            i as int,
        ),
        r is None ==> heading_line_from(ls.deep_view(), 0) is None,
{
    let prefix = vec!['#', ' '];
    assert(prefix@ =~= heading_prefix());
    let mut i: usize = 0;
    while i < ls.len()
        invariant
            i <= ls.len(),
            prefix@ == heading_prefix(),
            heading_line_from(ls.deep_view(), i as int) == heading_line_from(ls.deep_view(), 0),
        decreases ls.len() - i,
    {
        assert(ls.deep_view()[i as int] == ls@[i as int]@);
        let start = trim_start_index(&ls[i]);
        if has_prefix_at(&ls[i], start, &prefix) {
            return Some(i);
        }
        i += 1;
    }
    None
}

/// The lines joined by `'\n'`, with a final newline when `content` ends with one.
fn rejoin(ls: &Vec<Vec<char>>, content: &Vec<char>) -> (r: Vec<char>)
    ensures
        r@ == rejoined(ls.deep_view(), content@),
{
    let mut out = join_all(ls);
    if last_is(content, '\n') {
        out.push('\n');
    }
    out
}

/// `markdown_with_title` at the time `now`: the first heading becomes `# {title}`
/// (or one is inserted) and the metadata is stamped.
pub fn markdown_with_title_at(content: &str, title: &str, now: u64) -> (r: String)
    ensures
        r@ == spec_markdown_with_title(content@, title@, now),
{
    let c = chars_of(content);
    let normalized = normalize_newlines(&c);
    let mut ls = lines(&normalized);
    let t = chars_of(title);
    let mut tl = vec!['#', ' '];
    append_chars(&mut tl, &trimmed(&t));
    assert(tl@ =~= title_line(title@));
    let ghost before = ls.deep_view();
    match find_heading_line(&ls) {
        Some(i) => {
            let ghost v = ls@;
            ls.set(i, tl);
            assert(ls.deep_view() =~= before.update(i as int, title_line(title@))) by {
                assert forall|j: int| 0 <= j < before.len() && j != i implies ls@[j] == v[j] by {}
            }
        },
        None => {
            match frontmatter_end_index(&ls) {
                Some(end) => {
                    let mut out = copy_lines(&ls, 0, end + 1);
                    push_line(&mut out, Vec::new());
                    push_line(&mut out, tl);
                    extend_lines(&mut out, &ls, end + 1, ls.len());
                    proof {
                        assert(before.subrange(0, end + 1) =~= before.take(end + 1));
                        assert(before.subrange(end + 1, before.len() as int) =~= before.skip(
                            end + 1,
                        ));
                        assert(out.deep_view() =~= before.take(end + 1) + seq![
                            Seq::empty(),
                            title_line(title@),
                        ] + before.skip(end + 1));
                    }
                    ls = out;
                },
                None => {
                    let mut out: Vec<Vec<char>> = Vec::new();
                    push_line(&mut out, tl);
                    push_line(&mut out, Vec::new());
                    extend_lines(&mut out, &ls, 0, ls.len());
                    proof {
                        assert(before.subrange(0, before.len() as int) =~= before);
                        assert(out.deep_view() =~= seq![title_line(title@), Seq::empty()]
                            + before);
                    }
                    ls = out;
                },
            }
        },
    }
    assert(ls.deep_view() == titled_lines(before, title@));
    touch_updated_at(&mut ls, now);
    string_of(&rejoin(&ls, &c))
}

/// Sets the title heading of a card's markdown and stamps it with the current time
/// (see `markdown_with_title_at`).
pub fn markdown_with_title(content: &str, title: &str) -> (r: String)
    ensures
        exists|now: u64| r@ == spec_markdown_with_title(content@, title@, now),
{
    let now = current_timestamp();
    markdown_with_title_at(content, title, now)
}

/// `markdown_with_updated_at` at the time `now`.
pub fn markdown_with_updated_at_at(content: &str, now: u64) -> (r: String)
    ensures
        r@ == spec_markdown_with_updated_at(content@, now),
{
    let c = chars_of(content);
    let normalized = normalize_newlines(&c);
    let mut ls = lines(&normalized);
    touch_updated_at(&mut ls, now);
    string_of(&rejoin(&ls, &c))
}

/// Stamps a card's markdown with the current time (see `markdown_with_updated_at_at`).
pub fn markdown_with_updated_at(content: &str) -> (r: String)
    ensures
        exists|now: u64| r@ == spec_markdown_with_updated_at(content@, now),
{
    let now = current_timestamp();
    markdown_with_updated_at_at(content, now)
}


/// `filename.trim_end_matches(".md")`, on characters.
fn without_md_suffixes(s: &Vec<char>) -> (r: Vec<char>)
    ensures
        r@ == strip_md(s@),
{
    let mut end = s.len();
    assert(s@.take(end as int) =~= s@);
    while end >= 3 && s[end - 3] == '.' && s[end - 2] == 'm' && s[end - 1] == 'd'
        invariant
            end <= s.len(),
            strip_md(s@.take(end as int)) == strip_md(s@),
        decreases end,
    {
        let ghost t = s@.take(end as int);
        assert(t.skip(t.len() - 3) =~= md_suffix());
        assert(t.take(t.len() - 3) =~= s@.take(end - 3));
        end -= 3;
    }
    proof {
        let t = s@.take(end as int);
        if ends_with(t, md_suffix()) && t.len() >= 3 {
            assert(t.skip(t.len() - 3)[0] == s@[end - 3]);
            assert(t.skip(t.len() - 3)[1] == s@[end - 2]);
            assert(t.skip(t.len() - 3)[2] == s@[end - 1]);
        }
    }
    assert(s@.subrange(0, end as int) =~= s@.take(end as int));
    copy_range(s, 0, end)
}

/// A word with its first character in uppercase.
fn capitalize(w: &Vec<char>) -> (r: Vec<char>)
    ensures
        r@ == capitalized(w@),
{
    if w.len() == 0 {
        return Vec::new();
    }
    let mut r = char_to_uppercase(w[0]);
    let rest = copy_range(w, 1, w.len());
    assert(rest@ =~= w@.skip(1));
    append_chars(&mut r, &rest);
    r
}

/// A title made from a card's file name: `learn-kzg.md` gives `Learn Kzg`.
pub fn title_from_filename(filename: &str) -> (r: String)
    ensures
        r@ == spec_title_from_filename(filename@),
{
    let f = chars_of(filename);
    let stripped = without_md_suffixes(&f);
    let mut spaced: Vec<char> = Vec::new();
    let mut i: usize = 0;
    while i < stripped.len()
        invariant
            i <= stripped.len(),
            spaced@ == separators_to_spaces(stripped@).take(i as int),
        decreases stripped.len() - i,
    {
        let c = stripped[i];
        spaced.push(if c == '-' || c == '_' { ' ' } else { c });
        assert(spaced@ =~= separators_to_spaces(stripped@).take(i + 1));
        i += 1;
    }
    assert(separators_to_spaces(stripped@).take(i as int) =~= separators_to_spaces(stripped@));
    let ws = split_words(&spaced);
    let mut caps: Vec<Vec<char>> = Vec::new();
    let mut j: usize = 0;
    while j < ws.len()
        invariant
            j <= ws.len(),
            caps.deep_view() == ws.deep_view().take(j as int).map_values(
                |w: Seq<char>| capitalized(w),
            ),
        decreases ws.len() - j,
    {
        let cw = capitalize(&ws[j]);
        assert(ws.deep_view()[j as int] == ws@[j as int]@);
        push_line(&mut caps, cw);
        assert(caps.deep_view() =~= ws.deep_view().take(j + 1).map_values(
            |w: Seq<char>| capitalized(w),
        ));
        j += 1;
    }
    assert(ws.deep_view().take(j as int) =~= ws.deep_view());
    string_of(&join_chars_with(&caps, ' '))
}

/// A file-name friendly slug of a title: lowercase ASCII letters and digits, with
/// one `-` for each run of other characters between them, or `untitled`.
pub fn slug_from_title(title: &str) -> (r: String)
    ensures
        r@ == spec_slug_from_title(title@),
{
    let t = chars_of(title);
    let lowered = to_lowercase_chars(&t);
    let mut slug: Vec<char> = Vec::new();
    let mut last_dash = false;
    let mut i: usize = 0;
    while i < lowered.len()
        invariant
            i <= lowered.len(),
            (slug@, last_dash) == slug_state(lowered@.take(i as int)),
        decreases lowered.len() - i,
    {
        let ch = lowered[i];
        assert(lowered@.take(i + 1).drop_last() =~= lowered@.take(i as int));
        if ascii_alphanumeric(ch) {
            slug.push(ch);
            last_dash = false;
        } else if !last_dash && slug.len() > 0 {
            slug.push('-');
            last_dash = true;
        }
        i += 1;
    }
    assert(lowered@.take(i as int) =~= lowered@);
    // trim_matches('-')
    let mut a: usize = 0;
    assert(slug@.skip(0) =~= slug@);
    while a < slug.len() && slug[a] == '-'
        invariant
            a <= slug.len(),
            trim_dash_start(slug@.skip(a as int)) == trim_dash_start(slug@),
        decreases slug.len() - a,
    {
        assert(slug@.skip(a as int).drop_first() =~= slug@.skip(a + 1));
        a += 1;
    }
    let mut b: usize = slug.len();
    assert(slug@.subrange(a as int, b as int) =~= slug@.skip(a as int));
    while b > a && slug[b - 1] == '-'
        invariant
            a <= b <= slug.len(),
            trim_dash_end(slug@.subrange(a as int, b as int)) == trim_dash_end(
                trim_dash_start(slug@),
            ),
        decreases b,
    {
        assert(slug@.subrange(a as int, b as int).drop_last() =~= slug@.subrange(
            a as int,
            b - 1,
        ));
        b -= 1;
    }
    proof {
        let u = slug@.subrange(a as int, b as int);
        if u.len() > 0 {
            assert(u.last() == slug@[b - 1]);
        }
        if a < slug.len() {
            assert(slug@.skip(a as int)[0] == slug@[a as int]);
        }
    }
    let trimmed_slug = copy_range(&slug, a, b);
    if trimmed_slug.len() == 0 {
        let u = vec!['u', 'n', 't', 'i', 't', 'l', 'e', 'd'];
        assert(u@ =~= untitled());
        string_of(&u)
    } else {
        string_of(&trimmed_slug)
    }
}


/// The `color` field of a card's frontmatter: its value trimmed and without
/// surrounding double quotes, when not empty.
pub fn color_from_markdown(content: &str) -> (r: Option<String>)
    ensures
        r matches Some(v) ==> spec_color_from_markdown(content@) == Some(v@),
        r is None ==> spec_color_from_markdown(content@) is None,
{
    let c = chars_of(content);
    let ls = lines(&c);
    if ls.len() == 0 || !is_fence_line(&ls[0]) {
        proof {
            if ls.len() > 0 {
                assert(ls.deep_view()[0] == ls@[0]@);
            }
        }
        return None;
    }
    assert(ls.deep_view()[0] == ls@[0]@);
    let prefix = vec!['c', 'o', 'l', 'o', 'r', ':'];
    assert(prefix@ =~= key_color().push(':'));
    let mut i: usize = 1;
    while i < ls.len()
        invariant
            1 <= i <= ls.len(),
            ls.deep_view() == lines_of(content@),
            is_fence(ls.deep_view()[0]),
            prefix@ == key_color().push(':'),
            color_from(ls.deep_view(), i as int) == color_from(ls.deep_view(), 1),
        decreases ls.len() - i,
    {
        assert(ls.deep_view()[i as int] == ls@[i as int]@);
        let t = trimmed(&ls[i]);
        if is_fence_line(&ls[i]) {
            return None;
        }
        if has_prefix(&t, &prefix) {
            let rest = copy_range(&t, 6, t.len());
            assert(rest@ =~= t@.skip(6));
            let value = trimmed(&rest);
            let v = if value.len() >= 2 && value[0] == '"' && value[value.len() - 1] == '"' {
                copy_range(&value, 1, value.len() - 1)
            } else {
                value
            };
            assert(trim(ls.deep_view()[i as int]) == t@);
            if v.len() > 0 {
                return Some(string_of(&v));
            } else {
                return None;
            }
        }
        i += 1;
    }
    None
}

fn color_key() -> (r: Vec<char>)
    ensures
        r@ == key_color(),
{
    let r = vec!['c', 'o', 'l', 'o', 'r'];
    assert(r@ =~= key_color());
    r
}

fn quoted_chars(value: &str) -> (r: Vec<char>)
    ensures
        r@ == quoted(value@),
{
    let mut r = vec!['"'];
    append_chars(&mut r, &chars_of(value));
    r.push('"');
    assert(r@ =~= quoted(value@));
    r
}

/// `markdown_with_color` at the time `now` (see `spec_markdown_with_color`).
pub fn markdown_with_color_at(content: &str, color: &str, now: u64) -> (r: String)
    ensures
        r@ == spec_markdown_with_color(content@, color@, now),
{
    let c = chars_of(content);
    let normalized = normalize_newlines(&c);
    let ls = lines(&normalized);
    let stamp = decimal_u64(now);
    let value = quoted_chars(color);
    let out = match frontmatter_end_index(&ls) {
        Some(end) => {
            let mut fm = copy_lines(&ls, 1, end);
            upsert_frontmatter_field(&mut fm, &color_key(), &value);
            ensure_frontmatter_field(&mut fm, &created_at_key(), &stamp);
            upsert_frontmatter_field(&mut fm, &updated_at_key(), &stamp);
            let body = body_after_chars(&ls, end);
            let mut out = frontmatter_block_chars(&fm);
            append_chars(&mut out, &normalize_body_chars(&body));
            out
        },
        None => {
            let mut fm: Vec<Vec<char>> = Vec::new();
            push_line(&mut fm, make_field_line(&color_key(), &value));
            push_line(&mut fm, make_field_line(&created_at_key(), &stamp));
            push_line(&mut fm, make_field_line(&updated_at_key(), &stamp));
            assert(fm.deep_view() =~= seq![
                field_line(key_color(), quoted(color@)),
                field_line(key_created_at(), stamp@),
                field_line(key_updated_at(), stamp@),
            ]);
            let mut out = frontmatter_block_chars(&fm);
            append_chars(&mut out, &normalize_body_chars(&normalized));
            out
        },
    };
    string_of(&out)
}

/// Records `color` in a card's frontmatter, stamped with the current time (see
/// `markdown_with_color_at`).
pub fn markdown_with_color(content: &str, color: &str) -> (r: String)
    ensures
        exists|now: u64| r@ == spec_markdown_with_color(content@, color@, now),
{
    let now = current_timestamp();
    markdown_with_color_at(content, color, now)
}

/// The markdown of a new card titled `title` at `position`, at the time `now`.
pub fn new_card_markdown_at(title: &str, position: i64, now: u64) -> (r: String)
    ensures
        r@ == spec_markdown_with_position(new_card_text(title@), position, now),
{
    let mut v = vec!['#', ' '];
    append_chars(&mut v, &trimmed(&chars_of(title)));
    v.push('\n');
    assert(v@ =~= new_card_text(title@));
    let text = string_of(&v);
    markdown_with_position_at(text.as_str(), position, now)
}

/// The markdown of a new card titled `title` at `position`, stamped with the current
/// time.
pub fn new_card_markdown(title: &str, position: i64) -> (r: String)
    ensures
        exists|now: u64| r@ == spec_markdown_with_position(new_card_text(title@), position, now),
{
    let now = current_timestamp();
    new_card_markdown_at(title, position, now)
}

impl Card {
    /// A card read from its markdown: the title is the first `# ` heading or else
    /// made from the file name, the position is the frontmatter `position` or else
    /// `i64::MAX`, and the color is the frontmatter `color`.
    pub fn from_markdown(filename: String, path: String, content: String) -> (r: Card)
        ensures
            r.title@ == (match spec_title_from_markdown(content@) {
                Some(t) => t,
                None => spec_title_from_filename(filename@),
            }),
            r.position == (match spec_position_from_markdown(content@) {
                Some(p) => p,
                None => i64::MAX,
            }),
            r.color matches Some(c) ==> spec_color_from_markdown(content@) == Some(c@),
            r.color is None ==> spec_color_from_markdown(content@) is None,
            r.filename == filename,
            r.path == path,
            r.content == content,
    {
        let title = match title_from_markdown(content.as_str()) {
            Some(t) => t,
            None => title_from_filename(filename.as_str()),
        };
        let position = match position_from_markdown(content.as_str()) {
            Some(p) => p,
            None => i64::MAX,
        };
        let color = color_from_markdown(content.as_str());
        Card { title, filename, path, content, position, color }
    }
}

} // verus!
