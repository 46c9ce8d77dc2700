//! The grammar, stated as spec functions over the input character sequence.
//!
//! Each `spec_parse_*` function gives the exact meaning of the matching
//! executable parser in `parser`: what it returns, and where it leaves the
//! cursor, for every input and starting position. The parsers follow an
//! ordered-choice discipline: a sub-parser either commits to a match, reports
//! that nothing matched (leaving the cursor only past skipped whitespace), or
//! fails the whole parse with a hard error.

use vstd::prelude::*;
use crate::ast::{
    CSVLineView, CategoryItemTokenView, CategoryItemView, CurrencyNameView, CurrencyTokenView,
    LineView, ParseError, ParseErrorView, TagKind, TokenView, TraderCategoryTokenView,
    TraderCategoryView, TraderView,
};

verus! {

/// The outcome of probing for one construct at a position: a hard error, no
/// match (with the cursor position after the probe), or a match with its
/// value and the position just past it.
pub ghost enum Step<T> {
    Fail(ParseErrorView),
    Miss { pos: int },
    Hit { val: T, pos: int },
}

/// Relates an executable probe's result and final cursor to its spec `Step`.
pub open spec fn step_matches<T: View>(
    res: Result<Option<T>, ParseError>,
    np: usize,
    step: Step<<T as View>::V>,
) -> bool {
    match step {
        Step::Fail(e) => match res {
            Result::Err(err) => err@ == e,
            Result::Ok(_) => false,
        },
        Step::Miss { pos } => match res {
            Result::Ok(o) => o is None && np == pos,
            Result::Err(_) => false,
        },
        Step::Hit { val, pos } => match res {
            Result::Ok(o) => match o {
                Option::Some(v) => v@ == val && np == pos,
                Option::None => false,
            },
            Result::Err(_) => false,
        },
    }
}

pub open spec fn is_block_space(c: char) -> bool {
    c == ' ' || c == '\t' || c == '\n' || c == '\r'
}

pub open spec fn is_line_space(c: char) -> bool {
    c == ' ' || c == '\t'
}

pub open spec fn is_line_break(c: char) -> bool {
    c == '\n' || c == '\r'
}

/// First position at or after `pos` whose character is not whitespace
/// (including line breaks), or the end of input.
pub open spec fn skip_block_spaces(s: Seq<char>, pos: int) -> int
    decreases s.len() - pos,
{
    if 0 <= pos < s.len() && is_block_space(s[pos]) {
        skip_block_spaces(s, pos + 1)
    } else {
        pos
    }
}

/// First position at or after `pos` whose character is not a space or tab,
/// or the end of input. Line breaks are not skipped.
pub open spec fn skip_line_spaces(s: Seq<char>, pos: int) -> int
    decreases s.len() - pos,
{
    if 0 <= pos < s.len() && is_line_space(s[pos]) {
        skip_line_spaces(s, pos + 1)
    } else {
        pos
    }
}

/// First line break at or after `pos`, or the end of input.
pub open spec fn line_end(s: Seq<char>, pos: int) -> int
    decreases s.len() - pos,
{
    if 0 <= pos < s.len() {
        if is_line_break(s[pos]) {
            pos
        } else {
            line_end(s, pos + 1)
        }
    } else {
        s.len() as int
    }
}

/// Whether a comment (two slashes) starts exactly at `pos`.
pub open spec fn comment_starts_at(s: Seq<char>, pos: int) -> bool {
    0 <= pos && pos + 1 < s.len() && s[pos] == '/' && s[pos + 1] == '/'
}

/// End position of the non-whitespace core of `s`: the index one past its
/// last non-whitespace character, sought from the right.
pub open spec fn trim_end_idx(s: Seq<char>, i: int) -> int
    decreases i,
{
    if 0 < i <= s.len() && is_block_space(s[i - 1]) {
        trim_end_idx(s, i - 1)
    } else {
        i
    }
}

/// `s` without leading and trailing whitespace.
pub open spec fn trim(s: Seq<char>) -> Seq<char> {
    let a = skip_block_spaces(s, 0);
    let b = trim_end_idx(s, s.len() as int);
    if a <= b {
        s.subrange(a, b)
    } else {
        Seq::empty()
    }
}

/// A comment: optional whitespace, two slashes, optional spaces or tabs, then
/// the rest of the line as the message; the line break is consumed. On no
/// match the cursor stands after the skipped whitespace.
pub open spec fn spec_parse_comment(s: Seq<char>, pos: int) -> (Option<Seq<char>>, int) {
    let p = skip_block_spaces(s, pos);
    if comment_starts_at(s, p) {
        let m0 = skip_line_spaces(s, p + 2);
        let e = line_end(s, m0);
        let np = if e < s.len() {
            e + 1
        } else {
            e
        };
        (Option::Some(s.subrange(m0, e)), np)
    } else {
        (Option::None, p)
    }
}

/// Where a header line's free text ends: at a line break or at the start of a
/// trailing comment, whichever comes first.
pub open spec fn line_text_end(s: Seq<char>, pos: int) -> int
    decreases s.len() - pos,
{
    if 0 <= pos < s.len() {
        if is_line_break(s[pos]) || comment_starts_at(s, pos) {
            pos
        } else {
            line_text_end(s, pos + 1)
        }
    } else {
        s.len() as int
    }
}

/// A header line: leading spaces and tabs skipped, then trimmed free text up
/// to the line break or a trailing comment. Never fails and never misses.
pub open spec fn spec_parse_line(s: Seq<char>, pos: int) -> (LineView, int) {
    let p0 = skip_line_spaces(s, pos);
    let e = line_text_end(s, p0);
    let text = trim(s.subrange(p0, e));
    if e >= s.len() {
        (LineView { text, comment: Option::None }, s.len() as int)
    } else if is_line_break(s[e]) {
        (LineView { text, comment: Option::None }, e + 1)
    } else {
        let (c, np) = spec_parse_comment(s, e);
        (LineView { text, comment: c }, np)
    }
}

/// Appends the pending field, trimmed, unless it is empty after trimming.
pub open spec fn push_field(values: Seq<Seq<char>>, value: Seq<char>) -> Seq<Seq<char>> {
    let t = trim(value);
    if t.len() > 0 {
        values.push(t)
    } else {
        values
    }
}

/// The comma-separated row scanner. A `<` means the row is really the start
/// of the next tag: no match, cursor left at the `<`. A line break ends the
/// row; a trailing comment ends it too and is attached; at the end of input
/// the pending field is discarded. A row with no fields and no comment is no
/// match.
pub open spec fn csv_scan(
    s: Seq<char>,
    pos: int,
    values: Seq<Seq<char>>,
    value: Seq<char>,
) -> (Option<CSVLineView>, int)
    decreases s.len() - pos,
{
    if pos < 0 || pos >= s.len() {
        if values.len() == 0 {
            (Option::None, s.len() as int)
        } else {
            (Option::Some(CSVLineView { values, comment: Option::None }), s.len() as int)
        }
    } else if s[pos] == '<' {
        (Option::None, pos)
    } else if is_line_break(s[pos]) {
        let vs = push_field(values, value);
        if vs.len() == 0 {
            (Option::None, pos + 1)
        } else {
            (Option::Some(CSVLineView { values: vs, comment: Option::None }), pos + 1)
        }
    } else if s[pos] == ',' {
        csv_scan(s, pos + 1, push_field(values, value), Seq::empty())
    } else if comment_starts_at(s, pos) {
        let (c, np) = spec_parse_comment(s, pos);
        (Option::Some(CSVLineView { values: push_field(values, value), comment: c }), np)
    } else {
        csv_scan(s, pos + 1, values, value.push(s[pos]))
    }
}

/// A comma-separated row, after skipping leading spaces and tabs.
pub open spec fn spec_parse_csv_line(s: Seq<char>, pos: int) -> (Option<CSVLineView>, int) {
    csv_scan(s, skip_line_spaces(s, pos), Seq::empty(), Seq::empty())
}

/// First position at or after `pos` holding a tag terminator (`>` or `/`) or
/// a line break, or the end of input.
pub open spec fn tag_end(s: Seq<char>, pos: int) -> int
    decreases s.len() - pos,
{
    if 0 <= pos < s.len() {
        if s[pos] == '>' || s[pos] == '/' || is_line_break(s[pos]) {
            pos
        } else {
            tag_end(s, pos + 1)
        }
    } else {
        s.len() as int
    }
}

pub open spec fn seq_currency_name_tag() -> Seq<char> {
    seq!['C', 'u', 'r', 'r', 'e', 'n', 'c', 'y', 'N', 'a', 'm', 'e']
}

pub open spec fn seq_currency_tag() -> Seq<char> {
    seq!['C', 'u', 'r', 'r', 'e', 'n', 'c', 'y']
}

pub open spec fn seq_trader_tag() -> Seq<char> {
    seq!['T', 'r', 'a', 'd', 'e', 'r']
}

pub open spec fn seq_category_tag() -> Seq<char> {
    seq!['C', 'a', 't', 'e', 'g', 'o', 'r', 'y']
}

pub open spec fn seq_open_file_tag() -> Seq<char> {
    seq!['O', 'p', 'e', 'n', 'F', 'i', 'l', 'e']
}

pub open spec fn seq_file_end_tag() -> Seq<char> {
    seq!['F', 'i', 'l', 'e', 'E', 'n', 'd']
}

/// An angle-bracket tag. After optional whitespace a `<` opens the tag and
/// characters are read up to `>` or `/`. A line break before the tag closes
/// is a hard error whatever the name; a tag running to the end of input is a
/// cursor-advance error when the name matches, and otherwise no match; a
/// closed tag with a different name is no match (cursor unmoved but for the
/// whitespace).
pub open spec fn spec_parse_tag(s: Seq<char>, pos: int, name: Seq<char>, kind: TagKind) -> Step<
    (),
> {
    let p = skip_block_spaces(s, pos);
    if p >= s.len() || s[p] != '<' {
        Step::Miss { pos: p }
    } else {
        let e = tag_end(s, p + 1);
        if e >= s.len() {
            if s.subrange(p + 1, e) == name {
                Step::Fail(ParseErrorView::CursorAdvance { tag: kind })
            } else {
                Step::Miss { pos: p }
            }
        } else if is_line_break(s[e]) {
            Step::Fail(ParseErrorView::UnclosedTag { tag: kind })
        } else if s.subrange(p + 1, e) == name {
            Step::Hit { val: (), pos: e + 1 }
        } else {
            Step::Miss { pos: p }
        }
    }
}

/// A `<FileEnd>` marker: the tag and the remainder of its line.
pub open spec fn spec_parse_file_end(s: Seq<char>, pos: int) -> Step<LineView> {
    match spec_parse_tag(s, pos, seq_file_end_tag(), TagKind::FileEnd) {
        Step::Fail(e) => Step::Fail(e),
        Step::Miss { pos: p } => Step::Miss { pos: p },
        Step::Hit { val: _, pos: p } => {
            let (l, np) = spec_parse_line(s, p);
            Step::Hit { val: l, pos: np }
        },
    }
}

/// An `<OpenFile>` marker: the tag and the remainder of its line.
pub open spec fn spec_parse_open_file(s: Seq<char>, pos: int) -> Step<LineView> {
    match spec_parse_tag(s, pos, seq_open_file_tag(), TagKind::OpenFile) {
        Step::Fail(e) => Step::Fail(e),
        Step::Miss { pos: p } => Step::Miss { pos: p },
        Step::Hit { val: _, pos: p } => {
            let (l, np) = spec_parse_line(s, p);
            Step::Hit { val: l, pos: np }
        },
    }
}

/// A `<Currency>` row: the tag, then a comma-separated row on the same line.
/// A tag followed by no row at all is no match.
pub open spec fn spec_parse_currency(s: Seq<char>, pos: int) -> Step<CSVLineView> {
    match spec_parse_tag(s, pos, seq_currency_tag(), TagKind::Currency) {
        Step::Fail(e) => Step::Fail(e),
        Step::Miss { pos: p } => Step::Miss { pos: p },
        Step::Hit { val: _, pos: p } => {
            let (o, np) = spec_parse_csv_line(s, p);
            match o {
                Option::Some(c) => Step::Hit { val: c, pos: np },
                Option::None => Step::Miss { pos: np },
            }
        },
    }
}

/// One currency-table entry: a comment, or a `<Currency>` row.
pub open spec fn spec_parse_currency_token(s: Seq<char>, pos: int) -> Step<CurrencyTokenView> {
    let (c, p1) = spec_parse_comment(s, pos);
    match c {
        Option::Some(m) => Step::Hit { val: CurrencyTokenView::Comment(m), pos: p1 },
        Option::None => match spec_parse_currency(s, p1) {
            Step::Fail(e) => Step::Fail(e),
            Step::Miss { pos: p } => Step::Miss { pos: p },
            Step::Hit { val: row, pos: p } => Step::Hit {
                val: CurrencyTokenView::Currency(row),
                pos: p,
            },
        },
    }
}

/// The entries of a currency table: entries are taken while they match; the
/// list ends at the first miss, whose cursor position is kept.
pub open spec fn spec_parse_currency_tokens(s: Seq<char>, pos: int) -> Step<
    Seq<CurrencyTokenView>,
>
    decreases s.len() - pos,
{
    match spec_parse_currency_token(s, pos) {
        Step::Fail(e) => Step::Fail(e),
        Step::Miss { pos: p } => Step::Hit { val: Seq::empty(), pos: p },
        Step::Hit { val: t, pos: p2 } => {
            if pos < p2 <= s.len() {
                match spec_parse_currency_tokens(s, p2) {
                    Step::Fail(e) => Step::Fail(e),
                    Step::Miss { pos: p3 } => Step::Miss { pos: p3 },
                    Step::Hit { val: rest, pos: p3 } => Step::Hit {
                        val: seq![t] + rest,
                        pos: p3,
                    },
                }
            } else {
                Step::Hit { val: seq![t], pos: p2 }
            }
        },
    }
}

/// A `<CurrencyName>` block: the tag, its header line, then the currency
/// table's entries until neither a comment nor a row matches.
pub open spec fn spec_parse_currency_name(s: Seq<char>, pos: int) -> Step<CurrencyNameView> {
    match spec_parse_tag(s, pos, seq_currency_name_tag(), TagKind::CurrencyName) {
        Step::Fail(e) => Step::Fail(e),
        Step::Miss { pos: p } => Step::Miss { pos: p },
        Step::Hit { val: _, pos: p } => {
            let (l, p2) = spec_parse_line(s, p);
            match spec_parse_currency_tokens(s, p2) {
                Step::Fail(e) => Step::Fail(e),
                Step::Miss { pos: p3 } => Step::Miss { pos: p3 },
                Step::Hit { val: items, pos: p3 } => Step::Hit {
                    val: CurrencyNameView { name: l, currencies: items },
                    pos: p3,
                },
            }
        },
    }
}

/// One category entry: a comment, or a row validated to exactly four fields.
/// A recognized row with any other field count is a hard error carrying the
/// row itself.
pub open spec fn spec_parse_trader_category_item_token(s: Seq<char>, pos: int) -> Step<
    CategoryItemTokenView,
> {
    let (c, p1) = spec_parse_comment(s, pos);
    match c {
        Option::Some(m) => Step::Hit { val: CategoryItemTokenView::Comment(m), pos: p1 },
        Option::None => {
            let (o, p2) = spec_parse_csv_line(s, p1);
            match o {
                Option::None => Step::Miss { pos: p2 },
                Option::Some(row) => {
                    if row.values.len() == 4 {
                        Step::Hit {
                            val: CategoryItemTokenView::CategoryItem(
                                CategoryItemView {
                                    class: row.values[0],
                                    amount: row.values[1],
                                    buy_value: row.values[2],
                                    sell_value: row.values[3],
                                    comment: row.comment,
                                },
                            ),
                            pos: p2,
                        }
                    } else {
                        Step::Fail(ParseErrorView::MalformedRow { row })
                    }
                },
            }
        },
    }
}

/// The entries of a category, taken while they match.
pub open spec fn spec_parse_category_item_tokens(s: Seq<char>, pos: int) -> Step<
    Seq<CategoryItemTokenView>,
>
    decreases s.len() - pos,
{
    match spec_parse_trader_category_item_token(s, pos) {
        Step::Fail(e) => Step::Fail(e),
        Step::Miss { pos: p } => Step::Hit { val: Seq::empty(), pos: p },
        Step::Hit { val: t, pos: p2 } => {
            if pos < p2 <= s.len() {
                match spec_parse_category_item_tokens(s, p2) {
                    Step::Fail(e) => Step::Fail(e),
                    Step::Miss { pos: p3 } => Step::Miss { pos: p3 },
                    Step::Hit { val: rest, pos: p3 } => Step::Hit {
                        val: seq![t] + rest,
                        pos: p3,
                    },
                }
            } else {
                Step::Hit { val: seq![t], pos: p2 }
            }
        },
    }
}

/// A `<Category>` block: the tag, its header line, then its entries.
pub open spec fn spec_parse_trader_category(s: Seq<char>, pos: int) -> Step<TraderCategoryView> {
    match spec_parse_tag(s, pos, seq_category_tag(), TagKind::Category) {
        Step::Fail(e) => Step::Fail(e),
        Step::Miss { pos: p } => Step::Miss { pos: p },
        Step::Hit { val: _, pos: p } => {
            let (l, p2) = spec_parse_line(s, p);
            match spec_parse_category_item_tokens(s, p2) {
                Step::Fail(e) => Step::Fail(e),
                Step::Miss { pos: p3 } => Step::Miss { pos: p3 },
                Step::Hit { val: items, pos: p3 } => Step::Hit {
                    val: TraderCategoryView { name: l, items },
                    pos: p3,
                },
            }
        },
    }
}

/// One trader entry: a comment, or a `<Category>` block.
pub open spec fn spec_parse_trader_category_token(s: Seq<char>, pos: int) -> Step<
    TraderCategoryTokenView,
> {
    let (c, p1) = spec_parse_comment(s, pos);
    match c {
        Option::Some(m) => Step::Hit { val: TraderCategoryTokenView::Comment(m), pos: p1 },
        Option::None => match spec_parse_trader_category(s, p1) {
            Step::Fail(e) => Step::Fail(e),
            Step::Miss { pos: p } => Step::Miss { pos: p },
            Step::Hit { val: cat, pos: p } => Step::Hit {
                val: TraderCategoryTokenView::TraderCategory(cat),
                pos: p,
            },
        },
    }
}

/// The entries of a trader block, taken while they match.
pub open spec fn spec_parse_trader_category_tokens(s: Seq<char>, pos: int) -> Step<
    Seq<TraderCategoryTokenView>,
>
    decreases s.len() - pos,
{
    match spec_parse_trader_category_token(s, pos) {
        Step::Fail(e) => Step::Fail(e),
        Step::Miss { pos: p } => Step::Hit { val: Seq::empty(), pos: p },
        Step::Hit { val: t, pos: p2 } => {
            if pos < p2 <= s.len() {
                match spec_parse_trader_category_tokens(s, p2) {
                    Step::Fail(e) => Step::Fail(e),
                    Step::Miss { pos: p3 } => Step::Miss { pos: p3 },
                    Step::Hit { val: rest, pos: p3 } => Step::Hit {
                        val: seq![t] + rest,
                        pos: p3,
                    },
                }
            } else {
                Step::Hit { val: seq![t], pos: p2 }
            }
        },
    }
}

/// A `<Trader>` block: the tag, its header line, then its entries.
pub open spec fn spec_parse_trader(s: Seq<char>, pos: int) -> Step<TraderView> {
    match spec_parse_tag(s, pos, seq_trader_tag(), TagKind::Trader) {
        Step::Fail(e) => Step::Fail(e),
        Step::Miss { pos: p } => Step::Miss { pos: p },
        Step::Hit { val: _, pos: p } => {
            let (l, p2) = spec_parse_line(s, p);
            match spec_parse_trader_category_tokens(s, p2) {
                Step::Fail(e) => Step::Fail(e),
                Step::Miss { pos: p3 } => Step::Miss { pos: p3 },
                Step::Hit { val: cats, pos: p3 } => Step::Hit {
                    val: TraderView { name: l, categories: cats },
                    pos: p3,
                },
            }
        },
    }
}

/// One top-level token, tried in fixed priority order: comment, currency
/// table, trader, open-file marker, file-end marker.
pub open spec fn spec_parse_token(s: Seq<char>, pos: int) -> Step<TokenView> {
    let (c, p1) = spec_parse_comment(s, pos);
    match c {
        Option::Some(m) => Step::Hit { val: TokenView::Comment(m), pos: p1 },
        Option::None => match spec_parse_currency_name(s, p1) {
            Step::Fail(e) => Step::Fail(e),
            Step::Hit { val: cn, pos: p } => Step::Hit { val: TokenView::CurrencyName(cn), pos: p },
            Step::Miss { pos: p2 } => match spec_parse_trader(s, p2) {
                Step::Fail(e) => Step::Fail(e),
                Step::Hit { val: t, pos: p } => Step::Hit { val: TokenView::Trader(t), pos: p },
                Step::Miss { pos: p3 } => match spec_parse_open_file(s, p3) {
                    Step::Fail(e) => Step::Fail(e),
                    Step::Hit { val: l, pos: p } => Step::Hit {
                        val: TokenView::OpenFile(l),
                        pos: p,
                    },
                    Step::Miss { pos: p4 } => match spec_parse_file_end(s, p4) {
                        Step::Fail(e) => Step::Fail(e),
                        Step::Hit { val: l, pos: p } => Step::Hit {
                            val: TokenView::FileEnd(l),
                            pos: p,
                        },
                        Step::Miss { pos: p5 } => Step::Miss { pos: p5 },
                    },
                },
            },
        },
    }
}

/// The whole document: top-level tokens in order. Where nothing matches, one
/// character is skipped and parsing resumes — stray content is dropped, never
/// an error.
pub open spec fn spec_parse_document(s: Seq<char>, pos: int) -> Result<
    Seq<TokenView>,
    ParseErrorView,
>
    decreases s.len() - pos + 1,
{
    if pos >= s.len() {
        Result::Ok(Seq::empty())
    } else {
        match spec_parse_token(s, pos) {
            Step::Fail(e) => Result::Err(e),
            Step::Miss { pos: p } => {
                if pos <= p < s.len() {
                    spec_parse_document(s, p + 1)
                } else {
                    Result::Ok(Seq::empty())
                }
            },
            Step::Hit { val: t, pos: p2 } => {
                if pos < p2 <= s.len() {
                    match spec_parse_document(s, p2) {
                        Result::Err(e) => Result::Err(e),
                        Result::Ok(ts) => Result::Ok(seq![t] + ts),
                    }
                } else {
                    Result::Ok(seq![t])
                }
            },
        }
    }
}

/// The meaning of a whole run of the parser over an input text.
pub open spec fn spec_process_file(s: Seq<char>) -> Result<Seq<TokenView>, ParseErrorView> {
    spec_parse_document(s, 0)
}

/// Bounds and characterization of whitespace skipping.
pub proof fn lemma_skip_block_spaces(s: Seq<char>, pos: int)
    requires
        0 <= pos <= s.len(),
    ensures
        pos <= skip_block_spaces(s, pos) <= s.len(),
        forall|i: int| pos <= i < skip_block_spaces(s, pos) ==> is_block_space(#[trigger] s[i]),
        skip_block_spaces(s, pos) < s.len() ==> !is_block_space(s[skip_block_spaces(s, pos)]),
    decreases s.len() - pos,
{
    if pos < s.len() && is_block_space(s[pos]) {
        lemma_skip_block_spaces(s, pos + 1);
    }
}

/// Bounds and characterization of space-and-tab skipping.
pub proof fn lemma_skip_line_spaces(s: Seq<char>, pos: int)
    requires
        0 <= pos <= s.len(),
    ensures
        pos <= skip_line_spaces(s, pos) <= s.len(),
        forall|i: int| pos <= i < skip_line_spaces(s, pos) ==> is_line_space(#[trigger] s[i]),
        skip_line_spaces(s, pos) < s.len() ==> !is_line_space(s[skip_line_spaces(s, pos)]),
    decreases s.len() - pos,
{
    if pos < s.len() && is_line_space(s[pos]) {
        lemma_skip_line_spaces(s, pos + 1);
    }
}

/// Bounds and characterization of the line-break search.
pub proof fn lemma_line_end(s: Seq<char>, pos: int)
    requires
        0 <= pos <= s.len(),
    ensures
        pos <= line_end(s, pos) <= s.len(),
        forall|i: int| pos <= i < line_end(s, pos) ==> !is_line_break(#[trigger] s[i]),
        line_end(s, pos) < s.len() ==> is_line_break(s[line_end(s, pos)]),
    decreases s.len() - pos,
{
    if pos < s.len() && !is_line_break(s[pos]) {
        lemma_line_end(s, pos + 1);
    }
}

/// Bounds and characterization of the header-text terminator search.
pub proof fn lemma_line_text_end(s: Seq<char>, pos: int)
    requires
        0 <= pos <= s.len(),
    ensures
        pos <= line_text_end(s, pos) <= s.len(),
        forall|i: int| pos <= i < line_text_end(s, pos)
            ==> !is_line_break(#[trigger] s[i]) && !comment_starts_at(s, i),
        line_text_end(s, pos) < s.len() ==> is_line_break(s[line_text_end(s, pos)])
            || comment_starts_at(s, line_text_end(s, pos)),
    decreases s.len() - pos,
{
    if pos < s.len() && !(is_line_break(s[pos]) || comment_starts_at(s, pos)) {
        lemma_line_text_end(s, pos + 1);
    }
}

/// Bounds and characterization of the tag-terminator search.
pub proof fn lemma_tag_end(s: Seq<char>, pos: int)
    requires
        0 <= pos <= s.len(),
    ensures
        pos <= tag_end(s, pos) <= s.len(),
        forall|i: int| pos <= i < tag_end(s, pos)
            ==> !(#[trigger] s[i] == '>' || s[i] == '/' || is_line_break(s[i])),
        tag_end(s, pos) < s.len() ==> (s[tag_end(s, pos)] == '>' || s[tag_end(s, pos)] == '/'
            || is_line_break(s[tag_end(s, pos)])),
    decreases s.len() - pos,
{
    if pos < s.len() && !(s[pos] == '>' || s[pos] == '/' || is_line_break(s[pos])) {
        lemma_tag_end(s, pos + 1);
    }
}

/// Bounds of the trailing-whitespace search.
pub proof fn lemma_trim_end_idx(s: Seq<char>, i: int)
    requires
        0 <= i <= s.len(),
    ensures
        0 <= trim_end_idx(s, i) <= i,
    decreases i,
{
    if 0 < i && is_block_space(s[i - 1]) {
        lemma_trim_end_idx(s, i - 1);
    }
}

/// Where the comment probe leaves the cursor.
pub proof fn lemma_spec_parse_comment(s: Seq<char>, pos: int)
    requires
        0 <= pos <= s.len(),
    ensures
        ({
            let (c, np) = spec_parse_comment(s, pos);
            &&& pos <= np <= s.len()
            &&& (c is Some ==> pos + 2 <= np)
            &&& (c is None ==> np == skip_block_spaces(s, pos))
        }),
{
    lemma_skip_block_spaces(s, pos);
    let p = skip_block_spaces(s, pos);
    if comment_starts_at(s, p) {
        lemma_skip_line_spaces(s, p + 2);
        lemma_line_end(s, skip_line_spaces(s, p + 2));
    }
}

/// Where the header-line parser leaves the cursor.
pub proof fn lemma_spec_parse_line(s: Seq<char>, pos: int)
    requires
        0 <= pos <= s.len(),
    ensures
        pos <= spec_parse_line(s, pos).1 <= s.len(),
{
    lemma_skip_line_spaces(s, pos);
    let p0 = skip_line_spaces(s, pos);
    lemma_line_text_end(s, p0);
    let e = line_text_end(s, p0);
    if e < s.len() && !is_line_break(s[e]) {
        lemma_spec_parse_comment(s, e);
    }
}

/// Where the row scanner leaves the cursor, and when it can match at all.
pub proof fn lemma_csv_scan(s: Seq<char>, pos: int, values: Seq<Seq<char>>, value: Seq<char>)
    requires
        0 <= pos <= s.len(),
    ensures
        ({
            let (o, np) = csv_scan(s, pos, values, value);
            &&& pos <= np <= s.len()
            &&& (o is Some && pos < s.len() ==> np > pos)
            &&& (pos == s.len() && values.len() == 0 ==> o is None)
        }),
    decreases s.len() - pos,
{
    if pos >= s.len() {
    } else if s[pos] == '<' {
    } else if is_line_break(s[pos]) {
    } else if s[pos] == ',' {
        lemma_csv_scan(s, pos + 1, push_field(values, value), Seq::empty());
    } else if comment_starts_at(s, pos) {
        lemma_spec_parse_comment(s, pos);
    } else {
        lemma_csv_scan(s, pos + 1, values, value.push(s[pos]));
    }
}

/// Where the row parser leaves the cursor.
pub proof fn lemma_spec_parse_csv_line(s: Seq<char>, pos: int)
    requires
        0 <= pos <= s.len(),
    ensures
        ({
            let (o, np) = spec_parse_csv_line(s, pos);
            &&& pos <= np <= s.len()
            &&& (o is Some ==> np > pos)
        }),
{
    lemma_skip_line_spaces(s, pos);
    let p = skip_line_spaces(s, pos);
    lemma_csv_scan(s, p, Seq::empty(), Seq::empty());
    let (o, np) = csv_scan(s, p, Seq::empty(), Seq::empty());
    if o is Some {
        if p == s.len() {
            assert(o is None);
        }
    }
}

/// Where the tag probe leaves the cursor: a hit moves it at least past `<`
/// and the closing character.
pub proof fn lemma_spec_parse_tag(s: Seq<char>, pos: int, name: Seq<char>, kind: TagKind)
    requires
        0 <= pos <= s.len(),
    ensures
        ({
            match spec_parse_tag(s, pos, name, kind) {
                Step::Fail(_) => true,
                Step::Miss { pos: p } => pos <= p <= s.len(),
                Step::Hit { val: _, pos: p } => pos + 2 <= p <= s.len(),
            }
        }),
{
    lemma_skip_block_spaces(s, pos);
    let p = skip_block_spaces(s, pos);
    if p < s.len() && s[p] == '<' {
        lemma_tag_end(s, p + 1);
    }
}

/// Cursor bounds for every construct probe: a miss moves the cursor only
/// forward, a hit moves it strictly forward.
pub proof fn lemma_spec_parse_currency(s: Seq<char>, pos: int)
    requires
        0 <= pos <= s.len(),
    ensures
        ({
            match spec_parse_currency(s, pos) {
                Step::Fail(_) => true,
                Step::Miss { pos: p } => pos <= p <= s.len(),
                Step::Hit { val: _, pos: p } => pos < p <= s.len(),
            }
        }),
{
    lemma_spec_parse_tag(s, pos, seq_currency_tag(), TagKind::Currency);
    match spec_parse_tag(s, pos, seq_currency_tag(), TagKind::Currency) {
        Step::Hit { val: _, pos: p } => {
            lemma_spec_parse_csv_line(s, p);
        },
        _ => {},
    }
}

/// Cursor bounds for the currency-table entry probe.
pub proof fn lemma_spec_parse_currency_token(s: Seq<char>, pos: int)
    requires
        0 <= pos <= s.len(),
    ensures
        ({
            match spec_parse_currency_token(s, pos) {
                Step::Fail(_) => true,
                Step::Miss { pos: p } => pos <= p <= s.len(),
                Step::Hit { val: _, pos: p } => pos < p <= s.len(),
            }
        }),
{
    lemma_spec_parse_comment(s, pos);
    let (c, p1) = spec_parse_comment(s, pos);
    if c is None {
        lemma_spec_parse_currency(s, p1);
    }
}

/// Cursor bounds for the currency-table list.
pub proof fn lemma_spec_parse_currency_tokens(s: Seq<char>, pos: int)
    requires
        0 <= pos <= s.len(),
    ensures
        ({
            match spec_parse_currency_tokens(s, pos) {
                Step::Fail(_) => true,
                Step::Miss { pos: p } => false,
                Step::Hit { val: _, pos: p } => pos <= p <= s.len(),
            }
        }),
    decreases s.len() - pos,
{
    lemma_spec_parse_currency_token(s, pos);
    match spec_parse_currency_token(s, pos) {
        Step::Hit { val: _, pos: p2 } => {
            lemma_spec_parse_currency_tokens(s, p2);
        },
        _ => {},
    }
}

/// Cursor bounds for the currency-table block probe.
pub proof fn lemma_spec_parse_currency_name(s: Seq<char>, pos: int)
    requires
        0 <= pos <= s.len(),
    ensures
        ({
            match spec_parse_currency_name(s, pos) {
                Step::Fail(_) => true,
                Step::Miss { pos: p } => pos <= p <= s.len(),
                Step::Hit { val: _, pos: p } => pos < p <= s.len(),
            }
        }),
{
    lemma_spec_parse_tag(s, pos, seq_currency_name_tag(), TagKind::CurrencyName);
    match spec_parse_tag(s, pos, seq_currency_name_tag(), TagKind::CurrencyName) {
        Step::Hit { val: _, pos: p } => {
            lemma_spec_parse_line(s, p);
            let (_, p2) = spec_parse_line(s, p);
            lemma_spec_parse_currency_tokens(s, p2);
        },
        _ => {},
    }
}

/// Cursor bounds for the category entry probe.
pub proof fn lemma_spec_parse_trader_category_item_token(s: Seq<char>, pos: int)
    requires
        0 <= pos <= s.len(),
    ensures
        ({
            match spec_parse_trader_category_item_token(s, pos) {
                Step::Fail(_) => true,
                Step::Miss { pos: p } => pos <= p <= s.len(),
                Step::Hit { val: _, pos: p } => pos < p <= s.len(),
            }
        }),
{
    lemma_spec_parse_comment(s, pos);
    let (c, p1) = spec_parse_comment(s, pos);
    if c is None {
        lemma_spec_parse_csv_line(s, p1);
    }
}

/// Cursor bounds for the category list.
pub proof fn lemma_spec_parse_category_item_tokens(s: Seq<char>, pos: int)
    requires
        0 <= pos <= s.len(),
    ensures
        ({
            match spec_parse_category_item_tokens(s, pos) {
                Step::Fail(_) => true,
                Step::Miss { pos: p } => false,
                Step::Hit { val: _, pos: p } => pos <= p <= s.len(),
            }
        }),
    decreases s.len() - pos,
{
    lemma_spec_parse_trader_category_item_token(s, pos);
    match spec_parse_trader_category_item_token(s, pos) {
        Step::Hit { val: _, pos: p2 } => {
            lemma_spec_parse_category_item_tokens(s, p2);
        },
        _ => {},
    }
}

/// Cursor bounds for the category block probe.
pub proof fn lemma_spec_parse_trader_category(s: Seq<char>, pos: int)
    requires
        0 <= pos <= s.len(),
    ensures
        ({
            match spec_parse_trader_category(s, pos) {
                Step::Fail(_) => true,
                Step::Miss { pos: p } => pos <= p <= s.len(),
                Step::Hit { val: _, pos: p } => pos < p <= s.len(),
            }
        }),
{
    lemma_spec_parse_tag(s, pos, seq_category_tag(), TagKind::Category);
    match spec_parse_tag(s, pos, seq_category_tag(), TagKind::Category) {
        Step::Hit { val: _, pos: p } => {
            lemma_spec_parse_line(s, p);
            let (_, p2) = spec_parse_line(s, p);
            lemma_spec_parse_category_item_tokens(s, p2);
        },
        _ => {},
    }
}

/// Cursor bounds for the trader entry probe.
pub proof fn lemma_spec_parse_trader_category_token(s: Seq<char>, pos: int)
    requires
        0 <= pos <= s.len(),
    ensures
        ({
            match spec_parse_trader_category_token(s, pos) {
                Step::Fail(_) => true,
                Step::Miss { pos: p } => pos <= p <= s.len(),
                Step::Hit { val: _, pos: p } => pos < p <= s.len(),
            }
        }),
{
    lemma_spec_parse_comment(s, pos);
    let (c, p1) = spec_parse_comment(s, pos);
    if c is None {
        lemma_spec_parse_trader_category(s, p1);
    }
}

/// Cursor bounds for the trader list.
pub proof fn lemma_spec_parse_trader_category_tokens(s: Seq<char>, pos: int)
    requires
        0 <= pos <= s.len(),
    ensures
        ({
            match spec_parse_trader_category_tokens(s, pos) {
                Step::Fail(_) => true,
                Step::Miss { pos: p } => false,
                Step::Hit { val: _, pos: p } => pos <= p <= s.len(),
            }
        }),
    decreases s.len() - pos,
{
    lemma_spec_parse_trader_category_token(s, pos);
    match spec_parse_trader_category_token(s, pos) {
        Step::Hit { val: _, pos: p2 } => {
            lemma_spec_parse_trader_category_tokens(s, p2);
        },
        _ => {},
    }
}

/// Cursor bounds for the trader block probe.
pub proof fn lemma_spec_parse_trader(s: Seq<char>, pos: int)
    requires
        0 <= pos <= s.len(),
    ensures
        ({
            match spec_parse_trader(s, pos) {
                Step::Fail(_) => true,
                Step::Miss { pos: p } => pos <= p <= s.len(),
                Step::Hit { val: _, pos: p } => pos < p <= s.len(),
            }
        }),
{
    lemma_spec_parse_tag(s, pos, seq_trader_tag(), TagKind::Trader);
    match spec_parse_tag(s, pos, seq_trader_tag(), TagKind::Trader) {
        Step::Hit { val: _, pos: p } => {
            lemma_spec_parse_line(s, p);
            let (_, p2) = spec_parse_line(s, p);
            lemma_spec_parse_trader_category_tokens(s, p2);
        },
        _ => {},
    }
}

/// Cursor bounds for the file-marker probes.
pub proof fn lemma_spec_parse_open_file(s: Seq<char>, pos: int)
    requires
        0 <= pos <= s.len(),
    ensures
        ({
            match spec_parse_open_file(s, pos) {
                Step::Fail(_) => true,
                Step::Miss { pos: p } => pos <= p <= s.len(),
                Step::Hit { val: _, pos: p } => pos < p <= s.len(),
            }
        }),
{
    lemma_spec_parse_tag(s, pos, seq_open_file_tag(), TagKind::OpenFile);
    match spec_parse_tag(s, pos, seq_open_file_tag(), TagKind::OpenFile) {
        Step::Hit { val: _, pos: p } => {
            lemma_spec_parse_line(s, p);
        },
        _ => {},
    }
}

/// Cursor bounds for the file-end probe.
pub proof fn lemma_spec_parse_file_end(s: Seq<char>, pos: int)
    requires
        0 <= pos <= s.len(),
    ensures
        ({
            match spec_parse_file_end(s, pos) {
                Step::Fail(_) => true,
                Step::Miss { pos: p } => pos <= p <= s.len(),
                Step::Hit { val: _, pos: p } => pos < p <= s.len(),
            }
        }),
{
    lemma_spec_parse_tag(s, pos, seq_file_end_tag(), TagKind::FileEnd);
    match spec_parse_tag(s, pos, seq_file_end_tag(), TagKind::FileEnd) {
        Step::Hit { val: _, pos: p } => {
            lemma_spec_parse_line(s, p);
        },
        _ => {},
    }
}

/// Cursor bounds for the top-level token probe.
pub proof fn lemma_spec_parse_token(s: Seq<char>, pos: int)
    requires
        0 <= pos <= s.len(),
    ensures
        ({
            match spec_parse_token(s, pos) {
                Step::Fail(_) => true,
                Step::Miss { pos: p } => pos <= p <= s.len(),
                Step::Hit { val: _, pos: p } => pos < p <= s.len(),
            }
        }),
{
    lemma_spec_parse_comment(s, pos);
    let (c, p1) = spec_parse_comment(s, pos);
    if c is None {
        lemma_spec_parse_currency_name(s, p1);
        match spec_parse_currency_name(s, p1) {
            Step::Miss { pos: p2 } => {
                lemma_spec_parse_trader(s, p2);
                match spec_parse_trader(s, p2) {
                    Step::Miss { pos: p3 } => {
                        lemma_spec_parse_open_file(s, p3);
                        match spec_parse_open_file(s, p3) {
                            Step::Miss { pos: p4 } => {
                                lemma_spec_parse_file_end(s, p4);
                            },
                            _ => {},
                        }
                    },
                    _ => {},
                }
            },
            _ => {},
        }
    }
}

} // verus!
