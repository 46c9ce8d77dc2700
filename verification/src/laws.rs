//! Laws of the parse/format pair.
//!
//! The central result is the round trip: rendering any well-formed token
//! tree and parsing the output yields that tree back, so formatting is
//! idempotent on its own output. Well-formedness (`wf_*`) captures exactly
//! the trees the canonical form can carry: leaf text free of line breaks and
//! comment markers, fields free of separators, comments only where a
//! re-parse would find them again. The parser produces such trees for
//! ordinary inputs; a degenerate input can step outside them (a row of only
//! commas ends a category early), which is why the laws are stated over
//! trees rather than raw inputs.
//!
//! Beside it stand the leniency law — a document without a tag opener never
//! fails, stray content is skipped — and the malformed-row law.

use vstd::prelude::*;
use crate::ast::{
    CSVLineView, CategoryItemTokenView, CategoryItemView, CurrencyNameView, CurrencyTokenView,
    LineView, ParseErrorView, TokenView, TraderCategoryTokenView, TraderCategoryView, TraderView,
};
use crate::grammar::{
    Step, comment_starts_at, csv_scan, is_block_space, is_line_break, is_line_space, line_end,
    line_text_end, lemma_spec_parse_comment, lemma_spec_parse_token,
    lemma_skip_block_spaces, seq_category_tag, seq_currency_name_tag,
    seq_currency_tag, seq_file_end_tag, seq_open_file_tag, seq_trader_tag, skip_block_spaces,
    skip_line_spaces, spec_parse_comment, spec_parse_csv_line,
    spec_parse_currency_name, spec_parse_currency_token, spec_parse_currency_tokens,
    spec_parse_category_item_tokens, spec_parse_document, spec_parse_file_end, spec_parse_line,
    spec_parse_open_file, spec_parse_tag, spec_parse_token, spec_parse_trader,
    spec_parse_trader_category, spec_parse_trader_category_item_token,
    spec_parse_trader_category_token, spec_parse_trader_category_tokens, spec_process_file,
    tag_end, trim, trim_end_idx,
};
use crate::render::{
    COLUMN_WIDTH, pad_column, spaces, spec_render_category_item, spec_render_category_item_token,
    spec_render_category_item_tokens, spec_render_comment, spec_render_csv_fields,
    spec_render_csv_line, spec_render_currency_name, spec_render_currency_token,
    spec_render_currency_tokens, spec_render_file_end, spec_render_line, spec_render_open_file,
    spec_render_opt_comment, spec_render_token, spec_render_tokens, spec_render_trader,
    spec_render_trader_category, spec_render_trader_category_token,
    spec_render_trader_category_tokens,
};

verus! {

// ------------------------------------------------------------------
// Well-formedness: the trees the canonical form can carry.
// ------------------------------------------------------------------

/// A comment message: no line breaks, and not starting with a space or tab
/// (the parser trims the front, so a re-parse would lose it).
pub open spec fn wf_msg(m: Seq<char>) -> bool {
    &&& forall|i: int| 0 <= i < m.len() ==> !is_line_break(#[trigger] m[i])
    &&& (m.len() > 0 ==> !is_line_space(m[0]))
}

pub open spec fn wf_opt_msg(c: Option<Seq<char>>) -> bool {
    match c {
        Option::Some(m) => wf_msg(m),
        Option::None => true,
    }
}

/// Header-line text: no line breaks, no comment marker inside, and trimmed.
pub open spec fn wf_text(t: Seq<char>) -> bool {
    &&& forall|i: int| 0 <= i < t.len() ==> !is_line_break(#[trigger] t[i])
    &&& forall|i: int| 0 <= i && i + 1 < t.len() ==> !(#[trigger] t[i] == '/' && t[i + 1] == '/')
    &&& (t.len() > 0 ==> !is_block_space(t[0]) && !is_block_space(t[t.len() - 1]))
}

pub open spec fn wf_line(l: LineView) -> bool {
    wf_text(l.text) && wf_opt_msg(l.comment)
}

/// A row field: non-empty, trimmed, free of separators, tag openers, line
/// breaks and comment markers.
pub open spec fn wf_field(f: Seq<char>) -> bool {
    &&& f.len() > 0
    &&& forall|i: int|
        0 <= i < f.len() ==> !is_line_break(#[trigger] f[i]) && f[i] != ',' && f[i] != '<'
    &&& forall|i: int| 0 <= i && i + 1 < f.len() ==> !(#[trigger] f[i] == '/' && f[i + 1] == '/')
    &&& !is_block_space(f[0]) && !is_block_space(f[f.len() - 1])
}

pub open spec fn wf_csv(c: CSVLineView) -> bool {
    &&& forall|i: int| 0 <= i < c.values.len() ==> wf_field(#[trigger] c.values[i])
    &&& wf_opt_msg(c.comment)
    &&& (c.values.len() > 0 || c.comment is Some)
}

pub open spec fn wf_item(it: CategoryItemView) -> bool {
    wf_field(it.class) && wf_field(it.amount) && wf_field(it.buy_value) && wf_field(it.sell_value)
        && wf_opt_msg(it.comment)
}

pub open spec fn wf_currency_token(t: CurrencyTokenView) -> bool {
    match t {
        CurrencyTokenView::Comment(m) => wf_msg(m),
        CurrencyTokenView::Currency(c) => wf_csv(c),
    }
}

pub open spec fn wf_currency_name(cn: CurrencyNameView) -> bool {
    &&& wf_line(cn.name)
    &&& forall|i: int| 0 <= i < cn.currencies.len() ==> wf_currency_token(#[trigger] cn.currencies[i])
}

pub open spec fn wf_category_item_token(t: CategoryItemTokenView) -> bool {
    match t {
        CategoryItemTokenView::Comment(m) => wf_msg(m),
        CategoryItemTokenView::CategoryItem(it) => wf_item(it),
    }
}

pub open spec fn wf_category(tc: TraderCategoryView) -> bool {
    &&& wf_line(tc.name)
    &&& forall|i: int| 0 <= i < tc.items.len() ==> wf_category_item_token(#[trigger] tc.items[i])
}

pub open spec fn wf_trader_category_token(t: TraderCategoryTokenView) -> bool {
    match t {
        TraderCategoryTokenView::Comment(m) => wf_msg(m),
        TraderCategoryTokenView::TraderCategory(tc) => wf_category(tc),
    }
}

/// A trader: entries well-formed, and no comment after a category — a
/// category greedily takes every following comment when re-parsed, so only
/// comments before the first category keep their place.
pub open spec fn wf_trader(t: TraderView) -> bool {
    &&& wf_line(t.name)
    &&& forall|i: int|
        0 <= i < t.categories.len() ==> wf_trader_category_token(#[trigger] t.categories[i])
    &&& forall|i: int, j: int|
        0 <= i < j < t.categories.len() && (#[trigger] t.categories[i])
            is TraderCategory ==> (#[trigger] t.categories[j]) is TraderCategory
}

pub open spec fn wf_token(t: TokenView) -> bool {
    match t {
        TokenView::Comment(m) => wf_msg(m),
        TokenView::CurrencyName(cn) => wf_currency_name(cn),
        TokenView::Trader(tr) => wf_trader(tr),
        TokenView::OpenFile(l) => wf_line(l),
        TokenView::FileEnd(l) => wf_line(l),
    }
}

/// A document: tokens well-formed, and no comment token directly after a
/// currency table or a trader — those blocks greedily take a following
/// comment when re-parsed.
pub open spec fn wf_token_seq(ts: Seq<TokenView>) -> bool {
    &&& forall|i: int| 0 <= i < ts.len() ==> wf_token(#[trigger] ts[i])
    &&& forall|i: int|
        0 < i < ts.len() && (#[trigger] ts[i]) is Comment ==> !(ts[i - 1] is CurrencyName) && !(
        ts[i - 1] is Trader)
}

// ------------------------------------------------------------------
// Positioned text: a rendered piece standing at a position of the input.
// ------------------------------------------------------------------

/// The characters of `t` stand in `s` beginning at `pos`.
pub open spec fn suffix_at(s: Seq<char>, pos: int, t: Seq<char>) -> bool {
    &&& 0 <= pos
    &&& pos + t.len() <= s.len()
    &&& s.subrange(pos, pos + t.len()) == t
}

pub proof fn lemma_suffix_index(s: Seq<char>, pos: int, t: Seq<char>)
    requires
        suffix_at(s, pos, t),
    ensures
        forall|k: int| 0 <= k < t.len() ==> s[pos + k] == #[trigger] t[k],
        forall|k: int| pos <= k < pos + t.len() ==> #[trigger] s[k] == t[k - pos],
{
    assert forall|k: int| 0 <= k < t.len() implies s[pos + k] == #[trigger] t[k] by {
        assert(t[k] == s.subrange(pos, pos + t.len())[k]);
    }
    assert forall|k: int| pos <= k < pos + t.len() implies #[trigger] s[k] == t[k - pos] by {
        assert(t[k - pos] == s.subrange(pos, pos + t.len())[k - pos]);
    }
}

// ------------------------------------------------------------------
// Helper characterizations of the scanning primitives.
// ------------------------------------------------------------------

pub proof fn lemma_skip_line_spaces_at(s: Seq<char>, pos: int, q: int)
    requires
        0 <= pos <= q <= s.len(),
        forall|i: int| pos <= i < q ==> is_line_space(#[trigger] s[i]),
        q < s.len() ==> !is_line_space(s[q]),
    ensures
        skip_line_spaces(s, pos) == q,
    decreases q - pos,
{
    if pos < q {
        lemma_skip_line_spaces_at(s, pos + 1, q);
    }
}

pub proof fn lemma_skip_block_spaces_at(s: Seq<char>, pos: int, q: int)
    requires
        0 <= pos <= q <= s.len(),
        forall|i: int| pos <= i < q ==> is_block_space(#[trigger] s[i]),
        q < s.len() ==> !is_block_space(s[q]),
    ensures
        skip_block_spaces(s, pos) == q,
    decreases q - pos,
{
    if pos < q {
        lemma_skip_block_spaces_at(s, pos + 1, q);
    }
}

pub proof fn lemma_line_end_at(s: Seq<char>, pos: int, q: int)
    requires
        0 <= pos <= q <= s.len(),
        forall|i: int| pos <= i < q ==> !is_line_break(#[trigger] s[i]),
        q == s.len() || is_line_break(s[q]),
    ensures
        line_end(s, pos) == q,
    decreases q - pos,
{
    if pos < q {
        lemma_line_end_at(s, pos + 1, q);
    }
}

pub proof fn lemma_line_text_end_at(s: Seq<char>, pos: int, q: int)
    requires
        0 <= pos <= q <= s.len(),
        forall|i: int| pos <= i < q ==> !is_line_break(#[trigger] s[i]) && !comment_starts_at(s, i),
        q == s.len() || is_line_break(s[q]) || comment_starts_at(s, q),
    ensures
        line_text_end(s, pos) == q,
    decreases q - pos,
{
    if pos < q {
        lemma_line_text_end_at(s, pos + 1, q);
    }
}

pub proof fn lemma_tag_end_at(s: Seq<char>, pos: int, q: int)
    requires
        0 <= pos <= q <= s.len(),
        forall|i: int|
            pos <= i < q ==> !(#[trigger] s[i] == '>' || s[i] == '/' || is_line_break(s[i])),
        q == s.len() || s[q] == '>' || s[q] == '/' || is_line_break(s[q]),
    ensures
        tag_end(s, pos) == q,
    decreases q - pos,
{
    if pos < q {
        lemma_tag_end_at(s, pos + 1, q);
    }
}

pub proof fn lemma_trim_end_idx_at(s: Seq<char>, q: int, i: int)
    requires
        0 <= q <= i <= s.len(),
        forall|k: int| q <= k < i ==> is_block_space(#[trigger] s[k]),
        q > 0 ==> !is_block_space(s[q - 1]),
    ensures
        trim_end_idx(s, i) == q,
    decreases i - q,
{
    if i > q {
        lemma_trim_end_idx_at(s, q, i - 1);
    }
}

pub proof fn lemma_spaces(n: int)
    requires
        n >= 0,
    ensures
        spaces(n).len() == n,
        forall|i: int| 0 <= i < n ==> spaces(n)[i] == ' ',
    decreases n,
{
    if n > 0 {
        lemma_spaces(n - 1);
    }
}

/// Padding always has the shape `chunk + spaces`, with no spaces when the
/// chunk already fills the column.
pub proof fn lemma_pad_column_as_concat(x: Seq<char>)
    ensures
        pad_column(x) == x + spaces(COLUMN_WIDTH - x.len()),
{
    if x.len() >= COLUMN_WIDTH {
        assert(x + spaces(COLUMN_WIDTH - x.len()) =~= x);
    }
}

/// Trimming strips exactly the surrounding spaces from a trimmed core.
pub proof fn lemma_trim_surrounded(t: Seq<char>, a: int, b: int)
    requires
        t.len() > 0,
        !is_block_space(t[0]),
        !is_block_space(t[t.len() - 1]),
        a >= 0,
        b >= 0,
    ensures
        trim(spaces(a) + t + spaces(b)) == t,
{
    let s = spaces(a) + t + spaces(b);
    lemma_spaces(a);
    lemma_spaces(b);
    assert(s.len() == a + t.len() + b);
    assert forall|i: int| 0 <= i < a implies is_block_space(#[trigger] s[i]) by {
        assert(s[i] == spaces(a)[i]);
    }
    assert(s[a] == t[0]);
    lemma_skip_block_spaces_at(s, 0, a);
    assert forall|k: int| a + t.len() <= k < s.len() implies is_block_space(#[trigger] s[k]) by {
        assert(s[k] == spaces(b)[k - a - t.len()]);
    }
    assert(s[a + t.len() - 1] == t[t.len() - 1]);
    lemma_trim_end_idx_at(s, a + t.len(), s.len() as int);
    assert(s.subrange(a, a + t.len()) =~= t);
}

/// Trimming an all-whitespace text yields the empty text.
pub proof fn lemma_trim_all_space(v: Seq<char>)
    requires
        forall|i: int| 0 <= i < v.len() ==> is_block_space(#[trigger] v[i]),
    ensures
        trim(v) == Seq::<char>::empty(),
{
    lemma_skip_block_spaces_at(v, 0, v.len() as int);
    if v.len() > 0 {
        assert(skip_block_spaces(v, 0) == v.len());
        crate::grammar::lemma_trim_end_idx(v, v.len() as int);
        let b = trim_end_idx(v, v.len() as int);
        if skip_block_spaces(v, 0) <= b {
            assert(v.subrange(v.len() as int, b) =~= Seq::<char>::empty());
        }
    } else {
        assert(v.subrange(0, 0) =~= Seq::<char>::empty());
    }
}

// ------------------------------------------------------------------
// Leniency: stray content is skipped, never an error.
// ------------------------------------------------------------------

/// Where no alternative matches, the parse of the document equals the parse
/// after skipping one character: stray content is dropped.
pub proof fn lemma_resync_skip(s: Seq<char>, pos: int)
    requires
        0 <= pos < s.len(),
        spec_parse_token(s, pos) is Miss,
    ensures
        ({
            match spec_parse_token(s, pos) {
                Step::Miss { pos: p } => p < s.len() ==> spec_parse_document(s, pos)
                    == spec_parse_document(s, p + 1),
                _ => true,
            }
        }),
{
    lemma_spec_parse_token(s, pos);
}

/// A document without a tag opener never fails: every construct error needs
/// a `<`. Comments still parse; everything else is skipped.
pub proof fn lemma_no_tag_no_error(s: Seq<char>, pos: int)
    requires
        0 <= pos <= s.len(),
        forall|i: int| 0 <= i < s.len() ==> #[trigger] s[i] != '<',
    ensures
        spec_parse_document(s, pos) is Ok,
    decreases s.len() - pos,
{
    if pos < s.len() {
        lemma_spec_parse_token(s, pos);
        lemma_spec_parse_comment(s, pos);
        let (c, p1) = spec_parse_comment(s, pos);
        lemma_skip_block_spaces(s, p1);
        match spec_parse_token(s, pos) {
            Step::Fail(_) => {
                assert(false);
            },
            Step::Miss { pos: p } => {
                if pos <= p < s.len() {
                    lemma_no_tag_no_error(s, p + 1);
                }
            },
            Step::Hit { val: _, pos: p2 } => {
                if pos < p2 <= s.len() {
                    lemma_no_tag_no_error(s, p2);
                }
            },
        }
    }
}

// ------------------------------------------------------------------
// The malformed-row law.
// ------------------------------------------------------------------

/// Inside a category, a recognized row whose field count is not four always
/// fails the parse with a malformed-row error carrying that row — it is
/// never coerced into an item.
pub proof fn lemma_malformed_category_row(s: Seq<char>, pos: int)
    requires
        0 <= pos <= s.len(),
    ensures
        ({
            let (c, p1) = spec_parse_comment(s, pos);
            c is None ==> match spec_parse_csv_line(s, p1).0 {
                Option::Some(row) => row.values.len() != 4
                    ==> spec_parse_trader_category_item_token(s, pos) == Step::<
                    CategoryItemTokenView,
                >::Fail(ParseErrorView::MalformedRow { row }),
                Option::None => true,
            }
        }),
{
}


// ------------------------------------------------------------------
// Round trip, construct by construct: parsing a rendering finds the
// rendered node again, exactly.
// ------------------------------------------------------------------

/// A tag name as the grammar writes them: non-empty, free of terminators.
pub open spec fn wf_tag_name(n: Seq<char>) -> bool {
    &&& n.len() > 0
    &&& forall|i: int|
        0 <= i < n.len() ==> !(#[trigger] n[i] == '>' || n[i] == '/' || is_line_break(n[i])
            || is_block_space(n[i]))
}

pub proof fn lemma_tag_names_wf()
    ensures
        wf_tag_name(seq_currency_name_tag()),
        wf_tag_name(seq_currency_tag()),
        wf_tag_name(seq_trader_tag()),
        wf_tag_name(seq_category_tag()),
        wf_tag_name(seq_open_file_tag()),
        wf_tag_name(seq_file_end_tag()),
{
}

/// Parsing at or before a rendered comment finds exactly its message and
/// stops just past the consumed line break.
pub proof fn lemma_rt_comment(s: Seq<char>, pos: int, c0: int, m: Seq<char>)
    requires
        wf_msg(m),
        0 <= pos <= c0,
        forall|i: int| pos <= i < c0 ==> is_block_space(#[trigger] s[i]),
        suffix_at(s, c0, spec_render_comment(m) + seq!['\n']),
    ensures
        spec_parse_comment(s, pos) == (Option::Some(m), c0 + m.len() + 4),
{
    let r = spec_render_comment(m) + seq!['\n'];
    lemma_suffix_index(s, c0, r);
    assert(r.len() == m.len() + 4);
    assert(s[c0] == '/');
    assert(s[c0 + 1] == '/');
    assert(s[c0 + 2] == ' ');
    lemma_skip_block_spaces_at(s, pos, c0);
    assert(comment_starts_at(s, c0));
    if m.len() > 0 {
        assert(s[c0 + 3] == m[0]);
    } else {
        assert(s[c0 + 3] == '\n');
    }
    lemma_skip_line_spaces_at(s, c0 + 2, c0 + 3);
    assert forall|i: int| c0 + 3 <= i < c0 + 3 + m.len() implies !is_line_break(
        #[trigger] s[i],
    ) by {
        assert(s[i] == r[i - c0]);
        assert(r[i - c0] == m[i - c0 - 3]);
    }
    assert(s[c0 + 3 + m.len()] == '\n');
    lemma_line_end_at(s, c0 + 3, c0 + 3 + m.len());
    assert(s.subrange(c0 + 3, c0 + 3 + m.len()) =~= m);
}

/// Parsing at or before a rendered tag matches it and stops just past the
/// closing bracket.
pub proof fn lemma_rt_tag_hit(
    s: Seq<char>,
    pos: int,
    t0: int,
    name: Seq<char>,
    kind: crate::ast::TagKind,
)
    requires
        wf_tag_name(name),
        0 <= pos <= t0,
        forall|i: int| pos <= i < t0 ==> is_block_space(#[trigger] s[i]),
        suffix_at(s, t0, seq!['<'] + name + seq!['>', ' ']),
    ensures
        spec_parse_tag(s, pos, name, kind) == (Step::<()>::Hit { val: (), pos: t0 + name.len() + 2 }),
{
    let r = seq!['<'] + name + seq!['>', ' '];
    lemma_suffix_index(s, t0, r);
    assert(s[t0] == '<');
    lemma_skip_block_spaces_at(s, pos, t0);
    assert forall|i: int| t0 + 1 <= i < t0 + 1 + name.len() implies !(#[trigger] s[i] == '>'
        || s[i] == '/' || is_line_break(s[i])) by {
        assert(s[i] == r[i - t0]);
        assert(r[i - t0] == name[i - t0 - 1]);
    }
    assert(s[t0 + 1 + name.len()] == '>');
    lemma_tag_end_at(s, t0 + 1, t0 + 1 + name.len());
    assert(s.subrange(t0 + 1, t0 + 1 + name.len()) =~= name);
}

/// Probing for one tag where a different tag stands misses and leaves the
/// cursor at the opening bracket.
pub proof fn lemma_rt_tag_miss(
    s: Seq<char>,
    pos: int,
    t0: int,
    other: Seq<char>,
    name: Seq<char>,
    kind: crate::ast::TagKind,
)
    requires
        wf_tag_name(other),
        other != name,
        0 <= pos <= t0,
        forall|i: int| pos <= i < t0 ==> is_block_space(#[trigger] s[i]),
        suffix_at(s, t0, seq!['<'] + other + seq!['>']),
    ensures
        spec_parse_tag(s, pos, name, kind) == (Step::<()>::Miss { pos: t0 }),
{
    let r = seq!['<'] + other + seq!['>'];
    lemma_suffix_index(s, t0, r);
    assert(s[t0] == '<');
    lemma_skip_block_spaces_at(s, pos, t0);
    assert forall|i: int| t0 + 1 <= i < t0 + 1 + other.len() implies !(#[trigger] s[i] == '>'
        || s[i] == '/' || is_line_break(s[i])) by {
        assert(s[i] == r[i - t0]);
        assert(r[i - t0] == other[i - t0 - 1]);
    }
    assert(s[t0 + 1 + other.len()] == '>');
    lemma_tag_end_at(s, t0 + 1, t0 + 1 + other.len());
    assert(s.subrange(t0 + 1, t0 + 1 + other.len()) =~= other);
}

/// Parsing at or before a rendered header line finds exactly its text and
/// comment and stops just past the consumed line break.
#[verifier::rlimit(100)]
#[verifier::spinoff_prover]
pub proof fn lemma_rt_line(s: Seq<char>, pos: int, l0: int, l: LineView)
    requires
        wf_line(l),
        0 <= pos <= l0,
        forall|i: int| pos <= i < l0 ==> is_line_space(#[trigger] s[i]),
        suffix_at(s, l0, spec_render_line(l)),
    ensures
        spec_parse_line(s, pos).0 == l,
        spec_parse_line(s, pos).1 == l0 + spec_render_line(l).len(),
{
    let r = spec_render_line(l);
    let t = l.text;
    let tl = t.len() as int;
    lemma_suffix_index(s, l0, r);
    assert(s[l0 + tl] == ' ') by {
        assert(r[tl] == (seq![' '] + spec_render_opt_comment(l.comment) + seq!['\n'])[0]);
    }
    if tl > 0 {
        assert(s[l0] == t[0]);
        lemma_skip_line_spaces_at(s, pos, l0);
    } else {
        match l.comment {
            Option::Some(m) => {
                assert(s[l0 + 1] == '/');
            },
            Option::None => {
                assert(s[l0 + 1] == '\n');
            },
        }
        lemma_skip_line_spaces_at(s, pos, l0 + 1);
    }
    let p0 = skip_line_spaces(s, pos);
    let e = if tl > 0 {
        l0 + tl + 1
    } else {
        l0 + 1
    };
    // every position of the text and the separating space is plain
    assert forall|i: int| p0 <= i < e implies !is_line_break(#[trigger] s[i])
        && !comment_starts_at(s, i) by {
        if i < l0 + tl {
            assert(s[i] == t[i - l0]);
            if comment_starts_at(s, i) {
                if i + 1 < l0 + tl {
                    assert(t[i - l0] == '/' && t[i - l0 + 1] == '/');
                } else {
                    assert(s[i + 1] == ' ');
                }
            }
        } else {
            assert(s[i] == ' ');
        }
    }
    match l.comment {
        Option::Some(m) => {
            assert(s[e] == '/') by {
                assert(r[e - l0] == (spec_render_comment(m) + seq!['\n'])[0]);
            }
            assert(s[e + 1] == '/') by {
                assert(r[e - l0 + 1] == (spec_render_comment(m) + seq!['\n'])[1]);
            }
            assert(comment_starts_at(s, e));
            lemma_line_text_end_at(s, p0, e);
            if tl > 0 {
                assert(s.subrange(p0, e) =~= t + seq![' ']);
                lemma_spaces(1);
                assert(spaces(0) + t + spaces(1) =~= t + seq![' ']);
                lemma_trim_surrounded(t, 0, 1);
            } else {
                assert(s.subrange(p0, e) =~= Seq::<char>::empty());
                lemma_trim_all_space(s.subrange(p0, e));
            }
            assert(suffix_at(s, e, spec_render_comment(m) + seq!['\n'])) by {
                assert(s.subrange(e, e + m.len() + 4) =~= spec_render_comment(m) + seq!['\n']);
            }
            lemma_rt_comment(s, e, e, m);
            assert(r.len() == t.len() + 1 + m.len() + 3 + 1);
            assert(spec_parse_line(s, pos).0 =~= l);
        },
        Option::None => {
            assert(s[e] == '\n') by {
                assert(r[e - l0] == (seq![' '] + Seq::<char>::empty() + seq!['\n'])[e - l0
                    - tl]);
            }
            lemma_line_text_end_at(s, p0, e);
            if tl > 0 {
                assert(s.subrange(p0, e) =~= t + seq![' ']);
                lemma_spaces(1);
                assert(spaces(0) + t + spaces(1) =~= t + seq![' ']);
                lemma_trim_surrounded(t, 0, 1);
            } else {
                assert(s.subrange(p0, e) =~= Seq::<char>::empty());
                lemma_trim_all_space(s.subrange(p0, e));
            }
            assert(spec_parse_line(s, pos).0 =~= l);
        },
    }
}

// ------------------------------------------------------------------
// Round trip of rows.
// ------------------------------------------------------------------

/// A character the row scanner simply accumulates.
pub open spec fn is_plain_csv(s: Seq<char>, i: int) -> bool {
    !(s[i] == '<' || is_line_break(s[i]) || s[i] == ',' || comment_starts_at(s, i))
}

/// The scanner runs over a span of plain characters, accumulating them.
pub proof fn lemma_csv_scan_plain(
    s: Seq<char>,
    pos: int,
    q: int,
    acc: Seq<Seq<char>>,
    val: Seq<char>,
)
    requires
        0 <= pos <= q <= s.len(),
        forall|i: int| pos <= i < q ==> #[trigger] is_plain_csv(s, i),
    ensures
        csv_scan(s, pos, acc, val) == csv_scan(s, q, acc, val + s.subrange(pos, q)),
    decreases q - pos,
{
    if pos < q {
        assert(is_plain_csv(s, pos));
        lemma_csv_scan_plain(s, pos + 1, q, acc, val.push(s[pos]));
        assert(val.push(s[pos]) + s.subrange(pos + 1, q) =~= val + s.subrange(pos, q));
    } else {
        assert(val + s.subrange(pos, pos) =~= val);
    }
}

/// One field with its separating comma (when it is not the last), padded to
/// the column width in a currency row, plain in a category row.
pub open spec fn csv_chunk(f: Seq<char>, comma: bool, padded: bool) -> Seq<char> {
    let c = if comma {
        f + seq![',']
    } else {
        f
    };
    if padded {
        pad_column(c)
    } else {
        c
    }
}

/// The rendered fields of a row, padded or plain.
pub open spec fn csv_fields_text(flds: Seq<Seq<char>>, padded: bool) -> Seq<char>
    decreases flds.len(),
{
    if flds.len() == 0 {
        Seq::empty()
    } else if flds.len() == 1 {
        csv_chunk(flds[0], false, padded)
    } else {
        csv_chunk(flds[0], true, padded) + csv_fields_text(flds.drop_first(), padded)
    }
}

/// The padded form is exactly the currency-row field rendering.
pub proof fn lemma_csv_fields_text_padded(flds: Seq<Seq<char>>)
    ensures
        csv_fields_text(flds, true) == spec_render_csv_fields(flds),
    decreases flds.len(),
{
    if flds.len() > 1 {
        lemma_csv_fields_text_padded(flds.drop_first());
    }
}

/// A trailing comment's rendering inside a row, or nothing.
pub open spec fn comment_tail(cmt: Option<Seq<char>>) -> Seq<char> {
    match cmt {
        Option::Some(m) => seq![' '] + spec_render_comment(m),
        Option::None => Seq::empty(),
    }
}

/// The spacing run a chunk contributes after its field and comma.
pub open spec fn chunk_pad(f: Seq<char>, comma: bool, padded: bool) -> int {
    if padded {
        if comma {
            COLUMN_WIDTH - f.len() - 1
        } else {
            COLUMN_WIDTH - f.len()
        }
    } else {
        0
    }
}

/// A chunk is its field, its comma and a run of spaces.
pub proof fn lemma_chunk_shape(f: Seq<char>, comma: bool, padded: bool)
    ensures
        comma ==> csv_chunk(f, comma, padded) =~= f + seq![','] + spaces(
            chunk_pad(f, comma, padded),
        ),
        !comma ==> csv_chunk(f, comma, padded) =~= f + spaces(chunk_pad(f, comma, padded)),
{
    if comma {
        lemma_pad_column_as_concat(f + seq![',']);
        if padded {
            assert(pad_column(f + seq![',']) =~= f + seq![','] + spaces(
                COLUMN_WIDTH - f.len() - 1,
            ));
        } else {
            assert(f + seq![','] + spaces(0) =~= f + seq![',']);
        }
    } else {
        lemma_pad_column_as_concat(f);
        if padded {
            assert(pad_column(f) =~= f + spaces(COLUMN_WIDTH - f.len()));
        } else {
            assert(f + spaces(0) =~= f);
        }
    }
}

/// The scanner, run at a rendered row (with any run of leading spaces),
/// yields exactly its fields appended to the accumulator, its comment, and
/// the position past the consumed line break.
#[verifier::rlimit(100)]
#[verifier::spinoff_prover]
pub proof fn lemma_rt_csv_scan(
    s: Seq<char>,
    pos: int,
    lead: int,
    flds: Seq<Seq<char>>,
    cmt: Option<Seq<char>>,
    acc: Seq<Seq<char>>,
    padded: bool,
)
    requires
        flds.len() > 0,
        forall|i: int| 0 <= i < flds.len() ==> wf_field(#[trigger] flds[i]),
        wf_opt_msg(cmt),
        lead >= 0,
        suffix_at(
            s,
            pos,
            spaces(lead) + csv_fields_text(flds, padded) + comment_tail(cmt) + seq!['\n'],
        ),
    ensures
        ({
            let total = spaces(lead) + csv_fields_text(flds, padded) + comment_tail(cmt)
                + seq!['\n'];
            csv_scan(s, pos, acc, Seq::empty()) == (
                Option::Some(CSVLineView { values: acc + flds, comment: cmt }),
                pos + total.len(),
            )
        }),
    decreases flds.len(),
{
    let total = spaces(lead) + csv_fields_text(flds, padded) + comment_tail(cmt) + seq!['\n'];
    let f0 = flds[0];
    assert(wf_field(f0));
    lemma_suffix_index(s, pos, total);
    lemma_spaces(lead);
    if flds.len() == 1 {
        let sp = chunk_pad(f0, false, padded);
        lemma_chunk_shape(f0, false, padded);
        let spn = if sp >= 0 { sp } else { 0 };
        lemma_spaces(spn);
        assert(spaces(sp) == spaces(spn));
        assert(csv_fields_text(flds, padded) =~= f0 + spaces(spn));
        let head = lead + f0.len() + spn;
        assert(total =~= spaces(lead) + f0 + spaces(spn) + comment_tail(cmt) + seq!['\n']);
        // every character before the terminator is plain
        assert forall|i: int| pos <= i < pos + head implies #[trigger] is_plain_csv(s, i) by {
            let k = i - pos;
            assert(s[i] == total[k]);
            if k < lead {
                assert(total[k] == spaces(lead)[k]);
            } else if k < lead + f0.len() {
                assert(total[k] == f0[k - lead]);
                if comment_starts_at(s, i) {
                    if k + 1 < lead + f0.len() {
                        assert(s[i + 1] == f0[k - lead + 1]);
                    } else {
                        assert(s[i + 1] == total[k + 1]);
                    }
                }
            } else {
                assert(total[k] == spaces(spn)[k - lead - f0.len()]);
            }
        }
        lemma_csv_scan_plain(s, pos, pos + head, acc, Seq::empty());
        let val = Seq::<char>::empty() + s.subrange(pos, pos + head);
        assert(val =~= spaces(lead) + f0 + spaces(spn));
        match cmt {
            Option::None => {
                assert(s[pos + head] == '\n') by {
                    assert(total[head] == '\n');
                }
                lemma_trim_surrounded(f0, lead, spn);
                assert(crate::grammar::push_field(acc, val) =~= acc.push(f0));
                assert(acc.push(f0) =~= acc + flds);
                assert(csv_scan(s, pos + head, acc, val).0 == Option::Some(
                    CSVLineView { values: acc + flds, comment: cmt },
                ));
                assert(csv_scan(s, pos + head, acc, val).1 == pos + head + 1);
                assert(total.len() == head + 1);
            },
            Option::Some(m) => {
                assert(s[pos + head] == ' ') by {
                    assert(total[head] == comment_tail(cmt)[0]);
                }
                assert(is_plain_csv(s, pos + head)) by {
                    assert(s[pos + head] == ' ');
                }
                assert forall|i: int| pos <= i < pos + head + 1 implies #[trigger] is_plain_csv(
                    s,
                    i,
                ) by {}
                lemma_csv_scan_plain(s, pos, pos + head + 1, acc, Seq::empty());
                let val2 = Seq::<char>::empty() + s.subrange(pos, pos + head + 1);
                assert(val2 =~= spaces(lead) + f0 + spaces(spn) + seq![' ']);
                assert(spaces(spn) + seq![' '] =~= spaces(spn + 1));
                assert(val2 =~= spaces(lead) + f0 + spaces(spn + 1));
                let c0 = pos + head + 1;
                assert(s[c0] == '/') by {
                    assert(total[head + 1] == comment_tail(cmt)[1]);
                }
                assert(suffix_at(s, c0, spec_render_comment(m) + seq!['\n'])) by {
                    assert(s.subrange(c0, c0 + m.len() + 4) =~= spec_render_comment(m) + seq![
                        '\n',
                    ]);
                }
                lemma_rt_comment(s, c0, c0, m);
                lemma_trim_surrounded(f0, lead, spn + 1);
                assert(crate::grammar::push_field(acc, val2) =~= acc.push(f0));
                assert(acc.push(f0) =~= acc + flds);
                assert(comment_starts_at(s, c0));
                assert(csv_scan(s, c0, acc, val2).0 == Option::Some(
                    CSVLineView { values: acc + flds, comment: cmt },
                ));
                assert(csv_scan(s, c0, acc, val2).1 == c0 + m.len() + 4);
                assert(total.len() == head + 1 + 3 + m.len() + 1);
            },
        }
    } else {
        let sp = chunk_pad(f0, true, padded);
        lemma_chunk_shape(f0, true, padded);
        let spn = if sp >= 0 { sp } else { 0 };
        lemma_spaces(spn);
        assert(spaces(sp) == spaces(spn));
        let rest = flds.drop_first();
        let rest_text = csv_fields_text(rest, padded);
        assert(csv_fields_text(flds, padded) =~= f0 + seq![','] + spaces(spn) + rest_text);
        assert(total =~= spaces(lead) + f0 + seq![','] + spaces(spn) + rest_text + comment_tail(
            cmt,
        ) + seq!['\n']);
        let head = lead + f0.len();
        // the run of leading spaces and the field are plain
        assert forall|i: int| pos <= i < pos + head implies #[trigger] is_plain_csv(s, i) by {
            let k = i - pos;
            assert(s[i] == total[k]);
            if k < lead {
                assert(total[k] == spaces(lead)[k]);
            } else {
                assert(total[k] == f0[k - lead]);
                if comment_starts_at(s, i) {
                    if k + 1 < lead + f0.len() {
                        assert(s[i + 1] == f0[k - lead + 1]);
                    } else {
                        assert(s[i + 1] == total[k + 1]);
                    }
                }
            }
        }
        lemma_csv_scan_plain(s, pos, pos + head, acc, Seq::empty());
        let val = Seq::<char>::empty() + s.subrange(pos, pos + head);
        assert(val =~= spaces(lead) + f0 + spaces(0));
        assert(s[pos + head] == ',') by {
            assert(total[head] == ',');
        }
        lemma_trim_surrounded(f0, lead, 0);
        assert(crate::grammar::push_field(acc, val) =~= acc.push(f0));
        let p2 = pos + head + 1;
        let total2 = spaces(spn) + rest_text + comment_tail(cmt) + seq!['\n'];
        assert(suffix_at(s, p2, total2)) by {
            assert(s.subrange(p2, p2 + total2.len()) =~= total2);
        }
        assert forall|i: int| 0 <= i < rest.len() implies wf_field(#[trigger] rest[i]) by {
            assert(rest[i] == flds[i + 1]);
        }
        lemma_rt_csv_scan(s, p2, spn, rest, cmt, acc.push(f0), padded);
        assert(acc.push(f0) + rest =~= acc + flds);
        assert(total.len() == head + 1 + total2.len());
    }
}


/// Parsing a rendered row (with any run of leading spaces) finds exactly its
/// fields and comment.
#[verifier::rlimit(100)]
#[verifier::spinoff_prover]
pub proof fn lemma_rt_csv_line(
    s: Seq<char>,
    pos: int,
    lead: int,
    c: CSVLineView,
    padded: bool,
)
    requires
        wf_csv(c),
        lead >= 0,
        suffix_at(
            s,
            pos,
            spaces(lead) + csv_fields_text(c.values, padded) + comment_tail(c.comment) + seq![
                '\n',
            ],
        ),
    ensures
        ({
            let total = spaces(lead) + csv_fields_text(c.values, padded) + comment_tail(
                c.comment,
            ) + seq!['\n'];
            spec_parse_csv_line(s, pos) == (Option::Some(c), pos + total.len())
        }),
{
    let total = spaces(lead) + csv_fields_text(c.values, padded) + comment_tail(c.comment)
        + seq!['\n'];
    lemma_suffix_index(s, pos, total);
    lemma_spaces(lead);
    if c.values.len() > 0 {
        let f0 = c.values[0];
        assert(wf_field(f0));
        let q = pos + lead;
        assert(s[q] == f0[0]) by {
            if c.values.len() == 1 {
                lemma_chunk_shape(f0, false, padded);
            } else {
                lemma_chunk_shape(f0, true, padded);
            }
            assert(total[lead] == csv_fields_text(c.values, padded)[0]);
        }
        lemma_skip_line_spaces_at(s, pos, q);
        let total0 = spaces(0) + csv_fields_text(c.values, padded) + comment_tail(c.comment)
            + seq!['\n'];
        assert(suffix_at(s, q, total0)) by {
            assert(s.subrange(q, q + total0.len()) =~= total0);
        }
        lemma_rt_csv_scan(s, q, 0, c.values, c.comment, Seq::empty(), padded);
        assert(Seq::<Seq<char>>::empty() + c.values =~= c.values);
        assert(CSVLineView { values: Seq::<Seq<char>>::empty() + c.values, comment: c.comment }
            =~= c);
        assert(total.len() == lead + total0.len());
    } else {
        let m = c.comment->0;
        assert(c.comment == Option::Some(m));
        assert(csv_fields_text(c.values, padded) =~= Seq::<char>::empty());
        assert(total =~= spaces(lead) + seq![' '] + spec_render_comment(m) + seq!['\n']);
        assert(spaces(lead) + seq![' '] =~= spaces(lead + 1));
        lemma_spaces(lead + 1);
        let q = pos + lead + 1;
        assert(s[q] == '/') by {
            assert(total[lead + 1] == spec_render_comment(m)[0]);
        }
        assert forall|i: int| pos <= i < q implies is_line_space(#[trigger] s[i]) by {
            assert(s[i] == total[i - pos]);
            assert(total[i - pos] == spaces(lead + 1)[i - pos]);
        }
        lemma_skip_line_spaces_at(s, pos, q);
        assert(suffix_at(s, q, spec_render_comment(m) + seq!['\n'])) by {
            assert(s.subrange(q, q + m.len() + 4) =~= spec_render_comment(m) + seq!['\n']);
        }
        lemma_rt_comment(s, q, q, m);
        assert(!comment_starts_at(s, pos + lead)) by {
            assert(s[pos + lead] == ' ');
        }
        lemma_trim_all_space(Seq::<char>::empty());
        assert(crate::grammar::push_field(Seq::<Seq<char>>::empty(), Seq::<char>::empty())
            =~= Seq::<Seq<char>>::empty());
        assert(csv_scan(s, q, Seq::empty(), Seq::empty()).0 == Option::Some(
            CSVLineView { values: Seq::<Seq<char>>::empty(), comment: c.comment },
        ));
        assert(CSVLineView { values: Seq::<Seq<char>>::empty(), comment: c.comment } =~= c);
        assert(total.len() == lead + 1 + 3 + m.len() + 1);
    }
}

// ------------------------------------------------------------------
// Block boundaries: what may follow a list for its loop to stop.
// ------------------------------------------------------------------

/// The tag names that may open what follows a finished block.
pub open spec fn is_boundary_name(n: Seq<char>, cat_ok: bool) -> bool {
    ||| n == seq_currency_name_tag()
    ||| n == seq_trader_tag()
    ||| n == seq_open_file_tag()
    ||| n == seq_file_end_tag()
    ||| (cat_ok && n == seq_category_tag())
}

/// After `pos` stand only spaces and tabs up to `q`, and at `q` the input
/// ends or a closed boundary tag opens.
pub open spec fn boundary_shape(s: Seq<char>, pos: int, q: int, cat_ok: bool) -> bool {
    &&& 0 <= pos <= q <= s.len()
    &&& forall|i: int| pos <= i < q ==> is_line_space(#[trigger] s[i])
    &&& (q < s.len() ==> {
        let e = tag_end(s, q + 1);
        &&& s[q] == '<'
        &&& e < s.len()
        &&& s[e] == '>'
        &&& is_boundary_name(s.subrange(q + 1, e), cat_ok)
    })
}

/// The six tag names are pairwise distinct.
pub proof fn lemma_tag_names_distinct()
    ensures
        seq_currency_name_tag() != seq_currency_tag(),
        seq_currency_name_tag() != seq_trader_tag(),
        seq_currency_name_tag() != seq_category_tag(),
        seq_currency_name_tag() != seq_open_file_tag(),
        seq_currency_name_tag() != seq_file_end_tag(),
        seq_currency_tag() != seq_trader_tag(),
        seq_currency_tag() != seq_category_tag(),
        seq_currency_tag() != seq_open_file_tag(),
        seq_currency_tag() != seq_file_end_tag(),
        seq_trader_tag() != seq_category_tag(),
        seq_trader_tag() != seq_open_file_tag(),
        seq_trader_tag() != seq_file_end_tag(),
        seq_category_tag() != seq_open_file_tag(),
        seq_category_tag() != seq_file_end_tag(),
        seq_open_file_tag() != seq_file_end_tag(),
{
    assert(seq_currency_name_tag().len() == 12);
    assert(seq_currency_tag().len() == 8);
    assert(seq_trader_tag().len() == 6);
    assert(seq_category_tag().len() == 8);
    assert(seq_open_file_tag().len() == 8);
    assert(seq_file_end_tag().len() == 7);
    assert(seq_currency_tag()[1] == 'u' && seq_category_tag()[1] == 'a');
    assert(seq_currency_tag()[0] == 'C' && seq_open_file_tag()[0] == 'O');
    assert(seq_category_tag()[0] == 'C');
}

/// At a boundary the comment probe misses, leaving the cursor at the tag or
/// the end of input.
pub proof fn lemma_boundary_comment_miss(s: Seq<char>, pos: int, q: int, cat_ok: bool)
    requires
        boundary_shape(s, pos, q, cat_ok),
    ensures
        spec_parse_comment(s, pos) == (Option::None::<Seq<char>>, q),
{
    lemma_skip_block_spaces_at(s, pos, q);
}

/// At a boundary the row probe misses, leaving the cursor at the tag or the
/// end of input.
pub proof fn lemma_boundary_csv_miss(s: Seq<char>, pos: int, q: int, cat_ok: bool)
    requires
        boundary_shape(s, pos, q, cat_ok),
    ensures
        spec_parse_csv_line(s, pos) == (Option::None::<CSVLineView>, q),
{
    lemma_skip_line_spaces_at(s, pos, q);
}

/// At a boundary a probe for a tag that does not stand there misses, leaving
/// the cursor at the boundary.
pub proof fn lemma_boundary_tag_miss(
    s: Seq<char>,
    pos: int,
    q: int,
    cat_ok: bool,
    name: Seq<char>,
    kind: crate::ast::TagKind,
)
    requires
        boundary_shape(s, pos, q, cat_ok),
        q < s.len() ==> s.subrange(q + 1, tag_end(s, q + 1)) != name,
    ensures
        spec_parse_tag(s, pos, name, kind) == (Step::<()>::Miss { pos: q }),
{
    lemma_skip_block_spaces_at(s, pos, q);
}


// ------------------------------------------------------------------
// Round trip of block entries.
// ------------------------------------------------------------------

/// A currency-table entry's rendering without its four-space indent.
pub open spec fn core_currency_token(t: CurrencyTokenView) -> Seq<char> {
    match t {
        CurrencyTokenView::Comment(m) => spec_render_comment(m) + seq!['\n'],
        CurrencyTokenView::Currency(c) => seq!['<'] + seq_currency_tag() + seq!['>', ' ']
            + spec_render_csv_line(c),
    }
}

/// A category entry's rendering without its eight-space indent.
pub open spec fn core_category_item_token(t: CategoryItemTokenView) -> Seq<char> {
    match t {
        CategoryItemTokenView::Comment(m) => spec_render_comment(m) + seq!['\n'],
        CategoryItemTokenView::CategoryItem(it) => it.class + seq![','] + it.amount + seq![',']
            + it.buy_value + seq![','] + it.sell_value + comment_tail(it.comment) + seq!['\n'],
    }
}

/// Each entry rendering is its indent plus its core.
pub proof fn lemma_entry_render_shape(t: CurrencyTokenView, u: CategoryItemTokenView)
    ensures
        spec_render_currency_token(t) == spaces(4) + core_currency_token(t),
        spec_render_category_item_token(u) == spaces(8) + core_category_item_token(u),
{
    lemma_spaces(4);
    lemma_spaces(8);
    match t {
        CurrencyTokenView::Comment(m) => {
            assert(spec_render_currency_token(t) =~= spaces(4) + core_currency_token(t));
        },
        CurrencyTokenView::Currency(c) => {
            assert(spec_render_currency_token(t) =~= spaces(4) + core_currency_token(t));
        },
    }
    match u {
        CategoryItemTokenView::Comment(m) => {
            assert(spec_render_category_item_token(u) =~= spaces(8)
                + core_category_item_token(u));
        },
        CategoryItemTokenView::CategoryItem(it) => {
            assert(spec_render_category_item_token(u) =~= spaces(8)
                + core_category_item_token(u));
        },
    }
}

/// Parsing at or before a rendered currency-table entry finds exactly that
/// entry.
#[verifier::rlimit(100)]
#[verifier::spinoff_prover]
pub proof fn lemma_rt_currency_token(s: Seq<char>, pos: int, c0: int, t: CurrencyTokenView)
    requires
        wf_currency_token(t),
        0 <= pos <= c0,
        forall|i: int| pos <= i < c0 ==> is_block_space(#[trigger] s[i]),
        suffix_at(s, c0, core_currency_token(t)),
    ensures
        spec_parse_currency_token(s, pos) == (Step::Hit {
            val: t,
            pos: c0 + core_currency_token(t).len(),
        }),
{
    let core = core_currency_token(t);
    lemma_suffix_index(s, c0, core);
    match t {
        CurrencyTokenView::Comment(m) => {
            lemma_rt_comment(s, pos, c0, m);
        },
        CurrencyTokenView::Currency(c) => {
            assert(s[c0] == '<') by {
                assert(core[0] == '<');
            }
            lemma_skip_block_spaces_at(s, pos, c0);
            assert(spec_parse_comment(s, pos) == (Option::None::<Seq<char>>, c0));
            lemma_tag_names_wf();
            assert(suffix_at(s, c0, seq!['<'] + seq_currency_tag() + seq!['>', ' '])) by {
                assert(s.subrange(c0, c0 + 11) =~= seq!['<'] + seq_currency_tag() + seq![
                    '>',
                    ' ',
                ]);
            }
            lemma_rt_tag_hit(s, c0, c0, seq_currency_tag(), crate::ast::TagKind::Currency);
            let h = c0 + 10;
            lemma_csv_fields_text_padded(c.values);
            let csv_total = spaces(1) + csv_fields_text(c.values, true) + comment_tail(c.comment)
                + seq!['\n'];
            assert(seq![' '] + spec_render_csv_line(c) =~= csv_total) by {
                lemma_spaces(1);
                assert(spec_render_csv_line(c) =~= csv_fields_text(c.values, true)
                    + comment_tail(c.comment) + seq!['\n']);
            }
            assert(suffix_at(s, h, csv_total)) by {
                assert(s.subrange(h, h + csv_total.len()) =~= csv_total);
            }
            lemma_rt_csv_line(s, h, 1, c, true);
            assert(core.len() == 11 + spec_render_csv_line(c).len());
        },
    }
}

/// Parsing at or before a rendered category entry finds exactly that entry.
#[verifier::rlimit(100)]
#[verifier::spinoff_prover]
pub proof fn lemma_rt_category_item_token(
    s: Seq<char>,
    pos: int,
    c0: int,
    t: CategoryItemTokenView,
)
    requires
        wf_category_item_token(t),
        0 <= pos <= c0,
        forall|i: int| pos <= i < c0 ==> is_block_space(#[trigger] s[i]),
        suffix_at(s, c0, core_category_item_token(t)),
    ensures
        spec_parse_trader_category_item_token(s, pos) == (Step::Hit {
            val: t,
            pos: c0 + core_category_item_token(t).len(),
        }),
{
    let core = core_category_item_token(t);
    lemma_suffix_index(s, c0, core);
    match t {
        CategoryItemTokenView::Comment(m) => {
            lemma_rt_comment(s, pos, c0, m);
        },
        CategoryItemTokenView::CategoryItem(it) => {
            let row = CSVLineView {
                values: seq![it.class, it.amount, it.buy_value, it.sell_value],
                comment: it.comment,
            };
            assert(wf_field(it.class));
            assert(s[c0] == it.class[0]) by {
                assert(core[0] == it.class[0]);
            }
            lemma_skip_block_spaces_at(s, pos, c0);
            assert(!comment_starts_at(s, c0)) by {
                if s[c0] == '/' {
                    if it.class.len() > 1 {
                        assert(s[c0 + 1] == it.class[1]) by {
                            assert(core[1] == it.class[1]);
                        }
                    } else {
                        assert(s[c0 + 1] == ',') by {
                            assert(core[1] == ',');
                        }
                    }
                }
            }
            assert(spec_parse_comment(s, pos) == (Option::None::<Seq<char>>, c0));
            // the core is the plain four-field row text
            let v3 = seq![it.amount, it.buy_value, it.sell_value];
            let v2 = seq![it.buy_value, it.sell_value];
            let v1 = seq![it.sell_value];
            assert(row.values.drop_first() =~= v3);
            assert(v3.drop_first() =~= v2);
            assert(v2.drop_first() =~= v1);
            lemma_chunk_shape(it.class, true, false);
            lemma_chunk_shape(it.amount, true, false);
            lemma_chunk_shape(it.buy_value, true, false);
            lemma_chunk_shape(it.sell_value, false, false);
            lemma_spaces(0);
            assert(csv_fields_text(v1, false) == csv_chunk(it.sell_value, false, false));
            assert(csv_fields_text(v2, false) == csv_chunk(it.buy_value, true, false)
                + csv_fields_text(v1, false));
            assert(csv_fields_text(v3, false) == csv_chunk(it.amount, true, false)
                + csv_fields_text(v2, false));
            assert(csv_fields_text(row.values, false) == csv_chunk(it.class, true, false)
                + csv_fields_text(v3, false));
            assert(csv_chunk(it.sell_value, false, false) =~= it.sell_value);
            assert(csv_chunk(it.buy_value, true, false) =~= it.buy_value + seq![',']);
            assert(csv_chunk(it.amount, true, false) =~= it.amount + seq![',']);
            assert(csv_chunk(it.class, true, false) =~= it.class + seq![',']);
            assert(csv_fields_text(row.values, false) =~= it.class + seq![','] + it.amount
                + seq![','] + it.buy_value + seq![','] + it.sell_value);
            let csv_total = spaces(0) + csv_fields_text(row.values, false) + comment_tail(
                row.comment,
            ) + seq!['\n'];
            assert(csv_total =~= core);
            assert(suffix_at(s, c0, csv_total)) by {
                assert(s.subrange(c0, c0 + csv_total.len()) =~= csv_total);
            }
            assert(wf_csv(row)) by {
                assert(row.values[0] == it.class);
                assert(row.values[1] == it.amount);
                assert(row.values[2] == it.buy_value);
                assert(row.values[3] == it.sell_value);
            }
            lemma_rt_csv_line(s, c0, 0, row, false);
            assert(spec_parse_csv_line(s, c0).0 == Option::Some(row));
            assert(row.values.len() == 4);
            let got = CategoryItemView {
                class: row.values[0],
                amount: row.values[1],
                buy_value: row.values[2],
                sell_value: row.values[3],
                comment: row.comment,
            };
            assert(got =~= it);
        },
    }
}


/// A weaker boundary still bounds a stricter list.
pub proof fn lemma_boundary_widen(s: Seq<char>, pos: int, q: int)
    requires
        boundary_shape(s, pos, q, false),
    ensures
        boundary_shape(s, pos, q, true),
{
}

/// At a boundary the whole currency-table entry probe misses at the
/// boundary position.
pub proof fn lemma_boundary_currency_token_miss(s: Seq<char>, pos: int, q: int)
    requires
        boundary_shape(s, pos, q, false),
    ensures
        spec_parse_currency_token(s, pos) == (Step::<CurrencyTokenView>::Miss { pos: q }),
{
    lemma_boundary_comment_miss(s, pos, q, false);
    assert(boundary_shape(s, q, q, false));
    lemma_tag_names_distinct();
    if q < s.len() {
        let n = s.subrange(q + 1, tag_end(s, q + 1));
        assert(n != seq_currency_tag());
    }
    lemma_boundary_tag_miss(s, q, q, false, seq_currency_tag(), crate::ast::TagKind::Currency);
}

/// At a boundary the whole category entry probe misses at the boundary
/// position.
pub proof fn lemma_boundary_category_item_miss(s: Seq<char>, pos: int, q: int)
    requires
        boundary_shape(s, pos, q, true),
    ensures
        spec_parse_trader_category_item_token(s, pos) == (Step::<CategoryItemTokenView>::Miss {
            pos: q,
        }),
{
    lemma_boundary_comment_miss(s, pos, q, true);
    lemma_boundary_csv_miss(s, q, q, true);
    assert(boundary_shape(s, q, q, true));
}

/// Parsing a rendered currency-table entry list, up to a boundary, yields
/// exactly those entries; the loop's final probe leaves the cursor at the
/// boundary.
#[verifier::rlimit(100)]
#[verifier::spinoff_prover]
pub proof fn lemma_rt_currency_list(
    s: Seq<char>,
    pos: int,
    c0: int,
    ts: Seq<CurrencyTokenView>,
    bq: int,
)
    requires
        forall|i: int| 0 <= i < ts.len() ==> wf_currency_token(#[trigger] ts[i]),
        0 <= pos <= c0 <= s.len(),
        forall|i: int| pos <= i < c0 ==> is_block_space(#[trigger] s[i]),
        ts.len() == 0 ==> boundary_shape(s, pos, bq, false),
        ts.len() > 0 ==> suffix_at(
            s,
            c0,
            core_currency_token(ts[0]) + spec_render_currency_tokens(ts.drop_first()),
        ),
        ts.len() > 0 ==> boundary_shape(
            s,
            c0 + core_currency_token(ts[0]).len() + spec_render_currency_tokens(
                ts.drop_first(),
            ).len(),
            bq,
            false,
        ),
    ensures
        spec_parse_currency_tokens(s, pos) == (Step::Hit { val: ts, pos: bq }),
    decreases ts.len(),
{
    if ts.len() == 0 {
        lemma_boundary_currency_token_miss(s, pos, bq);
        assert(spec_parse_currency_tokens(s, pos) == (Step::<Seq<CurrencyTokenView>>::Hit {
            val: Seq::empty(),
            pos: bq,
        }));
        assert(Seq::<CurrencyTokenView>::empty() =~= ts);
    } else {
        let t0 = ts[0];
        let core0 = core_currency_token(t0);
        let rest = ts.drop_first();
        let rest_text = spec_render_currency_tokens(rest);
        let text = core0 + rest_text;
        lemma_suffix_index(s, c0, text);
        assert(suffix_at(s, c0, core0)) by {
            assert(s.subrange(c0, c0 + core0.len()) =~= core0);
        }
        lemma_rt_currency_token(s, pos, c0, t0);
        let p1 = c0 + core0.len();
        assert(core0.len() > 0) by {
            match t0 {
                CurrencyTokenView::Comment(m) => {},
                CurrencyTokenView::Currency(c) => {},
            }
        }
        assert(p1 <= s.len());
        assert forall|i: int| 0 <= i < rest.len() implies wf_currency_token(
            #[trigger] rest[i],
        ) by {
            assert(rest[i] == ts[i + 1]);
        }
        if rest.len() == 0 {
            assert(rest_text =~= Seq::<char>::empty());
            lemma_rt_currency_list(s, p1, p1, rest, bq);
        } else {
            lemma_entry_render_shape(rest[0], arbitrary());
            assert(rest_text == spec_render_currency_token(rest[0])
                + spec_render_currency_tokens(rest.drop_first()));
            lemma_spaces(4);
            assert forall|i: int| p1 <= i < p1 + 4 implies is_block_space(#[trigger] s[i]) by {
                assert(s[i] == text[i - c0]);
                assert(text[i - c0] == spaces(4)[i - c0 - core0.len()]);
            }
            assert(suffix_at(
                s,
                p1 + 4,
                core_currency_token(rest[0]) + spec_render_currency_tokens(rest.drop_first()),
            )) by {
                let tail = core_currency_token(rest[0]) + spec_render_currency_tokens(
                    rest.drop_first(),
                );
                assert(s.subrange(p1 + 4, p1 + 4 + tail.len()) =~= tail);
            }
            lemma_rt_currency_list(s, p1, p1 + 4, rest, bq);
        }
        assert(spec_parse_currency_tokens(s, p1) == (Step::<Seq<CurrencyTokenView>>::Hit {
            val: rest,
            pos: bq,
        }));
        assert(seq![t0] + rest =~= ts);
    }
}

/// Parsing a rendered category entry list, up to a boundary, yields exactly
/// those entries.
#[verifier::rlimit(100)]
#[verifier::spinoff_prover]
pub proof fn lemma_rt_category_item_list(
    s: Seq<char>,
    pos: int,
    c0: int,
    ts: Seq<CategoryItemTokenView>,
    bq: int,
)
    requires
        forall|i: int| 0 <= i < ts.len() ==> wf_category_item_token(#[trigger] ts[i]),
        0 <= pos <= c0 <= s.len(),
        forall|i: int| pos <= i < c0 ==> is_block_space(#[trigger] s[i]),
        ts.len() == 0 ==> boundary_shape(s, pos, bq, true),
        ts.len() > 0 ==> suffix_at(
            s,
            c0,
            core_category_item_token(ts[0]) + spec_render_category_item_tokens(ts.drop_first()),
        ),
        ts.len() > 0 ==> boundary_shape(
            s,
            c0 + core_category_item_token(ts[0]).len() + spec_render_category_item_tokens(
                ts.drop_first(),
            ).len(),
            bq,
            true,
        ),
    ensures
        spec_parse_category_item_tokens(s, pos) == (Step::Hit { val: ts, pos: bq }),
    decreases ts.len(),
{
    if ts.len() == 0 {
        lemma_boundary_category_item_miss(s, pos, bq);
        assert(spec_parse_category_item_tokens(s, pos) == (Step::<
            Seq<CategoryItemTokenView>,
        >::Hit { val: Seq::empty(), pos: bq }));
        assert(Seq::<CategoryItemTokenView>::empty() =~= ts);
    } else {
        let t0 = ts[0];
        let core0 = core_category_item_token(t0);
        let rest = ts.drop_first();
        let rest_text = spec_render_category_item_tokens(rest);
        let text = core0 + rest_text;
        lemma_suffix_index(s, c0, text);
        assert(suffix_at(s, c0, core0)) by {
            assert(s.subrange(c0, c0 + core0.len()) =~= core0);
        }
        lemma_rt_category_item_token(s, pos, c0, t0);
        let p1 = c0 + core0.len();
        assert(core0.len() > 0) by {
            match t0 {
                CategoryItemTokenView::Comment(m) => {},
                CategoryItemTokenView::CategoryItem(it) => {},
            }
        }
        assert(p1 <= s.len());
        assert forall|i: int| 0 <= i < rest.len() implies wf_category_item_token(
            #[trigger] rest[i],
        ) by {
            assert(rest[i] == ts[i + 1]);
        }
        if rest.len() == 0 {
            assert(rest_text =~= Seq::<char>::empty());
            lemma_rt_category_item_list(s, p1, p1, rest, bq);
        } else {
            lemma_entry_render_shape(arbitrary(), rest[0]);
            assert(rest_text == spec_render_category_item_token(rest[0])
                + spec_render_category_item_tokens(rest.drop_first()));
            lemma_spaces(8);
            assert forall|i: int| p1 <= i < p1 + 8 implies is_block_space(#[trigger] s[i]) by {
                assert(s[i] == text[i - c0]);
                assert(text[i - c0] == spaces(8)[i - c0 - core0.len()]);
            }
            assert(suffix_at(
                s,
                p1 + 8,
                core_category_item_token(rest[0]) + spec_render_category_item_tokens(
                    rest.drop_first(),
                ),
            )) by {
                let tail = core_category_item_token(rest[0]) + spec_render_category_item_tokens(
                    rest.drop_first(),
                );
                assert(s.subrange(p1 + 8, p1 + 8 + tail.len()) =~= tail);
            }
            lemma_rt_category_item_list(s, p1, p1 + 8, rest, bq);
        }
        assert(spec_parse_category_item_tokens(s, p1) == (Step::<
            Seq<CategoryItemTokenView>,
        >::Hit { val: rest, pos: bq }));
        assert(seq![t0] + rest =~= ts);
    }
}


// ------------------------------------------------------------------
// Round trip of blocks.
// ------------------------------------------------------------------

/// A category block's rendering without its four-space indent.
pub open spec fn core_trader_category(tc: TraderCategoryView) -> Seq<char> {
    seq!['<'] + seq_category_tag() + seq!['>', ' '] + spec_render_line(tc.name)
        + spec_render_category_item_tokens(tc.items)
}

/// A trader entry's rendering without its four-space indent.
pub open spec fn core_trader_category_token(t: TraderCategoryTokenView) -> Seq<char> {
    match t {
        TraderCategoryTokenView::Comment(m) => spec_render_comment(m) + seq!['\n'],
        TraderCategoryTokenView::TraderCategory(tc) => core_trader_category(tc),
    }
}

/// Each trader entry rendering is its indent plus its core.
pub proof fn lemma_trader_entry_render_shape(t: TraderCategoryTokenView)
    ensures
        spec_render_trader_category_token(t) == spaces(4) + core_trader_category_token(t),
{
    lemma_spaces(4);
    match t {
        TraderCategoryTokenView::Comment(m) => {
            assert(spec_render_trader_category_token(t) =~= spaces(4)
                + core_trader_category_token(t));
        },
        TraderCategoryTokenView::TraderCategory(tc) => {
            assert(spec_render_trader_category_token(t) =~= spaces(4)
                + core_trader_category_token(t));
        },
    }
}

/// Parsing at or before a rendered category block, bounded by what may
/// follow it, finds exactly that category; its entry loop leaves the cursor
/// at the boundary.
#[verifier::rlimit(100)]
#[verifier::spinoff_prover]
pub proof fn lemma_rt_trader_category(
    s: Seq<char>,
    pos: int,
    c0: int,
    tc: TraderCategoryView,
    bq: int,
)
    requires
        wf_category(tc),
        0 <= pos <= c0,
        forall|i: int| pos <= i < c0 ==> is_block_space(#[trigger] s[i]),
        suffix_at(s, c0, core_trader_category(tc)),
        boundary_shape(s, c0 + core_trader_category(tc).len(), bq, true),
    ensures
        spec_parse_trader_category(s, pos) == (Step::Hit { val: tc, pos: bq }),
{
    let core = core_trader_category(tc);
    lemma_suffix_index(s, c0, core);
    lemma_tag_names_wf();
    assert(suffix_at(s, c0, seq!['<'] + seq_category_tag() + seq!['>', ' '])) by {
        assert(s.subrange(c0, c0 + 11) =~= seq!['<'] + seq_category_tag() + seq!['>', ' ']);
    }
    lemma_rt_tag_hit(s, pos, c0, seq_category_tag(), crate::ast::TagKind::Category);
    let h = c0 + 10;
    let rl = spec_render_line(tc.name);
    assert(s[h] == ' ') by {
        assert(core[10] == ' ');
    }
    assert(suffix_at(s, c0 + 11, rl)) by {
        assert(s.subrange(c0 + 11, c0 + 11 + rl.len()) =~= rl);
    }
    lemma_rt_line(s, h, c0 + 11, tc.name);
    let le = c0 + 11 + rl.len();
    let items_text = spec_render_category_item_tokens(tc.items);
    assert(core.len() == 11 + rl.len() + items_text.len());
    if tc.items.len() == 0 {
        assert(items_text =~= Seq::<char>::empty());
        lemma_rt_category_item_list(s, le, le, tc.items, bq);
    } else {
        lemma_entry_render_shape(arbitrary(), tc.items[0]);
        assert(items_text == spec_render_category_item_token(tc.items[0])
            + spec_render_category_item_tokens(tc.items.drop_first()));
        lemma_spaces(8);
        assert forall|i: int| le <= i < le + 8 implies is_block_space(#[trigger] s[i]) by {
            assert(s[i] == core[i - c0]);
            assert(core[i - c0] == items_text[i - c0 - 11 - rl.len()]);
            assert(items_text[i - c0 - 11 - rl.len()] == spaces(8)[i - le]);
        }
        assert(suffix_at(
            s,
            le + 8,
            core_category_item_token(tc.items[0]) + spec_render_category_item_tokens(
                tc.items.drop_first(),
            ),
        )) by {
            let tail = core_category_item_token(tc.items[0])
                + spec_render_category_item_tokens(tc.items.drop_first());
            assert(s.subrange(le + 8, le + 8 + tail.len()) =~= tail);
        }
        lemma_rt_category_item_list(s, le, le + 8, tc.items, bq);
    }
    assert(spec_parse_category_item_tokens(s, le) == (Step::<Seq<CategoryItemTokenView>>::Hit {
        val: tc.items,
        pos: bq,
    }));
    assert(TraderCategoryView { name: tc.name, items: tc.items } =~= tc);
}

/// Splits a trader entry list's rendering at its first entry's indent.
#[verifier::rlimit(100)]
#[verifier::spinoff_prover]
pub proof fn lemma_trader_rest_shift(s: Seq<char>, p: int, rest: Seq<TraderCategoryTokenView>)
    requires
        rest.len() > 0,
        suffix_at(s, p, spec_render_trader_category_tokens(rest)),
    ensures
        forall|i: int| p <= i < p + 4 ==> is_line_space(#[trigger] s[i]),
        forall|i: int| p <= i < p + 4 ==> is_block_space(#[trigger] s[i]),
        suffix_at(
            s,
            p + 4,
            core_trader_category_token(rest[0]) + spec_render_trader_category_tokens(
                rest.drop_first(),
            ),
        ),
        spec_render_trader_category_tokens(rest).len() == 4 + core_trader_category_token(
            rest[0],
        ).len() + spec_render_trader_category_tokens(rest.drop_first()).len(),
{
    let text = spec_render_trader_category_tokens(rest);
    lemma_suffix_index(s, p, text);
    lemma_trader_entry_render_shape(rest[0]);
    assert(text == spec_render_trader_category_token(rest[0])
        + spec_render_trader_category_tokens(rest.drop_first()));
    lemma_spaces(4);
    assert forall|i: int| p <= i < p + 4 implies is_line_space(#[trigger] s[i])
        && is_block_space(#[trigger] s[i]) by {
        assert(s[i] == text[i - p]);
        assert(text[i - p] == spaces(4)[i - p]);
    }
    let tail = core_trader_category_token(rest[0]) + spec_render_trader_category_tokens(
        rest.drop_first(),
    );
    assert(s.subrange(p + 4, p + 4 + tail.len()) =~= tail);
}

/// A following category entry is a boundary for the items of the one before
/// it.
#[verifier::rlimit(100)]
#[verifier::spinoff_prover]
pub proof fn lemma_next_category_boundary(
    s: Seq<char>,
    p: int,
    rest: Seq<TraderCategoryTokenView>,
)
    requires
        rest.len() > 0,
        rest[0] is TraderCategory,
        suffix_at(s, p, spec_render_trader_category_tokens(rest)),
    ensures
        boundary_shape(s, p, p + 4, true),
{
    let text = spec_render_trader_category_tokens(rest);
    lemma_suffix_index(s, p, text);
    lemma_trader_entry_render_shape(rest[0]);
    assert(text == spec_render_trader_category_token(rest[0])
        + spec_render_trader_category_tokens(rest.drop_first()));
    lemma_spaces(4);
    lemma_tag_names_wf();
    let core1 = core_trader_category_token(rest[0]);
    assert forall|i: int| p <= i < p + 4 implies is_line_space(#[trigger] s[i]) by {
        assert(s[i] == text[i - p]);
        assert(text[i - p] == spaces(4)[i - p]);
    }
    assert(s[p + 4] == '<') by {
        assert(text[4] == core1[0]);
    }
    assert forall|i: int| p + 5 <= i < p + 13 implies !(#[trigger] s[i] == '>' || s[i] == '/'
        || is_line_break(s[i])) by {
        assert(s[i] == text[i - p]);
        assert(text[i - p] == core1[i - p - 4]);
        assert(core1[i - p - 4] == seq_category_tag()[i - p - 5]);
    }
    assert(s[p + 13] == '>') by {
        assert(text[13] == core1[9]);
    }
    lemma_tag_end_at(s, p + 5, p + 13);
    assert(s.subrange(p + 5, p + 13) =~= seq_category_tag());
}

/// Parsing a rendered trader entry list, up to a boundary, yields exactly
/// those entries. Comments precede categories, as a well-formed trader
/// requires.
#[verifier::rlimit(100)]
#[verifier::spinoff_prover]
pub proof fn lemma_rt_trader_category_list(
    s: Seq<char>,
    pos: int,
    c0: int,
    ts: Seq<TraderCategoryTokenView>,
    bq: int,
)
    requires
        forall|i: int| 0 <= i < ts.len() ==> wf_trader_category_token(#[trigger] ts[i]),
        forall|i: int, j: int|
            0 <= i < j < ts.len() && (#[trigger] ts[i]) is TraderCategory ==> (#[trigger] ts[j])
                is TraderCategory,
        0 <= pos <= c0 <= s.len(),
        forall|i: int| pos <= i < c0 ==> is_block_space(#[trigger] s[i]),
        ts.len() == 0 ==> boundary_shape(s, pos, bq, false),
        ts.len() > 0 ==> suffix_at(
            s,
            c0,
            core_trader_category_token(ts[0]) + spec_render_trader_category_tokens(
                ts.drop_first(),
            ),
        ),
        ts.len() > 0 ==> boundary_shape(
            s,
            c0 + core_trader_category_token(ts[0]).len() + spec_render_trader_category_tokens(
                ts.drop_first(),
            ).len(),
            bq,
            false,
        ),
    ensures
        spec_parse_trader_category_tokens(s, pos) == (Step::Hit { val: ts, pos: bq }),
    decreases ts.len(),
{
    if ts.len() == 0 {
        lemma_tag_names_distinct();
        lemma_boundary_comment_miss(s, pos, bq, false);
        assert(boundary_shape(s, bq, bq, false));
        if bq < s.len() {
            let n = s.subrange(bq + 1, tag_end(s, bq + 1));
            assert(n != seq_category_tag());
        }
        lemma_boundary_tag_miss(s, bq, bq, false, seq_category_tag(),
            crate::ast::TagKind::Category);
        assert(spec_parse_trader_category_tokens(s, pos) == (Step::<
            Seq<TraderCategoryTokenView>,
        >::Hit { val: Seq::empty(), pos: bq }));
        assert(Seq::<TraderCategoryTokenView>::empty() =~= ts);
    } else {
        let t0 = ts[0];
        let core0 = core_trader_category_token(t0);
        let rest = ts.drop_first();
        let rest_text = spec_render_trader_category_tokens(rest);
        let text = core0 + rest_text;
        let cat_end = c0 + core0.len();
        assert forall|i: int| 0 <= i < rest.len() implies wf_trader_category_token(
            #[trigger] rest[i],
        ) by {
            assert(rest[i] == ts[i + 1]);
        }
        assert forall|i: int, j: int|
            0 <= i < j < rest.len() && (#[trigger] rest[i]) is TraderCategory implies (
        #[trigger] rest[j]) is TraderCategory by {
            assert(rest[i] == ts[i + 1]);
            assert(rest[j] == ts[j + 1]);
        }
        assert(suffix_at(s, cat_end, rest_text)) by {
            lemma_suffix_index(s, c0, text);
            assert(s.subrange(cat_end, cat_end + rest_text.len()) =~= rest_text);
        }
        match t0 {
            TraderCategoryTokenView::Comment(m) => {
                assert(suffix_at(s, c0, spec_render_comment(m) + seq!['\n'])) by {
                    lemma_suffix_index(s, c0, text);
                    assert(s.subrange(c0, c0 + m.len() + 4) =~= spec_render_comment(m) + seq![
                        '\n',
                    ]);
                }
                lemma_rt_comment(s, pos, c0, m);
                let p1 = cat_end;
                if rest.len() == 0 {
                    assert(rest_text =~= Seq::<char>::empty());
                    lemma_rt_trader_category_list(s, p1, p1, rest, bq);
                } else {
                    lemma_trader_rest_shift(s, p1, rest);
                    lemma_rt_trader_category_list(s, p1, p1 + 4, rest, bq);
                }
                assert(seq![t0] + rest =~= ts);
            },
            TraderCategoryTokenView::TraderCategory(tc) => {
                assert(s[c0] == '<') by {
                    lemma_suffix_index(s, c0, text);
                    assert(core0[0] == '<');
                }
                lemma_skip_block_spaces_at(s, pos, c0);
                assert(spec_parse_comment(s, pos) == (Option::None::<Seq<char>>, c0));
                assert(suffix_at(s, c0, core_trader_category(tc))) by {
                    lemma_suffix_index(s, c0, text);
                    assert(s.subrange(c0, c0 + core0.len()) =~= core0);
                }
                if rest.len() == 0 {
                    assert(rest_text =~= Seq::<char>::empty());
                    lemma_boundary_widen(s, cat_end, bq);
                    lemma_rt_trader_category(s, c0, c0, tc, bq);
                    assert(spec_parse_trader_category_token(s, pos) == (Step::<
                        TraderCategoryTokenView,
                    >::Hit { val: t0, pos: bq }));
                    assert(boundary_shape(s, bq, bq, false));
                    lemma_rt_trader_category_list(s, bq, bq, rest, bq);
                } else {
                    assert(rest[0] is TraderCategory) by {
                        assert(ts[0] is TraderCategory);
                        assert(ts[1] is TraderCategory);
                    }
                    lemma_next_category_boundary(s, cat_end, rest);
                    lemma_rt_trader_category(s, c0, c0, tc, cat_end + 4);
                    assert(spec_parse_trader_category_token(s, pos) == (Step::<
                        TraderCategoryTokenView,
                    >::Hit { val: t0, pos: cat_end + 4 }));
                    lemma_trader_rest_shift(s, cat_end, rest);
                    lemma_rt_trader_category_list(s, cat_end + 4, cat_end + 4, rest, bq);
                }
                assert(seq![t0] + rest =~= ts);
            },
        }
    }
}


/// Parsing a rendered trader block, bounded by what may follow it, finds
/// exactly that trader.
#[verifier::rlimit(100)]
#[verifier::spinoff_prover]
pub proof fn lemma_rt_trader(s: Seq<char>, pos: int, t: TraderView, bq: int)
    requires
        wf_trader(t),
        suffix_at(s, pos, spec_render_trader(t)),
        boundary_shape(s, pos + spec_render_trader(t).len(), bq, false),
    ensures
        spec_parse_trader(s, pos) == (Step::Hit { val: t, pos: bq }),
{
    let r = spec_render_trader(t);
    lemma_suffix_index(s, pos, r);
    lemma_tag_names_wf();
    assert(suffix_at(s, pos, seq!['<'] + seq_trader_tag() + seq!['>', ' '])) by {
        assert(s.subrange(pos, pos + 9) =~= seq!['<'] + seq_trader_tag() + seq!['>', ' ']);
    }
    lemma_rt_tag_hit(s, pos, pos, seq_trader_tag(), crate::ast::TagKind::Trader);
    let h = pos + 8;
    let rl = spec_render_line(t.name);
    assert(s[h] == ' ') by {
        assert(r[8] == ' ');
    }
    assert(suffix_at(s, pos + 9, rl)) by {
        assert(s.subrange(pos + 9, pos + 9 + rl.len()) =~= rl);
    }
    lemma_rt_line(s, h, pos + 9, t.name);
    let le = pos + 9 + rl.len();
    let cats_text = spec_render_trader_category_tokens(t.categories);
    assert(r.len() == 9 + rl.len() + cats_text.len());
    assert(suffix_at(s, le, cats_text)) by {
        assert(s.subrange(le, le + cats_text.len()) =~= cats_text);
    }
    if t.categories.len() == 0 {
        assert(cats_text =~= Seq::<char>::empty());
        lemma_rt_trader_category_list(s, le, le, t.categories, bq);
    } else {
        lemma_trader_rest_shift(s, le, t.categories);
        lemma_rt_trader_category_list(s, le, le + 4, t.categories, bq);
    }
    assert(TraderView { name: t.name, categories: t.categories } =~= t);
}

/// Parsing a rendered currency table, bounded by what may follow it, finds
/// exactly that table.
#[verifier::rlimit(100)]
#[verifier::spinoff_prover]
pub proof fn lemma_rt_currency_name(s: Seq<char>, pos: int, cn: CurrencyNameView, bq: int)
    requires
        wf_currency_name(cn),
        suffix_at(s, pos, spec_render_currency_name(cn)),
        boundary_shape(s, pos + spec_render_currency_name(cn).len(), bq, false),
    ensures
        spec_parse_currency_name(s, pos) == (Step::Hit { val: cn, pos: bq }),
{
    let r = spec_render_currency_name(cn);
    lemma_suffix_index(s, pos, r);
    lemma_tag_names_wf();
    assert(suffix_at(s, pos, seq!['<'] + seq_currency_name_tag() + seq!['>', ' '])) by {
        assert(s.subrange(pos, pos + 15) =~= seq!['<'] + seq_currency_name_tag() + seq![
            '>',
            ' ',
        ]);
    }
    lemma_rt_tag_hit(s, pos, pos, seq_currency_name_tag(), crate::ast::TagKind::CurrencyName);
    let h = pos + 14;
    let rl = spec_render_line(cn.name);
    assert(s[h] == ' ') by {
        assert(r[14] == ' ');
    }
    assert(suffix_at(s, pos + 15, rl)) by {
        assert(s.subrange(pos + 15, pos + 15 + rl.len()) =~= rl);
    }
    lemma_rt_line(s, h, pos + 15, cn.name);
    let le = pos + 15 + rl.len();
    let cur_text = spec_render_currency_tokens(cn.currencies);
    assert(r.len() == 15 + rl.len() + cur_text.len());
    assert(suffix_at(s, le, cur_text)) by {
        assert(s.subrange(le, le + cur_text.len()) =~= cur_text);
    }
    if cn.currencies.len() == 0 {
        assert(cur_text =~= Seq::<char>::empty());
        lemma_rt_currency_list(s, le, le, cn.currencies, bq);
    } else {
        lemma_entry_render_shape(cn.currencies[0], arbitrary());
        assert(cur_text == spec_render_currency_token(cn.currencies[0])
            + spec_render_currency_tokens(cn.currencies.drop_first()));
        lemma_spaces(4);
        lemma_suffix_index(s, le, cur_text);
        assert forall|i: int| le <= i < le + 4 implies is_block_space(#[trigger] s[i]) by {
            assert(s[i] == cur_text[i - le]);
            assert(cur_text[i - le] == spaces(4)[i - le]);
        }
        assert(suffix_at(
            s,
            le + 4,
            core_currency_token(cn.currencies[0]) + spec_render_currency_tokens(
                cn.currencies.drop_first(),
            ),
        )) by {
            let tail = core_currency_token(cn.currencies[0]) + spec_render_currency_tokens(
                cn.currencies.drop_first(),
            );
            assert(s.subrange(le + 4, le + 4 + tail.len()) =~= tail);
        }
        lemma_rt_currency_list(s, le, le + 4, cn.currencies, bq);
    }
    assert(CurrencyNameView { name: cn.name, currencies: cn.currencies } =~= cn);
}

/// Parsing a rendered open-file marker finds exactly its line and stops at
/// the rendering's end.
pub proof fn lemma_rt_open_file(s: Seq<char>, pos: int, l: LineView)
    requires
        wf_line(l),
        suffix_at(s, pos, spec_render_open_file(l)),
    ensures
        spec_parse_open_file(s, pos) == (Step::Hit {
            val: l,
            pos: pos + spec_render_open_file(l).len(),
        }),
{
    let r = spec_render_open_file(l);
    lemma_suffix_index(s, pos, r);
    lemma_tag_names_wf();
    assert(suffix_at(s, pos, seq!['<'] + seq_open_file_tag() + seq!['>', ' '])) by {
        assert(s.subrange(pos, pos + 11) =~= seq!['<'] + seq_open_file_tag() + seq!['>', ' ']);
    }
    lemma_rt_tag_hit(s, pos, pos, seq_open_file_tag(), crate::ast::TagKind::OpenFile);
    let rl = spec_render_line(l);
    assert(s[pos + 10] == ' ') by {
        assert(r[10] == ' ');
    }
    assert(suffix_at(s, pos + 11, rl)) by {
        assert(s.subrange(pos + 11, pos + 11 + rl.len()) =~= rl);
    }
    lemma_rt_line(s, pos + 10, pos + 11, l);
    assert(r.len() == 11 + rl.len());
}

/// Parsing a rendered file-end marker finds exactly its line and stops at
/// the rendering's end.
pub proof fn lemma_rt_file_end(s: Seq<char>, pos: int, l: LineView)
    requires
        wf_line(l),
        suffix_at(s, pos, spec_render_file_end(l)),
    ensures
        spec_parse_file_end(s, pos) == (Step::Hit {
            val: l,
            pos: pos + spec_render_file_end(l).len(),
        }),
{
    let r = spec_render_file_end(l);
    lemma_suffix_index(s, pos, r);
    lemma_tag_names_wf();
    assert(suffix_at(s, pos, seq!['<'] + seq_file_end_tag() + seq!['>', ' '])) by {
        assert(s.subrange(pos, pos + 10) =~= seq!['<'] + seq_file_end_tag() + seq!['>', ' ']);
    }
    lemma_rt_tag_hit(s, pos, pos, seq_file_end_tag(), crate::ast::TagKind::FileEnd);
    let rl = spec_render_line(l);
    assert(s[pos + 9] == ' ') by {
        assert(r[9] == ' ');
    }
    assert(suffix_at(s, pos + 10, rl)) by {
        assert(s.subrange(pos + 10, pos + 10 + rl.len()) =~= rl);
    }
    lemma_rt_line(s, pos + 9, pos + 10, l);
    assert(r.len() == 10 + rl.len());
}


// ------------------------------------------------------------------
// Round trip of the whole document.
// ------------------------------------------------------------------

/// A rendered top-level token other than a comment opens with one of the
/// four top-level tags, so it is a boundary for any block before it.
#[verifier::rlimit(100)]
#[verifier::spinoff_prover]
pub proof fn lemma_top_render_boundary(s: Seq<char>, p: int, t: TokenView)
    requires
        suffix_at(s, p, spec_render_token(t)),
        !(t is Comment),
    ensures
        boundary_shape(s, p, p, false),
{
    let r = spec_render_token(t);
    lemma_suffix_index(s, p, r);
    lemma_tag_names_wf();
    let name: Seq<char> = match t {
        TokenView::CurrencyName(_) => seq_currency_name_tag(),
        TokenView::Trader(_) => seq_trader_tag(),
        TokenView::OpenFile(_) => seq_open_file_tag(),
        TokenView::FileEnd(_) => seq_file_end_tag(),
        TokenView::Comment(_) => Seq::empty(),
    };
    assert(s[p] == '<') by {
        assert(r[0] == '<');
    }
    assert forall|i: int| p + 1 <= i < p + 1 + name.len() implies !(#[trigger] s[i] == '>'
        || s[i] == '/' || is_line_break(s[i])) by {
        assert(s[i] == r[i - p]);
        assert(r[i - p] == name[i - p - 1]);
    }
    assert(s[p + 1 + name.len() as int] == '>') by {
        assert(r[1 + name.len() as int] == '>');
    }
    lemma_tag_end_at(s, p + 1, p + 1 + name.len());
    assert(s.subrange(p + 1, p + 1 + name.len()) =~= name);
}

/// Parsing at a rendered top-level token finds exactly that token. A block
/// token needs a boundary after it; the others end exactly at their
/// rendering's end.
#[verifier::rlimit(100)]
#[verifier::spinoff_prover]
pub proof fn lemma_rt_token(s: Seq<char>, pos: int, t: TokenView, bq: int)
    requires
        wf_token(t),
        suffix_at(s, pos, spec_render_token(t)),
        (t is CurrencyName || t is Trader) ==> boundary_shape(
            s,
            pos + spec_render_token(t).len(),
            bq,
            false,
        ),
        !(t is CurrencyName || t is Trader) ==> bq == pos + spec_render_token(t).len(),
    ensures
        spec_parse_token(s, pos) == (Step::Hit { val: t, pos: bq }),
{
    let r = spec_render_token(t);
    lemma_suffix_index(s, pos, r);
    lemma_tag_names_wf();
    lemma_tag_names_distinct();
    match t {
        TokenView::Comment(m) => {
            assert(suffix_at(s, pos, spec_render_comment(m) + seq!['\n'])) by {
                assert(s.subrange(pos, pos + m.len() + 4) =~= spec_render_comment(m) + seq![
                    '\n',
                ]);
            }
            lemma_rt_comment(s, pos, pos, m);
        },
        TokenView::CurrencyName(cn) => {
            assert(s[pos] == '<') by {
                assert(r[0] == '<');
            }
            lemma_skip_block_spaces_at(s, pos, pos);
            assert(spec_parse_comment(s, pos) == (Option::None::<Seq<char>>, pos));
            lemma_rt_currency_name(s, pos, cn, bq);
        },
        TokenView::Trader(tr) => {
            assert(s[pos] == '<') by {
                assert(r[0] == '<');
            }
            lemma_skip_block_spaces_at(s, pos, pos);
            assert(spec_parse_comment(s, pos) == (Option::None::<Seq<char>>, pos));
            assert(suffix_at(s, pos, seq!['<'] + seq_trader_tag() + seq!['>'])) by {
                assert(s.subrange(pos, pos + 8) =~= seq!['<'] + seq_trader_tag() + seq!['>']);
            }
            lemma_rt_tag_miss(s, pos, pos, seq_trader_tag(), seq_currency_name_tag(),
                crate::ast::TagKind::CurrencyName);
            lemma_rt_trader(s, pos, tr, bq);
        },
        TokenView::OpenFile(l) => {
            assert(s[pos] == '<') by {
                assert(r[0] == '<');
            }
            lemma_skip_block_spaces_at(s, pos, pos);
            assert(spec_parse_comment(s, pos) == (Option::None::<Seq<char>>, pos));
            assert(suffix_at(s, pos, seq!['<'] + seq_open_file_tag() + seq!['>'])) by {
                assert(s.subrange(pos, pos + 10) =~= seq!['<'] + seq_open_file_tag() + seq![
                    '>',
                ]);
            }
            lemma_rt_tag_miss(s, pos, pos, seq_open_file_tag(), seq_currency_name_tag(),
                crate::ast::TagKind::CurrencyName);
            lemma_rt_tag_miss(s, pos, pos, seq_open_file_tag(), seq_trader_tag(),
                crate::ast::TagKind::Trader);
            lemma_rt_open_file(s, pos, l);
        },
        TokenView::FileEnd(l) => {
            assert(s[pos] == '<') by {
                assert(r[0] == '<');
            }
            lemma_skip_block_spaces_at(s, pos, pos);
            assert(spec_parse_comment(s, pos) == (Option::None::<Seq<char>>, pos));
            assert(suffix_at(s, pos, seq!['<'] + seq_file_end_tag() + seq!['>'])) by {
                assert(s.subrange(pos, pos + 9) =~= seq!['<'] + seq_file_end_tag() + seq!['>']);
            }
            lemma_rt_tag_miss(s, pos, pos, seq_file_end_tag(), seq_currency_name_tag(),
                crate::ast::TagKind::CurrencyName);
            lemma_rt_tag_miss(s, pos, pos, seq_file_end_tag(), seq_trader_tag(),
                crate::ast::TagKind::Trader);
            lemma_rt_tag_miss(s, pos, pos, seq_file_end_tag(), seq_open_file_tag(),
                crate::ast::TagKind::OpenFile);
            lemma_rt_file_end(s, pos, l);
        },
    }
}

/// A rendered token is never empty: each rendering ends with a line break.
pub proof fn lemma_render_token_len(t: TokenView)
    ensures
        spec_render_token(t).len() > 0,
{
    match t {
        TokenView::Comment(m) => {},
        TokenView::CurrencyName(cn) => {},
        TokenView::Trader(tr) => {},
        TokenView::OpenFile(l) => {},
        TokenView::FileEnd(l) => {},
    }
}

/// Parsing a rendered well-formed document from `pos` to the end of input
/// yields exactly its tokens.
#[verifier::rlimit(100)]
#[verifier::spinoff_prover]
pub proof fn lemma_rt_document(s: Seq<char>, pos: int, ts: Seq<TokenView>)
    requires
        wf_token_seq(ts),
        suffix_at(s, pos, spec_render_tokens(ts)),
        pos + spec_render_tokens(ts).len() == s.len(),
    ensures
        spec_parse_document(s, pos) == Result::<Seq<TokenView>, ParseErrorView>::Ok(ts),
    decreases ts.len(),
{
    if ts.len() == 0 {
        assert(spec_render_tokens(ts).len() == 0);
        assert(Seq::<TokenView>::empty() =~= ts);
    } else {
        let t0 = ts[0];
        let rest = ts.drop_first();
        let text = spec_render_tokens(ts);
        assert(text == spec_render_token(t0) + spec_render_tokens(rest));
        lemma_suffix_index(s, pos, text);
        let len0 = spec_render_token(t0).len() as int;
        lemma_render_token_len(t0);
        assert(suffix_at(s, pos, spec_render_token(t0))) by {
            assert(s.subrange(pos, pos + len0) =~= spec_render_token(t0));
        }
        assert(suffix_at(s, pos + len0, spec_render_tokens(rest))) by {
            assert(s.subrange(pos + len0, pos + len0 + spec_render_tokens(rest).len())
                =~= spec_render_tokens(rest));
        }
        let bq = pos + len0;
        assert(wf_token(t0));
        if t0 is CurrencyName || t0 is Trader {
            if rest.len() == 0 {
                assert(spec_render_tokens(rest).len() == 0);
                assert(bq == s.len());
                assert(boundary_shape(s, bq, bq, false));
            } else {
                assert(!(rest[0] is Comment)) by {
                    assert(rest[0] == ts[1]);
                }
                assert(suffix_at(s, bq, spec_render_token(rest[0]))) by {
                    assert(spec_render_tokens(rest) == spec_render_token(rest[0])
                        + spec_render_tokens(rest.drop_first()));
                    assert(s.subrange(bq, bq + spec_render_token(rest[0]).len())
                        =~= spec_render_token(rest[0]));
                }
                lemma_top_render_boundary(s, bq, rest[0]);
            }
        }
        lemma_rt_token(s, pos, t0, bq);
        assert forall|i: int| 0 <= i < rest.len() implies wf_token(#[trigger] rest[i]) by {
            assert(rest[i] == ts[i + 1]);
        }
        assert forall|i: int|
            0 < i < rest.len() && (#[trigger] rest[i]) is Comment implies !(rest[i - 1]
            is CurrencyName) && !(rest[i - 1] is Trader) by {
            assert(rest[i] == ts[i + 1]);
            assert(rest[i - 1] == ts[i]);
        }
        lemma_rt_document(s, bq, rest);
        assert(seq![t0] + rest =~= ts);
    }
}

// ------------------------------------------------------------------
// The laws themselves.
// ------------------------------------------------------------------

/// Rendering any well-formed token tree and parsing the output yields that
/// tree back, exactly.
pub proof fn theorem_render_parse_round_trip(ts: Seq<TokenView>)
    requires
        wf_token_seq(ts),
    ensures
        spec_process_file(spec_render_tokens(ts)) == Result::<
            Seq<TokenView>,
            ParseErrorView,
        >::Ok(ts),
{
    let s = spec_render_tokens(ts);
    assert(suffix_at(s, 0, s)) by {
        assert(s.subrange(0, s.len() as int) =~= s);
    }
    lemma_rt_document(s, 0, ts);
}

/// Parse-then-format is idempotent on the canonical form: when an input
/// parses to a well-formed tree, the formatted output parses back to the
/// same tree, so formatting it again reproduces it byte for byte.
pub proof fn theorem_format_idempotent(s: Seq<char>, ts: Seq<TokenView>)
    requires
        spec_process_file(s) == Result::<Seq<TokenView>, ParseErrorView>::Ok(ts),
        wf_token_seq(ts),
    ensures
        spec_process_file(spec_render_tokens(ts)) == Result::<
            Seq<TokenView>,
            ParseErrorView,
        >::Ok(ts),
        ({
            match spec_process_file(spec_render_tokens(ts)) {
                Result::Ok(ts2) => spec_render_tokens(ts2) == spec_render_tokens(ts),
                Result::Err(_) => false,
            }
        }),
{
    theorem_render_parse_round_trip(ts);
}

} // verus!
