//! The executable recursive-descent parser.
//!
//! Every function here is proved to return exactly what the matching
//! `spec_parse_*` function of `grammar` says, including the position at
//! which it leaves the cursor. The cursor is an index into the input
//! character vector; probing an alternative that does not match moves it at
//! most past leading whitespace.

use vstd::prelude::*;
use crate::ast::{
    CSVLineView, CategoryItemTokenView, CurrencyTokenView, ParseErrorView, TokenView, TraderCategoryTokenView,
    CSVLine, CategoryItem, CategoryItemToken, Comment, CurrencyName, CurrencyToken, FileEnd, Line,
    OpenFile, ParseError, TagKind, Token, Trader, TraderCategory, TraderCategoryToken,
    opt_comment_view, opt_csv_view,
};
use crate::grammar::{
    Step, csv_scan, line_end,
    line_text_end, lemma_csv_scan, lemma_spec_parse_comment, lemma_spec_parse_csv_line,
    lemma_spec_parse_currency, lemma_spec_parse_currency_name, lemma_spec_parse_currency_token,
    lemma_spec_parse_currency_tokens, lemma_spec_parse_category_item_tokens,
    lemma_spec_parse_file_end, lemma_spec_parse_line, lemma_spec_parse_open_file,
    lemma_spec_parse_tag, lemma_spec_parse_token, lemma_spec_parse_trader,
    lemma_spec_parse_trader_category, lemma_spec_parse_trader_category_item_token,
    lemma_spec_parse_trader_category_token, lemma_spec_parse_trader_category_tokens,
    lemma_skip_block_spaces, lemma_skip_line_spaces, seq_category_tag, seq_currency_name_tag,
    seq_currency_tag, seq_file_end_tag, seq_open_file_tag, seq_trader_tag, skip_block_spaces,
    skip_line_spaces, spec_parse_comment, spec_parse_csv_line, spec_parse_currency,
    spec_parse_currency_name, spec_parse_currency_token, spec_parse_currency_tokens,
    spec_parse_category_item_tokens, spec_parse_file_end, spec_parse_line, spec_parse_open_file,
    spec_parse_tag, spec_parse_token, spec_parse_trader, spec_parse_trader_category,
    spec_parse_trader_category_item_token, spec_parse_trader_category_token,
    spec_parse_trader_category_tokens, spec_parse_document, spec_process_file, step_matches,
    tag_end, trim, trim_end_idx,
};

verus! {

/// Moves the cursor past spaces, tabs and line breaks.
#[verifier::loop_isolation(false)]
pub fn consume_spaces(s: &Vec<char>, pos: usize) -> (r: usize)
    requires
        pos <= s.len(),
    ensures
        r as int == skip_block_spaces(s@, pos as int),
        pos <= r <= s.len(),
{
    proof {
        lemma_skip_block_spaces(s@, pos as int);
    }
    let mut i: usize = pos;
    while i < s.len() && (s[i] == ' ' || s[i] == '\t' || s[i] == '\n' || s[i] == '\r')
        invariant
            pos <= i <= s.len(),
            skip_block_spaces(s@, pos as int) == skip_block_spaces(s@, i as int),
        decreases s.len() - i,
    {
        i = i + 1;
    }
    i
}

/// Moves the cursor past spaces and tabs only; line breaks stop it.
#[verifier::loop_isolation(false)]
pub fn consume_only_spaces(s: &Vec<char>, pos: usize) -> (r: usize)
    requires
        pos <= s.len(),
    ensures
        r as int == skip_line_spaces(s@, pos as int),
        pos <= r <= s.len(),
{
    proof {
        lemma_skip_line_spaces(s@, pos as int);
    }
    let mut i: usize = pos;
    while i < s.len() && (s[i] == ' ' || s[i] == '\t')
        invariant
            pos <= i <= s.len(),
            skip_line_spaces(s@, pos as int) == skip_line_spaces(s@, i as int),
        decreases s.len() - i,
    {
        i = i + 1;
    }
    i
}

/// Finds the first line break at or after `pos`.
#[verifier::loop_isolation(false)]
fn find_line_end(s: &Vec<char>, pos: usize) -> (r: usize)
    requires
        pos <= s.len(),
    ensures
        r as int == line_end(s@, pos as int),
        pos <= r <= s.len(),
{
    proof {
        crate::grammar::lemma_line_end(s@, pos as int);
    }
    let mut i: usize = pos;
    while i < s.len() && !(s[i] == '\n' || s[i] == '\r')
        invariant
            pos <= i <= s.len(),
            line_end(s@, pos as int) == line_end(s@, i as int),
        decreases s.len() - i,
    {
        i = i + 1;
    }
    i
}

/// Finds where a header line's free text ends: a line break or the start of
/// a trailing comment.
#[verifier::loop_isolation(false)]
fn find_line_text_end(s: &Vec<char>, pos: usize) -> (r: usize)
    requires
        pos <= s.len(),
    ensures
        r as int == line_text_end(s@, pos as int),
        pos <= r <= s.len(),
{
    proof {
        crate::grammar::lemma_line_text_end(s@, pos as int);
    }
    let mut i: usize = pos;
    while i < s.len() && !(s[i] == '\n' || s[i] == '\r' || (s[i] == '/' && i + 1 < s.len()
        && s[i + 1] == '/'))
        invariant
            pos <= i <= s.len(),
            line_text_end(s@, pos as int) == line_text_end(s@, i as int),
        decreases s.len() - i,
    {
        i = i + 1;
    }
    i
}

/// Finds the first tag terminator (`>` or `/`) or line break at or after
/// `pos`.
#[verifier::loop_isolation(false)]
fn find_tag_end(s: &Vec<char>, pos: usize) -> (r: usize)
    requires
        pos <= s.len(),
    ensures
        r as int == tag_end(s@, pos as int),
        pos <= r <= s.len(),
{
    proof {
        crate::grammar::lemma_tag_end(s@, pos as int);
    }
    let mut i: usize = pos;
    while i < s.len() && !(s[i] == '>' || s[i] == '/' || s[i] == '\n' || s[i] == '\r')
        invariant
            pos <= i <= s.len(),
            tag_end(s@, pos as int) == tag_end(s@, i as int),
        decreases s.len() - i,
    {
        i = i + 1;
    }
    i
}

/// Copies the characters of `s` between `from` and `to`.
#[verifier::loop_isolation(false)]
fn copy_range(s: &Vec<char>, from: usize, to: usize) -> (r: Vec<char>)
    requires
        from <= to <= s.len(),
    ensures
        r@ == s@.subrange(from as int, to as int),
{
    let mut out: Vec<char> = Vec::new();
    let mut i: usize = from;
    while i < to
        invariant
            from <= i <= to,
            out@ == s@.subrange(from as int, i as int),
        decreases to - i,
    {
        out.push(s[i]);
        i = i + 1;
        proof {
            assert(out@ =~= s@.subrange(from as int, i as int));
        }
    }
    out
}

/// Copies `v` without its leading and trailing whitespace.
#[verifier::loop_isolation(false)]
fn trim_chars(v: &Vec<char>) -> (r: Vec<char>)
    ensures
        r@ == trim(v@),
{
    proof {
        lemma_skip_block_spaces(v@, 0);
        crate::grammar::lemma_trim_end_idx(v@, v@.len() as int);
    }
    let mut a: usize = 0;
    while a < v.len() && (v[a] == ' ' || v[a] == '\t' || v[a] == '\n' || v[a] == '\r')
        invariant
            0 <= a <= v.len(),
            skip_block_spaces(v@, 0) == skip_block_spaces(v@, a as int),
        decreases v.len() - a,
    {
        a = a + 1;
    }
    let mut b: usize = v.len();
    while b > 0 && (v[b - 1] == ' ' || v[b - 1] == '\t' || v[b - 1] == '\n' || v[b - 1] == '\r')
        invariant
            0 <= b <= v.len(),
            trim_end_idx(v@, v@.len() as int) == trim_end_idx(v@, b as int),
        decreases b,
    {
        b = b - 1;
    }
    if a < b {
        copy_range(v, a, b)
    } else {
        proof {
            if a as int <= b as int {
                assert(v@.subrange(a as int, b as int) =~= Seq::<char>::empty());
            }
        }
        Vec::new()
    }
}

/// Compares the characters of `s` between `from` and `to` with `t`.
#[verifier::loop_isolation(false)]
fn range_eq_str(s: &Vec<char>, from: usize, to: usize, t: &str) -> (r: bool)
    requires
        from <= to <= s.len(),
    ensures
        r == (s@.subrange(from as int, to as int) == t@),
{
    let tl = t.unicode_len();
    if tl != to - from {
        proof {
            assert(s@.subrange(from as int, to as int).len() == to - from);
        }
        return false;
    }
    let mut i: usize = 0;
    while i < tl
        invariant
            0 <= i <= tl,
            tl == t@.len(),
            tl == to - from,
            from <= to <= s.len(),
            forall|j: int| 0 <= j < i ==> s@[from + j] == t@[j],
        decreases tl - i,
    {
        if s[from + i] != t.get_char(i) {
            proof {
                assert(s@.subrange(from as int, to as int)[i as int] != t@[i as int]);
            }
            return false;
        }
        i = i + 1;
    }
    proof {
        assert(s@.subrange(from as int, to as int) =~= t@);
    }
    true
}

/// Probes for a comment. On a match the message and the position past the
/// consumed line break are returned; otherwise the cursor stands after the
/// skipped whitespace.
pub fn parse_comment(s: &Vec<char>, pos: usize) -> (r: (Option<Comment>, usize))
    requires
        pos <= s.len(),
    ensures
        ({
            let (c, np) = spec_parse_comment(s@, pos as int);
            opt_comment_view(&r.0) == c && r.1 as int == np
        }),
        pos <= r.1 <= s.len(),
{
    proof {
        lemma_spec_parse_comment(s@, pos as int);
    }
    let p = consume_spaces(s, pos);
    if p < s.len() && p + 1 < s.len() && s[p] == '/' && s[p + 1] == '/' {
        let m0 = consume_only_spaces(s, p + 2);
        let e = find_line_end(s, m0);
        let msg = copy_range(s, m0, e);
        let np = if e < s.len() {
            e + 1
        } else {
            e
        };
        (Option::Some(Comment { text: msg }), np)
    } else {
        (Option::None, p)
    }
}

/// Parses the remainder of a header line: trimmed free text and an optional
/// trailing comment. Always succeeds.
pub fn parse_line(s: &Vec<char>, pos: usize) -> (r: (Line, usize))
    requires
        pos <= s.len(),
    ensures
        ({
            let (l, np) = spec_parse_line(s@, pos as int);
            r.0@ == l && r.1 as int == np
        }),
        pos <= r.1 <= s.len(),
{
    proof {
        lemma_spec_parse_line(s@, pos as int);
    }
    let p0 = consume_only_spaces(s, pos);
    let e = find_line_text_end(s, p0);
    let raw = copy_range(s, p0, e);
    let text = trim_chars(&raw);
    if e >= s.len() {
        (Line { text, comment: Option::None }, s.len())
    } else if s[e] == '\n' || s[e] == '\r' {
        (Line { text, comment: Option::None }, e + 1)
    } else {
        let (c, np) = parse_comment(s, e);
        (Line { text, comment: c }, np)
    }
}


/// Appends the pending field, trimmed, unless it is empty after trimming.
fn push_trimmed(values: &mut Vec<Vec<char>>, value: &Vec<char>)
    ensures
        final(values).deep_view() == crate::grammar::push_field(old(values).deep_view(), value@),
{
    let t = trim_chars(value);
    if t.len() > 0 {
        let ghost old_dv = values.deep_view();
        let ghost ov = values@;
        values.push(t);
        proof {
            assert forall|j: int| 0 <= j < values.deep_view().len() implies values.deep_view()[j]
                == old_dv.push(trim(value@))[j] by {
                assert(values.deep_view()[j] == values@[j].deep_view());
                if j < ov.len() {
                    assert(values@[j] == ov[j]);
                    assert(old_dv[j] == ov[j].deep_view());
                }
            }
            assert(values.deep_view() =~= old_dv.push(trim(value@)));
        }
    }
}

/// Probes for a comma-separated row. A leading `<` (after spaces and tabs
/// and any partial field) means the next tag begins: no match, cursor at the
/// `<`. A row with no fields and no comment is no match.
#[verifier::loop_isolation(false)]
pub fn parse_csv_line(s: &Vec<char>, pos: usize) -> (r: (Option<CSVLine>, usize))
    requires
        pos <= s.len(),
    ensures
        ({
            let (o, np) = spec_parse_csv_line(s@, pos as int);
            opt_csv_view(&r.0) == o && r.1 as int == np
        }),
        pos <= r.1 <= s.len(),
{
    proof {
        lemma_spec_parse_csv_line(s@, pos as int);
        lemma_skip_line_spaces(s@, pos as int);
        lemma_csv_scan(s@, skip_line_spaces(s@, pos as int), Seq::empty(), Seq::empty());
    }
    let p0 = consume_only_spaces(s, pos);
    let mut values: Vec<Vec<char>> = Vec::new();
    let mut value: Vec<char> = Vec::new();
    let mut i: usize = p0;
    proof {
        assert(values.deep_view() =~= Seq::<Seq<char>>::empty());
        assert(value@ =~= Seq::<char>::empty());
    }
    loop
        invariant
            p0 <= i <= s.len(),
            spec_parse_csv_line(s@, pos as int) == csv_scan(
                s@,
                i as int,
                values.deep_view(),
                value@,
            ),
        decreases s.len() - i,
    {
        proof {
            lemma_csv_scan(s@, i as int, values.deep_view(), value@);
        }
        if i >= s.len() {
            if values.len() == 0 {
                return (Option::None, s.len());
            }
            return (Option::Some(CSVLine { values, comment: Option::None }), s.len());
        }
        let c = s[i];
        if c == '<' {
            return (Option::None, i);
        }
        if c == '\n' || c == '\r' {
            push_trimmed(&mut values, &value);
            if values.len() == 0 {
                return (Option::None, i + 1);
            }
            return (Option::Some(CSVLine { values, comment: Option::None }), i + 1);
        }
        if c == ',' {
            push_trimmed(&mut values, &value);
            value = Vec::new();
            proof {
                assert(value@ =~= Seq::<char>::empty());
            }
            i = i + 1;
        } else if c == '/' && i + 1 < s.len() && s[i + 1] == '/' {
            let (cm, np) = parse_comment(s, i);
            push_trimmed(&mut values, &value);
            return (Option::Some(CSVLine { values, comment: cm }), np);
        } else {
            value.push(c);
            i = i + 1;
        }
    }
}


/// Probes for an angle-bracket tag with the given name. Returns whether the
/// tag matched, or the hard error an unterminated tag raises.
fn parse_tag(s: &Vec<char>, pos: usize, expected: &str, kind: TagKind) -> (r: (Result<bool, ParseError>, usize))
    requires
        pos <= s.len(),
    ensures
        ({
            match spec_parse_tag(s@, pos as int, expected@, kind) {
                Step::Fail(e) => match r.0 {
                    Result::Err(err) => err@ == e,
                    Result::Ok(_) => false,
                },
                Step::Miss { pos: p } => r.0 == Result::<bool, ParseError>::Ok(false)
                    && r.1 as int == p,
                Step::Hit { val: _, pos: p } => r.0 == Result::<bool, ParseError>::Ok(true)
                    && r.1 as int == p,
            }
        }),
        pos <= r.1 <= s.len(),
{
    proof {
        lemma_spec_parse_tag(s@, pos as int, expected@, kind);
        lemma_skip_block_spaces(s@, pos as int);
    }
    let p = consume_spaces(s, pos);
    if p >= s.len() {
        return (Result::Ok(false), p);
    }
    if s[p] != '<' {
        return (Result::Ok(false), p);
    }
    let e = find_tag_end(s, p + 1);
    if e >= s.len() {
        if range_eq_str(s, p + 1, e, expected) {
            return (Result::Err(ParseError::CursorAdvance { tag: kind }), p);
        }
        return (Result::Ok(false), p);
    }
    if s[e] == '\n' || s[e] == '\r' {
        return (Result::Err(ParseError::UnclosedTag { tag: kind }), e);
    }
    if range_eq_str(s, p + 1, e, expected) {
        (Result::Ok(true), e + 1)
    } else {
        (Result::Ok(false), p)
    }
}

/// Probes for a `<FileEnd>` marker and the remainder of its line.
pub fn parse_file_end(s: &Vec<char>, pos: usize) -> (r: (Result<Option<FileEnd>, ParseError>, usize))
    requires
        pos <= s.len(),
    ensures
        step_matches(r.0, r.1, spec_parse_file_end(s@, pos as int)),
        pos <= r.1 <= s.len(),
{
    proof {
        reveal_strlit("FileEnd");
        assert("FileEnd"@ =~= seq_file_end_tag());
        lemma_spec_parse_tag(s@, pos as int, seq_file_end_tag(), TagKind::FileEnd);
        lemma_spec_parse_file_end(s@, pos as int);
    }
    let (t, p) = parse_tag(s, pos, "FileEnd", TagKind::FileEnd);
    match t {
        Result::Err(e) => (Result::Err(e), p),
        Result::Ok(false) => (Result::Ok(Option::None), p),
        Result::Ok(true) => {
            let (l, np) = parse_line(s, p);
            (Result::Ok(Option::Some(FileEnd { line: l })), np)
        },
    }
}

/// Probes for an `<OpenFile>` marker and the remainder of its line.
pub fn parse_open_file(s: &Vec<char>, pos: usize) -> (r: (Result<Option<OpenFile>, ParseError>, usize))
    requires
        pos <= s.len(),
    ensures
        step_matches(r.0, r.1, spec_parse_open_file(s@, pos as int)),
        pos <= r.1 <= s.len(),
{
    proof {
        reveal_strlit("OpenFile");
        assert("OpenFile"@ =~= seq_open_file_tag());
        lemma_spec_parse_tag(s@, pos as int, seq_open_file_tag(), TagKind::OpenFile);
        lemma_spec_parse_open_file(s@, pos as int);
    }
    let (t, p) = parse_tag(s, pos, "OpenFile", TagKind::OpenFile);
    match t {
        Result::Err(e) => (Result::Err(e), p),
        Result::Ok(false) => (Result::Ok(Option::None), p),
        Result::Ok(true) => {
            let (l, np) = parse_line(s, p);
            (Result::Ok(Option::Some(OpenFile { line: l })), np)
        },
    }
}

/// Probes for a `<Currency>` tag and the row on its line. A tag followed by
/// an entirely empty row is no match.
pub fn parse_currency(s: &Vec<char>, pos: usize) -> (r: (Result<Option<CSVLine>, ParseError>, usize))
    requires
        pos <= s.len(),
    ensures
        step_matches(r.0, r.1, spec_parse_currency(s@, pos as int)),
        pos <= r.1 <= s.len(),
{
    proof {
        reveal_strlit("Currency");
        assert("Currency"@ =~= seq_currency_tag());
        lemma_spec_parse_tag(s@, pos as int, seq_currency_tag(), TagKind::Currency);
        lemma_spec_parse_currency(s@, pos as int);
    }
    let (t, p) = parse_tag(s, pos, "Currency", TagKind::Currency);
    match t {
        Result::Err(e) => (Result::Err(e), p),
        Result::Ok(false) => (Result::Ok(Option::None), p),
        Result::Ok(true) => {
            let (o, np) = parse_csv_line(s, p);
            (Result::Ok(o), np)
        },
    }
}

/// Probes for one currency-table entry: a comment, or a `<Currency>` row.
pub fn parse_currency_token(s: &Vec<char>, pos: usize) -> (r: (Result<Option<CurrencyToken>, ParseError>, usize))
    requires
        pos <= s.len(),
    ensures
        step_matches(r.0, r.1, spec_parse_currency_token(s@, pos as int)),
        pos <= r.1 <= s.len(),
{
    proof {
        lemma_spec_parse_comment(s@, pos as int);
    }
    let (c, p1) = parse_comment(s, pos);
    match c {
        Option::Some(m) => (Result::Ok(Option::Some(CurrencyToken::Comment(m))), p1),
        Option::None => {
            proof {
                lemma_spec_parse_currency(s@, p1 as int);
            }
            let (t, np) = parse_currency(s, p1);
            match t {
                Result::Err(e) => (Result::Err(e), np),
                Result::Ok(o) => match o {
                    Option::None => (Result::Ok(Option::None), np),
                    Option::Some(row) => (
                        Result::Ok(Option::Some(CurrencyToken::Currency(row))),
                        np,
                    ),
                },
            }
        },
    }
}

/// Probes for one category entry: a comment, or a row refined into a
/// four-field item. A recognized row with any other field count is a hard
/// error.
pub fn parse_trader_category_item_token(s: &Vec<char>, pos: usize) -> (r: (Result<Option<CategoryItemToken>, ParseError>, usize))
    requires
        pos <= s.len(),
    ensures
        step_matches(r.0, r.1, spec_parse_trader_category_item_token(s@, pos as int)),
        pos <= r.1 <= s.len(),
{
    proof {
        lemma_spec_parse_comment(s@, pos as int);
    }
    let (c, p1) = parse_comment(s, pos);
    match c {
        Option::Some(m) => (Result::Ok(Option::Some(CategoryItemToken::Comment(m))), p1),
        Option::None => {
            proof {
                lemma_spec_parse_csv_line(s@, p1 as int);
            }
            let (o, p2) = parse_csv_line(s, p1);
            match o {
                Option::None => (Result::Ok(Option::None), p2),
                Option::Some(row) => match CategoryItem::try_from(row) {
                    Result::Ok(item) => (
                        Result::Ok(Option::Some(CategoryItemToken::CategoryItem(item))),
                        p2,
                    ),
                    Result::Err(e) => (Result::Err(e), p2),
                },
            }
        },
    }
}


/// Parses a `<CurrencyName>` block: its header line, then currency-table
/// entries until neither a comment nor a row matches.
#[verifier::loop_isolation(false)]
pub fn parse_currency_name(s: &Vec<char>, pos: usize) -> (r: (Result<Option<CurrencyName>, ParseError>, usize))
    requires
        pos <= s.len(),
    ensures
        step_matches(r.0, r.1, spec_parse_currency_name(s@, pos as int)),
        pos <= r.1 <= s.len(),
{
    proof {
        reveal_strlit("CurrencyName");
        assert("CurrencyName"@ =~= seq_currency_name_tag());
        lemma_spec_parse_tag(s@, pos as int, seq_currency_name_tag(), TagKind::CurrencyName);
        lemma_spec_parse_currency_name(s@, pos as int);
    }
    let (t, p) = parse_tag(s, pos, "CurrencyName", TagKind::CurrencyName);
    let matched = match t {
        Result::Err(e) => {
            return (Result::Err(e), p);
        },
        Result::Ok(b) => b,
    };
    if !matched {
        return (Result::Ok(Option::None), p);
    }
    let (l, p2) = parse_line(s, p);
    let mut items: Vec<CurrencyToken> = Vec::new();
    let mut cur: usize = p2;
    proof {
        assert(items.deep_view() =~= Seq::<CurrencyTokenView>::empty());
        match spec_parse_currency_tokens(s@, p2 as int) {
            Step::Hit { val: rest, pos: q } => {
                assert(Seq::<CurrencyTokenView>::empty() + rest =~= rest);
            },
            _ => {},
        }
    }
    loop
        invariant
            p2 <= cur <= s.len(),
            (match spec_parse_currency_tokens(s@, cur as int) {
                Step::Fail(e) => spec_parse_currency_tokens(s@, p2 as int) == Step::<
                    Seq<CurrencyTokenView>,
                >::Fail(e),
                Step::Miss { pos: q } => true,
                Step::Hit { val: rest, pos: q } => spec_parse_currency_tokens(s@, p2 as int)
                    == (Step::Hit { val: items.deep_view() + rest, pos: q }),
            }),
        decreases s.len() - cur,
    {
        proof {
            lemma_spec_parse_currency_token(s@, cur as int);
            lemma_spec_parse_currency_tokens(s@, cur as int);
        }
        let (t2, np) = parse_currency_token(s, cur);
        match t2 {
            Result::Err(e) => {
                return (Result::Err(e), np);
            },
            Result::Ok(o) => match o {
                Option::None => {
                    proof {
                        assert(items.deep_view() + Seq::<CurrencyTokenView>::empty()
                            =~= items.deep_view());
                    }
                    return (
                        Result::Ok(Option::Some(CurrencyName { name: l, currencies: items })),
                        np,
                    );
                },
                Option::Some(tok) => {
                    let ghost old_dv = items.deep_view();
                    let ghost ov = items@;
                    let ghost tv = tok@;
                    items.push(tok);
                    proof {
                        assert forall|j: int| 0 <= j < items.deep_view().len() implies
                            items.deep_view()[j] == old_dv.push(tv)[j] by {
                            assert(items.deep_view()[j] == items@[j].deep_view());
                            if j < ov.len() {
                                assert(items@[j] == ov[j]);
                                assert(old_dv[j] == ov[j].deep_view());
                            }
                        }
                        assert(items.deep_view() =~= old_dv.push(tv));
                        match spec_parse_currency_tokens(s@, np as int) {
                            Step::Hit { val: rest, pos: q } => {
                                assert(old_dv + (seq![tv] + rest) =~= old_dv.push(tv) + rest);
                            },
                            _ => {},
                        }
                    }
                    cur = np;
                },
            },
        }
    }
}

/// Parses a `<Category>` block: its header line, then category entries until
/// neither a comment nor a row matches.
#[verifier::loop_isolation(false)]
pub fn parse_trader_category(s: &Vec<char>, pos: usize) -> (r: (Result<Option<TraderCategory>, ParseError>, usize))
    requires
        pos <= s.len(),
    ensures
        step_matches(r.0, r.1, spec_parse_trader_category(s@, pos as int)),
        pos <= r.1 <= s.len(),
{
    proof {
        reveal_strlit("Category");
        assert("Category"@ =~= seq_category_tag());
        lemma_spec_parse_tag(s@, pos as int, seq_category_tag(), TagKind::Category);
        lemma_spec_parse_trader_category(s@, pos as int);
    }
    let (t, p) = parse_tag(s, pos, "Category", TagKind::Category);
    let matched = match t {
        Result::Err(e) => {
            return (Result::Err(e), p);
        },
        Result::Ok(b) => b,
    };
    if !matched {
        return (Result::Ok(Option::None), p);
    }
    let (l, p2) = parse_line(s, p);
    let mut items: Vec<CategoryItemToken> = Vec::new();
    let mut cur: usize = p2;
    proof {
        assert(items.deep_view() =~= Seq::<CategoryItemTokenView>::empty());
        match spec_parse_category_item_tokens(s@, p2 as int) {
            Step::Hit { val: rest, pos: q } => {
                assert(Seq::<CategoryItemTokenView>::empty() + rest =~= rest);
            },
            _ => {},
        }
    }
    loop
        invariant
            p2 <= cur <= s.len(),
            (match spec_parse_category_item_tokens(s@, cur as int) {
                Step::Fail(e) => spec_parse_category_item_tokens(s@, p2 as int) == Step::<
                    Seq<CategoryItemTokenView>,
                >::Fail(e),
                Step::Miss { pos: q } => true,
                Step::Hit { val: rest, pos: q } => spec_parse_category_item_tokens(s@, p2 as int)
                    == (Step::Hit { val: items.deep_view() + rest, pos: q }),
            }),
        decreases s.len() - cur,
    {
        proof {
            lemma_spec_parse_trader_category_item_token(s@, cur as int);
            lemma_spec_parse_category_item_tokens(s@, cur as int);
        }
        let (t2, np) = parse_trader_category_item_token(s, cur);
        match t2 {
            Result::Err(e) => {
                return (Result::Err(e), np);
            },
            Result::Ok(o) => match o {
                Option::None => {
                    proof {
                        assert(items.deep_view() + Seq::<CategoryItemTokenView>::empty()
                            =~= items.deep_view());
                    }
                    return (
                        Result::Ok(Option::Some(TraderCategory { name: l, items })),
                        np,
                    );
                },
                Option::Some(tok) => {
                    let ghost old_dv = items.deep_view();
                    let ghost ov = items@;
                    let ghost tv = tok@;
                    items.push(tok);
                    proof {
                        assert forall|j: int| 0 <= j < items.deep_view().len() implies
                            items.deep_view()[j] == old_dv.push(tv)[j] by {
                            assert(items.deep_view()[j] == items@[j].deep_view());
                            if j < ov.len() {
                                assert(items@[j] == ov[j]);
                                assert(old_dv[j] == ov[j].deep_view());
                            }
                        }
                        assert(items.deep_view() =~= old_dv.push(tv));
                        match spec_parse_category_item_tokens(s@, np as int) {
                            Step::Hit { val: rest, pos: q } => {
                                assert(old_dv + (seq![tv] + rest) =~= old_dv.push(tv) + rest);
                            },
                            _ => {},
                        }
                    }
                    cur = np;
                },
            },
        }
    }
}

/// Probes for one trader entry: a comment, or a `<Category>` block.
pub fn parse_trader_category_token(s: &Vec<char>, pos: usize) -> (r: (Result<Option<TraderCategoryToken>, ParseError>, usize))
    requires
        pos <= s.len(),
    ensures
        step_matches(r.0, r.1, spec_parse_trader_category_token(s@, pos as int)),
        pos <= r.1 <= s.len(),
{
    proof {
        lemma_spec_parse_comment(s@, pos as int);
    }
    let (c, p1) = parse_comment(s, pos);
    match c {
        Option::Some(m) => (Result::Ok(Option::Some(TraderCategoryToken::Comment(m))), p1),
        Option::None => {
            proof {
                lemma_spec_parse_trader_category(s@, p1 as int);
            }
            let (t, np) = parse_trader_category(s, p1);
            match t {
                Result::Err(e) => (Result::Err(e), np),
                Result::Ok(o) => match o {
                    Option::None => (Result::Ok(Option::None), np),
                    Option::Some(cat) => (
                        Result::Ok(Option::Some(TraderCategoryToken::TraderCategory(cat))),
                        np,
                    ),
                },
            }
        },
    }
}

/// Parses a `<Trader>` block: its header line, then trader entries until
/// neither a comment nor a category matches.
#[verifier::loop_isolation(false)]
pub fn parse_trader(s: &Vec<char>, pos: usize) -> (r: (Result<Option<Trader>, ParseError>, usize))
    requires
        pos <= s.len(),
    ensures
        step_matches(r.0, r.1, spec_parse_trader(s@, pos as int)),
        pos <= r.1 <= s.len(),
{
    proof {
        reveal_strlit("Trader");
        assert("Trader"@ =~= seq_trader_tag());
        lemma_spec_parse_tag(s@, pos as int, seq_trader_tag(), TagKind::Trader);
        lemma_spec_parse_trader(s@, pos as int);
    }
    let (t, p) = parse_tag(s, pos, "Trader", TagKind::Trader);
    let matched = match t {
        Result::Err(e) => {
            return (Result::Err(e), p);
        },
        Result::Ok(b) => b,
    };
    if !matched {
        return (Result::Ok(Option::None), p);
    }
    let (l, p2) = parse_line(s, p);
    let mut cats: Vec<TraderCategoryToken> = Vec::new();
    let mut cur: usize = p2;
    proof {
        assert(cats.deep_view() =~= Seq::<TraderCategoryTokenView>::empty());
        match spec_parse_trader_category_tokens(s@, p2 as int) {
            Step::Hit { val: rest, pos: q } => {
                assert(Seq::<TraderCategoryTokenView>::empty() + rest =~= rest);
            },
            _ => {},
        }
    }
    loop
        invariant
            p2 <= cur <= s.len(),
            (match spec_parse_trader_category_tokens(s@, cur as int) {
                Step::Fail(e) => spec_parse_trader_category_tokens(s@, p2 as int) == Step::<
                    Seq<TraderCategoryTokenView>,
                >::Fail(e),
                Step::Miss { pos: q } => true,
                Step::Hit { val: rest, pos: q } => spec_parse_trader_category_tokens(
                    s@,
                    p2 as int,
                ) == (Step::Hit { val: cats.deep_view() + rest, pos: q }),
            }),
        decreases s.len() - cur,
    {
        proof {
            lemma_spec_parse_trader_category_token(s@, cur as int);
            lemma_spec_parse_trader_category_tokens(s@, cur as int);
        }
        let (t2, np) = parse_trader_category_token(s, cur);
        match t2 {
            Result::Err(e) => {
                return (Result::Err(e), np);
            },
            Result::Ok(o) => match o {
                Option::None => {
                    proof {
                        assert(cats.deep_view() + Seq::<TraderCategoryTokenView>::empty()
                            =~= cats.deep_view());
                    }
                    return (
                        Result::Ok(Option::Some(Trader { name: l, categories: cats })),
                        np,
                    );
                },
                Option::Some(tok) => {
                    let ghost old_dv = cats.deep_view();
                    let ghost ov = cats@;
                    let ghost tv = tok@;
                    cats.push(tok);
                    proof {
                        assert forall|j: int| 0 <= j < cats.deep_view().len() implies
                            cats.deep_view()[j] == old_dv.push(tv)[j] by {
                            assert(cats.deep_view()[j] == cats@[j].deep_view());
                            if j < ov.len() {
                                assert(cats@[j] == ov[j]);
                                assert(old_dv[j] == ov[j].deep_view());
                            }
                        }
                        assert(cats.deep_view() =~= old_dv.push(tv));
                        match spec_parse_trader_category_tokens(s@, np as int) {
                            Step::Hit { val: rest, pos: q } => {
                                assert(old_dv + (seq![tv] + rest) =~= old_dv.push(tv) + rest);
                            },
                            _ => {},
                        }
                    }
                    cur = np;
                },
            },
        }
    }
}

/// Probes for one top-level token, trying the alternatives in fixed
/// priority order: comment, currency table, trader, open-file marker,
/// file-end marker.
pub fn parse_token(s: &Vec<char>, pos: usize) -> (r: (Result<Option<Token>, ParseError>, usize))
    requires
        pos <= s.len(),
    ensures
        step_matches(r.0, r.1, spec_parse_token(s@, pos as int)),
        pos <= r.1 <= s.len(),
{
    proof {
        lemma_spec_parse_comment(s@, pos as int);
    }
    let (c, p1) = parse_comment(s, pos);
    if let Option::Some(m) = c {
        return (Result::Ok(Option::Some(Token::Comment(m))), p1);
    }
    proof {
        lemma_spec_parse_currency_name(s@, p1 as int);
    }
    let (r1, p2) = parse_currency_name(s, p1);
    match r1 {
        Result::Err(e) => {
            return (Result::Err(e), p2);
        },
        Result::Ok(o) => match o {
            Option::Some(cn) => {
                return (Result::Ok(Option::Some(Token::CurrencyName(cn))), p2);
            },
            Option::None => {},
        },
    }
    proof {
        lemma_spec_parse_trader(s@, p2 as int);
    }
    let (r2, p3) = parse_trader(s, p2);
    match r2 {
        Result::Err(e) => {
            return (Result::Err(e), p3);
        },
        Result::Ok(o) => match o {
            Option::Some(t) => {
                return (Result::Ok(Option::Some(Token::Trader(t))), p3);
            },
            Option::None => {},
        },
    }
    proof {
        lemma_spec_parse_open_file(s@, p3 as int);
    }
    let (r3, p4) = parse_open_file(s, p3);
    match r3 {
        Result::Err(e) => {
            return (Result::Err(e), p4);
        },
        Result::Ok(o) => match o {
            Option::Some(of) => {
                return (Result::Ok(Option::Some(Token::OpenFile(of))), p4);
            },
            Option::None => {},
        },
    }
    proof {
        lemma_spec_parse_file_end(s@, p4 as int);
    }
    let (r4, p5) = parse_file_end(s, p4);
    match r4 {
        Result::Err(e) => (Result::Err(e), p5),
        Result::Ok(o) => match o {
            Option::Some(fe) => (Result::Ok(Option::Some(Token::FileEnd(fe))), p5),
            Option::None => (Result::Ok(Option::None), p5),
        },
    }
}

/// Collects the characters of a string into a vector.
#[verifier::loop_isolation(false)]
fn chars_of(s: &String) -> (r: Vec<char>)
    ensures
        r@ == s@,
{
    let st = s.as_str();
    let n = st.unicode_len();
    let mut out: Vec<char> = Vec::new();
    let mut i: usize = 0;
    while i < n
        invariant
            0 <= i <= n,
            n == s@.len(),
            st@ == s@,
            out@ == s@.subrange(0, i as int),
        decreases n - i,
    {
        out.push(st.get_char(i));
        i = i + 1;
        proof {
            assert(out@ =~= s@.subrange(0, i as int));
        }
    }
    proof {
        assert(out@ =~= s@);
    }
    out
}

/// Parses a whole input text into its sequence of top-level tokens. Stray
/// content that no alternative recognizes is skipped one character at a
/// time; a structural fault inside a recognized construct is an error.
#[verifier::loop_isolation(false)]
pub fn process_file(contents: String) -> (r: Result<Vec<Token>, ParseError>)
    ensures
        ({
            match r {
                Result::Ok(ts) => spec_process_file(contents@) == Result::<
                    Seq<TokenView>,
                    ParseErrorView,
                >::Ok(ts.deep_view()),
                Result::Err(e) => spec_process_file(contents@) == Result::<
                    Seq<TokenView>,
                    ParseErrorView,
                >::Err(e@),
            }
        }),
{
    let s = chars_of(&contents);
    let mut tokens: Vec<Token> = Vec::new();
    let mut pos: usize = 0;
    proof {
        assert(tokens.deep_view() =~= Seq::<TokenView>::empty());
        match spec_parse_document(s@, 0) {
            Result::Ok(ts) => {
                assert(Seq::<TokenView>::empty() + ts =~= ts);
            },
            _ => {},
        }
    }
    while pos < s.len()
        invariant
            0 <= pos <= s.len(),
            s@ == contents@,
            (match spec_parse_document(s@, pos as int) {
                Result::Err(e) => spec_parse_document(s@, 0) == Result::<
                    Seq<TokenView>,
                    ParseErrorView,
                >::Err(e),
                Result::Ok(ts) => spec_parse_document(s@, 0) == Result::<
                    Seq<TokenView>,
                    ParseErrorView,
                >::Ok(tokens.deep_view() + ts),
            }),
        decreases s.len() - pos,
    {
        proof {
            lemma_spec_parse_token(s@, pos as int);
        }
        let (t, np) = parse_token(&s, pos);
        match t {
            Result::Err(e) => {
                return Result::Err(e);
            },
            Result::Ok(o) => match o {
                Option::Some(tok) => {
                    let ghost old_dv = tokens.deep_view();
                    let ghost ov = tokens@;
                    let ghost tv = tok@;
                    tokens.push(tok);
                    proof {
                        assert forall|j: int| 0 <= j < tokens.deep_view().len() implies
                            tokens.deep_view()[j] == old_dv.push(tv)[j] by {
                            assert(tokens.deep_view()[j] == tokens@[j].deep_view());
                            if j < ov.len() {
                                assert(tokens@[j] == ov[j]);
                                assert(old_dv[j] == ov[j].deep_view());
                            }
                        }
                        assert(tokens.deep_view() =~= old_dv.push(tv));
                        match spec_parse_document(s@, np as int) {
                            Result::Ok(ts) => {
                                assert(old_dv + (seq![tv] + ts) =~= old_dv.push(tv) + ts);
                            },
                            _ => {},
                        }
                    }
                    pos = np;
                },
                Option::None => {
                    if np < s.len() {
                        pos = np + 1;
                    } else {
                        pos = s.len();
                    }
                },
            },
        }
    }
    proof {
        assert(tokens.deep_view() + Seq::<TokenView>::empty() =~= tokens.deep_view());
    }
    Result::Ok(tokens)
}

} // verus!
