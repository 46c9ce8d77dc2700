//! The canonical formatter.
//!
//! `spec_render_*` states the exact output text for each node of the token
//! tree; the executable `render` methods are proved to produce it. The
//! canonical form uses fixed indentation (four spaces for a block's entries,
//! eight for category rows), pads every currency-row column to a fixed
//! width, prefixes every comment with `// `, and re-emits the tag of each
//! construct, so that formatting output parses back to the same tree.

use vstd::prelude::*;
use crate::ast::{
    CSVLine, CSVLineView, CategoryItem, CategoryItemToken, CategoryItemTokenView,
    CategoryItemView, Comment, CurrencyName, CurrencyNameView, CurrencyToken, CurrencyTokenView,
    FileEnd, Line, LineView, OpenFile, Token, TokenView, Trader, TraderCategory,
    TraderCategoryToken, TraderCategoryTokenView, TraderCategoryView, TraderView,
};
use crate::grammar::{
    seq_category_tag, seq_currency_name_tag, seq_currency_tag, seq_file_end_tag,
    seq_open_file_tag, seq_trader_tag,
};

verus! {

/// The column width every currency-row field is padded to.
pub const COLUMN_WIDTH: usize = 60;

/// `n` spaces (none when `n` is not positive).
pub open spec fn spaces(n: int) -> Seq<char>
    decreases n,
{
    if n <= 0 {
        Seq::empty()
    } else {
        spaces(n - 1).push(' ')
    }
}

/// A comment renders as `// ` followed by its message, verbatim.
pub open spec fn spec_render_comment(msg: Seq<char>) -> Seq<char> {
    seq!['/', '/', ' '] + msg
}

/// An optional trailing comment renders as the comment or as nothing.
pub open spec fn spec_render_opt_comment(c: Option<Seq<char>>) -> Seq<char> {
    match c {
        Option::Some(m) => spec_render_comment(m),
        Option::None => Seq::empty(),
    }
}

/// A header line: its text, one space, its comment rendering if present,
/// one line break.
pub open spec fn spec_render_line(l: LineView) -> Seq<char> {
    l.text + seq![' '] + spec_render_opt_comment(l.comment) + seq!['\n']
}

/// A row chunk padded with spaces up to the column width; a longer chunk is
/// emitted at its natural length.
pub open spec fn pad_column(s: Seq<char>) -> Seq<char> {
    if s.len() < COLUMN_WIDTH {
        s + spaces(COLUMN_WIDTH - s.len())
    } else {
        s
    }
}

/// The fields of a row, each with its separating comma (none on the last)
/// and each chunk padded to the column width.
pub open spec fn spec_render_csv_fields(values: Seq<Seq<char>>) -> Seq<char>
    decreases values.len(),
{
    if values.len() == 0 {
        Seq::empty()
    } else if values.len() == 1 {
        pad_column(values[0])
    } else {
        pad_column(values[0] + seq![',']) + spec_render_csv_fields(values.drop_first())
    }
}

/// A currency row: its padded fields, a space and the comment if present,
/// one line break.
pub open spec fn spec_render_csv_line(c: CSVLineView) -> Seq<char> {
    spec_render_csv_fields(c.values) + (match c.comment {
        Option::Some(m) => seq![' '] + spec_render_comment(m),
        Option::None => Seq::empty(),
    }) + seq!['\n']
}

/// A category item: eight leading spaces, the four fields joined with plain
/// commas, a space and the comment if present, one line break.
pub open spec fn spec_render_category_item(it: CategoryItemView) -> Seq<char> {
    spaces(8) + it.class + seq![','] + it.amount + seq![','] + it.buy_value + seq![',']
        + it.sell_value + (match it.comment {
        Option::Some(m) => seq![' '] + spec_render_comment(m),
        Option::None => Seq::empty(),
    }) + seq!['\n']
}

/// One currency-table entry, indented four spaces: a comment on its own
/// line, or a `<Currency> ` tag followed by the row.
pub open spec fn spec_render_currency_token(t: CurrencyTokenView) -> Seq<char> {
    match t {
        CurrencyTokenView::Comment(m) => spaces(4) + spec_render_comment(m) + seq!['\n'],
        CurrencyTokenView::Currency(c) => spaces(4) + seq!['<'] + seq_currency_tag() + seq![
            '>',
            ' ',
        ] + spec_render_csv_line(c),
    }
}

pub open spec fn spec_render_currency_tokens(ts: Seq<CurrencyTokenView>) -> Seq<char>
    decreases ts.len(),
{
    if ts.len() == 0 {
        Seq::empty()
    } else {
        spec_render_currency_token(ts[0]) + spec_render_currency_tokens(ts.drop_first())
    }
}

/// A currency table: its tag and header line, then its entries.
pub open spec fn spec_render_currency_name(cn: CurrencyNameView) -> Seq<char> {
    seq!['<'] + seq_currency_name_tag() + seq!['>', ' '] + spec_render_line(cn.name)
        + spec_render_currency_tokens(cn.currencies)
}

/// One category entry: a comment indented eight spaces, or an item row.
pub open spec fn spec_render_category_item_token(t: CategoryItemTokenView) -> Seq<char> {
    match t {
        CategoryItemTokenView::Comment(m) => spaces(8) + spec_render_comment(m) + seq!['\n'],
        CategoryItemTokenView::CategoryItem(it) => spec_render_category_item(it),
    }
}

pub open spec fn spec_render_category_item_tokens(ts: Seq<CategoryItemTokenView>) -> Seq<char>
    decreases ts.len(),
{
    if ts.len() == 0 {
        Seq::empty()
    } else {
        spec_render_category_item_token(ts[0]) + spec_render_category_item_tokens(ts.drop_first())
    }
}

/// A category: its tag and header line indented four spaces, then its
/// entries.
pub open spec fn spec_render_trader_category(tc: TraderCategoryView) -> Seq<char> {
    spaces(4) + seq!['<'] + seq_category_tag() + seq!['>', ' '] + spec_render_line(tc.name)
        + spec_render_category_item_tokens(tc.items)
}

/// One trader entry: a comment indented four spaces, or a category block.
pub open spec fn spec_render_trader_category_token(t: TraderCategoryTokenView) -> Seq<char> {
    match t {
        TraderCategoryTokenView::Comment(m) => spaces(4) + spec_render_comment(m) + seq!['\n'],
        TraderCategoryTokenView::TraderCategory(tc) => spec_render_trader_category(tc),
    }
}

pub open spec fn spec_render_trader_category_tokens(ts: Seq<TraderCategoryTokenView>) -> Seq<
    char,
>
    decreases ts.len(),
{
    if ts.len() == 0 {
        Seq::empty()
    } else {
        spec_render_trader_category_token(ts[0]) + spec_render_trader_category_tokens(
            ts.drop_first(),
        )
    }
}

/// A trader block: its tag and header line, then its entries.
pub open spec fn spec_render_trader(t: TraderView) -> Seq<char> {
    seq!['<'] + seq_trader_tag() + seq!['>', ' '] + spec_render_line(t.name)
        + spec_render_trader_category_tokens(t.categories)
}

/// An `<OpenFile>` marker: its tag and the remainder of its line.
pub open spec fn spec_render_open_file(l: LineView) -> Seq<char> {
    seq!['<'] + seq_open_file_tag() + seq!['>', ' '] + spec_render_line(l)
}

/// A `<FileEnd>` marker: its tag and the remainder of its line.
pub open spec fn spec_render_file_end(l: LineView) -> Seq<char> {
    seq!['<'] + seq_file_end_tag() + seq!['>', ' '] + spec_render_line(l)
}

/// A top-level token. A top-level comment stands on a line of its own.
pub open spec fn spec_render_token(t: TokenView) -> Seq<char> {
    match t {
        TokenView::Comment(m) => spec_render_comment(m) + seq!['\n'],
        TokenView::CurrencyName(cn) => spec_render_currency_name(cn),
        TokenView::Trader(tr) => spec_render_trader(tr),
        TokenView::OpenFile(l) => spec_render_open_file(l),
        TokenView::FileEnd(l) => spec_render_file_end(l),
    }
}

/// The whole output: each token's rendering, concatenated in order.
pub open spec fn spec_render_tokens(ts: Seq<TokenView>) -> Seq<char>
    decreases ts.len(),
{
    if ts.len() == 0 {
        Seq::empty()
    } else {
        spec_render_token(ts[0]) + spec_render_tokens(ts.drop_first())
    }
}

/// Appends the characters of `add` to `out`.
#[verifier::loop_isolation(false)]
fn push_chars(out: &mut Vec<char>, add: &Vec<char>)
    ensures
        final(out)@ == old(out)@ + add@,
{
    let mut i: usize = 0;
    proof {
        assert(out@ =~= old(out)@ + add@.subrange(0, 0));
    }
    while i < add.len()
        invariant
            0 <= i <= add.len(),
            out@ == old(out)@ + add@.subrange(0, i as int),
        decreases add.len() - i,
    {
        out.push(add[i]);
        i = i + 1;
        proof {
            assert(out@ =~= old(out)@ + add@.subrange(0, i as int));
        }
    }
    proof {
        assert(old(out)@ + add@.subrange(0, add@.len() as int) =~= old(out)@ + add@);
    }
}

/// Appends the characters of a string slice to `out`.
#[verifier::loop_isolation(false)]
fn push_str_chars(out: &mut Vec<char>, t: &str)
    ensures
        final(out)@ == old(out)@ + t@,
{
    let n = t.unicode_len();
    let mut i: usize = 0;
    proof {
        assert(out@ =~= old(out)@ + t@.subrange(0, 0));
    }
    while i < n
        invariant
            0 <= i <= n,
            n == t@.len(),
            out@ == old(out)@ + t@.subrange(0, i as int),
        decreases n - i,
    {
        out.push(t.get_char(i));
        i = i + 1;
        proof {
            assert(out@ =~= old(out)@ + t@.subrange(0, i as int));
        }
    }
    proof {
        assert(old(out)@ + t@.subrange(0, t@.len() as int) =~= old(out)@ + t@);
    }
}

/// Appends `n` spaces to `out`.
#[verifier::loop_isolation(false)]
fn push_spaces(out: &mut Vec<char>, n: usize)
    ensures
        final(out)@ == old(out)@ + spaces(n as int),
{
    let mut i: usize = 0;
    proof {
        assert(out@ =~= old(out)@ + spaces(0));
    }
    while i < n
        invariant
            0 <= i <= n,
            out@ == old(out)@ + spaces(i as int),
        decreases n - i,
    {
        out.push(' ');
        i = i + 1;
        proof {
            assert(out@ =~= old(out)@ + spaces(i as int));
        }
    }
}

impl Comment {
    /// Renders this comment as `// ` plus its message, verbatim.
    pub fn render(&self) -> (out: Vec<char>)
        ensures
            out@ == spec_render_comment(self@),
    {
        let mut out: Vec<char> = Vec::new();
        proof {
            reveal_strlit("// ");
        }
        push_str_chars(&mut out, "// ");
        push_chars(&mut out, &self.text);
        proof {
            assert(out@ =~= spec_render_comment(self@));
        }
        out
    }
}

impl Line {
    /// Renders this header line: text, one space, the comment if present,
    /// one line break.
    pub fn render(&self) -> (out: Vec<char>)
        ensures
            out@ == spec_render_line(self@),
    {
        let mut out: Vec<char> = Vec::new();
        push_chars(&mut out, &self.text);
        out.push(' ');
        match &self.comment {
            Option::Some(c) => {
                let r = c.render();
                push_chars(&mut out, &r);
            },
            Option::None => {},
        }
        out.push('\n');
        proof {
            assert(out@ =~= spec_render_line(self@));
        }
        out
    }
}

impl CSVLine {
    /// Renders this row: each field with its separating comma padded to the
    /// column width, a space and the comment if present, one line break.
    #[verifier::loop_isolation(false)]
    pub fn render(&self) -> (out: Vec<char>)
        ensures
            out@ == spec_render_csv_line(self@),
    {
        let mut out: Vec<char> = Vec::new();
        let n = self.values.len();
        let mut i: usize = 0;
        proof {
            assert(self@.values.skip(0) =~= self@.values);
            assert(out@ + spec_render_csv_fields(self@.values) =~= spec_render_csv_fields(
                self@.values,
            ));
        }
        while i < n
            invariant
                0 <= i <= n,
                n == self.values.len(),
                out@ + spec_render_csv_fields(self@.values.skip(i as int))
                    == spec_render_csv_fields(self@.values),
            decreases n - i,
        {
            let ghost prev = out@;
            let start = out.len();
            push_chars(&mut out, &self.values[i]);
            if i + 1 < n {
                out.push(',');
            }
            let ghost chunk = out@.subrange(prev.len() as int, out@.len() as int);
            proof {
                assert(self@.values[i as int] == self.values@[i as int]@);
                if i + 1 < n {
                    assert(chunk =~= self@.values[i as int] + seq![',']);
                } else {
                    assert(chunk =~= self@.values[i as int]);
                }
                assert(out@ =~= prev + chunk);
            }
            let w = out.len() - start;
            if w < COLUMN_WIDTH {
                push_spaces(&mut out, COLUMN_WIDTH - w);
            }
            proof {
                assert(w == chunk.len());
                assert(out@ =~= prev + pad_column(chunk));
                let vs = self@.values.skip(i as int);
                assert(vs[0] == self@.values[i as int]);
                assert(vs.drop_first() =~= self@.values.skip(i as int + 1));
                if i + 1 < n {
                    assert(vs.len() > 1);
                    assert(spec_render_csv_fields(vs) == pad_column(chunk)
                        + spec_render_csv_fields(self@.values.skip(i as int + 1)));
                } else {
                    assert(vs.len() == 1);
                    assert(spec_render_csv_fields(self@.values.skip(i as int + 1))
                        =~= Seq::<char>::empty());
                    assert(spec_render_csv_fields(vs) == pad_column(chunk));
                }
                assert((prev + pad_column(chunk)) + spec_render_csv_fields(
                    self@.values.skip(i as int + 1),
                ) =~= prev + (pad_column(chunk) + spec_render_csv_fields(
                    self@.values.skip(i as int + 1),
                )));
            }
            i = i + 1;
        }
        proof {
            assert(self@.values.skip(n as int) =~= Seq::<Seq<char>>::empty());
            assert(out@ + spec_render_csv_fields(self@.values.skip(n as int)) =~= out@);
        }
        match &self.comment {
            Option::Some(c) => {
                out.push(' ');
                let r = c.render();
                push_chars(&mut out, &r);
            },
            Option::None => {},
        }
        out.push('\n');
        proof {
            assert(out@ =~= spec_render_csv_line(self@));
        }
        out
    }
}

impl CategoryItem {
    /// Renders this item: eight leading spaces, the four fields joined with
    /// commas, a space and the comment if present, one line break.
    pub fn render(&self) -> (out: Vec<char>)
        ensures
            out@ == spec_render_category_item(self@),
    {
        let mut out: Vec<char> = Vec::new();
        push_spaces(&mut out, 8);
        push_chars(&mut out, &self.class);
        out.push(',');
        push_chars(&mut out, &self.amount);
        out.push(',');
        push_chars(&mut out, &self.buy_value);
        out.push(',');
        push_chars(&mut out, &self.sell_value);
        match &self.comment {
            Option::Some(c) => {
                out.push(' ');
                let r = c.render();
                push_chars(&mut out, &r);
            },
            Option::None => {},
        }
        out.push('\n');
        proof {
            assert(out@ =~= spec_render_category_item(self@));
        }
        out
    }
}

impl CurrencyToken {
    /// Renders this entry indented four spaces: a comment line, or a
    /// `<Currency> ` tag followed by the row.
    pub fn render(&self) -> (out: Vec<char>)
        ensures
            out@ == spec_render_currency_token(self@),
    {
        let mut out: Vec<char> = Vec::new();
        push_spaces(&mut out, 4);
        match self {
            CurrencyToken::Comment(c) => {
                let r = c.render();
                push_chars(&mut out, &r);
                out.push('\n');
            },
            CurrencyToken::Currency(row) => {
                proof {
                    reveal_strlit("<Currency> ");
                }
                push_str_chars(&mut out, "<Currency> ");
                let r = row.render();
                push_chars(&mut out, &r);
            },
        }
        proof {
            assert(out@ =~= spec_render_currency_token(self@));
        }
        out
    }
}

impl CurrencyName {
    /// Renders this currency table: its tag and header line, then each
    /// entry.
    #[verifier::loop_isolation(false)]
    pub fn render(&self) -> (out: Vec<char>)
        ensures
            out@ == spec_render_currency_name(self@),
    {
        let mut out: Vec<char> = Vec::new();
        proof {
            reveal_strlit("<CurrencyName> ");
        }
        push_str_chars(&mut out, "<CurrencyName> ");
        let r = self.name.render();
        push_chars(&mut out, &r);
        let ghost header = out@;
        proof {
            assert(self@.currencies.skip(0) =~= self@.currencies);
            assert(header + spec_render_currency_tokens(self@.currencies) =~= header
                + spec_render_currency_tokens(self@.currencies.skip(0)));
        }
        let n = self.currencies.len();
        let mut i: usize = 0;
        while i < n
            invariant
                0 <= i <= n,
                n == self.currencies.len(),
                out@ + spec_render_currency_tokens(self@.currencies.skip(i as int)) == header
                    + spec_render_currency_tokens(self@.currencies),
            decreases n - i,
        {
            let ghost prev = out@;
            let r2 = self.currencies[i].render();
            push_chars(&mut out, &r2);
            proof {
                let vs = self@.currencies.skip(i as int);
                assert(self@.currencies[i as int] == self.currencies@[i as int]@);
                assert(vs[0] == self@.currencies[i as int]);
                assert(vs.drop_first() =~= self@.currencies.skip(i as int + 1));
                assert((prev + r2@) + spec_render_currency_tokens(
                    self@.currencies.skip(i as int + 1),
                ) =~= prev + (spec_render_currency_token(vs[0]) + spec_render_currency_tokens(
                    vs.drop_first(),
                )));
            }
            i = i + 1;
        }
        proof {
            assert(self@.currencies.skip(n as int) =~= Seq::<CurrencyTokenView>::empty());
            assert(out@ + spec_render_currency_tokens(self@.currencies.skip(n as int)) =~= out@);
            assert(out@ =~= spec_render_currency_name(self@));
        }
        out
    }
}

impl CategoryItemToken {
    /// Renders this entry: a comment indented eight spaces, or an item row.
    pub fn render(&self) -> (out: Vec<char>)
        ensures
            out@ == spec_render_category_item_token(self@),
    {
        match self {
            CategoryItemToken::Comment(c) => {
                let mut out: Vec<char> = Vec::new();
                push_spaces(&mut out, 8);
                let r = c.render();
                push_chars(&mut out, &r);
                out.push('\n');
                proof {
                    assert(out@ =~= spec_render_category_item_token(self@));
                }
                out
            },
            CategoryItemToken::CategoryItem(it) => it.render(),
        }
    }
}

impl TraderCategory {
    /// Renders this category: its tag and header line indented four spaces,
    /// then each entry.
    #[verifier::loop_isolation(false)]
    pub fn render(&self) -> (out: Vec<char>)
        ensures
            out@ == spec_render_trader_category(self@),
    {
        let mut out: Vec<char> = Vec::new();
        push_spaces(&mut out, 4);
        proof {
            reveal_strlit("<Category> ");
        }
        push_str_chars(&mut out, "<Category> ");
        let r = self.name.render();
        push_chars(&mut out, &r);
        let ghost header = out@;
        proof {
            assert(self@.items.skip(0) =~= self@.items);
            assert(header + spec_render_category_item_tokens(self@.items) =~= header
                + spec_render_category_item_tokens(self@.items.skip(0)));
        }
        let n = self.items.len();
        let mut i: usize = 0;
        while i < n
            invariant
                0 <= i <= n,
                n == self.items.len(),
                out@ + spec_render_category_item_tokens(self@.items.skip(i as int)) == header
                    + spec_render_category_item_tokens(self@.items),
            decreases n - i,
        {
            let ghost prev = out@;
            let r2 = self.items[i].render();
            push_chars(&mut out, &r2);
            proof {
                let vs = self@.items.skip(i as int);
                assert(self@.items[i as int] == self.items@[i as int]@);
                assert(vs[0] == self@.items[i as int]);
                assert(vs.drop_first() =~= self@.items.skip(i as int + 1));
                assert((prev + r2@) + spec_render_category_item_tokens(
                    self@.items.skip(i as int + 1),
                ) =~= prev + (spec_render_category_item_token(vs[0])
                    + spec_render_category_item_tokens(vs.drop_first())));
            }
            i = i + 1;
        }
        proof {
            assert(self@.items.skip(n as int) =~= Seq::<CategoryItemTokenView>::empty());
            assert(out@ + spec_render_category_item_tokens(self@.items.skip(n as int)) =~= out@);
            assert(out@ =~= spec_render_trader_category(self@));
        }
        out
    }
}

impl TraderCategoryToken {
    /// Renders this entry: a comment indented four spaces, or a category
    /// block.
    pub fn render(&self) -> (out: Vec<char>)
        ensures
            out@ == spec_render_trader_category_token(self@),
    {
        match self {
            TraderCategoryToken::Comment(c) => {
                let mut out: Vec<char> = Vec::new();
                push_spaces(&mut out, 4);
                let r = c.render();
                push_chars(&mut out, &r);
                out.push('\n');
                proof {
                    assert(out@ =~= spec_render_trader_category_token(self@));
                }
                out
            },
            TraderCategoryToken::TraderCategory(tc) => tc.render(),
        }
    }
}

impl Trader {
    /// Renders this trader block: its tag and header line, then each entry.
    #[verifier::loop_isolation(false)]
    pub fn render(&self) -> (out: Vec<char>)
        ensures
            out@ == spec_render_trader(self@),
    {
        let mut out: Vec<char> = Vec::new();
        proof {
            reveal_strlit("<Trader> ");
        }
        push_str_chars(&mut out, "<Trader> ");
        let r = self.name.render();
        push_chars(&mut out, &r);
        let ghost header = out@;
        proof {
            assert(self@.categories.skip(0) =~= self@.categories);
            assert(header + spec_render_trader_category_tokens(self@.categories) =~= header
                + spec_render_trader_category_tokens(self@.categories.skip(0)));
        }
        let n = self.categories.len();
        let mut i: usize = 0;
        while i < n
            invariant
                0 <= i <= n,
                n == self.categories.len(),
                out@ + spec_render_trader_category_tokens(self@.categories.skip(i as int))
                    == header + spec_render_trader_category_tokens(self@.categories),
            decreases n - i,
        {
            let ghost prev = out@;
            let r2 = self.categories[i].render();
            push_chars(&mut out, &r2);
            proof {
                let vs = self@.categories.skip(i as int);
                assert(self@.categories[i as int] == self.categories@[i as int]@);
                assert(vs[0] == self@.categories[i as int]);
                assert(vs.drop_first() =~= self@.categories.skip(i as int + 1));
                assert((prev + r2@) + spec_render_trader_category_tokens(
                    self@.categories.skip(i as int + 1),
                ) =~= prev + (spec_render_trader_category_token(vs[0])
                    + spec_render_trader_category_tokens(vs.drop_first())));
            }
            i = i + 1;
        }
        proof {
            assert(self@.categories.skip(n as int) =~= Seq::<TraderCategoryTokenView>::empty());
            assert(out@ + spec_render_trader_category_tokens(self@.categories.skip(n as int))
                =~= out@);
            assert(out@ =~= spec_render_trader(self@));
        }
        out
    }
}

impl OpenFile {
    /// Renders this marker: its tag and the remainder of its line.
    pub fn render(&self) -> (out: Vec<char>)
        ensures
            out@ == spec_render_open_file(self@),
    {
        let mut out: Vec<char> = Vec::new();
        proof {
            reveal_strlit("<OpenFile> ");
        }
        push_str_chars(&mut out, "<OpenFile> ");
        let r = self.line.render();
        push_chars(&mut out, &r);
        proof {
            assert(out@ =~= spec_render_open_file(self@));
        }
        out
    }
}

impl FileEnd {
    /// Renders this marker: its tag and the remainder of its line.
    pub fn render(&self) -> (out: Vec<char>)
        ensures
            out@ == spec_render_file_end(self@),
    {
        let mut out: Vec<char> = Vec::new();
        proof {
            reveal_strlit("<FileEnd> ");
        }
        push_str_chars(&mut out, "<FileEnd> ");
        let r = self.line.render();
        push_chars(&mut out, &r);
        proof {
            assert(out@ =~= spec_render_file_end(self@));
        }
        out
    }
}

impl Token {
    /// Renders this top-level token.
    pub fn render(&self) -> (out: Vec<char>)
        ensures
            out@ == spec_render_token(self@),
    {
        match self {
            Token::Comment(c) => {
                let mut out = c.render();
                out.push('\n');
                proof {
                    assert(out@ =~= spec_render_token(self@));
                }
                out
            },
            Token::CurrencyName(cn) => cn.render(),
            Token::Trader(t) => t.render(),
            Token::OpenFile(o) => o.render(),
            Token::FileEnd(fe) => fe.render(),
        }
    }
}

/// Renders a whole token sequence: each token's rendering, concatenated in
/// order.
#[verifier::loop_isolation(false)]
pub fn render_tokens(tokens: &Vec<Token>) -> (out: Vec<char>)
    ensures
        out@ == spec_render_tokens(tokens.deep_view()),
{
    let mut out: Vec<char> = Vec::new();
    proof {
        assert(tokens.deep_view().skip(0) =~= tokens.deep_view());
        assert(out@ + spec_render_tokens(tokens.deep_view()) =~= spec_render_tokens(
            tokens.deep_view(),
        ));
    }
    let n = tokens.len();
    let mut i: usize = 0;
    while i < n
        invariant
            0 <= i <= n,
            n == tokens.len(),
            out@ + spec_render_tokens(tokens.deep_view().skip(i as int)) == spec_render_tokens(
                tokens.deep_view(),
            ),
        decreases n - i,
    {
        let ghost prev = out@;
        let r = tokens[i].render();
        push_chars(&mut out, &r);
        proof {
            let vs = tokens.deep_view().skip(i as int);
            assert(tokens.deep_view()[i as int] == tokens@[i as int]@);
            assert(vs[0] == tokens.deep_view()[i as int]);
            assert(vs.drop_first() =~= tokens.deep_view().skip(i as int + 1));
            assert((prev + r@) + spec_render_tokens(tokens.deep_view().skip(i as int + 1))
                =~= prev + (spec_render_token(vs[0]) + spec_render_tokens(vs.drop_first())));
        }
        i = i + 1;
    }
    proof {
        assert(tokens.deep_view().skip(n as int) =~= Seq::<TokenView>::empty());
        assert(out@ + spec_render_tokens(tokens.deep_view().skip(n as int)) =~= out@);
    }
    out
}

} // verus!
