//! The token tree produced by the parser and consumed by the formatter.
//!
//! All leaf text is held as owned `Vec<char>`, so a node never borrows from
//! the source buffer. Each executable type has a ghost view (`...View`) over
//! `Seq<char>`, and the parser's and formatter's contracts are stated over
//! those views.

use vstd::prelude::*;

verus! {

/// A comment: the message after the `//` marker, trimmed at the front.
#[derive(Debug, Clone, PartialEq, Eq)]
pub struct Comment {
    pub text: Vec<char>,
}

impl View for Comment {
    type V = Seq<char>;

    open spec fn view(&self) -> Seq<char> {
        self.text@
    }
}

/// The view of an optional trailing comment.
pub open spec fn opt_comment_view(c: &Option<Comment>) -> Option<Seq<char>> {
    match c {
        Option::Some(cm) => Option::Some(cm@),
        Option::None => Option::None,
    }
}

/// The free-form remainder of a header line: trimmed text plus an optional
/// trailing comment.
#[derive(Debug, Clone, PartialEq, Eq)]
pub struct Line {
    pub text: Vec<char>,
    pub comment: Option<Comment>,
}

#[verifier::ext_equal]
pub ghost struct LineView {
    pub text: Seq<char>,
    pub comment: Option<Seq<char>>,
}

impl View for Line {
    type V = LineView;

    open spec fn view(&self) -> LineView {
        LineView { text: self.text@, comment: opt_comment_view(&self.comment) }
    }
}

/// A comma-separated row: the trimmed, non-empty fields in source order plus
/// an optional trailing comment. A row may have zero fields when the line
/// carried only a comment.
#[derive(Debug, Clone, PartialEq, Eq)]
pub struct CSVLine {
    pub values: Vec<Vec<char>>,
    pub comment: Option<Comment>,
}

#[verifier::ext_equal]
pub ghost struct CSVLineView {
    pub values: Seq<Seq<char>>,
    pub comment: Option<Seq<char>>,
}

impl View for CSVLine {
    type V = CSVLineView;

    open spec fn view(&self) -> CSVLineView {
        CSVLineView { values: self.values.deep_view(), comment: opt_comment_view(&self.comment) }
    }
}

/// A validated category row: exactly four fields, in order the item's class
/// identifier, amount, buy value and sell value.
#[derive(Debug, Clone, PartialEq, Eq)]
pub struct CategoryItem {
    pub class: Vec<char>,
    pub amount: Vec<char>,
    pub buy_value: Vec<char>,
    pub sell_value: Vec<char>,
    pub comment: Option<Comment>,
}

#[verifier::ext_equal]
pub ghost struct CategoryItemView {
    pub class: Seq<char>,
    pub amount: Seq<char>,
    pub buy_value: Seq<char>,
    pub sell_value: Seq<char>,
    pub comment: Option<Seq<char>>,
}

impl View for CategoryItem {
    type V = CategoryItemView;

    open spec fn view(&self) -> CategoryItemView {
        CategoryItemView {
            class: self.class@,
            amount: self.amount@,
            buy_value: self.buy_value@,
            sell_value: self.sell_value@,
            comment: opt_comment_view(&self.comment),
        }
    }
}

/// One entry of a currency table: a comment or a currency row.
#[derive(Debug, Clone, PartialEq, Eq)]
pub enum CurrencyToken {
    Comment(Comment),
    Currency(CSVLine),
}

pub ghost enum CurrencyTokenView {
    Comment(Seq<char>),
    Currency(CSVLineView),
}

impl View for CurrencyToken {
    type V = CurrencyTokenView;

    open spec fn view(&self) -> CurrencyTokenView {
        match self {
            CurrencyToken::Comment(c) => CurrencyTokenView::Comment(c@),
            CurrencyToken::Currency(c) => CurrencyTokenView::Currency(c@),
        }
    }
}

impl DeepView for CurrencyToken {
    type V = CurrencyTokenView;

    open spec fn deep_view(&self) -> CurrencyTokenView {
        self.view()
    }
}

/// A currency table: its header line and its entries in source order.
#[derive(Debug, Clone, PartialEq, Eq)]
pub struct CurrencyName {
    pub name: Line,
    pub currencies: Vec<CurrencyToken>,
}

#[verifier::ext_equal]
pub ghost struct CurrencyNameView {
    pub name: LineView,
    pub currencies: Seq<CurrencyTokenView>,
}

impl View for CurrencyName {
    type V = CurrencyNameView;

    open spec fn view(&self) -> CurrencyNameView {
        CurrencyNameView { name: self.name@, currencies: self.currencies.deep_view() }
    }
}

/// One entry of a category: a comment or a validated item row.
#[derive(Debug, Clone, PartialEq, Eq)]
pub enum CategoryItemToken {
    CategoryItem(CategoryItem),
    Comment(Comment),
}

pub ghost enum CategoryItemTokenView {
    CategoryItem(CategoryItemView),
    Comment(Seq<char>),
}

impl View for CategoryItemToken {
    type V = CategoryItemTokenView;

    open spec fn view(&self) -> CategoryItemTokenView {
        match self {
            CategoryItemToken::CategoryItem(i) => CategoryItemTokenView::CategoryItem(i@),
            CategoryItemToken::Comment(c) => CategoryItemTokenView::Comment(c@),
        }
    }
}

impl DeepView for CategoryItemToken {
    type V = CategoryItemTokenView;

    open spec fn deep_view(&self) -> CategoryItemTokenView {
        self.view()
    }
}

/// A trader category: its header line and its entries in source order.
#[derive(Debug, Clone, PartialEq, Eq)]
pub struct TraderCategory {
    pub name: Line,
    pub items: Vec<CategoryItemToken>,
}

#[verifier::ext_equal]
pub ghost struct TraderCategoryView {
    pub name: LineView,
    pub items: Seq<CategoryItemTokenView>,
}

impl View for TraderCategory {
    type V = TraderCategoryView;

    open spec fn view(&self) -> TraderCategoryView {
        TraderCategoryView { name: self.name@, items: self.items.deep_view() }
    }
}

/// One entry of a trader block: a comment or a category.
#[derive(Debug, Clone, PartialEq, Eq)]
pub enum TraderCategoryToken {
    TraderCategory(TraderCategory),
    Comment(Comment),
}

pub ghost enum TraderCategoryTokenView {
    TraderCategory(TraderCategoryView),
    Comment(Seq<char>),
}

impl View for TraderCategoryToken {
    type V = TraderCategoryTokenView;

    open spec fn view(&self) -> TraderCategoryTokenView {
        match self {
            TraderCategoryToken::TraderCategory(c) => {
                TraderCategoryTokenView::TraderCategory(c@)
            },
            TraderCategoryToken::Comment(c) => TraderCategoryTokenView::Comment(c@),
        }
    }
}

impl DeepView for TraderCategoryToken {
    type V = TraderCategoryTokenView;

    open spec fn deep_view(&self) -> TraderCategoryTokenView {
        self.view()
    }
}

/// A trader block: its header line and its entries in source order.
#[derive(Debug, Clone, PartialEq, Eq)]
pub struct Trader {
    pub name: Line,
    pub categories: Vec<TraderCategoryToken>,
}

#[verifier::ext_equal]
pub ghost struct TraderView {
    pub name: LineView,
    pub categories: Seq<TraderCategoryTokenView>,
}

impl View for Trader {
    type V = TraderView;

    open spec fn view(&self) -> TraderView {
        TraderView { name: self.name@, categories: self.categories.deep_view() }
    }
}

/// The marker opening a file section: the remainder of its line.
#[derive(Debug, Clone, PartialEq, Eq)]
pub struct OpenFile {
    pub line: Line,
}

impl View for OpenFile {
    type V = LineView;

    open spec fn view(&self) -> LineView {
        self.line@
    }
}

/// The marker closing a file section: the remainder of its line.
#[derive(Debug, Clone, PartialEq, Eq)]
pub struct FileEnd {
    pub line: Line,
}

impl View for FileEnd {
    type V = LineView;

    open spec fn view(&self) -> LineView {
        self.line@
    }
}

/// A top-level unit of the document.
#[derive(Debug, Clone, PartialEq, Eq)]
pub enum Token {
    Comment(Comment),
    CurrencyName(CurrencyName),
    Trader(Trader),
    OpenFile(OpenFile),
    FileEnd(FileEnd),
}

pub ghost enum TokenView {
    Comment(Seq<char>),
    CurrencyName(CurrencyNameView),
    Trader(TraderView),
    OpenFile(LineView),
    FileEnd(LineView),
}

impl View for Token {
    type V = TokenView;

    open spec fn view(&self) -> TokenView {
        match self {
            Token::Comment(c) => TokenView::Comment(c@),
            Token::CurrencyName(c) => TokenView::CurrencyName(c@),
            Token::Trader(t) => TokenView::Trader(t@),
            Token::OpenFile(o) => TokenView::OpenFile(o@),
            Token::FileEnd(fe) => TokenView::FileEnd(fe@),
        }
    }
}

impl DeepView for Token {
    type V = TokenView;

    open spec fn deep_view(&self) -> TokenView {
        self.view()
    }
}

/// The view of an optional row.
pub open spec fn opt_csv_view(o: &Option<CSVLine>) -> Option<CSVLineView> {
    match o {
        Option::Some(c) => Option::Some(c@),
        Option::None => Option::None,
    }
}

/// The tagged construct a parse error was found in.
#[derive(Debug, Clone, Copy, PartialEq, Eq, Structural)]
pub enum TagKind {
    CurrencyName,
    Currency,
    Trader,
    Category,
    OpenFile,
    FileEnd,
}

/// A structural parse failure. Every variant carries what a caller needs for
/// a human-readable diagnosis: the construct being parsed, and for a
/// malformed row the row's content itself.
#[derive(Debug, Clone, PartialEq, Eq)]
pub enum ParseError {
    /// A tag's opening line ended before `>` or `/` closed the tag.
    UnclosedTag { tag: TagKind },
    /// A matched tag ran to the end of the input, so the cursor could not be
    /// moved past it.
    CursorAdvance { tag: TagKind },
    /// A category row whose field count is not exactly four.
    MalformedRow { row: CSVLine },
}

pub ghost enum ParseErrorView {
    UnclosedTag { tag: TagKind },
    CursorAdvance { tag: TagKind },
    MalformedRow { row: CSVLineView },
}

impl View for ParseError {
    type V = ParseErrorView;

    open spec fn view(&self) -> ParseErrorView {
        match self {
            ParseError::UnclosedTag { tag } => ParseErrorView::UnclosedTag { tag: *tag },
            ParseError::CursorAdvance { tag } => ParseErrorView::CursorAdvance { tag: *tag },
            ParseError::MalformedRow { row } => ParseErrorView::MalformedRow { row: row@ },
        }
    }
}

impl CategoryItem {
    /// Refines a row into a category item. The row must have exactly four
    /// fields — class, amount, buy value, sell value, in that order — and any
    /// other count is a malformed-row error carrying the row itself.
    pub fn try_from(value: CSVLine) -> (r: Result<CategoryItem, ParseError>)
        ensures
            r is Ok <==> value@.values.len() == 4,
            r matches Ok(item) ==> item@ == (CategoryItemView {
                class: value@.values[0],
                amount: value@.values[1],
                buy_value: value@.values[2],
                sell_value: value@.values[3],
                comment: value@.comment,
            }),
            r matches Err(e) ==> e@ == (ParseErrorView::MalformedRow { row: value@ }),
    {
        if value.values.len() != 4 {
            return Result::Err(ParseError::MalformedRow { row: value });
        }
        let mut vals = value.values;
        let ghost v4 = vals@;
        let sell_value = vals.pop().unwrap();
        let buy_value = vals.pop().unwrap();
        let amount = vals.pop().unwrap();
        let class = vals.pop().unwrap();
        proof {
            assert(sell_value == v4[3]);
            assert(buy_value == v4[2]);
            assert(amount == v4[1]);
            assert(class == v4[0]);
            assert(value@.values[0] == v4[0]@);
            assert(value@.values[1] == v4[1]@);
            assert(value@.values[2] == v4[2]@);
            assert(value@.values[3] == v4[3]@);
        }
        Result::Ok(
            CategoryItem { class, amount, buy_value, sell_value, comment: value.comment },
        )
    }
}

} // verus!
