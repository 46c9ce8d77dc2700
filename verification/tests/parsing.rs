use trade_config_formatter::ast::{
    CSVLine, CategoryItem, CategoryItemToken, Comment, CurrencyToken, ParseError, TagKind, Token,
    TraderCategoryToken,
};
use trade_config_formatter::parser::process_file;

fn chars(s: &str) -> Vec<char> {
    s.chars().collect()
}

#[test]
fn empty_input_yields_no_tokens() {
    let tokens = process_file(String::new()).unwrap();
    assert!(tokens.is_empty());
}

#[test]
fn trader_with_category_and_item() {
    let input = "<Trader> Bob\n    <Category> Weapons\n        AK47,10,100,50\n";
    let tokens = process_file(input.to_string()).unwrap();
    assert_eq!(tokens.len(), 1);
    match &tokens[0] {
        Token::Trader(t) => {
            assert_eq!(t.name.text, chars("Bob"));
            assert!(t.name.comment.is_none());
            assert_eq!(t.categories.len(), 1);
            match &t.categories[0] {
                TraderCategoryToken::TraderCategory(c) => {
                    assert_eq!(c.name.text, chars("Weapons"));
                    assert_eq!(c.items.len(), 1);
                    match &c.items[0] {
                        CategoryItemToken::CategoryItem(item) => {
                            assert_eq!(item.class, chars("AK47"));
                            assert_eq!(item.amount, chars("10"));
                            assert_eq!(item.buy_value, chars("100"));
                            assert_eq!(item.sell_value, chars("50"));
                            assert!(item.comment.is_none());
                        },
                        other => panic!("expected an item, got {:?}", other),
                    }
                },
                other => panic!("expected a category, got {:?}", other),
            }
        },
        other => panic!("expected a trader, got {:?}", other),
    }
}

#[test]
fn currency_table_with_row() {
    let input = "<CurrencyName> USD\n    <Currency> 1,100\n";
    let tokens = process_file(input.to_string()).unwrap();
    assert_eq!(tokens.len(), 1);
    match &tokens[0] {
        Token::CurrencyName(cn) => {
            assert_eq!(cn.name.text, chars("USD"));
            assert_eq!(cn.currencies.len(), 1);
            match &cn.currencies[0] {
                CurrencyToken::Currency(row) => {
                    assert_eq!(row.values, vec![chars("1"), chars("100")]);
                    assert!(row.comment.is_none());
                },
                other => panic!("expected a currency row, got {:?}", other),
            }
        },
        other => panic!("expected a currency table, got {:?}", other),
    }
}

#[test]
fn three_field_category_row_is_malformed() {
    let input = "<Trader> T\n    <Category> Food\n        Apple,5,1\n";
    let err = process_file(input.to_string()).unwrap_err();
    match err {
        ParseError::MalformedRow { row } => {
            assert_eq!(row.values, vec![chars("Apple"), chars("5"), chars("1")]);
        },
        other => panic!("expected a malformed row, got {:?}", other),
    }
}

#[test]
fn five_field_category_row_is_malformed() {
    let input = "<Trader> T\n    <Category> Food\n        Apple,5,1,2,3\n";
    let err = process_file(input.to_string()).unwrap_err();
    match err {
        ParseError::MalformedRow { row } => {
            assert_eq!(row.values.len(), 5);
        },
        other => panic!("expected a malformed row, got {:?}", other),
    }
}

#[test]
fn top_level_comment_is_preserved_verbatim() {
    let tokens = process_file("// hello world\n".to_string()).unwrap();
    assert_eq!(tokens.len(), 1);
    match &tokens[0] {
        Token::Comment(c) => assert_eq!(c.text, chars("hello world")),
        other => panic!("expected a comment, got {:?}", other),
    }
}

#[test]
fn comments_inside_blocks_are_preserved() {
    let input = "<CurrencyName> USD\n    // table note\n    <Currency> 1,100 // half\n";
    let tokens = process_file(input.to_string()).unwrap();
    match &tokens[0] {
        Token::CurrencyName(cn) => {
            assert_eq!(cn.currencies.len(), 2);
            match &cn.currencies[0] {
                CurrencyToken::Comment(c) => assert_eq!(c.text, chars("table note")),
                other => panic!("expected a comment, got {:?}", other),
            }
            match &cn.currencies[1] {
                CurrencyToken::Currency(row) => {
                    assert_eq!(row.values, vec![chars("1"), chars("100")]);
                    assert_eq!(row.comment.as_ref().unwrap().text, chars("half"));
                },
                other => panic!("expected a currency row, got {:?}", other),
            }
        },
        other => panic!("expected a currency table, got {:?}", other),
    }
}

#[test]
fn stray_characters_between_tags_are_skipped() {
    let input = "<OpenFile> a\nGARBAGE xx\n<FileEnd> b\n";
    let tokens = process_file(input.to_string()).unwrap();
    assert_eq!(tokens.len(), 2);
    assert!(matches!(tokens[0], Token::OpenFile(_)));
    assert!(matches!(tokens[1], Token::FileEnd(_)));
}

#[test]
fn unclosed_tag_is_an_error() {
    let err = process_file("<Trader\nx".to_string()).unwrap_err();
    match err {
        ParseError::UnclosedTag { tag } => assert_eq!(tag, TagKind::CurrencyName),
        other => panic!("expected an unclosed tag, got {:?}", other),
    }
}

#[test]
fn tag_running_to_end_of_input_is_a_cursor_error() {
    let err = process_file("<Trader".to_string()).unwrap_err();
    match err {
        ParseError::CursorAdvance { tag } => assert_eq!(tag, TagKind::Trader),
        other => panic!("expected a cursor-advance error, got {:?}", other),
    }
}

#[test]
fn header_text_is_trimmed() {
    let input = "<Trader>    Bob   \n";
    let tokens = process_file(input.to_string()).unwrap();
    match &tokens[0] {
        Token::Trader(t) => assert_eq!(t.name.text, chars("Bob")),
        other => panic!("expected a trader, got {:?}", other),
    }
}

#[test]
fn empty_csv_fields_are_dropped() {
    let input = "<CurrencyName> C\n    <Currency> 1,,100,\n";
    let tokens = process_file(input.to_string()).unwrap();
    match &tokens[0] {
        Token::CurrencyName(cn) => match &cn.currencies[0] {
            CurrencyToken::Currency(row) => {
                assert_eq!(row.values, vec![chars("1"), chars("100")]);
            },
            other => panic!("expected a currency row, got {:?}", other),
        },
        other => panic!("expected a currency table, got {:?}", other),
    }
}

#[test]
fn currency_table_ends_at_next_top_level_tag() {
    let input = "<CurrencyName> C\n    <Currency> 1,2\n<Trader> T\n";
    let tokens = process_file(input.to_string()).unwrap();
    assert_eq!(tokens.len(), 2);
    assert!(matches!(tokens[0], Token::CurrencyName(_)));
    assert!(matches!(tokens[1], Token::Trader(_)));
}

#[test]
fn header_comment_is_attached_to_the_line() {
    let input = "<OpenFile> path // origin\n";
    let tokens = process_file(input.to_string()).unwrap();
    match &tokens[0] {
        Token::OpenFile(o) => {
            assert_eq!(o.line.text, chars("path"));
            assert_eq!(o.line.comment.as_ref().unwrap().text, chars("origin"));
        },
        other => panic!("expected an open-file marker, got {:?}", other),
    }
}

#[test]
fn category_item_keeps_trailing_comment() {
    let input = "<Trader> T\n    <Category> W\n        AK,1,2,3 // rare\n";
    let tokens = process_file(input.to_string()).unwrap();
    match &tokens[0] {
        Token::Trader(t) => match &t.categories[0] {
            TraderCategoryToken::TraderCategory(c) => match &c.items[0] {
                CategoryItemToken::CategoryItem(item) => {
                    assert_eq!(item.class, chars("AK"));
                    assert_eq!(item.comment.as_ref().unwrap().text, chars("rare"));
                },
                other => panic!("expected an item, got {:?}", other),
            },
            other => panic!("expected a category, got {:?}", other),
        },
        other => panic!("expected a trader, got {:?}", other),
    }
}

#[test]
fn try_from_rejects_wrong_field_counts() {
    let row = CSVLine { values: vec![chars("a"), chars("b"), chars("c")], comment: None };
    assert!(matches!(
        CategoryItem::try_from(row),
        Err(ParseError::MalformedRow { .. })
    ));
    let ok = CSVLine {
        values: vec![chars("a"), chars("b"), chars("c"), chars("d")],
        comment: Some(Comment { text: chars("note") }),
    };
    let item = CategoryItem::try_from(ok).unwrap();
    assert_eq!(item.class, chars("a"));
    assert_eq!(item.amount, chars("b"));
    assert_eq!(item.buy_value, chars("c"));
    assert_eq!(item.sell_value, chars("d"));
    assert_eq!(item.comment.unwrap().text, chars("note"));
}

#[test]
fn single_slash_is_plain_content() {
    let input = "<OpenFile> a/b\n";
    let tokens = process_file(input.to_string()).unwrap();
    match &tokens[0] {
        Token::OpenFile(o) => {
            assert_eq!(o.line.text, chars("a/b"));
            assert!(o.line.comment.is_none());
        },
        other => panic!("expected an open-file marker, got {:?}", other),
    }
}

#[test]
fn pending_field_at_end_of_input_is_dropped() {
    let input = "<CurrencyName> C\n    <Currency> 1,100";
    let tokens = process_file(input.to_string()).unwrap();
    match &tokens[0] {
        Token::CurrencyName(cn) => match &cn.currencies[0] {
            CurrencyToken::Currency(row) => {
                assert_eq!(row.values, vec![chars("1")]);
            },
            other => panic!("expected a currency row, got {:?}", other),
        },
        other => panic!("expected a currency table, got {:?}", other),
    }
}
