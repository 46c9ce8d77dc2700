use trade_config_formatter::ast::{CSVLine, Comment, Line};
use trade_config_formatter::parser::process_file;
use trade_config_formatter::render::render_tokens;

fn chars(s: &str) -> Vec<char> {
    s.chars().collect()
}

fn text(v: &[char]) -> String {
    v.iter().collect()
}

fn reformat(input: &str) -> String {
    let tokens = process_file(input.to_string()).unwrap();
    text(&render_tokens(&tokens))
}

#[test]
fn comment_renders_with_marker_prefix() {
    let c = Comment { text: chars("keep me") };
    assert_eq!(text(&c.render()), "// keep me");
}

#[test]
fn line_renders_text_space_newline() {
    let l = Line { text: chars("Bob"), comment: None };
    assert_eq!(text(&l.render()), "Bob \n");
    let lc = Line { text: chars("Bob"), comment: Some(Comment { text: chars("hi") }) };
    assert_eq!(text(&lc.render()), "Bob // hi\n");
}

#[test]
fn currency_row_columns_are_padded_to_sixty() {
    let row = CSVLine { values: vec![chars("1"), chars("100")], comment: None };
    let rendered = text(&row.render());
    let mut expected = String::new();
    expected.push_str("1,");
    expected.push_str(&" ".repeat(58));
    expected.push_str("100");
    expected.push_str(&" ".repeat(57));
    expected.push('\n');
    assert_eq!(rendered, expected);
}

#[test]
fn long_currency_field_is_not_truncated() {
    let long = "x".repeat(70);
    let row = CSVLine { values: vec![chars(&long), chars("2")], comment: None };
    let rendered = text(&row.render());
    let mut expected = String::new();
    expected.push_str(&long);
    expected.push(',');
    expected.push_str("2");
    expected.push_str(&" ".repeat(59));
    expected.push('\n');
    assert_eq!(rendered, expected);
}

#[test]
fn category_item_renders_with_eight_spaces_and_plain_commas() {
    let out = reformat("<Trader> Bob\n    <Category> Weapons\n        AK47,10,100,50\n");
    assert_eq!(out, "<Trader> Bob \n    <Category> Weapons \n        AK47,10,100,50\n");
}

#[test]
fn currency_table_reformats_with_tag_and_padding() {
    let out = reformat("<CurrencyName> USD\n    <Currency> 1,100\n");
    let mut expected = String::from("<CurrencyName> USD \n    <Currency> 1,");
    expected.push_str(&" ".repeat(58));
    expected.push_str("100");
    expected.push_str(&" ".repeat(57));
    expected.push('\n');
    assert_eq!(out, expected);
}

#[test]
fn comments_reformat_with_marker_everywhere() {
    let out = reformat(
        "// top\n<CurrencyName> C\n    //table\n<Trader> T\n    //trader\n    <Category> W\n        //cat\n        A,1,2,3\n",
    );
    assert_eq!(
        out,
        "// top\n<CurrencyName> C \n    // table\n<Trader> T \n    // trader\n    <Category> W \n        // cat\n        A,1,2,3\n"
    );
}

#[test]
fn formatting_is_idempotent_on_its_own_output() {
    let input = "  // intro\n<OpenFile> data/file.txt\n<CurrencyName>   Rubles // money\n    <Currency>   1 ,  100\n    // small notes\n<Trader> Bob // the vendor\n    // misc\n    <Category> Weapons\n        // guns below\n        AK47 , 10 ,100, 50 // rifle\n        M4,5,200,80\n<FileEnd> done\n";
    let once = reformat(input);
    let twice = reformat(&once);
    assert_eq!(once, twice);
}

#[test]
fn markers_reformat_with_their_tags() {
    let out = reformat("<OpenFile> a\n<FileEnd> b\n");
    assert_eq!(out, "<OpenFile> a \n<FileEnd> b \n");
}

#[test]
fn empty_header_text_is_stable() {
    let once = reformat("<Trader>\n");
    assert_eq!(once, "<Trader>  \n");
    assert_eq!(reformat(&once), once);
}

#[test]
fn empty_comment_is_stable() {
    let once = reformat("//\n<OpenFile> a\n");
    assert_eq!(once, "// \n<OpenFile> a \n");
    assert_eq!(reformat(&once), once);
}

#[test]
fn comment_only_currency_row_is_stable() {
    let once = reformat("<CurrencyName> C\n    <Currency> // nothing here\n");
    assert_eq!(once, "<CurrencyName> C \n    <Currency>  // nothing here\n");
    assert_eq!(reformat(&once), once);
}
