use kiwix_catalog::page::{
    find_blank, multiplier_of, parse_page, parse_with, row_from_groups, rows_from_matches,
    PageError, PageRow,
};

fn row_text(category: &str, size: &str, name: &str, url: &str) -> String {
    format!(
        "<tr>\n<td>{category}</td>\n<td>en</td>\n<td>{size}</td>\n<td>2023-09</td>\n<td>{name}</td>\n<td><a rel=\"nofollow\" class=\"external text\" href=\"{url}\">\u{2b07} Download</a></td>\n</tr>\n"
    )
}

fn fields(row: &PageRow) -> (&str, &str, u64, &str, &str) {
    (&row.category, &row.magnitude, row.multiplier, &row.name, &row.url)
}

fn some(text: &str) -> Option<String> {
    Some(text.to_string())
}

#[test]
fn parse_page_reads_the_rows_in_order() {
    let page = format!(
        "<table>\n{}{}{}</table>",
        row_text("wikipedia (English)", "12.5 GB", "Wikipedia All", "https://download.kiwix.org/zim/wikipedia_en_all.zim"),
        row_text("ted (English)", "700 mb", "", "https://download.kiwix.org/zim/ted.zim"),
        row_text("gutenberg (English)", "17 bytes", "Gutenberg", "https://download.kiwix.org/zim/gutenberg.zim"),
    );
    let rows = parse_page(&page).unwrap();
    assert_eq!(rows.len(), 3);
    assert_eq!(
        fields(&rows[0]),
        ("wikipedia", "12.5", 1_073_741_824, "Wikipedia All", "https://download.kiwix.org/zim/wikipedia_en_all.zim")
    );
    assert_eq!(fields(&rows[1]), ("ted", "700", 1_048_576, "", "https://download.kiwix.org/zim/ted.zim"));
    assert_eq!(
        fields(&rows[2]),
        ("gutenberg", "17", 1, "Gutenberg", "https://download.kiwix.org/zim/gutenberg.zim")
    );
}

#[test]
fn parse_page_skips_rows_in_other_languages() {
    let page = "<td>wikipedia (Deutsch)</td>\n<td>de</td>\n<td>1 GB</td>\n<td>x</td>\n<td>n</td>\n<td><a rel=\"nofollow\" href=\"u\">x Download</a>";
    assert!(parse_page(page).unwrap().is_empty());
    assert!(parse_page("").unwrap().is_empty());
}

#[test]
fn parse_page_rejects_a_category_without_the_language() {
    let page = row_text("wikipedia", "1 GB", "n", "u");
    assert_eq!(parse_page(&page).unwrap_err(), PageError::Language);
}

#[test]
fn parse_page_rejects_a_size_without_a_unit() {
    let page = row_text("wikipedia (English)", "1GB", "n", "u");
    assert_eq!(parse_page(&page).unwrap_err(), PageError::Size);
}

#[test]
fn parse_page_reports_the_first_bad_row() {
    let page = format!(
        "{}{}{}",
        row_text("a (English)", "1 kb", "n", "u"),
        row_text("b (English)", "1kb", "n", "u"),
        row_text("c", "1 kb", "n", "u"),
    );
    assert_eq!(parse_page(&page).unwrap_err(), PageError::Size);
}

#[test]
fn parse_with_rejects_a_bad_pattern() {
    assert_eq!(parse_with("(", "anything").unwrap_err(), PageError::Pattern);
}

#[test]
fn parse_with_rejects_a_pattern_with_too_few_groups() {
    assert_eq!(parse_with("(a)(b)", "ab").unwrap_err(), PageError::Fields);
}

#[test]
fn parse_with_rejects_a_group_that_took_no_part() {
    assert_eq!(parse_with("(a)(b)(c)?(d)", "abd").unwrap_err(), PageError::Fields);
}

#[test]
fn parse_with_reads_the_groups_of_each_match() {
    let rows = parse_with("<(.+?)\\|(.+?)\\|(.*?)\\|(.+?)>", "<a (English)|2 kb|n|u> <b (English)|3 x y|m|v>").unwrap();
    assert_eq!(rows.len(), 2);
    assert_eq!(fields(&rows[0]), ("a", "2", 1024, "n", "u"));
    assert_eq!(fields(&rows[1]), ("b", "3", 1, "m", "v"));
}

#[test]
fn multiplier_follows_the_unit() {
    assert_eq!(multiplier_of("kb"), 1024);
    assert_eq!(multiplier_of("KB"), 1024);
    assert_eq!(multiplier_of("Mb"), 1_048_576);
    assert_eq!(multiplier_of("gB"), 1_073_741_824);
    assert_eq!(multiplier_of("tb"), 1);
    assert_eq!(multiplier_of(""), 1);
    assert_eq!(multiplier_of("kb "), 1);
}

#[test]
fn find_blank_finds_the_first() {
    assert_eq!(find_blank("12.5 GB"), Some(4));
    assert_eq!(find_blank("é b c"), Some(1));
    assert_eq!(find_blank(" x"), Some(0));
    assert_eq!(find_blank("12.5GB"), None);
    assert_eq!(find_blank(""), None);
}

#[test]
fn row_from_groups_splits_at_the_first_blank() {
    let row = row_from_groups(&vec![
        some("whole"),
        some("münchen (English) (English)"),
        some("1.5 Kb extra"),
        some("Name"),
        some("url"),
    ])
    .unwrap();
    assert_eq!(fields(&row), ("münchen (English)", "1.5", 1, "Name", "url"));
    let row = row_from_groups(&vec![some("w"), some(" (English)"), some(" "), some(""), some("")]).unwrap();
    assert_eq!(fields(&row), ("", "", 1, "", ""));
}

#[test]
fn row_from_groups_wants_four_fields() {
    let short = vec![some("w"), some("a (English)"), some("1 kb"), some("n")];
    assert_eq!(row_from_groups(&short).unwrap_err(), PageError::Fields);
    let missing = vec![some("w"), some("a (English)"), None, some("n"), some("u")];
    assert_eq!(row_from_groups(&missing).unwrap_err(), PageError::Fields);
    let unmarked = vec![None, some("a (english)"), some("1 kb"), some("n"), some("u")];
    assert_eq!(row_from_groups(&unmarked).unwrap_err(), PageError::Language);
}

#[test]
fn rows_from_matches_stops_at_the_first_error() {
    let good = vec![some("w"), some("a (English)"), some("1 kb"), some("n"), some("u")];
    let no_unit = vec![some("w"), some("a (English)"), some("1kb"), some("n"), some("u")];
    let no_mark = vec![some("w"), some("a"), some("1 kb"), some("n"), some("u")];
    assert_eq!(rows_from_matches(&vec![good.clone(), good.clone()]).unwrap().len(), 2);
    assert_eq!(
        rows_from_matches(&vec![good.clone(), no_mark.clone(), no_unit.clone()]).unwrap_err(),
        PageError::Language
    );
    assert_eq!(rows_from_matches(&vec![no_unit, no_mark, good]).unwrap_err(), PageError::Size);
    assert!(rows_from_matches(&vec![]).unwrap().is_empty());
}
