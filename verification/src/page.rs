//! Reading the rows of the catalog page.

use crate::text::{
    chars_of, ends_with, eq_ignore_ascii_case, eq_ignoring_ascii_case, has_suffix,
};
use vstd::prelude::*;
use vstd::string::StrSliceExecFns;

verus! {

/// Why a page could not be read.
#[derive(Debug, Clone, Copy, PartialEq, Eq, Structural)]
pub enum PageError {
    /// The row pattern was not accepted.
    Pattern,
    /// A row did not come with its four fields.
    Fields,
    /// The category of a row does not end in " (English)".
    Language,
    /// The size of a row has no blank between its number and its unit.
    Size,
}

/// A row of the catalog page.
#[derive(Debug)]
pub struct PageRow {
    /// The category key, without the " (English)" behind it.
    pub category: String,
    /// The number in the size column, as it is written on the page.
    pub magnitude: String,
    /// How many bytes one unit of the size column stands for.
    pub multiplier: u64,
    /// The display name.
    pub name: String,
    /// The address behind the download link.
    pub url: String,
}

/// A row of the catalog page as a mathematical value.
pub struct PageRowView {
    pub category: Seq<char>,
    pub magnitude: Seq<char>,
    pub multiplier: u64,
    pub name: Seq<char>,
    pub url: Seq<char>,
}

impl View for PageRow {
    type V = PageRowView;

    open spec fn view(&self) -> PageRowView {
        PageRowView {
            category: self.category@,
            magnitude: self.magnitude@,
            multiplier: self.multiplier,
            name: self.name@,
            url: self.url@,
        }
    }
}

pub open spec fn row_views(rows: Seq<PageRow>) -> Seq<PageRowView> {
    Seq::new(rows.len(), |i: int| rows[i]@)
}

/// The pattern that a row of the catalog page matches. Its four groups are
/// the category, the size, the display name and the address.
pub open spec fn row_pattern() -> Seq<char> {
    "<td>(.+?)</td>\n<td>en</td>\n<td>(.+?)</td>\n<td>.+?</td>\n<td>(.*?)</td>\n<td><a rel=\"nofollow\".+?href=\"(.+?)\">. Download</a>"@
}

/// What marks a category as English.
pub open spec fn language_mark() -> Seq<char> {
    " (English)"@
}

/// The bytes that one unit stands for: 1024 for "kb", 1024 times that for
/// "mb", 1024 times that again for "gb", in either case of the letters, and
/// one for anything else.
pub open spec fn unit_multiplier(unit: Seq<char>) -> u64 {
    if eq_ignoring_ascii_case(unit, "kb"@) {
        1024
    } else if eq_ignoring_ascii_case(unit, "mb"@) {
        1_048_576
    } else if eq_ignoring_ascii_case(unit, "gb"@) {
        1_073_741_824
    } else {
        1
    }
}

/// `i` is the place of the first blank in `text`.
pub open spec fn is_first_blank(text: Seq<char>, i: int) -> bool {
    &&& 0 <= i < text.len()
    &&& text[i] == ' '
    &&& forall|j: int| 0 <= j < i ==> text[j] != ' '
}

pub open spec fn has_blank(text: Seq<char>) -> bool {
    exists|i: int| is_first_blank(text, i)
}

pub open spec fn first_blank(text: Seq<char>) -> int {
    choose|i: int| is_first_blank(text, i)
}

/// The row that the groups of one match stand for. The groups are the whole
/// match and then the four fields.
pub open spec fn row_of(groups: Seq<Option<Seq<char>>>) -> Result<PageRowView, PageError> {
    if groups.len() != 5 || groups[1] is None || groups[2] is None || groups[3] is None
        || groups[4] is None {
        Err(PageError::Fields)
    } else if !has_suffix(groups[1]->0, language_mark()) {
        Err(PageError::Language)
    } else if !has_blank(groups[2]->0) {
        Err(PageError::Size)
    } else {
        let category = groups[1]->0;
        let size = groups[2]->0;
        let blank = first_blank(size);
        Ok(
            PageRowView {
                category: category.subrange(0, category.len() - language_mark().len()),
                magnitude: size.subrange(0, blank),
                multiplier: unit_multiplier(size.subrange(blank + 1, size.len() as int)),
                name: groups[3]->0,
                url: groups[4]->0,
            },
        )
    }
}

/// The rows that the matches stand for, in order, or what is wrong with the
/// first match that stands for none.
pub open spec fn rows_of(matches: Seq<Seq<Option<Seq<char>>>>) -> Result<
    Seq<PageRowView>,
    PageError,
>
    decreases matches.len(),
{
    if matches.len() == 0 {
        Ok(Seq::empty())
    } else {
        match rows_of(matches.drop_last()) {
            Err(e) => Err(e),
            Ok(rows) => match row_of(matches.last()) {
                Err(e) => Err(e),
                Ok(row) => Ok(rows.push(row)),
            },
        }
    }
}

/// The rows of a page, given what the search for the row pattern found.
pub open spec fn page_of(found: Option<Seq<Seq<Option<Seq<char>>>>>) -> Result<
    Seq<PageRowView>,
    PageError,
> {
    match found {
        None => Err(PageError::Pattern),
        Some(matches) => rows_of(matches),
    }
}

pub open spec fn result_view(result: Result<Vec<PageRow>, PageError>) -> Result<
    Seq<PageRowView>,
    PageError,
> {
    match result {
        Ok(rows) => Ok(row_views(rows@)),
        Err(e) => Err(e),
    }
}

/// The bytes that one unit of the size column stands for.
pub fn multiplier_of(unit: &str) -> (multiplier: u64)
    ensures
        multiplier == unit_multiplier(unit@),
{
    if eq_ignore_ascii_case(unit, "kb") {
        1024
    } else if eq_ignore_ascii_case(unit, "mb") {
        1_048_576
    } else if eq_ignore_ascii_case(unit, "gb") {
        1_073_741_824
    } else {
        1
    }
}

/// The place of the first blank in `text`, if it has one.
pub fn find_blank(text: &str) -> (found: Option<usize>)
    ensures
        match found {
            Some(i) => is_first_blank(text@, i as int),
            None => !has_blank(text@),
        },
{
    let chars = chars_of(text);
    let mut i: usize = 0;
    while i < chars.len()
        invariant
            i <= chars.len(),
            chars@ == text@,
            forall|j: int| 0 <= j < i ==> text@[j] != ' ',
        decreases chars.len() - i,
    {
        if chars[i] == ' ' {
            return Some(i);
        }
        i += 1;
    }
    None
}

/// There is one first blank at most.
pub proof fn lemma_first_blank_unique(text: Seq<char>, i: int)
    requires
        is_first_blank(text, i),
    ensures
        has_blank(text),
        first_blank(text) == i,
{
    let k = first_blank(text);
    assert(is_first_blank(text, k));
}

/// Reads the groups of one match as a row.
pub fn row_from_groups(groups: &Vec<Option<String>>) -> (row: Result<PageRow, PageError>)
    ensures
        match row {
            Ok(r) => row_of(groups.deep_view()) == Ok::<PageRowView, PageError>(r@),
            Err(e) => row_of(groups.deep_view()) == Err::<PageRowView, PageError>(e),
        },
{
    let ghost texts = groups.deep_view();
    assert(texts.len() == groups.len());
    if groups.len() != 5 {
        return Err(PageError::Fields);
    }
    assert(forall|i: int| 0 <= i < 5 ==> #[trigger] texts[i] == groups@[i].deep_view());
    match (&groups[1], &groups[2], &groups[3], &groups[4]) {
        (Some(category), Some(size), Some(name), Some(url)) => {
            assert(texts[1] == Some(category@));
            assert(texts[2] == Some(size@));
            assert(texts[3] == Some(name@));
            assert(texts[4] == Some(url@));
            if !ends_with(category.as_str(), " (English)") {
                return Err(PageError::Language);
            }
            match find_blank(size.as_str()) {
                None => Err(PageError::Size),
                Some(blank) => {
                    proof {
                        lemma_first_blank_unique(size@, blank as int);
                    }
                    let total = category.as_str().unicode_len();
                    let mark = " (English)".unicode_len();
                    let length = size.as_str().unicode_len();
                    let key = category.as_str().substring_char(0, total - mark);
                    let magnitude = size.as_str().substring_char(0, blank);
                    let unit = size.as_str().substring_char(blank + 1, length);
                    Ok(
                        PageRow {
                            category: key.to_owned(),
                            magnitude: magnitude.to_owned(),
                            multiplier: multiplier_of(unit),
                            name: name.clone(),
                            url: url.clone(),
                        },
                    )
                },
            }
        },
        _ => Err(PageError::Fields),
    }
}

/// Reads what the search for the row pattern found on a page as rows.
pub fn rows_from_matches(matches: &Vec<Vec<Option<String>>>) -> (rows: Result<
    Vec<PageRow>,
    PageError,
>)
    ensures
        result_view(rows) == rows_of(matches.deep_view()),
{
    let ghost all = matches.deep_view();
    let mut rows: Vec<PageRow> = Vec::new();
    let mut i: usize = 0;
    assert(row_views(rows@) =~= Seq::<PageRowView>::empty());
    while i < matches.len()
        invariant
            i <= matches.len(),
            all == matches.deep_view(),
            all.len() == matches.len(),
            rows_of(all.take(i as int)) == Ok::<Seq<PageRowView>, PageError>(row_views(rows@)),
        decreases matches.len() - i,
    {
        assert(all.take(i + 1).drop_last() =~= all.take(i as int));
        assert(all.take(i + 1).last() == matches@[i as int].deep_view());
        match row_from_groups(&matches[i]) {
            Err(e) => {
                proof {
                    lemma_rows_of_stops(all, i + 1);
                }
                return Err(e);
            },
            Ok(row) => {
                assert(row_views(rows@.push(row)) =~= row_views(rows@).push(row@));
                rows.push(row);
            },
        }
        i += 1;
    }
    assert(all.take(i as int) =~= all);
    Ok(rows)
}

/// Once a match stands for no row, no later match is looked at.
pub proof fn lemma_rows_of_stops(matches: Seq<Seq<Option<Seq<char>>>>, n: int)
    requires
        0 <= n <= matches.len(),
        rows_of(matches.take(n)) is Err,
    ensures
        rows_of(matches) == rows_of(matches.take(n)),
    decreases matches.len() - n,
{
    if n == matches.len() {
        assert(matches.take(n) =~= matches);
    } else {
        assert(matches.take(n + 1).drop_last() =~= matches.take(n));
        lemma_rows_of_stops(matches, n + 1);
    }
}

/// The error of the `regex` crate, which a pattern that it does not accept
/// gives.
#[verifier::external_type_specification]
#[verifier::external_body]
pub struct ExRegexError(regex::Error);

/// What the `regex` crate finds when it searches `haystack` for `pattern`:
/// nothing at all where it does not accept the pattern, else the matches from
/// left to right, none overlapping another, each with the text of its groups
/// (the whole match first; a group that took no part in the match has no
/// text).
pub uninterp spec fn regex_captures(pattern: Seq<char>, haystack: Seq<char>) -> Option<
    Seq<Seq<Option<Seq<char>>>>,
>;

/// Compiles `pattern` with `regex::Regex::new` and walks the matches that
/// `Regex::captures_iter` finds in `haystack`, and in each match the groups
/// that `Captures::iter` hands out, copying the text that `Match::as_str`
/// gives for each group. Nothing is proved of it. The contract claims that
/// the outcome is a function of the two texts alone, and gives it the name
/// [`regex_captures`]; an error comes back exactly where `Regex::new` does
/// not accept the pattern.
#[verifier::external_body]
fn capture_groups(pattern: &str, haystack: &str) -> (found: Result<
    Vec<Vec<Option<String>>>,
    regex::Error,
>)
    ensures
        match found {
            Ok(matches) => regex_captures(pattern@, haystack@) == Some(matches.deep_view()),
            Err(_) => regex_captures(pattern@, haystack@) is None,
        },
{
    let re = regex::Regex::new(pattern)?;
    let mut matches = Vec::new();
    for found in re.captures_iter(haystack) {
        let mut groups = Vec::new();
        for group in found.iter() {
            groups.push(group.map(|m| m.as_str().to_owned()));
        }
        matches.push(groups);
    }
    Ok(matches)
}

/// Reads the rows that `pattern` finds in `input`: every stretch of `input`
/// that matches gives one row, in the order of the text. A pattern that is
/// not accepted gives [`PageError::Pattern`], and the first match that is no
/// row gives its error.
pub fn parse_with(pattern: &str, input: &str) -> (rows: Result<Vec<PageRow>, PageError>)
    ensures
        result_view(rows) == page_of(regex_captures(pattern@, input@)),
{
    match capture_groups(pattern, input) {
        Err(_) => Err(PageError::Pattern),
        Ok(matches) => rows_from_matches(&matches),
    }
}

/// Reads the rows of the catalog page, which are what the row pattern finds
/// in it.
pub fn parse_page(input: &str) -> (rows: Result<Vec<PageRow>, PageError>)
    ensures
        result_view(rows) == page_of(regex_captures(row_pattern(), input@)),
{
    parse_with(
        "<td>(.+?)</td>\n<td>en</td>\n<td>(.+?)</td>\n<td>.+?</td>\n<td>(.*?)</td>\n<td><a rel=\"nofollow\".+?href=\"(.+?)\">. Download</a>",
        input,
    )
}

} // verus!
