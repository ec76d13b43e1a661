//! The rule table: which umbrella category a category key belongs under.

use crate::text::{
    ends_with, eq_ignore_ascii_case, eq_ignoring_ascii_case, has_prefix, has_suffix, same_text,
    starts_with,
};
use vstd::prelude::*;

verus! {

/// Where the records of one category key go.
#[derive(Debug, Clone, Copy, PartialEq, Eq, Structural)]
pub enum Route {
    /// A member of the encyclopedia family: a single-selection category of
    /// its own under "Wikipedia".
    Wikipedia,
    /// A media collection: a category of its own under "Media".
    Media,
    /// The wiki of a distribution: a single-selection category under
    /// "Gentoo", "Arch" or "Alpine", which stand under "Linux".
    Gentoo,
    Arch,
    Alpine,
    /// Under "zimgit".
    Zimgit,
    /// Under "Stack Exchange".
    StackExchange,
    /// Under "Avanti".
    Avanti,
    /// Under "ted", which stands under "Media".
    Ted,
    /// Directly under "Media".
    Other,
}

pub open spec fn is_encyclopedia_key(key: Seq<char>) -> bool {
    ||| key == "wikipedia"@
    ||| key == "wiktionary"@
    ||| key == "wikivoyage"@
    ||| key == "wikiversity"@
    ||| key == "wikibooks"@
    ||| key == "wikisource"@
    ||| key == "wikiquote"@
    ||| key == "wikinews"@
    ||| key == "wikispecies"@
}

pub open spec fn is_media_key(key: Seq<char>) -> bool {
    ||| key == "ted"@
    ||| key == "keylearning"@
    ||| key == "scienceinthebath"@
    ||| key == "aimhi"@
    ||| key == "zimgit"@
}

/// The rules, first match first. The keys of the table are matched letter
/// for letter; only a key that is none of them is tried against the prefixes
/// and suffixes.
pub open spec fn route_for(key: Seq<char>) -> Route {
    if is_encyclopedia_key(key) {
        Route::Wikipedia
    } else if is_media_key(key) {
        Route::Media
    } else if key == "installgentoo"@ || key == "gentoo"@ {
        Route::Gentoo
    } else if key == "archlinux"@ {
        Route::Arch
    } else if key == "alpinelinux"@ {
        Route::Alpine
    } else if has_prefix(key, "zimgit"@) {
        Route::Zimgit
    } else if has_suffix(key, "stackexchange.com"@) {
        Route::StackExchange
    } else if has_prefix(key, "avanti"@) {
        Route::Avanti
    } else if eq_ignoring_ascii_case(key, "teded"@) || eq_ignoring_ascii_case(key, "tedmed"@) {
        Route::Ted
    } else {
        Route::Other
    }
}

/// Looks `key` up in the rule table.
pub fn route_of(key: &str) -> (route: Route)
    ensures
        route == route_for(key@),
{
    if same_text(key, "wikipedia") || same_text(key, "wiktionary") || same_text(key, "wikivoyage")
        || same_text(key, "wikiversity") || same_text(key, "wikibooks") || same_text(
        key,
        "wikisource",
    ) || same_text(key, "wikiquote") || same_text(key, "wikinews") || same_text(
        key,
        "wikispecies",
    ) {
        Route::Wikipedia
    } else if same_text(key, "ted") || same_text(key, "keylearning") || same_text(
        key,
        "scienceinthebath",
    ) || same_text(key, "aimhi") || same_text(key, "zimgit") {
        Route::Media
    } else if same_text(key, "installgentoo") || same_text(key, "gentoo") {
        Route::Gentoo
    } else if same_text(key, "archlinux") {
        Route::Arch
    } else if same_text(key, "alpinelinux") {
        Route::Alpine
    } else if starts_with(key, "zimgit") {
        Route::Zimgit
    } else if ends_with(key, "stackexchange.com") {
        Route::StackExchange
    } else if starts_with(key, "avanti") {
        Route::Avanti
    } else if eq_ignore_ascii_case(key, "teded") || eq_ignore_ascii_case(key, "tedmed") {
        Route::Ted
    } else {
        Route::Other
    }
}

} // verus!
