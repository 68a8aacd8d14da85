//! The two textual formats of the settings (a list of ports and a knock sequence)
//! and the shape of a firewall zone listing, all checked with the `regex` crate.
use crate::data::{is_ascii_digit, split_on_commas};
use vstd::prelude::*;

verus! {

/// A comma separated list of one to twenty numbers of one to five digits.
pub const PORT_LIST_PATTERN: &'static str = "^\\d{1,5}(?:,\\d{1,5}){0,19}$";

/// A comma separated list of five to twenty numbers of one to five digits.
pub const SEQUENCE_PATTERN: &'static str = "^\\d{1,5}(?:,\\d{1,5}){4,19}$";

/// A listing with a line that starts with the name of the knocking zone,
/// followed by white space, the line end, or nothing.
pub const ZONE_PATTERN: &'static str = "(?m)^knock-access(?:\\s|$)";

/// Whether the regular expression `pattern`, compiled by `regex::Regex::new`,
/// matches somewhere in `haystack` (`regex::Regex::is_match`).
pub uninterp spec fn regex_is_match(pattern: Seq<char>, haystack: Seq<char>) -> bool;

/// The patterns of this crate; each is valid `regex` syntax of a few dozen
/// characters, so `regex::Regex::new` accepts it.
pub open spec fn is_known_pattern(pattern: Seq<char>) -> bool {
    ||| pattern == PORT_LIST_PATTERN@
    ||| pattern == SEQUENCE_PATTERN@
    ||| pattern == ZONE_PATTERN@
}

/// Whether `c` may stand for a digit of `\d`: an ASCII digit, or, unless
/// `ascii_only`, any character outside ASCII (where the other Unicode decimal
/// digits lie).
pub open spec fn digit_like(c: char, ascii_only: bool) -> bool {
    is_ascii_digit(c) || (!ascii_only && c as u32 >= 128)
}

/// Whether `f` is one field of a list: one to five digits (see `digit_like`).
pub open spec fn field_shape(f: Seq<char>, ascii_only: bool) -> bool {
    &&& 1 <= f.len() <= 5
    &&& forall|j: int| 0 <= j < f.len() ==> digit_like(#[trigger] f[j], ascii_only)
}

/// Whether `s` is a comma separated list of `lo` to `hi` fields (see
/// `field_shape`).
pub open spec fn list_shape(s: Seq<char>, lo: int, hi: int, ascii_only: bool) -> bool {
    let f = split_on_commas(s);
    &&& lo <= f.len() <= hi
    &&& forall|i: int| 0 <= i < f.len() ==> field_shape(#[trigger] f[i], ascii_only)
}

/// Whether `c` is an ASCII white space character: space, tab, line feed,
/// vertical tab, form feed or carriage return.
pub open spec fn is_ascii_space(c: char) -> bool {
    c == ' ' || ('\t' <= c <= '\r')
}

/// Whether `listing` starts with the zone name `knock-access` followed by
/// nothing or by a character that may stand for `\s`: ASCII white space, or,
/// unless `ascii_only`, any character outside ASCII (where the other Unicode
/// white space lies).
pub open spec fn names_zone(listing: Seq<char>, ascii_only: bool) -> bool {
    &&& starts_with(listing, "knock-access"@)
    &&& listing.len() == "knock-access"@.len() || is_ascii_space(
        listing["knock-access"@.len() as int],
    ) || (!ascii_only && listing["knock-access"@.len() as int] as u32 >= 128)
}

/// Whether a line of `listing` names the zone: at the start of the listing or
/// just after a line feed stands what `names_zone` describes.
pub open spec fn lists_zone(listing: Seq<char>, ascii_only: bool) -> bool {
    exists|p: int|
        0 <= p <= listing.len() && (p == 0 || listing[p - 1] == '\n') && #[trigger] names_zone(
            listing.skip(p),
            ascii_only,
        )
}

/// Whether `s` starts with `prefix`.
pub open spec fn starts_with(s: Seq<char>, prefix: Seq<char>) -> bool {
    prefix.len() <= s.len() && s.take(prefix.len() as int) == prefix
}

/// Compiles `pattern` with `regex::Regex::new` and runs `regex::Regex::is_match`
/// on `haystack`; the answer is the named result `regex_is_match` of the two
/// texts. Compilation cannot fail on the patterns admitted by `requires`.
///
/// Beside the name, the contract states what the regex syntax documentation
/// gives for each pattern (`^` and `$` anchor at the ends of the text, `\d` is a
/// Unicode decimal digit, `.*` may match nothing): a list pattern matches only
/// lists of its length whose fields have one to five characters, each an ASCII
/// digit or a character outside ASCII, and matches every such list of ASCII
/// digits. The zone pattern (multi-line: `^` also matches after a line feed)
/// matches only texts with a line that starts with `knock-access` followed by
/// nothing, white space or a character outside ASCII, and matches every text
/// with such a line followed by nothing or ASCII white space (`\s` is Unicode
/// white space). Which characters outside ASCII `\d` and `\s` take is left
/// unsaid.
#[verifier::external_body]
fn regex_matches(pattern: &str, haystack: &str) -> (r: bool)
    requires
        is_known_pattern(pattern@),
    ensures
        r == regex_is_match(pattern@, haystack@),
        pattern@ == PORT_LIST_PATTERN@ ==> (r ==> list_shape(haystack@, 1, 20, false)) && (
        list_shape(haystack@, 1, 20, true) ==> r),
        pattern@ == SEQUENCE_PATTERN@ ==> (r ==> list_shape(haystack@, 5, 20, false)) && (
        list_shape(haystack@, 5, 20, true) ==> r),
        pattern@ == ZONE_PATTERN@ ==> (r ==> lists_zone(haystack@, false)) && (lists_zone(
            haystack@,
            true,
        ) ==> r),
{
    regex::Regex::new(pattern).unwrap().is_match(haystack)
}

/// The facts about the port list pattern: a match is a list of one to twenty
/// fields, and every such list of ASCII digits matches.
pub open spec fn port_list_facts(text: Seq<char>) -> bool {
    &&& regex_is_match(PORT_LIST_PATTERN@, text) ==> list_shape(text, 1, 20, false)
    &&& list_shape(text, 1, 20, true) ==> regex_is_match(PORT_LIST_PATTERN@, text)
}

/// The facts about the sequence pattern: a match is a list of five to twenty
/// fields, and every such list of ASCII digits matches.
pub open spec fn sequence_facts(text: Seq<char>) -> bool {
    &&& regex_is_match(SEQUENCE_PATTERN@, text) ==> list_shape(text, 5, 20, false)
    &&& list_shape(text, 5, 20, true) ==> regex_is_match(SEQUENCE_PATTERN@, text)
}

/// Whether `text` is a list of ports in the accepted format.
pub fn match_port_liste(text: &str) -> (r: bool)
    ensures
        r == regex_is_match(PORT_LIST_PATTERN@, text@),
        port_list_facts(text@),
{
    regex_matches(PORT_LIST_PATTERN, text)
}

/// Whether `text` is a knock sequence in the accepted format.
pub fn re_matching_sequence(text: &str) -> (r: bool)
    ensures
        r == regex_is_match(SEQUENCE_PATTERN@, text@),
        sequence_facts(text@),
{
    regex_matches(SEQUENCE_PATTERN, text)
}

/// Whether a listing of the firewall zones has a line for the zone of the
/// daemon: its name, followed by white space or by nothing (`knock-access2` is
/// another zone).
pub fn zone_listed(listing: &str) -> (r: bool)
    ensures
        r == regex_is_match(ZONE_PATTERN@, listing@),
        r ==> lists_zone(listing@, false),
        lists_zone(listing@, true) ==> r,
{
    regex_matches(ZONE_PATTERN, listing)
}

} // verus!
