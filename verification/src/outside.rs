use vstd::prelude::*;

verus! {

/// The error type of `serde_json`.
#[verifier::external_type_specification]
#[verifier::external_body]
pub struct ExJsonError(serde_json::Error);

/// What compiling `pattern` with `regex::Regex::new` and then asking
/// `Regex::is_match` on `text` gives: `None` where the pattern does not
/// compile, else whether the regex matches somewhere in `text`.
pub uninterp spec fn regex_search(pattern: Seq<char>, text: Seq<char>) -> Option<bool>;

/// The text that `str::to_lowercase` gives for `text` (Unicode lowercase
/// mapping).
pub uninterp spec fn lowercase(text: Seq<char>) -> Seq<char>;

/// The list that `serde_json::from_str::<Vec<String>>` reads from `text`, or
/// `None` where it fails.
pub uninterp spec fn json_string_list(text: Seq<char>) -> Option<Seq<Seq<char>>>;

/// `t` is ASCII text.
pub open spec fn is_ascii_text(t: Seq<char>) -> bool {
    forall|i: int| 0 <= i < t.len() ==> (#[trigger] t[i] as u32) < 128
}

/// ASCII lower-casing of one character: `A`-`Z` become `a`-`z`, every other
/// character stays.
pub open spec fn ascii_lower(c: char) -> char {
    if 'A' <= c && c <= 'Z' {
        ((c as u32) + 32) as char
    } else {
        c
    }
}

/// ASCII lower-casing of a text, character by character.
pub open spec fn ascii_lowered(t: Seq<char>) -> Seq<char> {
    t.map_values(|c: char| ascii_lower(c))
}

/// `c` is one of `0`-`9`, `a`-`f`.
pub open spec fn is_lower_hex(c: char) -> bool {
    ('0' <= c && c <= '9') || ('a' <= c && c <= 'f')
}

/// `t` is four characters, each of `0`-`9`, `a`-`f`: what the regex
/// `^[0-9a-f]{4}$` matches.
pub open spec fn is_hash_prefix(t: Seq<char>) -> bool {
    t.len() == 4 && forall|i: int| 0 <= i < 4 ==> #[trigger] is_lower_hex(t[i])
}

/// The texts of a list of strings.
pub open spec fn texts(v: Seq<String>) -> Seq<Seq<char>> {
    v.map_values(|s: String| s@)
}

/// Calls `regex::Regex::new(pattern)` and, where it compiles, `is_match(text)`.
/// The result is named by [`regex_search`]. Beyond the name, the contract
/// states the regex crate's documented meaning of one pattern: `^` and `$`
/// anchor at the beginning and end of the haystack, `[0-9a-f]` is a class of
/// characters and `{4}` repeats it exactly four times, so
/// `^[0-9a-f]{4}$` compiles and matches exactly the four-character lower-case
/// hexadecimal texts.
#[verifier::external_body]
pub(crate) fn regex_is_match(pattern: &str, text: &str) -> (r: Option<bool>)
    ensures
        r == regex_search(pattern@, text@),
        pattern@ == "^[0-9a-f]{4}$"@ ==> r == Some(is_hash_prefix(text@)),
{
    match regex::Regex::new(pattern) {
        Ok(re) => Some(re.is_match(text)),
        Err(_) => None,
    }
}

/// Calls `str::to_lowercase`; the result is named by [`lowercase`]. Beyond
/// the name, the contract states what the Unicode lowercase mapping that the
/// function follows does on ASCII text: `A`-`Z` map to `a`-`z`, one for one,
/// and every other ASCII character maps to itself.
#[verifier::external_body]
pub(crate) fn to_lowercase(text: &str) -> (r: String)
    ensures
        r@ == lowercase(text@),
        is_ascii_text(text@) ==> r@ == ascii_lowered(text@),
{
    text.to_lowercase()
}

/// The categories asked for when a request names none: `["sponsor"]`.
pub open spec fn default_categories() -> Seq<char> {
    "[\"sponsor\"]"@
}

/// Calls `serde_json::from_str::<Vec<String>>`; the result is named by
/// [`json_string_list`]. Beyond the name, the contract states what JSON
/// itself fixes for one text: `["sponsor"]` is an array holding the one
/// string `sponsor`.
#[verifier::external_body]
pub(crate) fn parse_string_list(text: &str) -> (r: Result<Vec<String>, serde_json::Error>)
    ensures
        r is Ok <==> json_string_list(text@) is Some,
        r is Ok ==> json_string_list(text@) == Some(texts(r->Ok_0@)),
        text@ == default_categories() ==> r is Ok && texts(r->Ok_0@) == seq!["sponsor"@],
{
    serde_json::from_str::<Vec<String>>(text)
}

} // verus!
