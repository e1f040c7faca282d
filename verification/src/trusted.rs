//! What the crate takes on trust: the items of the standard library and of
//! other crates that it calls without Verus having read them. Each contract
//! here is a claim about foreign code; everything else in the crate is proved
//! from these.

use vstd::prelude::*;
use crate::repository::ParsedUrl;

verus! {

/// `String::push` of the standard library: appends one character to the end
/// of the string and leaves the rest as it was.
pub assume_specification[ String::push ](s: &mut String, ch: char)
    ensures
        final(s)@ == old(s)@.push(ch),
;

/// Whether the regular expression `pattern`, in the syntax of the `regex`
/// crate, matches somewhere in `text`. A pattern that the crate does not
/// accept matches nothing.
pub uninterp spec fn regex_matches(pattern: Seq<char>, text: Seq<char>) -> bool;

/// `regex::Regex::new` followed by `Regex::is_match`: compiles `pattern` and
/// searches `text` for a match. The answer depends on the two texts alone; it
/// is `false` where the pattern does not compile.
#[verifier::external_body]
pub(crate) fn regex_is_match(pattern: &str, text: &str) -> (found: bool)
    ensures
        found == regex_matches(pattern@, text@),
{
    match regex::Regex::new(pattern) {
        Ok(re) => re.is_match(text),
        Err(_) => false,
    }
}

/// The groups of the first match of the regular expression `pattern` in
/// `text`: the whole match first, then each group of the pattern in turn,
/// `None` for a group that took no part. `None` in all where there is no
/// match, or the `regex` crate does not accept the pattern.
pub uninterp spec fn regex_groups(pattern: Seq<char>, text: Seq<char>) -> Option<
    Seq<Option<Seq<char>>>,
>;

/// The text of an optional owned string.
pub open spec fn option_string(text: Option<String>) -> Option<Seq<char>> {
    match text {
        Some(t) => Some(t@),
        None => None,
    }
}

/// The texts of the groups of a match.
pub open spec fn groups_text(groups: Option<Vec<Option<String>>>) -> Option<
    Seq<Option<Seq<char>>>,
> {
    match groups {
        Some(list) => Some(Seq::new(list@.len(), |i: int| option_string(list@[i]))),
        None => None,
    }
}

/// `regex::Regex::new` followed by `Regex::captures` and `Captures::iter`:
/// compiles `pattern`, searches `text` for the first match and hands out the
/// text of each of its groups. The answer depends on the two texts alone.
#[verifier::external_body]
pub(crate) fn regex_captures(pattern: &str, text: &str) -> (groups: Option<Vec<Option<String>>>)
    ensures
        groups_text(groups) == regex_groups(pattern@, text@),
{
    match regex::Regex::new(pattern) {
        Ok(re) => match re.captures(text) {
            Some(found) => Some(found.iter().map(|g| g.map(|m| m.as_str().to_string())).collect()),
            None => None,
        },
        Err(_) => None,
    }
}

/// The scheme and the text of the URL that the `url` crate reads out of
/// `input`; `None` where it reads no absolute URL.
pub uninterp spec fn parsed_url(input: Seq<char>) -> Option<(Seq<char>, Seq<char>)>;

/// The scheme and the text of an optional URL.
pub open spec fn url_text(parsed: Option<ParsedUrl>) -> Option<(Seq<char>, Seq<char>)> {
    match parsed {
        Some(url) => Some((url.scheme@, url.text@)),
        None => None,
    }
}

/// `url::Url::parse`, followed by `Url::scheme` and by the `to_string` of the
/// URL, which gives its serialization. The answer depends on the input alone.
#[verifier::external_body]
pub(crate) fn parse_url(input: &str) -> (parsed: Option<ParsedUrl>)
    ensures
        url_text(parsed) == parsed_url(input@),
{
    match url::Url::parse(input) {
        Ok(url) => Some(ParsedUrl { scheme: url.scheme().to_string(), text: url.to_string() }),
        Err(_) => None,
    }
}

/// The content type that the `infer` crate reads out of the magic numbers at
/// the beginning of `bytes`, as a MIME type such as `image/png`; `None` where
/// it recognises none.
pub uninterp spec fn sniffed_content_type(bytes: Seq<u8>) -> Option<Seq<char>>;

/// The text of an optional string.
pub open spec fn option_text(text: Option<&str>) -> Option<Seq<char>> {
    match text {
        Some(t) => Some(t@),
        None => None,
    }
}

/// `infer::Infer::get` on a fresh `Infer`, followed by `Type::mime_type`: the
/// first of the crate's built-in signatures that fits `bytes` gives the type.
/// The answer depends on the bytes alone.
#[verifier::external_body]
pub(crate) fn sniff_content_type(bytes: &[u8]) -> (found: Option<&'static str>)
    ensures
        option_text(found) == sniffed_content_type(bytes@),
{
    match infer::Infer::new().get(bytes) {
        Some(kind) => Some(kind.mime_type()),
        None => None,
    }
}

/// The text that the `humansize` crate gives a byte count with binary
/// prefixes, such as `1.50 KiB`.
pub uninterp spec fn binary_size_text(size: u64) -> Seq<char>;

/// `humansize::format_size` with the options `humansize::BINARY`. The text
/// depends on the count alone.
#[verifier::external_body]
pub(crate) fn format_size_binary(size: u64) -> (text: String)
    ensures
        text@ == binary_size_text(size),
{
    humansize::format_size(size, humansize::BINARY)
}

} // verus!
