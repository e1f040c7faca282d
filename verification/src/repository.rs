//! Addresses of repositories.

use vstd::prelude::*;
use vstd::string::{StringExecFns, StrSliceExecFns};
use crate::text::{
    chars_of, ends_with, push_chars, same_text, starts_with, trim_end, trimmed_len,
};
use crate::trusted::{
    groups_text, option_string, parse_url, parsed_url, regex_captures, regex_groups,
    regex_is_match, regex_matches,
};

verus! {

/// The short form of a GitHub address, `owner/name`: two runs of word
/// characters and hyphens with one slash between them.
pub const SHORT_URL_PATTERN: &'static str = r"^[\w-]+/[\w-]+$";

/// The beginning of a GitHub address over SSH.
pub const GITHUB_SSH_PREFIX: &'static str = "git@github.com:";

/// The beginning of a GitHub address over HTTPS.
pub const GITHUB_HTTPS_PREFIX: &'static str = "https://github.com/";

/// What is said of an address that is not one of GitHub's.
pub const INVALID_GITHUB_URL: &'static str = "Invalid GitHub repository URL format";

/// The full address for `url`, which has no slash at its end: itself where it
/// is a GitHub address already, the HTTPS address of `owner/name` where it is
/// the short form, and otherwise the complaint.
pub open spec fn github_url(url: Seq<char>, short_form: bool) -> Result<Seq<char>, Seq<char>> {
    if GITHUB_SSH_PREFIX@.is_prefix_of(url) || GITHUB_HTTPS_PREFIX@.is_prefix_of(url) {
        Ok(url)
    } else if short_form {
        Ok(GITHUB_HTTPS_PREFIX@ + url)
    } else {
        Err(INVALID_GITHUB_URL@)
    }
}

/// The texts of a result.
pub open spec fn result_text(r: Result<String, String>) -> Result<Seq<char>, Seq<char>> {
    match r {
        Ok(s) => Ok(s@),
        Err(e) => Err(e@),
    }
}

/// The full address for `url`, which has no slash at its end and of which
/// `short_form` says whether it has the shape `owner/name`.
pub fn github_url_of(url: &str, short_form: bool) -> (r: Result<String, String>)
    ensures
        result_text(r) == github_url(url@, short_form),
{
    let chars = chars_of(url);
    if starts_with(&chars, GITHUB_SSH_PREFIX) || starts_with(&chars, GITHUB_HTTPS_PREFIX) {
        Ok(String::from_str(url))
    } else if short_form {
        Ok(String::from_str(GITHUB_HTTPS_PREFIX).concat(url))
    } else {
        Err(String::from_str(INVALID_GITHUB_URL))
    }
}

/// Brings a GitHub address into its full form. Slashes at the end are
/// dropped; an SSH or HTTPS address of GitHub is then kept as it is, the short
/// form `owner/name` becomes an HTTPS address, and anything else is refused.
pub fn normalize_github_url(url: &str) -> (r: Result<String, String>)
    ensures
        result_text(r) == github_url(
            trim_end(url@, '/'),
            regex_matches(SHORT_URL_PATTERN@, trim_end(url@, '/')),
        ),
{
    let chars = chars_of(url);
    let len = trimmed_len(&chars, '/');
    let trimmed = url.substring_char(0, len);
    let short_form = regex_is_match(SHORT_URL_PATTERN, trimmed);
    github_url_of(trimmed, short_form)
}

/// A URL as the `url` crate reads it: its scheme, in lower case and without
/// the colon, and its text in the normal form of the crate.
#[derive(Debug)]
pub struct ParsedUrl {
    pub scheme: String,
    pub text: String,
}

/// A GitHub address over SSH, `git@github.com:owner/name`, with or without
/// `.git` at its end. The groups are the owner and the name.
pub const SSH_URL_PATTERN: &'static str = r"^git@github\.com:([^/]+)/([^/]+?)(?:\.git)?$";

/// The short form `owner/name`, with or without `.git` at its end. The groups
/// are the owner and the name.
pub const SHORT_NAME_PATTERN: &'static str = r"^([^/]+)/([^/]+?)(?:\.git)?$";

/// A GitHub address over HTTPS, somewhere in a text. The group is the name of
/// the repository.
pub const REPO_NAME_PATTERN: &'static str = r"https://github\.com/[^/]+/([^/]+)";

/// What is said of an input that is no address of a repository.
pub const INVALID_REPOSITORY: &'static str =
    "Invalid repository format. Expected HTTPS URL, SSH URL, or 'username/repository' format.";

/// What is said of an address that shows no name of a repository.
pub const NO_REPOSITORY_NAME: &'static str = "Could not extract repository name from URL";

/// The ending that marks an address as one of a git repository.
pub const GIT_SUFFIX: &'static str = ".git";

/// Where the last name of a path ends: the slashes at the end of the path,
/// and the single dots between them, belong to no name.
pub open spec fn name_end(path: Seq<char>) -> nat
    decreases path.len(),
{
    if path.len() == 0 {
        0
    } else if path.last() == '/' {
        name_end(path.drop_last())
    } else if path.last() == '.' && path.len() >= 2 && path[path.len() - 2] == '/' {
        name_end(path.drop_last())
    } else {
        path.len()
    }
}

/// Whether the last name of a path has the extension `git`, in upper or lower
/// case: the name ends with a dot and these three letters, and is more than
/// that.
pub open spec fn has_git_extension(path: Seq<char>) -> bool {
    let end = name_end(path) as int;
    &&& end >= 5
    &&& path[end - 5] != '/'
    &&& path[end - 4] == '.'
    &&& (path[end - 3] == 'g' || path[end - 3] == 'G')
    &&& (path[end - 2] == 'i' || path[end - 2] == 'I')
    &&& (path[end - 1] == 't' || path[end - 1] == 'T')
}

/// The address of a web URL with the scheme `scheme` and the text `text`: the
/// text without its last four characters where it has the extension `git`,
/// and without a slash at its end. Other schemes give none.
pub open spec fn web_address(scheme: Seq<char>, text: Seq<char>) -> Option<Seq<char>> {
    if scheme == "https"@ || scheme == "http"@ {
        let cut = if has_git_extension(text) {
            text.take(text.len() - 4)
        } else {
            text
        };
        Some(
            if cut.len() > 0 && cut.last() == '/' {
                cut.drop_last()
            } else {
                cut
            },
        )
    } else {
        None
    }
}

/// The HTTPS address of the repository that the groups of a match name: the
/// first group is the owner, the second the name.
pub open spec fn github_address(groups: Option<Seq<Option<Seq<char>>>>) -> Option<Seq<char>> {
    match groups {
        Some(g) => if g.len() >= 3 && g[1] is Some && g[2] is Some {
            Some(GITHUB_HTTPS_PREFIX@ + g[1]->0 + "/"@ + g[2]->0)
        } else {
            None
        },
        None => None,
    }
}

/// The address of a repository, from what the three readings of the input
/// gave: a web URL wins, then the SSH form, then the short form.
pub open spec fn repository_url(
    parsed: Option<(Seq<char>, Seq<char>)>,
    ssh: Option<Seq<Option<Seq<char>>>>,
    short: Option<Seq<Option<Seq<char>>>>,
) -> Result<Seq<char>, Seq<char>> {
    let web = match parsed {
        Some((scheme, text)) => web_address(scheme, text),
        None => None,
    };
    if web is Some {
        Ok(web->0)
    } else if github_address(ssh) is Some {
        Ok(github_address(ssh)->0)
    } else if github_address(short) is Some {
        Ok(github_address(short)->0)
    } else {
        Err(INVALID_REPOSITORY@)
    }
}

/// The name of the repository, from the groups of a match of
/// [`REPO_NAME_PATTERN`].
pub open spec fn repo_name(groups: Option<Seq<Option<Seq<char>>>>) -> Result<
    Seq<char>,
    Seq<char>,
> {
    match groups {
        Some(g) => if g.len() >= 2 && g[1] is Some {
            Ok(g[1]->0)
        } else {
            Err(NO_REPOSITORY_NAME@)
        },
        None => Err(NO_REPOSITORY_NAME@),
    }
}

/// The address to clone from: `url` itself where it has the extension `git`,
/// and with `.git` added where it has not.
pub open spec fn clone_address(url: Seq<char>) -> Seq<char> {
    if has_git_extension(url) {
        url
    } else {
        url + GIT_SUFFIX@
    }
}

/// Where the last name of `path` ends.
fn name_end_of(path: &Vec<char>) -> (end: usize)
    ensures
        end == name_end(path@),
        end <= path.len(),
{
    let mut end: usize = path.len();
    assert(path@.take(end as int) =~= path@);
    while end > 0 && (path[end - 1] == '/' || (path[end - 1] == '.' && end >= 2 && path[end - 2]
        == '/'))
        invariant
            end <= path.len(),
            name_end(path@) == name_end(path@.take(end as int)),
        decreases end,
    {
        assert(path@.take(end as int).drop_last() =~= path@.take(end - 1));
        end -= 1;
    }
    end
}

/// Whether the last name of `path` has the extension `git`.
pub fn is_git_path(path: &Vec<char>) -> (found: bool)
    ensures
        found == has_git_extension(path@),
        found ==> path.len() >= 5,
{
    let end = name_end_of(path);
    end >= 5 && path[end - 5] != '/' && path[end - 4] == '.' && (path[end - 3] == 'g' || path[end
        - 3] == 'G') && (path[end - 2] == 'i' || path[end - 2] == 'I') && (path[end - 1] == 't'
        || path[end - 1] == 'T')
}

/// The address of a web URL, where `parsed` is one.
pub fn web_address_of(parsed: &ParsedUrl) -> (address: Option<String>)
    ensures
        option_string(address) == web_address(parsed.scheme@, parsed.text@),
{
    if !same_text(parsed.scheme.as_str(), "https") && !same_text(parsed.scheme.as_str(), "http") {
        return None;
    }
    let chars = chars_of(parsed.text.as_str());
    let mut end: usize = chars.len();
    if is_git_path(&chars) {
        end = end - 4;
    }
    if end > 0 && chars[end - 1] == '/' {
        end = end - 1;
    }
    let mut address = String::new();
    push_chars(&mut address, &chars, 0, end);
    proof {
        let text = parsed.text@;
        let cut = if has_git_extension(text) {
            text.take(text.len() - 4)
        } else {
            text
        };
        assert(text.take(text.len() as int) =~= text);
        assert(cut.len() > 0 ==> cut.drop_last() =~= text.take(cut.len() - 1));
        assert(text.subrange(0, end as int) =~= text.take(end as int));
        assert(address@ =~= web_address(parsed.scheme@, text)->0);
    }
    Some(address)
}

/// The HTTPS address of the repository that the groups of a match name.
pub fn github_address_of(groups: &Option<Vec<Option<String>>>) -> (address: Option<String>)
    ensures
        option_string(address) == github_address(groups_text(*groups)),
{
    match groups {
        Some(list) => {
            if list.len() < 3 {
                return None;
            }
            match (&list[1], &list[2]) {
                (Some(owner), Some(name)) => {
                    let mut address = String::from_str(GITHUB_HTTPS_PREFIX);
                    address.append(owner.as_str());
                    address.append("/");
                    address.append(name.as_str());
                    Some(address)
                },
                _ => None,
            }
        },
        None => None,
    }
}

/// Brings the address of a repository into one form. A web URL is kept,
/// without `.git` and without a slash at its end; an SSH address of GitHub
/// and the short form `owner/name` become HTTPS addresses of GitHub; anything
/// else is refused.
pub fn normalize_repository_url(repo_input: &str) -> (r: Result<String, String>)
    ensures
        result_text(r) == repository_url(
            parsed_url(repo_input@),
            regex_groups(SSH_URL_PATTERN@, repo_input@),
            regex_groups(SHORT_NAME_PATTERN@, repo_input@),
        ),
{
    if let Some(parsed) = parse_url(repo_input) {
        if let Some(address) = web_address_of(&parsed) {
            return Ok(address);
        }
    }
    if let Some(address) = github_address_of(&regex_captures(SSH_URL_PATTERN, repo_input)) {
        return Ok(address);
    }
    if let Some(address) = github_address_of(&regex_captures(SHORT_NAME_PATTERN, repo_input)) {
        return Ok(address);
    }
    Err(String::from_str(INVALID_REPOSITORY))
}

/// The name of the repository that the groups of a match of
/// [`REPO_NAME_PATTERN`] show.
pub fn repo_name_of(groups: &Option<Vec<Option<String>>>) -> (r: Result<String, String>)
    ensures
        result_text(r) == repo_name(groups_text(*groups)),
{
    match groups {
        Some(list) => {
            if list.len() < 2 {
                return Err(String::from_str(NO_REPOSITORY_NAME));
            }
            match &list[1] {
                Some(name) => Ok(name.clone()),
                None => Err(String::from_str(NO_REPOSITORY_NAME)),
            }
        },
        None => Err(String::from_str(NO_REPOSITORY_NAME)),
    }
}

/// The name of the repository in a GitHub address over HTTPS.
pub fn extract_repo_name(url: &str) -> (r: Result<String, String>)
    ensures
        result_text(r) == repo_name(regex_groups(REPO_NAME_PATTERN@, url@)),
{
    repo_name_of(&regex_captures(REPO_NAME_PATTERN, url))
}

/// The address to hand to git for cloning `url`.
pub fn clone_url(url: &str) -> (address: String)
    ensures
        address@ == clone_address(url@),
{
    let chars = chars_of(url);
    if is_git_path(&chars) {
        String::from_str(url)
    } else {
        String::from_str(url).concat(GIT_SUFFIX)
    }
}

/// What is said, before the complaint of git, where cloning failed.
pub const CLONE_FAILED: &'static str = "Failed to clone repository: ";

/// What is said of a clone that holds nothing.
pub const EMPTY_REPOSITORY: &'static str = "Repository appears to be empty";

/// What follows the last slash of `s`, or all of `s` where it has none.
pub open spec fn last_segment(s: Seq<char>) -> Seq<char>
    decreases s.len(),
{
    if s.len() == 0 || s.last() == '/' {
        Seq::empty()
    } else {
        last_segment(s.drop_last()).push(s.last())
    }
}

/// `s` without `suffix` at its end, however often it stands there.
pub open spec fn without_suffix(s: Seq<char>, suffix: Seq<char>) -> Seq<char>
    decreases s.len(),
{
    if suffix.len() > 0 && suffix.is_suffix_of(s) {
        without_suffix(s.take(s.len() - suffix.len()), suffix)
    } else {
        s
    }
}

/// The name under which the repository at `url` is known: what follows the
/// last slash, without `.git` at its end.
pub open spec fn local_name(url: Seq<char>) -> Seq<char> {
    without_suffix(last_segment(url), GIT_SUFFIX@)
}

/// How a download ended: with the complaint of git where cloning failed, as
/// empty where the clone holds no entry, and well otherwise.
pub open spec fn download_verdict(cloned: bool, complaint: Seq<char>, entries: nat) -> Result<
    (),
    Seq<char>,
> {
    if !cloned {
        Err(CLONE_FAILED@ + complaint)
    } else if entries == 0 {
        Err(EMPTY_REPOSITORY@)
    } else {
        Ok(())
    }
}

/// The name under which the repository at `url` is known.
pub fn local_name_of(url: &str) -> (name: String)
    ensures
        name@ == local_name(url@),
{
    let chars = chars_of(url);
    let mut start: usize = chars.len();
    assert(chars@.subrange(start as int, chars.len() as int) =~= Seq::<char>::empty());
    assert(chars@.take(start as int) =~= chars@);
    while start > 0 && chars[start - 1] != '/'
        invariant
            start <= chars.len(),
            last_segment(chars@) == last_segment(chars@.take(start as int)) + chars@.subrange(
                start as int,
                chars.len() as int,
            ),
        decreases start,
    {
        proof {
            let head = chars@.take(start as int);
            assert(head.drop_last() =~= chars@.take(start - 1));
            assert(last_segment(head.drop_last()).push(head.last()) + chars@.subrange(
                start as int,
                chars.len() as int,
            ) =~= last_segment(head.drop_last()) + chars@.subrange(
                start - 1,
                chars.len() as int,
            ));
        }
        start -= 1;
    }
    let mut segment: Vec<char> = Vec::new();
    let mut i: usize = start;
    while i < chars.len()
        invariant
            start <= i <= chars.len(),
            segment@ == chars@.subrange(start as int, i as int),
        decreases chars.len() - i,
    {
        segment.push(chars[i]);
        assert(segment@ =~= chars@.subrange(start as int, i + 1));
        i += 1;
    }
    assert(segment@ =~= last_segment(chars@));
    let suffix_len = chars_of(GIT_SUFFIX).len();
    while suffix_len > 0 && ends_with(&segment, GIT_SUFFIX)
        invariant
            suffix_len == GIT_SUFFIX@.len(),
            local_name(url@) == without_suffix(segment@, GIT_SUFFIX@),
        decreases segment.len(),
    {
        segment.truncate(segment.len() - suffix_len);
    }
    let mut name = String::new();
    push_chars(&mut name, &segment, 0, segment.len());
    assert(segment@.subrange(0, segment.len() as int) =~= segment@);
    name
}

/// Judges how a download ended: `cloned` says whether git succeeded,
/// `complaint` is what it wrote where it did not, and `entries` is the number
/// of entries in the directory that it filled.
pub fn check_download(cloned: bool, complaint: &str, entries: usize) -> (r: Result<(), String>)
    ensures
        match r {
            Ok(_) => download_verdict(cloned, complaint@, entries as nat) is Ok,
            Err(e) => download_verdict(cloned, complaint@, entries as nat) == Err::<
                (),
                Seq<char>,
            >(e@),
        },
{
    if !cloned {
        Err(String::from_str(CLONE_FAILED).concat(complaint))
    } else if entries == 0 {
        Err(String::from_str(EMPTY_REPOSITORY))
    } else {
        Ok(())
    }
}

} // verus!
