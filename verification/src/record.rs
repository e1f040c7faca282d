//! The record of a file in the artifact: a banner with its path and size,
//! its content, and a blank line after it.

use vstd::prelude::*;
use vstd::string::StringExecFns;
use crate::model::{names, Entry, EntryView, SizeStyle};
use crate::size::{format_file_size, size_text};
use crate::trusted::{binary_size_text, format_size_binary};

verus! {

/// The line that opens and closes a banner: eighty equals signs.
pub const RULE: &'static str =
    "================================================================================";

/// What follows the content of every record.
pub const TRAILER: &'static str = "\n\n";

/// The names of `path`, with a slash between each two.
pub open spec fn path_text(path: Seq<Seq<char>>) -> Seq<char>
    decreases path.len(),
{
    if path.len() == 0 {
        Seq::empty()
    } else if path.len() == 1 {
        path[0]
    } else {
        path_text(path.drop_last()) + "/"@ + path.last()
    }
}

/// The size `size`, written in `style`.
pub open spec fn size_label(size: nat, style: SizeStyle) -> Seq<char> {
    match style {
        SizeStyle::Plain => size_text(size),
        SizeStyle::BinaryPrefix => binary_size_text(size as u64),
    }
}

/// The banner of a file with the path text `path` and the size text `size`.
pub open spec fn banner_text(path: Seq<char>, size: Seq<char>) -> Seq<char> {
    "\n"@ + RULE@ + "\n"@ + "File: "@ + path + "\n"@ + "Size: "@ + size + "\n"@ + RULE@ + "\n\n"@
}

/// The banner of the file `entry`.
pub open spec fn banner(entry: EntryView, style: SizeStyle) -> Seq<char> {
    banner_text(path_text(entry.path), size_label(entry.size_bytes, style))
}

/// The record of the file `entry` with the content `content`: the banner
/// first, then the content as it is, then the trailer.
pub open spec fn record(entry: EntryView, style: SizeStyle, content: Seq<char>) -> Seq<char> {
    banner(entry, style) + content + TRAILER@
}

/// Writes a path with slashes.
pub fn path_text_of(path: &Vec<String>) -> (text: String)
    ensures
        text@ == path_text(names(path@)),
{
    let mut text = String::new();
    let mut i: usize = 0;
    while i < path.len()
        invariant
            i <= path.len(),
            text@ == path_text(names(path@).take(i as int)),
        decreases path.len() - i,
    {
        if i > 0 {
            text.append("/");
        }
        text.append(path[i].as_str());
        proof {
            let all = names(path@);
            assert(all.take(i + 1).drop_last() =~= all.take(i as int));
            assert(all.take(i + 1).last() == path@[i as int]@);
            if i == 0 {
                assert(path_text(all.take(0)) =~= Seq::<char>::empty());
                assert(text@ =~= path@[0]@);
            }
        }
        i += 1;
    }
    assert(names(path@).take(path.len() as int) =~= names(path@));
    text
}

/// Writes a size in `style`.
pub fn size_label_of(size: u64, style: SizeStyle) -> (text: String)
    ensures
        text@ == size_label(size as nat, style),
{
    match style {
        SizeStyle::Plain => format_file_size(size),
        SizeStyle::BinaryPrefix => format_size_binary(size),
    }
}

/// Writes the banner of a file from the texts of its path and size.
pub fn banner_from(path: &str, size: &str) -> (text: String)
    ensures
        text@ == banner_text(path@, size@),
{
    let mut text = String::from_str("\n");
    text.append(RULE);
    text.append("\n");
    text.append("File: ");
    text.append(path);
    text.append("\n");
    text.append("Size: ");
    text.append(size);
    text.append("\n");
    text.append(RULE);
    text.append("\n\n");
    text
}

/// Writes the banner of the file `entry`.
pub fn banner_of(entry: &Entry, style: SizeStyle) -> (text: String)
    ensures
        text@ == banner(entry@, style),
{
    let path = path_text_of(&entry.relative_path);
    let size = size_label_of(entry.size_bytes, style);
    banner_from(path.as_str(), size.as_str())
}

/// Writes the record of the file `entry` with the content `content`.
pub fn record_of(entry: &Entry, style: SizeStyle, content: &str) -> (text: String)
    ensures
        text@ == record(entry@, style, content@),
{
    let mut text = banner_of(entry, style);
    text.append(content);
    text.append(TRAILER);
    text
}

} // verus!
