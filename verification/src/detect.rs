//! Telling binary files from text by their first bytes.
//!
//! The judgement is a heuristic and meant to stay one: a binary file without
//! a NUL byte near its beginning passes for text, and text with NUL bytes in
//! it (UTF-16, say) passes for binary.

use vstd::prelude::*;
use vstd::slice::slice_subrange;
use crate::model::Detector;
use crate::text::{chars_of, starts_with};
use crate::trusted::{option_text, sniff_content_type, sniffed_content_type};

verus! {

/// The number of bytes that are looked at for a content type.
pub const SNIFF_LEN: usize = 1024;

/// The number of bytes that are looked at for NUL bytes alone.
pub const SCAN_LEN: usize = 8000;

/// The beginning of the content types that are text.
pub const TEXT_TYPE_PREFIX: &'static str = "text/";

/// The first `limit` elements of `bytes`, or all of them where there are
/// fewer.
pub open spec fn prefix(bytes: Seq<u8>, limit: nat) -> Seq<u8> {
    if bytes.len() <= limit {
        bytes
    } else {
        bytes.take(limit as int)
    }
}

/// Whether a NUL byte is among `bytes`.
pub open spec fn has_nul(bytes: Seq<u8>) -> bool {
    exists|i: int| 0 <= i < bytes.len() && bytes[i] == 0u8
}

/// Whether bytes of which `content_type` was recognised are binary: nothing
/// is text; a recognised type decides by whether it is a text type; without
/// one, a NUL byte decides.
pub open spec fn binary_verdict(bytes: Seq<u8>, content_type: Option<Seq<char>>) -> bool {
    if bytes.len() == 0 {
        false
    } else {
        match content_type {
            Some(t) => !TEXT_TYPE_PREFIX@.is_prefix_of(t),
            None => has_nul(bytes),
        }
    }
}

/// Whether a file that begins with `content` is binary by its content type.
pub open spec fn looks_binary(content: Seq<u8>) -> bool {
    let head = prefix(content, SNIFF_LEN as nat);
    binary_verdict(head, sniffed_content_type(head))
}

/// Whether a file that begins with `content` is binary in the eyes of
/// `detector`.
pub open spec fn judged_binary(content: Seq<u8>, detector: Detector) -> bool {
    match detector {
        Detector::ContentType => looks_binary(content),
        Detector::NulBytes => has_nul(prefix(content, SCAN_LEN as nat)),
    }
}

/// The number of bytes that `detector` looks at.
pub open spec fn prefix_len(detector: Detector) -> nat {
    match detector {
        Detector::ContentType => SNIFF_LEN as nat,
        Detector::NulBytes => SCAN_LEN as nat,
    }
}

/// The first `limit` bytes of `content`.
fn head_of(content: &[u8], limit: usize) -> (head: &[u8])
    ensures
        head@ == prefix(content@, limit as nat),
{
    if content.len() <= limit {
        content
    } else {
        let head = slice_subrange(content, 0, limit);
        assert(head@ =~= content@.take(limit as int));
        head
    }
}

/// Whether a NUL byte is among `bytes`.
pub fn contains_nul(bytes: &[u8]) -> (found: bool)
    ensures
        found == has_nul(bytes@),
{
    let mut i: usize = 0;
    while i < bytes.len()
        invariant
            i <= bytes.len(),
            forall|j: int| 0 <= j < i ==> bytes@[j] != 0u8,
        decreases bytes.len() - i,
    {
        if bytes[i] == 0 {
            return true;
        }
        i += 1;
    }
    false
}

/// Judges bytes of which `content_type` was recognised.
pub fn judge(bytes: &[u8], content_type: Option<&str>) -> (binary: bool)
    ensures
        binary == binary_verdict(bytes@, option_text(content_type)),
{
    if bytes.len() == 0 {
        return false;
    }
    match content_type {
        Some(t) => {
            let chars = chars_of(t);
            !starts_with(&chars, TEXT_TYPE_PREFIX)
        },
        None => contains_nul(bytes),
    }
}

/// Judges a file by the content type of its first 1024 bytes. `content` is
/// the beginning of the file, or all of it; what lies beyond the first 1024
/// bytes is not looked at.
pub fn is_binary_file(content: &[u8]) -> (binary: bool)
    ensures
        binary == looks_binary(content@),
        content@.len() == 0 ==> !binary,
{
    let head = head_of(content, SNIFF_LEN);
    if head.len() == 0 {
        return false;
    }
    judge(head, sniff_content_type(head))
}

/// Judges a file in the way of `detector`. `content` is the beginning of the
/// file, or all of it.
pub fn detect(content: &[u8], detector: Detector) -> (binary: bool)
    ensures
        binary == judged_binary(content@, detector),
        content@.len() == 0 ==> !binary,
{
    match detector {
        Detector::ContentType => is_binary_file(content),
        Detector::NulBytes => contains_nul(head_of(content, SCAN_LEN)),
    }
}

/// The number of bytes of a file that `detector` wants to see.
pub fn bytes_wanted(detector: Detector) -> (limit: usize)
    ensures
        limit == prefix_len(detector),
{
    match detector {
        Detector::ContentType => SNIFF_LEN,
        Detector::NulBytes => SCAN_LEN,
    }
}

/// A file without content is never binary, whatever the detector.
pub proof fn lemma_empty_is_text(content: Seq<u8>, detector: Detector)
    requires
        content.len() == 0,
    ensures
        !judged_binary(content, detector),
{
}

/// A NUL byte in the part that is looked at makes a file binary, unless a
/// text type is recognised in that part.
pub proof fn lemma_nul_is_binary(content: Seq<u8>, detector: Detector)
    requires
        has_nul(prefix(content, prefix_len(detector))),
        detector == Detector::ContentType ==> match sniffed_content_type(
            prefix(content, SNIFF_LEN as nat),
        ) {
            Some(t) => !TEXT_TYPE_PREFIX@.is_prefix_of(t),
            None => true,
        },
    ensures
        judged_binary(content, detector),
{
}

/// What lies beyond the part that is looked at does not matter.
pub proof fn lemma_only_the_prefix_matters(content: Seq<u8>, detector: Detector)
    ensures
        judged_binary(content, detector) == judged_binary(
            prefix(content, prefix_len(detector)),
            detector,
        ),
{
    let head = prefix(content, prefix_len(detector));
    assert(prefix(head, prefix_len(detector)) =~= head);
}

} // verus!
