//! The classifier: whether an entry is taken or left out, and why.
//!
//! The rules are tried in a fixed order and the first that fits decides:
//! an excluded name; the setting that takes everything; directories, which
//! are always taken; the size; the content.

use vstd::prelude::*;
use crate::detect::{detect, judged_binary};
use crate::model::{contains_name, Config, ConfigView, Decision, Entry, EntryView, Reason};

verus! {

/// Whether one of the names on `path` is that of an excluded directory.
pub open spec fn has_excluded_component(path: Seq<Seq<char>>, config: ConfigView) -> bool {
    exists|i: int| 0 <= i < path.len() && config.excluded_dirs.contains(#[trigger] path[i])
}

/// Whether `path` is excluded by a name: one of its names is that of an
/// excluded directory, or its last name is that of an excluded file.
pub open spec fn name_excluded(path: Seq<Seq<char>>, config: ConfigView) -> bool {
    has_excluded_component(path, config) || (path.len() > 0 && config.excluded_files.contains(
        path.last(),
    ))
}

/// The decision on `entry`, where `binary` says whether its content looks
/// binary.
pub open spec fn decision(entry: EntryView, config: ConfigView, binary: bool) -> Decision {
    if name_excluded(entry.path, config) {
        Decision::left_out(Reason::ExcludedName)
    } else if config.include_all {
        Decision::taken()
    } else if entry.is_directory {
        Decision::taken()
    } else if entry.size_bytes > config.threshold_bytes {
        Decision::left_out(Reason::TooLarge)
    } else if binary {
        Decision::left_out(Reason::Binary)
    } else {
        Decision::taken()
    }
}

/// Whether the decision on `entry` hangs on its content: it is a file that
/// no earlier rule has decided.
pub open spec fn content_decides(entry: EntryView, config: ConfigView) -> bool {
    &&& !name_excluded(entry.path, config)
    &&& !config.include_all
    &&& !entry.is_directory
    &&& entry.size_bytes <= config.threshold_bytes
}

/// Whether `entry` is excluded by a name.
pub fn is_excluded_name(entry: &Entry, config: &Config) -> (excluded: bool)
    ensures
        excluded == name_excluded(entry@.path, config@),
{
    let path = &entry.relative_path;
    let mut i: usize = 0;
    while i < path.len()
        invariant
            i <= path.len(),
            path == &entry.relative_path,
            forall|j: int| 0 <= j < i ==> !config@.excluded_dirs.contains(#[trigger] entry@.path[j]),
        decreases path.len() - i,
    {
        if contains_name(&config.excluded_dir_names, &path[i]) {
            assert(config@.excluded_dirs.contains(entry@.path[i as int]));
            return true;
        }
        i += 1;
    }
    if path.len() > 0 {
        assert(entry@.path.last() == path@[path.len() - 1]@);
        contains_name(&config.excluded_file_names, &path[path.len() - 1])
    } else {
        false
    }
}

/// Decides on `entry`, given whether its content looks binary.
pub fn decide(entry: &Entry, config: &Config, binary: bool) -> (d: Decision)
    ensures
        d == decision(entry@, config@, binary),
        d.wf(),
{
    if is_excluded_name(entry, config) {
        Decision { included: false, reason: Reason::ExcludedName }
    } else if config.include_all || entry.is_directory {
        Decision { included: true, reason: Reason::NoReason }
    } else if entry.size_bytes > config.threshold_bytes {
        Decision { included: false, reason: Reason::TooLarge }
    } else if binary {
        Decision { included: false, reason: Reason::Binary }
    } else {
        Decision { included: true, reason: Reason::NoReason }
    }
}

/// Whether the content of `entry` has to be looked at to decide on it.
pub fn needs_content(entry: &Entry, config: &Config) -> (needed: bool)
    ensures
        needed == content_decides(entry@, config@),
        !needed ==> decision(entry@, config@, true) == decision(entry@, config@, false),
{
    !is_excluded_name(entry, config) && !config.include_all && !entry.is_directory
        && entry.size_bytes <= config.threshold_bytes
}

/// Decides on `entry`, of which `content` is the beginning: as many bytes as
/// the detector of `config` wants, or all there are. Where the content does
/// not matter, it is not looked at.
pub fn classify(entry: &Entry, config: &Config, content: &[u8]) -> (d: Decision)
    ensures
        d == decision(entry@, config@, judged_binary(content@, config@.detector)),
        d.wf(),
{
    if needs_content(entry, config) {
        decide(entry, config, detect(content, config.detector))
    } else {
        decide(entry, config, false)
    }
}

/// Whether `entry`, of which `content` is the beginning, is left out.
pub fn is_excluded_file(entry: &Entry, config: &Config, content: &[u8]) -> (excluded: bool)
    ensures
        excluded == !decision(entry@, config@, judged_binary(content@, config@.detector)).included,
{
    !classify(entry, config, content).included
}

/// A file that is larger than the threshold is left out as too large, unless
/// everything is taken or a name excludes it first.
pub proof fn lemma_larger_than_threshold(entry: EntryView, config: ConfigView, binary: bool)
    requires
        !entry.is_directory,
        !config.include_all,
        !name_excluded(entry.path, config),
        entry.size_bytes > config.threshold_bytes,
    ensures
        decision(entry, config, binary) == Decision::left_out(Reason::TooLarge),
{
}

/// A file of exactly the threshold's size is never too large: it is taken
/// unless a name excludes it or its content is binary.
pub proof fn lemma_at_threshold(entry: EntryView, config: ConfigView, binary: bool)
    requires
        !entry.is_directory,
        entry.size_bytes == config.threshold_bytes,
    ensures
        decision(entry, config, binary).reason != Reason::TooLarge,
        !name_excluded(entry.path, config) && !binary ==> decision(entry, config, binary)
            == Decision::taken(),
{
}

/// Whatever is, or lies below, something named `.git` or `node_modules` is
/// left out for its name.
pub proof fn lemma_below_excluded_directory(
    entry: EntryView,
    config: ConfigView,
    binary: bool,
    depth: int,
)
    requires
        config.wf(),
        0 <= depth < entry.path.len(),
        entry.path[depth] == ".git"@ || entry.path[depth] == "node_modules"@,
    ensures
        decision(entry, config, binary) == Decision::left_out(Reason::ExcludedName),
{
}

/// Every decision either takes the entry and gives no reason, or leaves it
/// out and gives one.
pub proof fn lemma_decision_wf(entry: EntryView, config: ConfigView, binary: bool)
    ensures
        decision(entry, config, binary).wf(),
{
}

} // verus!
