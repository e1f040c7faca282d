//! The data of a run: its configuration, the entries of the tree, and the
//! decision taken on each.

use vstd::prelude::*;

verus! {

/// Why an entry is left out.
#[derive(Clone, Copy, Debug, PartialEq, Eq, Structural)]
pub enum Reason {
    /// It is not left out.
    NoReason,
    /// Its name, or that of a directory above it, is an excluded one.
    ExcludedName,
    /// It is larger than the threshold.
    TooLarge,
    /// Its content looks binary.
    Binary,
}

/// Whether an entry is taken, and if not, why.
#[derive(Clone, Copy, Debug, PartialEq, Eq, Structural)]
pub struct Decision {
    pub included: bool,
    pub reason: Reason,
}

impl Decision {
    /// An entry is taken exactly when there is no reason against it.
    pub open spec fn wf(self) -> bool {
        self.included <==> self.reason == Reason::NoReason
    }

    /// The decision to take an entry.
    pub open spec fn taken() -> Decision {
        Decision { included: true, reason: Reason::NoReason }
    }

    /// The decision to leave an entry out for `reason`.
    pub open spec fn left_out(reason: Reason) -> Decision {
        Decision { included: false, reason }
    }
}

/// How the first bytes of a file are judged.
#[derive(Clone, Copy, Debug, PartialEq, Eq, Structural)]
pub enum Detector {
    /// By the content type that the first 1024 bytes give away, and by NUL
    /// bytes where they give none away.
    ContentType,
    /// By NUL bytes among the first 8000 bytes alone.
    NulBytes,
}

/// How sizes are written in banners.
#[derive(Clone, Copy, Debug, PartialEq, Eq, Structural)]
pub enum SizeStyle {
    /// `1.50 KB`: two decimal places and the units `bytes`, `KB`, `MB`, `GB`,
    /// `TB`.
    Plain,
    /// `1.50 KiB`: the binary prefixes, as the `humansize` crate writes them.
    BinaryPrefix,
}

/// The settings of a run. They are fixed when the run begins.
#[derive(Debug)]
pub struct Config {
    /// Files larger than this many bytes are left out.
    pub threshold_bytes: u64,
    /// Whether files are taken whatever their size and content.
    pub include_all: bool,
    /// Names of directories that are never entered.
    pub excluded_dir_names: Vec<String>,
    /// Names of files that are never taken.
    pub excluded_file_names: Vec<String>,
    /// How the content of files is judged.
    pub detector: Detector,
    /// How sizes are written in banners.
    pub size_style: SizeStyle,
}

/// Whether one of `list` is `name`.
pub open spec fn names_contain(list: Seq<String>, name: Seq<char>) -> bool {
    exists|i: int| 0 <= i < list.len() && (#[trigger] list[i])@ == name
}

/// The texts of `list`.
pub open spec fn names(list: Seq<String>) -> Seq<Seq<char>> {
    Seq::new(list.len(), |i: int| list[i]@)
}

/// What a configuration says.
pub struct ConfigView {
    pub threshold_bytes: nat,
    pub include_all: bool,
    pub excluded_dirs: Set<Seq<char>>,
    pub excluded_files: Set<Seq<char>>,
    pub detector: Detector,
    pub size_style: SizeStyle,
}

impl ConfigView {
    /// The names that every configuration excludes are among those of this
    /// one.
    pub open spec fn wf(self) -> bool {
        &&& self.excluded_dirs.contains(".git"@)
        &&& self.excluded_dirs.contains("node_modules"@)
        &&& self.excluded_files.contains(".gitignore"@)
    }
}

impl View for Config {
    type V = ConfigView;

    open spec fn view(&self) -> ConfigView {
        ConfigView {
            threshold_bytes: self.threshold_bytes as nat,
            include_all: self.include_all,
            excluded_dirs: Set::new(|name: Seq<char>| names_contain(self.excluded_dir_names@, name)),
            excluded_files: Set::new(
                |name: Seq<char>| names_contain(self.excluded_file_names@, name),
            ),
            detector: self.detector,
            size_style: self.size_style,
        }
    }
}

/// Whether `name` is in `list`.
pub fn contains_name(list: &Vec<String>, name: &String) -> (found: bool)
    ensures
        found == names_contain(list@, name@),
{
    let mut i: usize = 0;
    while i < list.len()
        invariant
            i <= list.len(),
            forall|j: int| 0 <= j < i ==> (#[trigger] list@[j])@ != name@,
        decreases list.len() - i,
    {
        if list[i] == *name {
            return true;
        }
        i += 1;
    }
    false
}

impl Config {
    /// A configuration with the given threshold that excludes the directories
    /// `.git` and `node_modules` and the file `.gitignore`, judges content by
    /// its type and writes sizes plainly.
    pub fn new(threshold_bytes: u64, include_all: bool) -> (config: Config)
        ensures
            config@.wf(),
            config@.threshold_bytes == threshold_bytes,
            config@.include_all == include_all,
            config@.excluded_dirs == set![".git"@, "node_modules"@],
            config@.excluded_files == set![".gitignore"@],
            config@.detector == Detector::ContentType,
            config@.size_style == SizeStyle::Plain,
    {
        let mut excluded_dir_names: Vec<String> = Vec::new();
        excluded_dir_names.push(".git".to_owned());
        excluded_dir_names.push("node_modules".to_owned());
        let mut excluded_file_names: Vec<String> = Vec::new();
        excluded_file_names.push(".gitignore".to_owned());
        let config = Config {
            threshold_bytes,
            include_all,
            excluded_dir_names,
            excluded_file_names,
            detector: Detector::ContentType,
            size_style: SizeStyle::Plain,
        };
        proof {
            assert(config.excluded_dir_names@[0]@ == ".git"@);
            assert(config.excluded_dir_names@[1]@ == "node_modules"@);
            assert(config.excluded_file_names@[0]@ == ".gitignore"@);
            assert(config@.excluded_dirs =~= set![".git"@, "node_modules"@]);
            assert(config@.excluded_files =~= set![".gitignore"@]);
        }
        config
    }
}

/// A node of the tree, as the walk meets it.
#[derive(Debug)]
pub struct Entry {
    /// The names from the root down to the entry, the entry's own name last.
    pub relative_path: Vec<String>,
    /// Whether the entry is a directory; what is none counts as a file.
    pub is_directory: bool,
    /// The size of a file in bytes.
    pub size_bytes: u64,
}

/// What an entry says.
pub struct EntryView {
    pub path: Seq<Seq<char>>,
    pub is_directory: bool,
    pub size_bytes: nat,
}

impl View for Entry {
    type V = EntryView;

    open spec fn view(&self) -> EntryView {
        EntryView {
            path: names(self.relative_path@),
            is_directory: self.is_directory,
            size_bytes: self.size_bytes as nat,
        }
    }
}

} // verus!
