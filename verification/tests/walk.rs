use gitsnap::model::{Config, Detector, SizeStyle};
use gitsnap::stats::RunStats;
use gitsnap::model::Reason;
use gitsnap::walk::{Action, Event, Phase, Settled, Walk};

/// A tree in memory, to walk over.
enum Node {
    Dir(Vec<(&'static str, Node)>),
    File(Vec<u8>),
    LockedDir,
    LockedFile(u64),
}

fn find<'a>(root: &'a Node, path: &[String]) -> &'a Node {
    let mut node = root;
    for name in path {
        match node {
            Node::Dir(children) => {
                node = &children.iter().find(|(n, _)| n == name).expect("no such entry").1;
            }
            _ => panic!("not a directory"),
        }
    }
    node
}

fn found(name: &str, node: &Node) -> Event {
    let (is_directory, size_bytes) = match node {
        Node::Dir(_) | Node::LockedDir => (true, 0),
        Node::File(bytes) => (false, bytes.len() as u64),
        Node::LockedFile(size) => (false, *size),
    };
    Event::Found { name: name.to_string(), is_directory, size_bytes }
}

/// Does what the walk asks for until it ends; returns the walk, its last
/// action and every path that it asked to list or read.
fn run(root: &Node, config: Config) -> (Walk, Action, Vec<String>) {
    let mut walk = Walk::new(config);
    let mut asked: Vec<String> = Vec::new();
    let mut listing: Vec<Event> = Vec::new();
    let mut action = walk.step(Event::Begin);
    loop {
        let event = match &action {
            Action::List(path) => {
                asked.push(format!("list {}", path.join("/")));
                match find(root, path) {
                    Node::Dir(children) => {
                        listing = children.iter().rev().map(|(n, c)| found(n, c)).collect();
                        listing.pop().unwrap_or(Event::ListingDone)
                    }
                    _ => Event::ListingFailed,
                }
            }
            Action::Next(_) => listing.pop().unwrap_or(Event::ListingDone),
            Action::ReadPrefix { path, limit } => {
                asked.push(format!("prefix {}", path.join("/")));
                match find(root, path) {
                    Node::File(bytes) => {
                        Event::Prefix(bytes[..bytes.len().min(*limit)].to_vec())
                    }
                    _ => Event::Unreadable,
                }
            }
            Action::ReadContent(path) => {
                asked.push(format!("content {}", path.join("/")));
                match find(root, path) {
                    Node::File(bytes) => match String::from_utf8(bytes.clone()) {
                        Ok(text) => Event::Content(text),
                        Err(_) => Event::Unreadable,
                    },
                    _ => Event::Unreadable,
                }
            }
            Action::Finish | Action::Abort => return (walk, action, asked),
            Action::Unexpected => panic!("the walk did not expect the event"),
        };
        action = walk.step(event);
    }
}

fn text_file(len: usize) -> Node {
    Node::File(vec![b'a'; len])
}

fn file_with_nul(len: usize, at: usize) -> Node {
    let mut bytes = vec![b'x'; len];
    bytes[at] = 0;
    Node::File(bytes)
}

fn sample_tree() -> Node {
    Node::Dir(vec![
        ("a.txt", text_file(50)),
        ("b.bin", file_with_nul(2000, 10)),
        (".git", Node::Dir(vec![("config", Node::File(b"[core]\n".to_vec()))])),
    ])
}

fn rule() -> String {
    "=".repeat(80)
}

fn expected_record(path: &str, size: &str, content: &str) -> String {
    format!("\n{}\nFile: {}\nSize: {}\n{}\n\n{}\n\n", rule(), path, size, rule(), content)
}

fn threshold_of(megabytes: f64) -> u64 {
    (megabytes * 1024.0 * 1024.0) as u64
}

#[test]
fn small_text_file_alone_is_recorded() {
    let threshold = threshold_of(0.001);
    assert_eq!(threshold, 1048);
    let (walk, last, _) = run(&sample_tree(), Config::new(threshold, false));
    assert!(matches!(last, Action::Finish));
    assert_eq!(walk.phase(), Phase::Finished);
    assert_eq!(walk.records().len(), 1);
    assert_eq!(walk.output(), expected_record("a.txt", "50.00 bytes", &"a".repeat(50)));
    assert_eq!(walk.stats(), RunStats { processed_count: 1, skipped_count: 2 });
}

#[test]
fn large_file_is_left_out_before_its_content_is_looked_at() {
    let (_, _, asked) = run(&sample_tree(), Config::new(1048, false));
    assert_eq!(asked, vec!["list ", "prefix a.txt", "content a.txt"]);
}

#[test]
fn everything_but_excluded_names_is_recorded_on_demand() {
    let (walk, _, asked) = run(&sample_tree(), Config::new(1048, true));
    let mut content = "x".repeat(2000);
    content.replace_range(10..11, "\0");
    let expected = expected_record("a.txt", "50.00 bytes", &"a".repeat(50))
        + &expected_record("b.bin", "1.95 KB", &content);
    assert_eq!(walk.output(), expected);
    assert_eq!(walk.records().len(), 2);
    assert_eq!(walk.stats(), RunStats { processed_count: 2, skipped_count: 1 });
    assert!(asked.iter().all(|a| !a.contains(".git")));
}

#[test]
fn excluded_directories_are_never_entered() {
    let tree = Node::Dir(vec![
        ("src", Node::Dir(vec![
            ("node_modules", Node::Dir(vec![("dep.js", text_file(10))])),
            ("main.rs", text_file(20)),
            (".gitignore", text_file(5)),
        ])),
        ("node_modules", Node::Dir(vec![("x", Node::Dir(vec![("y.js", text_file(3))]))])),
        (".git", Node::LockedDir),
    ]);
    let (walk, last, asked) = run(&tree, Config::new(1000, false));
    assert!(matches!(last, Action::Finish));
    assert_eq!(asked, vec!["list ", "list src", "prefix src/main.rs", "content src/main.rs"]);
    assert_eq!(walk.output(), expected_record("src/main.rs", "20.00 bytes", &"a".repeat(20)));
    assert_eq!(walk.stats(), RunStats { processed_count: 1, skipped_count: 4 });
}

#[test]
fn file_at_the_threshold_is_taken_and_one_byte_more_is_not() {
    let tree = Node::Dir(vec![("at", text_file(100)), ("over", text_file(101))]);
    let (walk, _, _) = run(&tree, Config::new(100, false));
    assert_eq!(walk.output(), expected_record("at", "100.00 bytes", &"a".repeat(100)));
    assert_eq!(walk.stats(), RunStats { processed_count: 1, skipped_count: 1 });
}

#[test]
fn binary_file_is_skipped_without_reading_it_whole() {
    let tree = Node::Dir(vec![("blob", file_with_nul(100, 3)), ("empty", text_file(0))]);
    let (walk, _, asked) = run(&tree, Config::new(1000, false));
    assert_eq!(asked, vec!["list ", "prefix blob", "prefix empty", "content empty"]);
    assert_eq!(walk.output(), expected_record("empty", "0.00 bytes", ""));
    assert_eq!(walk.stats(), RunStats { processed_count: 1, skipped_count: 1 });
}

#[test]
fn unreadable_file_is_skipped_and_the_walk_goes_on() {
    let tree = Node::Dir(vec![
        ("gone", Node::LockedFile(10)),
        ("latin1", Node::File(vec![b'a', 0xE9, b'b'])),
        ("ok", text_file(2)),
    ]);
    let (walk, last, _) = run(&tree, Config::new(1000, false));
    assert!(matches!(last, Action::Finish));
    assert_eq!(walk.output(), expected_record("ok", "2.00 bytes", "aa"));
    assert_eq!(walk.stats(), RunStats { processed_count: 1, skipped_count: 2 });
}

#[test]
fn unreadable_subdirectory_is_passed_over() {
    let tree = Node::Dir(vec![
        ("locked", Node::LockedDir),
        ("open", Node::Dir(vec![("f", text_file(1))])),
    ]);
    let (walk, last, asked) = run(&tree, Config::new(1000, false));
    assert!(matches!(last, Action::Finish));
    assert!(asked.contains(&"list locked".to_string()));
    assert_eq!(walk.output(), expected_record("open/f", "1.00 bytes", "a"));
    assert_eq!(walk.stats(), RunStats { processed_count: 1, skipped_count: 0 });
}

#[test]
fn unreadable_root_aborts_the_run() {
    let (walk, last, _) = run(&Node::LockedDir, Config::new(1000, false));
    assert!(matches!(last, Action::Abort));
    assert_eq!(walk.phase(), Phase::Aborted);
    assert_eq!(walk.output(), "");
    assert!(walk.stats().nothing_processed());
}

#[test]
fn empty_tree_gives_an_empty_artifact() {
    let (walk, last, _) = run(&Node::Dir(vec![]), Config::new(1000, false));
    assert!(matches!(last, Action::Finish));
    assert_eq!(walk.output(), "");
    assert_eq!(walk.stats(), RunStats { processed_count: 0, skipped_count: 0 });
    assert!(walk.stats().nothing_processed());
}

#[test]
fn events_out_of_turn_change_nothing() {
    let mut walk = Walk::new(Config::new(10, false));
    assert!(matches!(walk.step(Event::ListingDone), Action::Unexpected));
    assert!(matches!(walk.step(Event::Content("x".to_string())), Action::Unexpected));
    assert_eq!(walk.phase(), Phase::Ready);
    assert!(matches!(walk.step(Event::Begin), Action::List(path) if path.is_empty()));
    assert!(matches!(walk.step(Event::Begin), Action::Unexpected));
    assert!(matches!(walk.step(Event::Prefix(vec![1])), Action::Unexpected));
    assert_eq!(walk.phase(), Phase::Listing);
    let step = walk.step(Event::Found { name: "f".to_string(), is_directory: false, size_bytes: 1 });
    assert!(matches!(step, Action::ReadPrefix { limit: 1024, .. }));
    assert!(matches!(walk.step(Event::ListingDone), Action::Unexpected));
    assert_eq!(walk.phase(), Phase::AwaitingPrefix);
    assert!(matches!(walk.step(Event::Prefix(vec![b'a'])), Action::ReadContent(_)));
    assert!(matches!(
        walk.step(Event::Content("a".to_string())),
        Action::Next(Settled::Recorded)
    ));
    assert!(matches!(walk.step(Event::ListingDone), Action::Finish));
    assert!(matches!(walk.step(Event::Begin), Action::Unexpected));
    assert_eq!(walk.stats(), RunStats { processed_count: 1, skipped_count: 0 });
}

#[test]
fn two_runs_over_a_tree_give_the_same_records() {
    let (first, _, _) = run(&sample_tree(), Config::new(5000, false));
    let reordered = Node::Dir(vec![
        (".git", Node::Dir(vec![("config", Node::File(b"[core]\n".to_vec()))])),
        ("b.bin", file_with_nul(2000, 10)),
        ("a.txt", text_file(50)),
    ]);
    let (second, _, _) = run(&reordered, Config::new(5000, false));
    let mut a = first.records().clone();
    let mut b = second.records().clone();
    a.sort();
    b.sort();
    assert_eq!(a, b);
    assert_eq!(first.stats(), second.stats());
}

#[test]
fn counters_add_up_to_the_files_met() {
    let tree = Node::Dir(vec![
        ("a", text_file(1)),
        ("b", file_with_nul(5, 0)),
        ("c", text_file(5000)),
        ("d", Node::Dir(vec![("e", text_file(3)), (".gitignore", text_file(3))])),
        ("f", Node::LockedFile(3)),
    ]);
    let (walk, _, _) = run(&tree, Config::new(1000, false));
    let stats = walk.stats();
    assert_eq!(stats.processed_count + stats.skipped_count, 6);
    assert_eq!(stats.processed_count, 2);
}

#[test]
fn nul_scan_and_binary_prefixes_can_be_chosen() {
    let mut script = b"#!/bin/sh\n".to_vec();
    script.push(0);
    script.extend_from_slice(&[b'z'; 1525]);
    let tree = Node::Dir(vec![("run.sh", Node::File(script.clone()))]);

    let by_type = Config::new(10_000, false);
    let (walk, _, _) = run(&tree, by_type);
    assert_eq!(walk.stats(), RunStats { processed_count: 1, skipped_count: 0 });
    assert!(walk.output().contains("Size: 1.50 KB\n"));

    let mut by_nul = Config::new(10_000, false);
    by_nul.detector = Detector::NulBytes;
    let (walk, _, _) = run(&tree, by_nul);
    assert_eq!(walk.stats(), RunStats { processed_count: 0, skipped_count: 1 });

    let mut binary_units = Config::new(10_000, true);
    binary_units.size_style = SizeStyle::BinaryPrefix;
    let (walk, _, _) = run(&tree, binary_units);
    assert!(walk.output().contains("Size: 1.50 KiB\n"));
}

fn found_file(name: &str, size_bytes: u64) -> Event {
    Event::Found { name: name.to_string(), is_directory: false, size_bytes }
}

fn found_dir(name: &str) -> Event {
    Event::Found { name: name.to_string(), is_directory: true, size_bytes: 0 }
}

#[test]
fn every_entry_is_settled_in_a_way_that_is_told() {
    let mut walk = Walk::new(Config::new(10, false));
    walk.step(Event::Begin);
    assert!(matches!(walk.step(found_dir("src")), Action::Next(Settled::Entered)));
    assert!(matches!(
        walk.step(found_dir(".git")),
        Action::Next(Settled::LeftOut(Reason::ExcludedName))
    ));
    assert!(matches!(
        walk.step(found_file(".gitignore", 1)),
        Action::Next(Settled::LeftOut(Reason::ExcludedName))
    ));
    assert!(matches!(
        walk.step(found_file("big", 11)),
        Action::Next(Settled::LeftOut(Reason::TooLarge))
    ));
    assert!(matches!(walk.step(found_file("bin", 2)), Action::ReadPrefix { .. }));
    assert!(matches!(
        walk.step(Event::Prefix(vec![b'a', 0])),
        Action::Next(Settled::LeftOut(Reason::Binary))
    ));
    assert!(matches!(walk.step(found_file("lost", 2)), Action::ReadPrefix { .. }));
    assert!(matches!(walk.step(Event::Unreadable), Action::Next(Settled::Unreadable)));
    assert!(matches!(walk.step(found_file("odd", 2)), Action::ReadPrefix { .. }));
    assert!(matches!(walk.step(Event::Prefix(vec![b'a', b'b'])), Action::ReadContent(_)));
    assert!(matches!(walk.step(Event::Unreadable), Action::Next(Settled::Unreadable)));
    assert!(matches!(walk.step(found_file("ok", 2)), Action::ReadPrefix { .. }));
    assert!(matches!(walk.step(Event::Prefix(vec![b'a', b'b'])), Action::ReadContent(_)));
    assert!(matches!(
        walk.step(Event::Content("ab".to_string())),
        Action::Next(Settled::Recorded)
    ));
    assert!(matches!(walk.step(Event::ListingDone), Action::List(path) if path == ["src"]));
    assert!(matches!(walk.step(Event::ListingFailed), Action::Finish));
    assert_eq!(walk.stats(), RunStats { processed_count: 1, skipped_count: 6 });
}

#[test]
fn walk_keeps_its_configuration() {
    let mut config = Config::new(77, true);
    config.excluded_dir_names.push("target".to_string());
    let mut walk = Walk::new(config);
    assert_eq!(walk.config().threshold_bytes, 77);
    assert!(walk.config().include_all);
    walk.step(Event::Begin);
    assert!(matches!(
        walk.step(found_dir("target")),
        Action::Next(Settled::LeftOut(Reason::ExcludedName))
    ));
    assert_eq!(walk.config().excluded_dir_names.len(), 3);
}

#[test]
fn directories_are_listed_last_first_and_to_the_bottom() {
    let tree = Node::Dir(vec![
        ("a", Node::Dir(vec![("x", text_file(1))])),
        ("b", Node::Dir(vec![
            ("c", Node::Dir(vec![("y", text_file(1))])),
            ("z", text_file(1)),
        ])),
    ]);
    let (walk, _, asked) = run(&tree, Config::new(10, true));
    assert_eq!(
        asked,
        vec![
            "list ", "list b", "content b/z", "list b/c", "content b/c/y", "list a",
            "content a/x"
        ]
    );
    assert_eq!(walk.records().len(), 3);
    assert_eq!(walk.stats(), RunStats { processed_count: 3, skipped_count: 0 });
}
