//! The artifact of a tree that is held in memory.
//!
//! Where a tree has been read already, the walk needs no caller to go and
//! look: [`process_files`] reports the tree to the machine of
//! [`crate::walk`] itself, and hands back what the walk leaves behind.

use vstd::prelude::*;
use crate::history::{artifact, processed, skipped};
use crate::model::Config;
use crate::stats::{clip, RunStats};
use crate::tour::{
    entered, events_of, fate_of, lemma_listing, lemma_run_concat, lemma_run_push, lemma_tour,
    lemma_whole_tour, listing, lists, outcomes, reading, tour, tours_below, trace, Kind, Node,
};
use crate::trusted::option_string;
use crate::walk::{
    initial, next, open_next, run, Action, Event, EventView, Settled, Walk, WalkView,
};

verus! {

/// What a node of a tree in memory is.
#[derive(Debug)]
pub enum TreeKind {
    /// A file. `beginning` holds its first bytes, at least as many as the
    /// detector looks at, and `text` the whole of it; either is `None` where
    /// it could not be read, and `text` also where the file is no text.
    File { beginning: Option<Vec<u8>>, text: Option<String> },
    /// A directory with its entries; `None` where it could not be listed.
    Directory { entries: Option<Vec<TreeNode>> },
}

/// A node of a tree in memory.
#[derive(Debug)]
pub struct TreeNode {
    pub name: String,
    pub size_bytes: u64,
    pub kind: TreeKind,
}

/// The root of a tree cannot be listed.
#[derive(Clone, Copy, Debug, PartialEq, Eq, Structural)]
pub struct RootUnreadable;

/// The bytes of an optional buffer.
pub open spec fn option_bytes(bytes: Option<Vec<u8>>) -> Option<Seq<u8>> {
    match bytes {
        Some(b) => Some(b@),
        None => None,
    }
}

/// The tree that `node` stands for.
pub open spec fn model(node: TreeNode) -> Node
    decreases node, 0nat,
{
    Node {
        name: node.name@,
        size_bytes: node.size_bytes as nat,
        kind: match node.kind {
            TreeKind::File { beginning, text } => Kind::File {
                beginning: option_bytes(beginning),
                text: option_string(text),
            },
            TreeKind::Directory { entries } => Kind::Directory {
                entries: match entries {
                    Some(nodes) => {
                        proof {
                            assert(decreases_to!(node => node.kind));
                            assert(decreases_to!(node.kind => node.kind->entries));
                            assert(decreases_to!(node.kind->entries => (node.kind->entries)->0));
                            assert(decreases_to!(nodes => nodes@));
                        }
                        Some(models(nodes@))
                    },
                    None => None,
                },
            },
        },
    }
}

/// The trees that `nodes` stand for.
pub open spec fn models(nodes: Seq<TreeNode>) -> Seq<Node>
    decreases nodes, 1nat,
{
    if nodes.len() == 0 {
        Seq::empty()
    } else {
        models(nodes.drop_last()).push(model(nodes.last()))
    }
}

/// The entries that an optional list of nodes stands for.
pub open spec fn entries_model(entries: Option<Vec<TreeNode>>) -> Option<Seq<Node>> {
    match entries {
        Some(nodes) => Some(models(nodes@)),
        None => None,
    }
}

/// The trees that a list of nodes stands for are those of its nodes, one
/// for one.
pub proof fn lemma_models(nodes: Seq<TreeNode>)
    ensures
        models(nodes).len() == nodes.len(),
        forall|i: int| 0 <= i < nodes.len() ==> (#[trigger] models(nodes)[i]) == model(nodes[i]),
    decreases nodes.len(),
{
    if nodes.len() > 0 {
        lemma_models(nodes.drop_last());
        assert forall|i: int| 0 <= i < nodes.len() implies (#[trigger] models(nodes)[i]) == model(
            nodes[i],
        ) by {
            if i < nodes.len() - 1 {
                assert(nodes.drop_last()[i] == nodes[i]);
            }
        }
    }
}

/// Reports the text of a file that the walk asked for.
fn report_text(walk: &mut Walk, text: &Option<String>)
    requires
        old(walk).wf(),
    ensures
        final(walk).wf(),
        final(walk)@ == next(old(walk)@, reading(option_string(*text))).0,
{
    match text {
        Some(t) => {
            walk.step(Event::Content(t.clone()));
        },
        None => {
            walk.step(Event::Unreadable);
        },
    }
}

/// Reports one entry of the directory `dir`, and what the walk asks to be
/// read of it. Says whether the walk entered it.
fn report_node(
    walk: &mut Walk,
    node: &TreeNode,
    Ghost(dir): Ghost<Seq<Seq<char>>>,
) -> (went_in: bool)
    requires
        old(walk).wf(),
        lists(old(walk)@, dir),
    ensures
        final(walk).wf(),
        final(walk)@ == run(old(walk)@, events_of(model(*node), dir, old(walk)@.config)),
        went_in == (fate_of(model(*node), dir, old(walk)@.config) is Entered),
{
    let ghost start = walk@;
    let ghost none = Seq::<EventView>::empty();
    match &node.kind {
        TreeKind::Directory { .. } => {
            let found = Event::Found {
                name: node.name.clone(),
                is_directory: true,
                size_bytes: node.size_bytes,
            };
            let ghost first = found@;
            let action = walk.step(found);
            proof {
                assert(seq![first] =~= none.push(first));
                lemma_run_push(start, none, first);
            }
            match action {
                Action::Next(Settled::Entered) => true,
                _ => false,
            }
        },
        TreeKind::File { beginning, text } => {
            let found = Event::Found {
                name: node.name.clone(),
                is_directory: false,
                size_bytes: node.size_bytes,
            };
            let ghost first = found@;
            let action = walk.step(found);
            proof {
                assert(seq![first] =~= none.push(first));
                lemma_run_push(start, none, first);
            }
            match action {
                Action::ReadPrefix { .. } => {
                    match beginning {
                        Some(bytes) => {
                            let prefix = Event::Prefix(bytes.clone());
                            let ghost second = prefix@;
                            let asked = walk.step(prefix);
                            proof {
                                lemma_run_push(start, seq![first], second);
                            }
                            match asked {
                                Action::ReadContent(_) => {
                                    report_text(walk, text);
                                    proof {
                                        lemma_run_push(
                                            start,
                                            seq![first].push(second),
                                            reading(option_string(*text)),
                                        );
                                    }
                                },
                                _ => {},
                            }
                        },
                        None => {
                            walk.step(Event::Unreadable);
                            proof {
                                lemma_run_push(start, seq![first], EventView::Unreadable);
                            }
                        },
                    }
                },
                Action::ReadContent(_) => {
                    report_text(walk, text);
                    proof {
                        lemma_run_push(
                            start,
                            seq![first],
                            reading(option_string(*text)),
                        );
                    }
                },
                _ => {},
            }
            false
        },
    }
}

/// Reports the directory `dir` with the entries `entries`, and then every
/// directory below it that the walk enters, until the walk turns to a
/// directory that does not lie below `dir`.
fn process_directory(
    walk: &mut Walk,
    entries: &Option<Vec<TreeNode>>,
    Ghost(dir): Ghost<Seq<Seq<char>>>,
)
    requires
        old(walk).wf(),
        lists(old(walk)@, dir),
        entries is None ==> dir.len() > 0,
    ensures
        final(walk).wf(),
        final(walk)@ == run(old(walk)@, tour(entries_model(*entries), dir, old(walk)@.config)),
    decreases entries,
{
    let ghost start = walk@;
    let ghost config = start.config;
    let ghost none = Seq::<EventView>::empty();
    match entries {
        None => {
            walk.step(Event::ListingFailed);
            proof {
                assert(seq![EventView::ListingFailed] =~= none.push(EventView::ListingFailed));
                lemma_run_push(start, none, EventView::ListingFailed);
            }
        },
        Some(nodes) => {
            let ghost all = models(nodes@);
            proof {
                lemma_models(nodes@);
            }
            let mut went_in: Vec<bool> = Vec::new();
            let mut i: usize = 0;
            proof {
                assert(all.take(0) =~= Seq::<Node>::empty());
            }
            while i < nodes.len()
                invariant
                    i <= nodes.len(),
                    walk.wf(),
                    lists(start, dir),
                    config == start.config,
                    all == models(nodes@),
                    all.len() == nodes.len(),
                    forall|j: int| 0 <= j < nodes.len() ==> (#[trigger] all[j]) == model(nodes@[j]),
                    walk@ == run(start, listing(all.take(i as int), dir, config)),
                    went_in.len() == i,
                    forall|j: int|
                        0 <= j < i ==> went_in@[j] == (fate_of(#[trigger] all[j], dir, config)
                            is Entered),
                decreases nodes.len() - i,
            {
                proof {
                    lemma_listing(start, all.take(i as int), dir);
                }
                let inside = report_node(walk, &nodes[i], Ghost(dir));
                went_in.push(inside);
                proof {
                    let front = all.take(i + 1);
                    assert(front.drop_last() =~= all.take(i as int));
                    assert(front.last() == all[i as int]);
                    lemma_run_concat(
                        start,
                        listing(all.take(i as int), dir, config),
                        events_of(all[i as int], dir, config),
                    );
                }
                i += 1;
            }
            proof {
                assert(all.take(nodes.len() as int) =~= all);
                lemma_listing(start, all, dir);
            }
            walk.step(Event::ListingDone);
            let ghost listed = WalkView {
                history: start.history + outcomes(all, dir, config),
                pending: start.pending + entered(all, dir, config),
                ..start
            };
            let ghost target = run(start, tour(Some(all), dir, config));
            proof {
                lemma_run_push(start, listing(all, dir, config), EventView::ListingDone);
                lemma_run_concat(
                    start,
                    listing(all, dir, config).push(EventView::ListingDone),
                    tours_below(all, all.len(), dir, config),
                );
                assert(walk@ == open_next(listed).0);
            }
            let ghost mut below = listed;
            let mut k: usize = nodes.len();
            while k > 0
                invariant
                    k <= nodes.len(),
                    *entries == Some(*nodes),
                    walk.wf(),
                    config == start.config,
                    all == models(nodes@),
                    all.len() == nodes.len(),
                    forall|j: int| 0 <= j < nodes.len() ==> (#[trigger] all[j]) == model(nodes@[j]),
                    went_in.len() == nodes.len(),
                    forall|j: int|
                        0 <= j < nodes.len() ==> went_in@[j] == (fate_of(
                            #[trigger] all[j],
                            dir,
                            config,
                        ) is Entered),
                    below.config == config,
                    below.awaited is None,
                    below.pending == start.pending + entered(all.take(k as int), dir, config),
                    walk@ == open_next(below).0,
                    run(walk@, tours_below(all, k as nat, dir, config)) == target,
                decreases k,
            {
                let ghost fewer = all.take(k - 1);
                proof {
                    assert(all.take(k as int).drop_last() =~= fewer);
                    assert(all.take(k as int).last() == all[k - 1]);
                }
                if went_in[k - 1] {
                    let ghost inner = dir.push(all[k - 1].name);
                    let ghost before = walk@;
                    match &nodes[k - 1].kind {
                        TreeKind::Directory { entries: deeper } => {
                            proof {
                                let stack = start.pending + entered(fewer, dir, config);
                                assert(below.pending =~= stack.push(inner));
                                assert(stack.push(inner).drop_last() =~= stack);
                                assert(lists(before, inner));
                                assert(inner.len() > 0);
                                lemma_tour(before, entries_model(*deeper), inner);
                                lemma_run_concat(
                                    before,
                                    tour(entries_model(*deeper), inner, config),
                                    tours_below(all, (k - 1) as nat, dir, config),
                                );
                                below = WalkView {
                                    history: before.history + trace(
                                        entries_model(*deeper),
                                        inner,
                                        config,
                                    ),
                                    ..before
                                };
                            }
                            proof {
                                let node = nodes@[k - 1];
                                assert(decreases_to!(*entries => (*entries)->0));
                                assert(decreases_to!(*nodes => nodes@));
                                assert(decreases_to!(nodes@ => nodes@[k - 1]));
                                assert(decreases_to!(node => node.kind));
                                assert(decreases_to!(node.kind => node.kind->entries));
                            }
                            process_directory(walk, deeper, Ghost(inner));
                        },
                        TreeKind::File { .. } => {},
                    }
                }
                k -= 1;
            }
        },
    }
}

/// Walks over a tree in memory, whose root holds `root`, and hands back the
/// artifact and the counts; but fails where the root could not be listed.
///
/// What the walk leaves behind is the trace of the tree: every entry that
/// can be reached without entering a directory that the classifier leaves
/// out is met once, and no other entry is met.
pub fn process_files(root: &Option<Vec<TreeNode>>, config: Config) -> (r: Result<
    (String, RunStats),
    RootUnreadable,
>)
    ensures
        r is Ok <==> *root is Some,
        r matches Ok((text, stats)) ==> {
            let history = trace(entries_model(*root), Seq::empty(), config@);
            &&& text@ == artifact(history, config@)
            &&& stats.processed_count == clip(processed(history))
            &&& stats.skipped_count == clip(skipped(history))
        },
{
    let ghost settings = config@;
    let mut walk = Walk::new(config);
    walk.step(Event::Begin);
    proof {
        let none = Seq::<EventView>::empty();
        let root_path = Seq::<Seq<char>>::empty();
        assert(seq![EventView::Begin] =~= none.push(EventView::Begin));
        lemma_run_push(initial(settings), none, EventView::Begin);
        lemma_run_concat(
            initial(settings),
            seq![EventView::Begin],
            tour(entries_model(*root), root_path, settings),
        );
        assert(initial(settings).pending.last() == root_path);
        assert(initial(settings).pending.drop_last() =~= Seq::<Seq<Seq<char>>>::empty());
        lemma_whole_tour(entries_model(*root), settings);
    }
    if root.is_some() {
        process_directory(&mut walk, root, Ghost(Seq::empty()));
        Ok((walk.output(), walk.stats()))
    } else {
        Err(RootUnreadable)
    }
}

} // verus!
