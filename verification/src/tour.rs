//! A whole walk over a whole tree.
//!
//! The machine of [`crate::walk`] sees a tree only through the events that
//! its caller reports. This module says what a caller who reports a tree
//! faithfully reports, and proves what the walk then leaves behind: one
//! outcome for every entry that can be reached without entering a directory
//! that the classifier leaves out, and for no other.

use vstd::prelude::*;
use crate::classify::{content_decides, decision, has_excluded_component};
use crate::detect::judged_binary;
use crate::history::{
    count, is_excluded_directory, is_file, lemma_accounting, processed, skipped, Fate, Outcome,
};
use crate::model::{ConfigView, EntryView};
use crate::walk::{
    initial, lemma_initial_inv, lemma_run_inv, next, open_next, run, EventView, Phase, WalkView,
};

verus! {

/// What a node of a tree is.
pub enum Kind {
    /// A file. `beginning` is what a read of its first bytes gives, `text`
    /// what a read of the whole gives; `None` stands for a read that fails.
    File { beginning: Option<Seq<u8>>, text: Option<Seq<char>> },
    /// A directory with its entries, in the order in which a listing gives
    /// them; `None` stands for a listing that fails.
    Directory { entries: Option<Seq<Node>> },
}

/// A node of a tree.
pub struct Node {
    pub name: Seq<char>,
    pub size_bytes: nat,
    pub kind: Kind,
}

/// The entry that the walk makes of `node` in the directory `dir`.
pub open spec fn entry_at(node: Node, dir: Seq<Seq<char>>) -> EntryView {
    EntryView {
        path: dir.push(node.name),
        is_directory: node.kind is Directory,
        size_bytes: node.size_bytes,
    }
}

/// What becomes of a file that the classifier takes: it is recorded where
/// it can be read.
pub open spec fn read(text: Option<Seq<char>>) -> Fate {
    match text {
        Some(t) => Fate::Recorded(t),
        None => Fate::Unreadable,
    }
}

/// What is reported of a file whose text was asked for.
pub open spec fn reading(text: Option<Seq<char>>) -> EventView {
    match text {
        Some(t) => EventView::Content(t),
        None => EventView::Unreadable,
    }
}

/// What becomes of `node` in the directory `dir`.
pub open spec fn fate_of(node: Node, dir: Seq<Seq<char>>, config: ConfigView) -> Fate {
    let entry = entry_at(node, dir);
    let early = decision(entry, config, false);
    match node.kind {
        Kind::Directory { .. } => if early.included {
            Fate::Entered
        } else {
            Fate::LeftOut(early.reason)
        },
        Kind::File { beginning, text } => if !content_decides(entry, config) {
            if early.included {
                read(text)
            } else {
                Fate::LeftOut(early.reason)
            }
        } else {
            match beginning {
                None => Fate::Unreadable,
                Some(bytes) => {
                    let late = decision(entry, config, judged_binary(bytes, config.detector));
                    if late.included {
                        read(text)
                    } else {
                        Fate::LeftOut(late.reason)
                    }
                },
            }
        },
    }
}

/// What a faithful caller reports of `node` while it lists the directory
/// `dir`: that it found it, and then what the walk asks to be read of it.
pub open spec fn events_of(node: Node, dir: Seq<Seq<char>>, config: ConfigView) -> Seq<
    EventView,
> {
    let entry = entry_at(node, dir);
    let found = seq![
        EventView::Found {
            name: node.name,
            is_directory: entry.is_directory,
            size_bytes: node.size_bytes,
        },
    ];
    match node.kind {
        Kind::Directory { .. } => found,
        Kind::File { beginning, text } => if !content_decides(entry, config) {
            if decision(entry, config, false).included {
                found.push(reading(text))
            } else {
                found
            }
        } else {
            match beginning {
                None => found.push(EventView::Unreadable),
                Some(bytes) => if decision(
                    entry,
                    config,
                    judged_binary(bytes, config.detector),
                ).included {
                    found.push(EventView::Prefix(bytes)).push(reading(text))
                } else {
                    found.push(EventView::Prefix(bytes))
                },
            }
        },
    }
}

/// What is reported of the entries `nodes` of the directory `dir`, one after
/// the other.
pub open spec fn listing(nodes: Seq<Node>, dir: Seq<Seq<char>>, config: ConfigView) -> Seq<
    EventView,
>
    decreases nodes.len(),
{
    if nodes.len() == 0 {
        Seq::empty()
    } else {
        listing(nodes.drop_last(), dir, config) + events_of(nodes.last(), dir, config)
    }
}

/// What becomes of the entries `nodes` of the directory `dir`.
pub open spec fn outcomes(nodes: Seq<Node>, dir: Seq<Seq<char>>, config: ConfigView) -> Seq<
    Outcome,
>
    decreases nodes.len(),
{
    if nodes.len() == 0 {
        Seq::empty()
    } else {
        outcomes(nodes.drop_last(), dir, config).push(
            Outcome {
                entry: entry_at(nodes.last(), dir),
                fate: fate_of(nodes.last(), dir, config),
            },
        )
    }
}

/// The paths of those of `nodes` that the walk enters.
pub open spec fn entered(nodes: Seq<Node>, dir: Seq<Seq<char>>, config: ConfigView) -> Seq<
    Seq<Seq<char>>,
>
    decreases nodes.len(),
{
    if nodes.len() == 0 {
        Seq::empty()
    } else if fate_of(nodes.last(), dir, config) is Entered {
        entered(nodes.drop_last(), dir, config).push(dir.push(nodes.last().name))
    } else {
        entered(nodes.drop_last(), dir, config)
    }
}

/// What is reported from the moment the directory `dir` is to be listed
/// until the walk turns to a directory that does not lie below it: the
/// entries of `dir`, and then the same of each directory among them that the
/// walk enters, the last first.
pub open spec fn tour(entries: Option<Seq<Node>>, dir: Seq<Seq<char>>, config: ConfigView) -> Seq<
    EventView,
>
    decreases entries, 1nat,
{
    match entries {
        None => seq![EventView::ListingFailed],
        Some(nodes) => listing(nodes, dir, config).push(EventView::ListingDone) + tours_below(
            nodes,
            nodes.len(),
            dir,
            config,
        ),
    }
}

/// The tours of those among the first `k` of `nodes` that the walk enters,
/// the last first.
pub open spec fn tours_below(
    nodes: Seq<Node>,
    k: nat,
    dir: Seq<Seq<char>>,
    config: ConfigView,
) -> Seq<EventView>
    decreases Some(nodes), 0nat, k,
{
    if k == 0 || k > nodes.len() {
        Seq::empty()
    } else {
        let node = nodes[k - 1];
        let rest = tours_below(nodes, (k - 1) as nat, dir, config);
        if node.kind is Directory && fate_of(node, dir, config) is Entered {
            proof {
                assert(decreases_to!(Some(nodes) => Some(nodes)->0));
                assert(decreases_to!(nodes => nodes[k - 1]));
                assert(decreases_to!(node => node.kind));
                assert(decreases_to!(node.kind => node.kind->entries));
            }
            tour(node.kind->entries, dir.push(node.name), config) + rest
        } else {
            rest
        }
    }
}

/// What the tour of the directory `dir` leaves behind: the outcomes of its
/// entries, and then the same of each directory among them that the walk
/// enters, the last first.
pub open spec fn trace(entries: Option<Seq<Node>>, dir: Seq<Seq<char>>, config: ConfigView) -> Seq<
    Outcome,
>
    decreases entries, 1nat,
{
    match entries {
        None => Seq::empty(),
        Some(nodes) => outcomes(nodes, dir, config) + traces_below(
            nodes,
            nodes.len(),
            dir,
            config,
        ),
    }
}

/// What the tours of [`tours_below`] leave behind.
pub open spec fn traces_below(
    nodes: Seq<Node>,
    k: nat,
    dir: Seq<Seq<char>>,
    config: ConfigView,
) -> Seq<Outcome>
    decreases Some(nodes), 0nat, k,
{
    if k == 0 || k > nodes.len() {
        Seq::empty()
    } else {
        let node = nodes[k - 1];
        let rest = traces_below(nodes, (k - 1) as nat, dir, config);
        if node.kind is Directory && fate_of(node, dir, config) is Entered {
            proof {
                assert(decreases_to!(Some(nodes) => Some(nodes)->0));
                assert(decreases_to!(nodes => nodes[k - 1]));
                assert(decreases_to!(node => node.kind));
                assert(decreases_to!(node.kind => node.kind->entries));
            }
            trace(node.kind->entries, dir.push(node.name), config) + rest
        } else {
            rest
        }
    }
}

/// All that a faithful caller reports of the tree whose root holds
/// `entries`.
pub open spec fn whole_tour(entries: Option<Seq<Node>>, config: ConfigView) -> Seq<EventView> {
    seq![EventView::Begin] + tour(entries, Seq::empty(), config)
}

/// The state in which the walk lists the directory `dir`, with nothing that
/// it waits for.
pub open spec fn lists(s: WalkView, dir: Seq<Seq<char>>) -> bool {
    s.phase == Phase::Listing && s.current == dir && s.awaited is None
}

/// One more event takes the run one step further.
pub proof fn lemma_run_push(s: WalkView, events: Seq<EventView>, event: EventView)
    ensures
        run(s, events.push(event)) == next(run(s, events), event).0,
{
    assert(events.push(event).drop_last() =~= events);
}

/// A run over two stretches of events is the run over the first, followed by
/// the run over the second.
pub proof fn lemma_run_concat(s: WalkView, first: Seq<EventView>, second: Seq<EventView>)
    ensures
        run(s, first + second) == run(run(s, first), second),
    decreases second.len(),
{
    if second.len() == 0 {
        assert(first + second =~= first);
    } else {
        assert((first + second).drop_last() =~= first + second.drop_last());
        lemma_run_concat(s, first, second.drop_last());
    }
}

/// What is reported of one entry makes the walk put down its outcome, and
/// put the entry down for listing where it is a directory that it enters.
pub proof fn lemma_meets_node(s: WalkView, node: Node, dir: Seq<Seq<char>>)
    requires
        lists(s, dir),
    ensures
        run(s, events_of(node, dir, s.config)) == (WalkView {
            history: s.history.push(
                Outcome { entry: entry_at(node, dir), fate: fate_of(node, dir, s.config) },
            ),
            pending: if fate_of(node, dir, s.config) is Entered {
                s.pending.push(dir.push(node.name))
            } else {
                s.pending
            },
            ..s
        }),
{
    let entry = entry_at(node, dir);
    let found = EventView::Found {
        name: node.name,
        is_directory: entry.is_directory,
        size_bytes: node.size_bytes,
    };
    let none = Seq::<EventView>::empty();
    assert(seq![found] =~= none.push(found));
    lemma_run_push(s, none, found);
    let s1 = next(s, found).0;
    assert(run(s, seq![found]) == s1);
    match node.kind {
        Kind::Directory { .. } => {},
        Kind::File { beginning, text } => {
            if !content_decides(entry, s.config) {
                if decision(entry, s.config, false).included {
                    lemma_run_push(s, seq![found], reading(text));
                }
            } else {
                match beginning {
                    None => {
                        lemma_run_push(s, seq![found], EventView::Unreadable);
                    },
                    Some(bytes) => {
                        lemma_run_push(s, seq![found], EventView::Prefix(bytes));
                        if decision(
                            entry,
                            s.config,
                            judged_binary(bytes, s.config.detector),
                        ).included {
                            lemma_run_push(
                                s,
                                seq![found].push(EventView::Prefix(bytes)),
                                reading(text),
                            );
                        }
                    },
                }
            }
        },
    }
}

/// What is reported of the entries of a directory makes the walk put down
/// their outcomes, and put down for listing the directories that it enters.
pub proof fn lemma_listing(s: WalkView, nodes: Seq<Node>, dir: Seq<Seq<char>>)
    requires
        lists(s, dir),
    ensures
        run(s, listing(nodes, dir, s.config)) == (WalkView {
            history: s.history + outcomes(nodes, dir, s.config),
            pending: s.pending + entered(nodes, dir, s.config),
            ..s
        }),
    decreases nodes.len(),
{
    if nodes.len() == 0 {
        assert(s.history + outcomes(nodes, dir, s.config) =~= s.history);
        assert(s.pending + entered(nodes, dir, s.config) =~= s.pending);
    } else {
        let earlier = nodes.drop_last();
        lemma_listing(s, earlier, dir);
        let mid = run(s, listing(earlier, dir, s.config));
        lemma_run_concat(s, listing(earlier, dir, s.config), events_of(nodes.last(), dir, s.config));
        lemma_meets_node(mid, nodes.last(), dir);
        let o = Outcome {
            entry: entry_at(nodes.last(), dir),
            fate: fate_of(nodes.last(), dir, s.config),
        };
        assert((s.history + outcomes(earlier, dir, s.config)).push(o) =~= s.history + outcomes(
            nodes,
            dir,
            s.config,
        ));
        if fate_of(nodes.last(), dir, s.config) is Entered {
            assert((s.pending + entered(earlier, dir, s.config)).push(dir.push(nodes.last().name))
                =~= s.pending + entered(nodes, dir, s.config));
        }
    }
}

/// The tour of a directory leaves the outcomes of its trace behind, and the
/// walk turned to the directory that was next before the tour, or finished
/// where there was none.
pub proof fn lemma_tour(s: WalkView, entries: Option<Seq<Node>>, dir: Seq<Seq<char>>)
    requires
        lists(s, dir),
        entries is None ==> dir.len() > 0,
    ensures
        run(s, tour(entries, dir, s.config)) == open_next(
            WalkView { history: s.history + trace(entries, dir, s.config), ..s },
        ).0,
    decreases entries, 1nat,
{
    let config = s.config;
    match entries {
        None => {
            let none = Seq::<EventView>::empty();
            assert(seq![EventView::ListingFailed] =~= none.push(EventView::ListingFailed));
            lemma_run_push(s, none, EventView::ListingFailed);
            assert(s.history + trace(entries, dir, config) =~= s.history);
        },
        Some(nodes) => {
            let listed = listing(nodes, dir, config);
            lemma_run_concat(
                s,
                listed.push(EventView::ListingDone),
                tours_below(nodes, nodes.len(), dir, config),
            );
            lemma_run_push(s, listed, EventView::ListingDone);
            lemma_listing(s, nodes, dir);
            let base = WalkView { history: s.history + outcomes(nodes, dir, config), ..s };
            assert(nodes.take(nodes.len() as int) =~= nodes);
            lemma_tours_below(base, nodes, nodes.len(), dir);
            assert(base.history + traces_below(nodes, nodes.len(), dir, config) =~= s.history
                + trace(entries, dir, config));
        },
    }
}

/// The tours below the first `k` entries of a directory, begun when the walk
/// turns to the last of them that it entered, leave the outcomes of their
/// traces behind, and the walk turned to the directory that was next before
/// them.
pub proof fn lemma_tours_below(base: WalkView, nodes: Seq<Node>, k: nat, dir: Seq<Seq<char>>)
    requires
        k <= nodes.len(),
        base.awaited is None,
    ensures
        run(
            open_next(
                WalkView {
                    pending: base.pending + entered(nodes.take(k as int), dir, base.config),
                    ..base
                },
            ).0,
            tours_below(nodes, k, dir, base.config),
        ) == open_next(
            WalkView {
                history: base.history + traces_below(nodes, k, dir, base.config),
                ..base
            },
        ).0,
    decreases Some(nodes), 0nat, k,
{
    let config = base.config;
    if k == 0 {
        assert(nodes.take(0) =~= Seq::<Node>::empty());
        assert(base.pending + entered(nodes.take(0), dir, config) =~= base.pending);
        assert(base.history + traces_below(nodes, k, dir, config) =~= base.history);
    } else {
        let node = nodes[k - 1];
        let fewer = (k - 1) as nat;
        assert(nodes.take(k as int).drop_last() =~= nodes.take(fewer as int));
        assert(nodes.take(k as int).last() == node);
        if node.kind is Directory && fate_of(node, dir, config) is Entered {
            let below = dir.push(node.name);
            let stack = base.pending + entered(nodes.take(fewer as int), dir, config);
            assert(base.pending + entered(nodes.take(k as int), dir, config) =~= stack.push(
                below,
            ));
            let start = open_next(WalkView { pending: stack.push(below), ..base }).0;
            assert(stack.push(below).drop_last() =~= stack);
            assert(lists(start, below));
            assert(decreases_to!(Some(nodes) => Some(nodes)->0));
            assert(decreases_to!(nodes => nodes[k - 1]));
            assert(decreases_to!(node => node.kind));
            assert(decreases_to!(node.kind => node.kind->entries));
            lemma_tour(start, node.kind->entries, below);
            let toured = trace(node.kind->entries, below, config);
            let further = WalkView { history: base.history + toured, ..base };
            lemma_tours_below(further, nodes, fewer, dir);
            lemma_run_concat(
                start,
                tour(node.kind->entries, below, config),
                tours_below(nodes, fewer, dir, config),
            );
            assert(further.history + traces_below(nodes, fewer, dir, config) =~= base.history
                + traces_below(nodes, k, dir, config));
        } else {
            lemma_tours_below(base, nodes, fewer, dir);
        }
    }
}

/// A walk over a whole tree, reported faithfully, ends finished, with the
/// trace of the tree as its history; but aborted, with no history, where the
/// root cannot be listed.
pub proof fn lemma_whole_tour(entries: Option<Seq<Node>>, config: ConfigView)
    ensures
        ({
            let end = run(initial(config), whole_tour(entries, config));
            &&& end.config == config
            &&& end.pending.len() == 0
            &&& end.awaited is None
            &&& end.history == trace(entries, Seq::empty(), config)
            &&& end.phase == if entries is Some {
                Phase::Finished
            } else {
                Phase::Aborted
            }
        }),
{
    let root = Seq::<Seq<char>>::empty();
    let begun = next(initial(config), EventView::Begin).0;
    let none = Seq::<EventView>::empty();
    assert(seq![EventView::Begin] =~= none.push(EventView::Begin));
    lemma_run_push(initial(config), none, EventView::Begin);
    lemma_run_concat(initial(config), seq![EventView::Begin], tour(entries, root, config));
    assert(initial(config).pending.last() == root);
    assert(initial(config).pending.drop_last() =~= Seq::<Seq<Seq<char>>>::empty());
    assert(lists(begun, root));
    match entries {
        None => {
            assert(seq![EventView::ListingFailed] =~= none.push(EventView::ListingFailed));
            lemma_run_push(begun, none, EventView::ListingFailed);
            assert(trace(entries, root, config) =~= Seq::<Outcome>::empty());
        },
        Some(nodes) => {
            lemma_tour(begun, entries, root);
            assert(begun.history + trace(entries, root, config) =~= trace(entries, root, config));
        },
    }
}

/// After a walk over a whole tree, the two counters together count every
/// file in the trace of the tree and every directory in it that was left
/// out.
pub proof fn lemma_whole_tour_counts(entries: Option<Seq<Node>>, config: ConfigView)
    ensures
        ({
            let history = trace(entries, Seq::empty(), config);
            processed(history) + skipped(history) == count(history, |o: Outcome| is_file(o))
                + count(history, |o: Outcome| is_excluded_directory(o))
        }),
{
    lemma_whole_tour(entries, config);
    lemma_initial_inv(config);
    lemma_run_inv(initial(config), whole_tour(entries, config));
    lemma_accounting(trace(entries, Seq::empty(), config), config);
}

/// A walk over a whole tree meets nothing that lies below a directory with
/// an excluded name.
pub proof fn lemma_whole_tour_stays_out(entries: Option<Seq<Node>>, config: ConfigView, at: int)
    requires
        0 <= at < trace(entries, Seq::empty(), config).len(),
    ensures
        !has_excluded_component(
            trace(entries, Seq::empty(), config)[at].entry.path.drop_last(),
            config,
        ),
{
    lemma_whole_tour(entries, config);
    lemma_initial_inv(config);
    lemma_run_inv(initial(config), whole_tour(entries, config));
}

} // verus!
