//! The order in which directories give their entries does not matter.
//!
//! Two listings of one tree may give the entries of a directory in different
//! orders. This module says when two trees are the same but for such orders,
//! and proves that walks over them leave the same outcomes behind, each as
//! often in the one as in the other, and so the same records.

use vstd::prelude::*;
use vstd::multiset::Multiset;
use vstd::seq_lib::lemma_multiset_commutative;
use crate::history::{lemma_records_whatever_the_order, records, Outcome};
use crate::model::ConfigView;
use crate::tour::{
    entry_at, fate_of, lemma_whole_tour, outcomes, trace, traces_below, whole_tour, Kind, Node,
};
use crate::walk::{initial, run};

verus! {

/// Whether two nodes are the same but for the order of the entries in the
/// directories in and below them.
pub open spec fn alike_node(x: Node, y: Node) -> bool
    decreases x, 0nat,
{
    &&& x.name == y.name
    &&& x.size_bytes == y.size_bytes
    &&& match x.kind {
        Kind::File { beginning, text } => y.kind == x.kind,
        Kind::Directory { entries } => y.kind is Directory && match entries {
            None => y.kind->entries is None,
            Some(nodes) => {
                proof {
                    assert(decreases_to!(x => x.kind));
                    assert(decreases_to!(x.kind => x.kind->entries));
                    assert(decreases_to!(x.kind->entries => (x.kind->entries)->0));
                }
                y.kind->entries is Some && alike(nodes, (y.kind->entries)->0)
            },
        },
    }
}

/// Whether `b` holds the nodes of `a` in another order, each alike to its
/// counterpart.
pub open spec fn alike(a: Seq<Node>, b: Seq<Node>) -> bool
    decreases a, 1nat,
{
    if a.len() == 0 {
        b.len() == 0
    } else {
        exists|i: int|
            0 <= i < b.len() && alike_node(a.last(), #[trigger] b[i]) && alike(
                a.drop_last(),
                b.remove(i),
            )
    }
}

/// The outcomes that `node` brings into the trace of its directory: its
/// own, and where it is a directory that the walk enters, those of its tour.
pub open spec fn node_bag(node: Node, dir: Seq<Seq<char>>, config: ConfigView) -> Multiset<
    Outcome,
> {
    let own = Multiset::singleton(
        Outcome { entry: entry_at(node, dir), fate: fate_of(node, dir, config) },
    );
    if node.kind is Directory && fate_of(node, dir, config) is Entered {
        own.add(trace(node.kind->entries, dir.push(node.name), config).to_multiset())
    } else {
        own
    }
}

/// The outcomes that `nodes` bring into the trace of their directory.
pub open spec fn bag(nodes: Seq<Node>, dir: Seq<Seq<char>>, config: ConfigView) -> Multiset<
    Outcome,
>
    decreases nodes.len(),
{
    if nodes.len() == 0 {
        Multiset::empty()
    } else {
        bag(nodes.drop_last(), dir, config).add(node_bag(nodes.last(), dir, config))
    }
}

/// The trace of a directory holds what its entries bring into it, and
/// nothing else.
pub proof fn lemma_trace_is_bag(nodes: Seq<Node>, dir: Seq<Seq<char>>, config: ConfigView)
    ensures
        trace(Some(nodes), dir, config).to_multiset() == bag(nodes, dir, config),
{
    lemma_trace_prefix_is_bag(nodes, nodes.len(), dir, config);
    assert(nodes.take(nodes.len() as int) =~= nodes);
}

proof fn lemma_trace_prefix_is_bag(
    nodes: Seq<Node>,
    k: nat,
    dir: Seq<Seq<char>>,
    config: ConfigView,
)
    requires
        k <= nodes.len(),
    ensures
        (outcomes(nodes.take(k as int), dir, config) + traces_below(
            nodes,
            k,
            dir,
            config,
        )).to_multiset() == bag(nodes.take(k as int), dir, config),
    decreases k,
{
    broadcast use vstd::seq_lib::group_to_multiset_ensures;

    let front = nodes.take(k as int);
    if k == 0 {
        assert(outcomes(front, dir, config) + traces_below(nodes, k, dir, config) =~= Seq::<
            Outcome,
        >::empty());
    } else {
        let fewer = (k - 1) as nat;
        let node = nodes[k - 1];
        assert(front.drop_last() =~= nodes.take(fewer as int));
        assert(front.last() == node);
        lemma_trace_prefix_is_bag(nodes, fewer, dir, config);
        let met = outcomes(nodes.take(fewer as int), dir, config);
        let o = Outcome { entry: entry_at(node, dir), fate: fate_of(node, dir, config) };
        let deeper = traces_below(nodes, fewer, dir, config);
        lemma_multiset_commutative(met, deeper);
        assert(met.push(o).to_multiset() =~= met.to_multiset().insert(o));
        if node.kind is Directory && fate_of(node, dir, config) is Entered {
            let inner = trace(node.kind->entries, dir.push(node.name), config);
            lemma_multiset_commutative(met.push(o), inner + deeper);
            lemma_multiset_commutative(inner, deeper);
            assert((met.push(o) + (inner + deeper)).to_multiset() =~= met.to_multiset().add(
                deeper.to_multiset(),
            ).add(Multiset::singleton(o).add(inner.to_multiset())));
        } else {
            lemma_multiset_commutative(met.push(o), deeper);
            assert((met.push(o) + deeper).to_multiset() =~= met.to_multiset().add(
                deeper.to_multiset(),
            ).add(Multiset::singleton(o)));
        }
    }
}

/// What two stretches of nodes bring in, they bring in together.
proof fn lemma_bag_concat(a: Seq<Node>, b: Seq<Node>, dir: Seq<Seq<char>>, config: ConfigView)
    ensures
        bag(a + b, dir, config) == bag(a, dir, config).add(bag(b, dir, config)),
    decreases b.len(),
{
    if b.len() == 0 {
        assert(a + b =~= a);
        assert(bag(a, dir, config).add(bag(b, dir, config)) =~= bag(a, dir, config));
    } else {
        assert((a + b).drop_last() =~= a + b.drop_last());
        assert((a + b).last() == b.last());
        lemma_bag_concat(a, b.drop_last(), dir, config);
        assert(bag(a + b, dir, config) =~= bag(a, dir, config).add(bag(b, dir, config)));
    }
}

/// A node taken out of a stretch takes with it what it brought in.
proof fn lemma_bag_remove(nodes: Seq<Node>, at: int, dir: Seq<Seq<char>>, config: ConfigView)
    requires
        0 <= at < nodes.len(),
    ensures
        bag(nodes, dir, config) == bag(nodes.remove(at), dir, config).add(
            node_bag(nodes[at], dir, config),
        ),
{
    let before = nodes.take(at);
    let one = seq![nodes[at]];
    let after = nodes.skip(at + 1);
    assert(nodes =~= before + one + after);
    assert(nodes.remove(at) =~= before + after);
    lemma_bag_concat(before, one, dir, config);
    lemma_bag_concat(before + one, after, dir, config);
    lemma_bag_concat(before, after, dir, config);
    assert(one.drop_last() =~= Seq::<Node>::empty());
    assert(bag(one.drop_last(), dir, config) =~= Multiset::<Outcome>::empty());
    assert(one.last() == nodes[at]);
    assert(bag(one, dir, config) =~= node_bag(nodes[at], dir, config));
    assert(bag(before, dir, config).add(bag(one, dir, config)).add(bag(after, dir, config))
        =~= bag(before, dir, config).add(bag(after, dir, config)).add(bag(one, dir, config)));
}

/// Nodes that are alike bring the same outcomes in.
pub proof fn lemma_alike_node(x: Node, y: Node, dir: Seq<Seq<char>>, config: ConfigView)
    requires
        alike_node(x, y),
    ensures
        node_bag(x, dir, config) == node_bag(y, dir, config),
    decreases x, 0nat,
{
    assert(entry_at(x, dir) == entry_at(y, dir));
    assert(fate_of(x, dir, config) == fate_of(y, dir, config));
    if x.kind is Directory && fate_of(x, dir, config) is Entered {
        let below = dir.push(x.name);
        match x.kind->entries {
            None => {},
            Some(nodes) => {
                let others = (y.kind->entries)->0;
                assert(decreases_to!(x => x.kind));
                assert(decreases_to!(x.kind => x.kind->entries));
                assert(decreases_to!(x.kind->entries => (x.kind->entries)->0));
                lemma_alike(nodes, others, below, config);
                lemma_trace_is_bag(nodes, below, config);
                lemma_trace_is_bag(others, below, config);
            },
        }
    }
}

/// Stretches of nodes that are alike bring the same outcomes in.
pub proof fn lemma_alike(a: Seq<Node>, b: Seq<Node>, dir: Seq<Seq<char>>, config: ConfigView)
    requires
        alike(a, b),
    ensures
        bag(a, dir, config) == bag(b, dir, config),
    decreases a, 1nat,
{
    if a.len() == 0 {
        assert(a =~= b);
    } else {
        let at = choose|i: int|
            0 <= i < b.len() && alike_node(a.last(), #[trigger] b[i]) && alike(
                a.drop_last(),
                b.remove(i),
            );
        lemma_alike_node(a.last(), b[at], dir, config);
        lemma_alike(a.drop_last(), b.remove(at), dir, config);
        lemma_bag_remove(b, at, dir, config);
    }
}

/// Two walks over one tree, whose directories gave their entries in
/// different orders, leave the same outcomes behind, and put the same
/// records into their artifacts: each as often in the one as in the other.
pub proof fn lemma_order_of_listing_does_not_matter(
    first: Seq<Node>,
    second: Seq<Node>,
    config: ConfigView,
)
    requires
        alike(first, second),
    ensures
        ({
            let one = run(initial(config), whole_tour(Some(first), config)).history;
            let other = run(initial(config), whole_tour(Some(second), config)).history;
            &&& one.to_multiset() == other.to_multiset()
            &&& records(one, config).to_multiset() == records(other, config).to_multiset()
        }),
{
    let root = Seq::<Seq<char>>::empty();
    lemma_whole_tour(Some(first), config);
    lemma_whole_tour(Some(second), config);
    lemma_trace_is_bag(first, root, config);
    lemma_trace_is_bag(second, root, config);
    lemma_alike(first, second, root, config);
    lemma_records_whatever_the_order(
        trace(Some(first), root, config),
        trace(Some(second), root, config),
        config,
    );
}

} // verus!
