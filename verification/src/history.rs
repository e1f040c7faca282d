//! What a walk leaves behind: the outcome of every entry that it met, and
//! what follows from them: the records, the artifact and the counts.

use vstd::prelude::*;
use vstd::seq_lib::lemma_multiset_commutative;
use crate::classify::{decision, name_excluded};
use crate::model::{ConfigView, EntryView, Reason};
use crate::record::record;

verus! {

/// What became of an entry.
pub enum Fate {
    /// A directory that was put down for listing.
    Entered,
    /// Left out by the classifier, for this reason.
    LeftOut(Reason),
    /// A file that was to be taken and could not be read.
    Unreadable,
    /// A file whose record, with this content, went into the artifact.
    Recorded(Seq<char>),
}

/// An entry that the walk is done with, and what became of it.
pub struct Outcome {
    pub entry: EntryView,
    pub fate: Fate,
}

/// The records of the files that were taken, in the order in which the walk
/// met them.
pub open spec fn records(history: Seq<Outcome>, config: ConfigView) -> Seq<Seq<char>>
    decreases history.len(),
{
    if history.len() == 0 {
        Seq::empty()
    } else {
        let earlier = records(history.drop_last(), config);
        match history.last().fate {
            Fate::Recorded(content) => earlier.push(
                record(history.last().entry, config.size_style, content),
            ),
            _ => earlier,
        }
    }
}

/// The texts of `parts`, one after the other.
pub open spec fn concat(parts: Seq<Seq<char>>) -> Seq<char>
    decreases parts.len(),
{
    if parts.len() == 0 {
        Seq::empty()
    } else {
        concat(parts.drop_last()) + parts.last()
    }
}

/// The artifact: the records, one after the other.
pub open spec fn artifact(history: Seq<Outcome>, config: ConfigView) -> Seq<char> {
    concat(records(history, config))
}

/// Whether an outcome counts as processed.
pub open spec fn is_processed(o: Outcome) -> bool {
    o.fate is Recorded
}

/// Whether an outcome counts as skipped.
pub open spec fn is_skipped(o: Outcome) -> bool {
    o.fate is LeftOut || o.fate is Unreadable
}

/// Whether an outcome is that of a file.
pub open spec fn is_file(o: Outcome) -> bool {
    !o.entry.is_directory
}

/// Whether an outcome is that of a directory that was left out.
pub open spec fn is_excluded_directory(o: Outcome) -> bool {
    o.entry.is_directory && o.fate is LeftOut
}

/// The number of outcomes in `history` of which `p` holds.
pub open spec fn count(history: Seq<Outcome>, p: spec_fn(Outcome) -> bool) -> nat
    decreases history.len(),
{
    if history.len() == 0 {
        0
    } else {
        count(history.drop_last(), p) + if p(history.last()) {
            1nat
        } else {
            0nat
        }
    }
}

/// The number of files whose records went into the artifact.
pub open spec fn processed(history: Seq<Outcome>) -> nat {
    count(history, |o: Outcome| is_processed(o))
}

/// The number of entries that were left out or could not be read.
pub open spec fn skipped(history: Seq<Outcome>) -> nat {
    count(history, |o: Outcome| is_skipped(o))
}

/// Whether `o` is what the classifier makes of its entry: a directory is
/// entered, and a file recorded or found unreadable, only where the
/// classifier takes it; an entry is left out only for the classifier's
/// reason; and directories are never read.
pub open spec fn coherent(o: Outcome, config: ConfigView) -> bool {
    match o.fate {
        Fate::Entered => o.entry.is_directory && decision(o.entry, config, false).included,
        Fate::LeftOut(reason) => reason != Reason::NoReason && exists|binary: bool|
            #[trigger] decision(o.entry, config, binary).reason == reason,
        Fate::Unreadable => !o.entry.is_directory && !name_excluded(o.entry.path, config),
        Fate::Recorded(_) => !o.entry.is_directory && exists|binary: bool|
            #[trigger] decision(o.entry, config, binary).included,
    }
}

/// One more outcome adds one to a count where `p` holds of it, and nothing
/// where it does not.
pub proof fn lemma_count_push(history: Seq<Outcome>, o: Outcome, p: spec_fn(Outcome) -> bool)
    ensures
        count(history.push(o), p) == count(history, p) + if p(o) {
            1nat
        } else {
            0nat
        },
{
    assert(history.push(o).drop_last() =~= history);
}

/// The two counters together count every file that the walk is done with,
/// and every directory that it left out.
pub proof fn lemma_accounting(history: Seq<Outcome>, config: ConfigView)
    requires
        forall|i: int| 0 <= i < history.len() ==> coherent(#[trigger] history[i], config),
    ensures
        processed(history) + skipped(history) == count(history, |o: Outcome| is_file(o)) + count(
            history,
            |o: Outcome| is_excluded_directory(o),
        ),
    decreases history.len(),
{
    if history.len() > 0 {
        let earlier = history.drop_last();
        assert forall|i: int| 0 <= i < earlier.len() implies coherent(
            #[trigger] earlier[i],
            config,
        ) by {
            assert(earlier[i] == history[i]);
        }
        lemma_accounting(earlier, config);
        assert(coherent(history[history.len() - 1], config));
    }
}

/// Where no directory was left out, the two counters together count exactly
/// the files that the walk is done with.
pub proof fn lemma_counts_are_files(history: Seq<Outcome>, config: ConfigView)
    requires
        forall|i: int| 0 <= i < history.len() ==> coherent(#[trigger] history[i], config),
        forall|i: int| 0 <= i < history.len() ==> !is_excluded_directory(#[trigger] history[i]),
    ensures
        processed(history) + skipped(history) == count(history, |o: Outcome| is_file(o)),
    decreases history.len(),
{
    lemma_accounting(history, config);
    lemma_count_none(history, |o: Outcome| is_excluded_directory(o));
}

/// What holds of no outcome is counted zero times.
pub proof fn lemma_count_none(history: Seq<Outcome>, p: spec_fn(Outcome) -> bool)
    requires
        forall|i: int| 0 <= i < history.len() ==> !p(#[trigger] history[i]),
    ensures
        count(history, p) == 0,
    decreases history.len(),
{
    if history.len() > 0 {
        let earlier = history.drop_last();
        assert forall|i: int| 0 <= i < earlier.len() implies !p(#[trigger] earlier[i]) by {
            assert(earlier[i] == history[i]);
        }
        lemma_count_none(earlier, p);
        assert(!p(history[history.len() - 1]));
    }
}

/// The records of two stretches of history, one after the other, are the
/// records of the first followed by those of the second.
pub proof fn lemma_records_concat(a: Seq<Outcome>, b: Seq<Outcome>, config: ConfigView)
    ensures
        records(a + b, config) == records(a, config) + records(b, config),
    decreases b.len(),
{
    if b.len() == 0 {
        assert(a + b =~= a);
        assert(records(a, config) + records(b, config) =~= records(a, config));
    } else {
        assert((a + b).drop_last() =~= a + b.drop_last());
        assert((a + b).last() == b.last());
        lemma_records_concat(a, b.drop_last(), config);
        assert(records(a + b, config) =~= records(a, config) + records(b, config));
    }
}

/// Taking one outcome out of a history takes its record, if it has one, out
/// of the records, and nothing else.
pub proof fn lemma_records_remove(history: Seq<Outcome>, at: int, config: ConfigView)
    requires
        0 <= at < history.len(),
    ensures
        records(history, config).to_multiset() == records(
            history.remove(at),
            config,
        ).to_multiset().add(records(seq![history[at]], config).to_multiset()),
{
    let before = history.take(at);
    let one = seq![history[at]];
    let after = history.skip(at + 1);
    assert(history =~= before + one + after);
    assert(history.remove(at) =~= before + after);
    lemma_records_concat(before, one, config);
    lemma_records_concat(before + one, after, config);
    lemma_records_concat(before, after, config);
    let rb = records(before, config);
    let ro = records(one, config);
    let ra = records(after, config);
    lemma_multiset_commutative(rb, ro);
    lemma_multiset_commutative(rb + ro, ra);
    lemma_multiset_commutative(rb, ra);
    assert(rb.to_multiset().add(ro.to_multiset()).add(ra.to_multiset()) =~= rb.to_multiset().add(
        ra.to_multiset(),
    ).add(ro.to_multiset()));
}

/// The records do not hang on the order in which the entries were met: two
/// histories that hold the same outcomes, each as often as the other, give
/// the same records, each as often as the other.
pub proof fn lemma_records_whatever_the_order(
    first: Seq<Outcome>,
    second: Seq<Outcome>,
    config: ConfigView,
)
    requires
        first.to_multiset() == second.to_multiset(),
    ensures
        records(first, config).to_multiset() == records(second, config).to_multiset(),
    decreases first.len(),
{
    broadcast use vstd::seq_lib::group_to_multiset_ensures;

    if first.len() == 0 {
        assert(first.to_multiset().len() == 0);
        assert(second.to_multiset().len() == second.len());
        assert(first =~= second);
    } else {
        let o = first[0];
        assert(first.contains(o));
        assert(second.to_multiset().count(o) > 0);
        assert(second.contains(o));
        let at = choose|i: int| 0 <= i < second.len() && second[i] == o;
        assert(first.remove(0).to_multiset() =~= second.remove(at).to_multiset());
        lemma_records_whatever_the_order(first.remove(0), second.remove(at), config);
        lemma_records_remove(first, 0, config);
        lemma_records_remove(second, at, config);
    }
}

} // verus!
