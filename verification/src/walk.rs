//! The walk over a tree, as a state machine.
//!
//! The machine takes no step of its own. Its caller lists directories and
//! reads files, tells the machine what it found (an [`Event`]) and is told
//! what to do next (an [`Action`]). The machine keeps the directories that
//! are still to be listed, decides on every entry with the classifier, puts
//! together the records of the files it takes, and counts.
//!
//! A directory is decided on before it is entered, so nothing below an
//! excluded directory is ever asked for. Directories that link back to one
//! above them are not recognised: on such a tree the walk does not end.

use vstd::prelude::*;
use vstd::string::StringExecFns;
use crate::classify::{
    classify, content_decides, decide, decision, has_excluded_component, name_excluded,
    needs_content,
};
use crate::detect::{bytes_wanted, judged_binary, prefix_len};
use crate::history::{
    artifact, coherent, concat, count, is_excluded_directory, is_file, is_processed, is_skipped,
    lemma_accounting, lemma_count_push, lemma_counts_are_files, processed, records, skipped, Fate,
    Outcome,
};
use crate::model::{names, Config, ConfigView, Entry, EntryView, Reason};
use crate::record::record_of;
use crate::stats::{clip, RunStats};
use crate::text::clone_strings;

verus! {

/// What the caller tells the machine.
#[derive(Debug)]
pub enum Event {
    /// The walk may begin.
    Begin,
    /// The directory being listed holds an entry of this name.
    Found { name: String, is_directory: bool, size_bytes: u64 },
    /// The directory being listed holds no further entry.
    ListingDone,
    /// The directory being listed cannot be read, or not any further.
    ListingFailed,
    /// The first bytes of the file that was asked for.
    Prefix(Vec<u8>),
    /// The whole text of the file that was asked for.
    Content(String),
    /// The file that was asked for cannot be read, or is not text.
    Unreadable,
}

/// What the machine tells the caller to do.
#[derive(Debug)]
pub enum Action {
    /// List the directory at this path and report its entries one by one.
    List(Vec<String>),
    /// The entry at hand is settled in the way given. Report the next entry
    /// of the directory being listed, or that there is none.
    Next(Settled),
    /// Read the first `limit` bytes of the file at this path.
    ReadPrefix { path: Vec<String>, limit: usize },
    /// Read the whole file at this path as text.
    ReadContent(Vec<String>),
    /// Nothing is left to do: the artifact is complete.
    Finish,
    /// The root cannot be read: the run has failed.
    Abort,
    /// The event does not fit the state of the walk. Nothing has changed.
    Unexpected,
}

/// How the walk settled an entry.
#[derive(Clone, Copy, Debug, PartialEq, Eq, Structural)]
pub enum Settled {
    /// A directory, put down for listing.
    Entered,
    /// Left out by the classifier, for this reason.
    LeftOut(Reason),
    /// A file that was to be taken and could not be read.
    Unreadable,
    /// A file whose record went into the artifact.
    Recorded,
}

/// Where the walk stands.
#[derive(Clone, Copy, Debug, PartialEq, Eq, Structural)]
pub enum Phase {
    /// Not begun.
    Ready,
    /// Going through the entries of a directory.
    Listing,
    /// Waiting for the first bytes of a file.
    AwaitingPrefix,
    /// Waiting for the text of a file.
    AwaitingContent,
    /// Ended, with the artifact complete.
    Finished,
    /// Ended, because the root could not be read.
    Aborted,
}

/// What an event says.
pub enum EventView {
    Begin,
    Found { name: Seq<char>, is_directory: bool, size_bytes: nat },
    ListingDone,
    ListingFailed,
    Prefix(Seq<u8>),
    Content(Seq<char>),
    Unreadable,
}

/// What an action says.
pub enum ActionView {
    List(Seq<Seq<char>>),
    Next(Settled),
    ReadPrefix { path: Seq<Seq<char>>, limit: nat },
    ReadContent(Seq<Seq<char>>),
    Finish,
    Abort,
    Unexpected,
}

/// The way of settling that leads to `fate`.
pub open spec fn settled(fate: Fate) -> Settled {
    match fate {
        Fate::Entered => Settled::Entered,
        Fate::LeftOut(reason) => Settled::LeftOut(reason),
        Fate::Unreadable => Settled::Unreadable,
        Fate::Recorded(_) => Settled::Recorded,
    }
}

impl View for Event {
    type V = EventView;

    open spec fn view(&self) -> EventView {
        match *self {
            Event::Begin => EventView::Begin,
            Event::Found { name, is_directory, size_bytes } => EventView::Found {
                name: name@,
                is_directory,
                size_bytes: size_bytes as nat,
            },
            Event::ListingDone => EventView::ListingDone,
            Event::ListingFailed => EventView::ListingFailed,
            Event::Prefix(bytes) => EventView::Prefix(bytes@),
            Event::Content(text) => EventView::Content(text@),
            Event::Unreadable => EventView::Unreadable,
        }
    }
}

impl View for Action {
    type V = ActionView;

    open spec fn view(&self) -> ActionView {
        match *self {
            Action::List(path) => ActionView::List(names(path@)),
            Action::Next(how) => ActionView::Next(how),
            Action::ReadPrefix { path, limit } => ActionView::ReadPrefix {
                path: names(path@),
                limit: limit as nat,
            },
            Action::ReadContent(path) => ActionView::ReadContent(names(path@)),
            Action::Finish => ActionView::Finish,
            Action::Abort => ActionView::Abort,
            Action::Unexpected => ActionView::Unexpected,
        }
    }
}

/// The state of a walk.
pub struct WalkView {
    pub config: ConfigView,
    pub phase: Phase,
    /// The directories that are still to be listed. The last is next.
    pub pending: Seq<Seq<Seq<char>>>,
    /// The directory that is being listed.
    pub current: Seq<Seq<char>>,
    /// The file whose bytes or text the walk waits for.
    pub awaited: Option<EntryView>,
    /// The entries that the walk is done with, in the order in which it met
    /// them.
    pub history: Seq<Outcome>,
}

/// The state of a walk that has not begun: only the root, whose path is
/// empty, is to be listed.
pub open spec fn initial(config: ConfigView) -> WalkView {
    WalkView {
        config,
        phase: Phase::Ready,
        pending: seq![Seq::<Seq<char>>::empty()],
        current: Seq::empty(),
        awaited: None,
        history: Seq::empty(),
    }
}

/// The walk turns to the directory that is next, or ends where none is left.
pub open spec fn open_next(s: WalkView) -> (WalkView, ActionView) {
    if s.pending.len() == 0 {
        (WalkView { phase: Phase::Finished, current: Seq::empty(), ..s }, ActionView::Finish)
    } else {
        (
            WalkView {
                phase: Phase::Listing,
                pending: s.pending.drop_last(),
                current: s.pending.last(),
                ..s
            },
            ActionView::List(s.pending.last()),
        )
    }
}

/// The walk is done with `entry`, and goes on with the listing.
pub open spec fn settle(s: WalkView, entry: EntryView, fate: Fate) -> (WalkView, ActionView) {
    (
        WalkView {
            phase: Phase::Listing,
            awaited: None,
            history: s.history.push(Outcome { entry, fate }),
            ..s
        },
        ActionView::Next(settled(fate)),
    )
}

/// The walk asks for the text of the file `entry`.
pub open spec fn ask_content(s: WalkView, entry: EntryView) -> (WalkView, ActionView) {
    (
        WalkView { phase: Phase::AwaitingContent, awaited: Some(entry), ..s },
        ActionView::ReadContent(entry.path),
    )
}

/// The walk meets `entry` in the directory that it is listing. An entry that
/// the classifier leaves out is passed over; a directory is put down for
/// listing; of a file, the text is asked for, but first its beginning where
/// the decision hangs on it.
pub open spec fn meet(s: WalkView, entry: EntryView) -> (WalkView, ActionView) {
    if content_decides(entry, s.config) {
        (
            WalkView { phase: Phase::AwaitingPrefix, awaited: Some(entry), ..s },
            ActionView::ReadPrefix { path: entry.path, limit: prefix_len(s.config.detector) },
        )
    } else {
        let d = decision(entry, s.config, false);
        if !d.included {
            settle(s, entry, Fate::LeftOut(d.reason))
        } else if entry.is_directory {
            settle(WalkView { pending: s.pending.push(entry.path), ..s }, entry, Fate::Entered)
        } else {
            ask_content(s, entry)
        }
    }
}

/// The state after `event`, and what the caller is to do next. An event that
/// does not fit the phase changes nothing.
pub open spec fn next(s: WalkView, event: EventView) -> (WalkView, ActionView) {
    match (s.phase, event) {
        (Phase::Ready, EventView::Begin) => open_next(s),
        (Phase::Listing, EventView::Found { name, is_directory, size_bytes }) => meet(
            s,
            EntryView { path: s.current.push(name), is_directory, size_bytes },
        ),
        (Phase::Listing, EventView::ListingDone) => open_next(s),
        (Phase::Listing, EventView::ListingFailed) => {
            if s.current.len() == 0 {
                (WalkView { phase: Phase::Aborted, ..s }, ActionView::Abort)
            } else {
                open_next(s)
            }
        },
        (Phase::AwaitingPrefix, EventView::Prefix(bytes)) => {
            let entry = s.awaited->0;
            let d = decision(entry, s.config, judged_binary(bytes, s.config.detector));
            if d.included {
                ask_content(s, entry)
            } else {
                settle(s, entry, Fate::LeftOut(d.reason))
            }
        },
        (Phase::AwaitingPrefix, EventView::Unreadable) => settle(
            s,
            s.awaited->0,
            Fate::Unreadable,
        ),
        (Phase::AwaitingContent, EventView::Content(text)) => settle(
            s,
            s.awaited->0,
            Fate::Recorded(text),
        ),
        (Phase::AwaitingContent, EventView::Unreadable) => settle(
            s,
            s.awaited->0,
            Fate::Unreadable,
        ),
        _ => (s, ActionView::Unexpected),
    }
}

/// Whether `path` lies in a directory that the walk may enter: none of the
/// names above its last is that of an excluded directory.
pub open spec fn reachable(path: Seq<Seq<char>>, config: ConfigView) -> bool {
    path.len() > 0 && !has_excluded_component(path.drop_last(), config)
}

/// What holds of every state that a walk can reach.
pub open spec fn inv(s: WalkView) -> bool {
    &&& forall|i: int|
        0 <= i < s.pending.len() ==> !has_excluded_component(#[trigger] s.pending[i], s.config)
    &&& !has_excluded_component(s.current, s.config)
    &&& forall|i: int|
        0 <= i < s.history.len() ==> coherent(#[trigger] s.history[i], s.config) && reachable(
            s.history[i].entry.path,
            s.config,
        )
    &&& (s.phase == Phase::AwaitingPrefix || s.phase == Phase::AwaitingContent) <==> s.awaited
        is Some
    &&& s.phase == Phase::AwaitingPrefix ==> content_decides(s.awaited->0, s.config)
    &&& s.phase == Phase::AwaitingContent ==> !(s.awaited->0).is_directory && exists|binary: bool|
        #[trigger] decision(s.awaited->0, s.config, binary).included
    &&& s.awaited is Some ==> reachable((s.awaited->0).path, s.config)
}

/// A walk that has not begun is in a state that walks can reach.
pub proof fn lemma_initial_inv(config: ConfigView)
    ensures
        inv(initial(config)),
{
}

/// Every step leads from a state that walks can reach to another, and leaves
/// the configuration alone.
pub proof fn lemma_next_inv(s: WalkView, event: EventView)
    requires
        inv(s),
    ensures
        inv(next(s, event).0),
        next(s, event).0.config == s.config,
{
    let t = next(s, event).0;
    match (s.phase, event) {
        (Phase::Listing, EventView::Found { name, is_directory, size_bytes }) => {
            let entry = EntryView { path: s.current.push(name), is_directory, size_bytes };
            assert(entry.path.drop_last() =~= s.current);
            let d = decision(entry, s.config, false);
            if !content_decides(entry, s.config) && d.included && entry.is_directory {
                assert forall|i: int| 0 <= i < t.pending.len() implies !has_excluded_component(
                    #[trigger] t.pending[i],
                    t.config,
                ) by {
                    if i < s.pending.len() {
                        assert(t.pending[i] == s.pending[i]);
                    }
                }
            }
        },
        (Phase::AwaitingPrefix, EventView::Prefix(bytes)) => {
            let entry = s.awaited->0;
            let binary = judged_binary(bytes, s.config.detector);
            let d = decision(entry, s.config, binary);
            assert(d.included ==> decision(entry, s.config, binary).included);
        },
        _ => {},
    }
    if t.pending.len() == s.pending.len() - 1 {
        assert forall|i: int| 0 <= i < t.pending.len() implies !has_excluded_component(
            #[trigger] t.pending[i],
            t.config,
        ) by {
            assert(t.pending[i] == s.pending[i]);
        }
        assert(t.current == s.pending[s.pending.len() - 1]);
    }
}

/// No directory with an excluded name on its path is ever to be listed, and
/// no file below one is ever to be read.
pub proof fn lemma_never_below_excluded(s: WalkView, event: EventView)
    requires
        inv(s),
    ensures
        match next(s, event).1 {
            ActionView::List(path) => !has_excluded_component(path, s.config),
            ActionView::ReadPrefix { path, limit } => !has_excluded_component(path, s.config),
            ActionView::ReadContent(path) => !has_excluded_component(path, s.config),
            _ => true,
        },
{
    lemma_next_inv(s, event);
    let t = next(s, event).0;
    match next(s, event).1 {
        ActionView::List(path) => {
            assert(path == t.current);
        },
        ActionView::ReadPrefix { path, limit } => {
            assert(path == (t.awaited->0).path);
        },
        ActionView::ReadContent(path) => {
            assert(path == (t.awaited->0).path);
            let entry = t.awaited->0;
            let binary = choose|binary: bool| #[trigger] decision(entry, t.config, binary).included;
            assert(!name_excluded(entry.path, t.config));
        },
        _ => {},
    }
}

/// The state that the events `events`, in this order, lead to from `s`.
pub open spec fn run(s: WalkView, events: Seq<EventView>) -> WalkView
    decreases events.len(),
{
    if events.len() == 0 {
        s
    } else {
        next(run(s, events.drop_last()), events.last()).0
    }
}

/// The state of a walk with the configuration `config` after the events
/// `events`, in this order.
pub open spec fn after(config: ConfigView, events: Seq<EventView>) -> WalkView {
    run(initial(config), events)
}

/// Whatever the events, the walk is in a state of which [`inv`] holds: no
/// directory that waits to be listed, and no entry that was met, lies below
/// an excluded directory, and every outcome is what the classifier makes of
/// its entry.
pub proof fn lemma_inv_always(config: ConfigView, events: Seq<EventView>)
    ensures
        inv(after(config, events)),
        after(config, events).config == config,
    decreases events.len(),
{
    lemma_initial_inv(config);
    lemma_run_inv(initial(config), events);
}

/// Events lead from a state that walks can reach to another.
pub proof fn lemma_run_inv(s: WalkView, events: Seq<EventView>)
    requires
        inv(s),
    ensures
        inv(run(s, events)),
        run(s, events).config == s.config,
    decreases events.len(),
{
    if events.len() > 0 {
        lemma_run_inv(s, events.drop_last());
        lemma_next_inv(run(s, events.drop_last()), events.last());
    }
}

/// Whatever the events, the two counters together count every file that the
/// walk is done with and every directory that it left out; where it left no
/// directory out, they count exactly the files.
pub proof fn lemma_counts_always(config: ConfigView, events: Seq<EventView>)
    ensures
        ({
            let history = after(config, events).history;
            &&& processed(history) + skipped(history) == count(history, |o: Outcome| is_file(o))
                + count(history, |o: Outcome| is_excluded_directory(o))
            &&& (forall|i: int| 0 <= i < history.len() ==> !is_excluded_directory(
                #[trigger] history[i],
            )) ==> processed(history) + skipped(history) == count(
                history,
                |o: Outcome| is_file(o),
            )
        }),
{
    lemma_inv_always(config, events);
    let history = after(config, events).history;
    lemma_accounting(history, config);
    if forall|i: int| 0 <= i < history.len() ==> !is_excluded_directory(#[trigger] history[i]) {
        lemma_counts_are_files(history, config);
    }
}

/// The counters never go down, and no record is ever taken back.
pub proof fn lemma_only_forward(s: WalkView, event: EventView)
    ensures
        processed(next(s, event).0.history) >= processed(s.history),
        skipped(next(s, event).0.history) >= skipped(s.history),
        records(s.history, s.config).is_prefix_of(
            records(next(s, event).0.history, next(s, event).0.config),
        ),
{
    let t = next(s, event).0;
    if t.history != s.history {
        let o = t.history.last();
        assert(t.history =~= s.history.push(o));
        assert(t.history.drop_last() =~= s.history);
        lemma_count_push(s.history, o, |o: Outcome| is_processed(o));
        lemma_count_push(s.history, o, |o: Outcome| is_skipped(o));
    }
    assert(t.config == s.config);
}

/// The texts of the paths in `list`.
pub open spec fn paths(list: Seq<Vec<String>>) -> Seq<Seq<Seq<char>>> {
    Seq::new(list.len(), |i: int| names(list[i]@))
}

/// The view of an optional entry.
pub open spec fn entry_view(entry: Option<Entry>) -> Option<EntryView> {
    match entry {
        Some(e) => Some(e@),
        None => None,
    }
}

/// A walk over one tree, with one configuration.
pub struct Walk {
    config: Config,
    phase: Phase,
    pending: Vec<Vec<String>>,
    current: Vec<String>,
    awaited: Option<Entry>,
    records: Vec<String>,
    stats: RunStats,
    history: Ghost<Seq<Outcome>>,
}

impl View for Walk {
    type V = WalkView;

    closed spec fn view(&self) -> WalkView {
        WalkView {
            config: self.config@,
            phase: self.phase,
            pending: paths(self.pending@),
            current: names(self.current@),
            awaited: entry_view(self.awaited),
            history: self.history@,
        }
    }
}

impl Walk {
    /// Whether the records and the counters are those of the history.
    pub closed spec fn consistent(&self) -> bool {
        &&& names(self.records@) == records(self.history@, self.config@)
        &&& self.stats.processed_count == clip(processed(self.history@))
        &&& self.stats.skipped_count == clip(skipped(self.history@))
    }

    /// Whether the walk is in a state that walks can reach, and holds the
    /// records and counts that belong to it.
    pub open spec fn wf(&self) -> bool {
        inv(self@) && self.consistent()
    }

    /// A walk that is ready to begin.
    pub fn new(config: Config) -> (walk: Walk)
        ensures
            walk.wf(),
            walk@ == initial(config@),
    {
        let mut pending: Vec<Vec<String>> = Vec::new();
        pending.push(Vec::new());
        let walk = Walk {
            config,
            phase: Phase::Ready,
            pending,
            current: Vec::new(),
            awaited: None,
            records: Vec::new(),
            stats: RunStats::new(),
            history: Ghost(Seq::empty()),
        };
        proof {
            assert(names(walk.pending@[0]@) =~= Seq::<Seq<char>>::empty());
            assert(paths(walk.pending@) =~= seq![Seq::<Seq<char>>::empty()]);
            assert(names(walk.current@) =~= Seq::<Seq<char>>::empty());
            assert(names(walk.records@) =~= Seq::<Seq<char>>::empty());
        }
        walk
    }

    /// Where the walk stands.
    pub fn phase(&self) -> (phase: Phase)
        ensures
            phase == self@.phase,
    {
        self.phase
    }

    /// The configuration of the run.
    pub fn config(&self) -> (config: &Config)
        ensures
            config@ == self@.config,
    {
        &self.config
    }

    /// The counters as they stand: the files whose records were added, and
    /// the entries that were passed over. Together they count every file
    /// that the walk is done with and every directory that it left out.
    pub fn stats(&self) -> (stats: RunStats)
        requires
            self.wf(),
        ensures
            stats.processed_count == clip(processed(self@.history)),
            stats.skipped_count == clip(skipped(self@.history)),
            processed(self@.history) + skipped(self@.history) == count(
                self@.history,
                |o: Outcome| is_file(o),
            ) + count(self@.history, |o: Outcome| is_excluded_directory(o)),
    {
        proof {
            lemma_accounting(self@.history, self@.config);
        }
        self.stats
    }

    /// The records that were put together so far.
    pub fn records(&self) -> (list: &Vec<String>)
        requires
            self.wf(),
        ensures
            names(list@) == records(self@.history, self@.config),
    {
        &self.records
    }

    /// The artifact as far as it was put together: the records, one after
    /// the other.
    pub fn output(&self) -> (text: String)
        requires
            self.wf(),
        ensures
            text@ == artifact(self@.history, self@.config),
    {
        let mut text = String::new();
        let mut i: usize = 0;
        assert(names(self.records@).take(0) =~= Seq::<Seq<char>>::empty());
        while i < self.records.len()
            invariant
                i <= self.records.len(),
                text@ == concat(names(self.records@).take(i as int)),
            decreases self.records.len() - i,
        {
            text.append(self.records[i].as_str());
            proof {
                let all = names(self.records@);
                assert(all.take(i + 1).drop_last() =~= all.take(i as int));
                assert(all.take(i + 1).last() == self.records@[i as int]@);
            }
            i += 1;
        }
        assert(names(self.records@).take(self.records.len() as int) =~= names(self.records@));
        text
    }

    /// Takes the walk one step further: `event` is what the caller found
    /// since the last step, the result what it is to do now.
    pub fn step(&mut self, event: Event) -> (action: Action)
        requires
            old(self).wf(),
        ensures
            final(self).wf(),
            (final(self)@, action@) == next(old(self)@, event@),
    {
        proof {
            lemma_next_inv(self@, event@);
        }
        match self.phase {
            Phase::Ready => match event {
                Event::Begin => self.open_next(),
                _ => Action::Unexpected,
            },
            Phase::Listing => match event {
                Event::Found { name, is_directory, size_bytes } => self.meet(
                    name,
                    is_directory,
                    size_bytes,
                ),
                Event::ListingDone => self.open_next(),
                Event::ListingFailed => {
                    if self.current.len() == 0 {
                        self.phase = Phase::Aborted;
                        Action::Abort
                    } else {
                        self.open_next()
                    }
                },
                _ => Action::Unexpected,
            },
            Phase::AwaitingPrefix => match event {
                Event::Prefix(bytes) => self.judge_prefix(bytes),
                Event::Unreadable => self.give_up(),
                _ => Action::Unexpected,
            },
            Phase::AwaitingContent => match event {
                Event::Content(text) => self.add_record(text),
                Event::Unreadable => self.give_up(),
                _ => Action::Unexpected,
            },
            _ => Action::Unexpected,
        }
    }

    /// Turns to the directory that is next, or ends the walk.
    fn open_next(&mut self) -> (action: Action)
        requires
            old(self).consistent(),
        ensures
            final(self).consistent(),
            (final(self)@, action@) == open_next(old(self)@),
    {
        match self.pending.pop() {
            Some(path) => {
                let action = Action::List(clone_strings(&path));
                self.current = path;
                self.phase = Phase::Listing;
                proof {
                    assert(paths(self.pending@) =~= paths(old(self).pending@).drop_last());
                }
                action
            },
            None => {
                self.current = Vec::new();
                self.phase = Phase::Finished;
                assert(names(self.current@) =~= Seq::<Seq<char>>::empty());
                Action::Finish
            },
        }
    }

    /// Puts down what became of an entry that is no record, and goes on with
    /// the listing.
    fn settle(
        &mut self,
        how: Settled,
        Ghost(entry): Ghost<EntryView>,
        Ghost(fate): Ghost<Fate>,
    ) -> (action: Action)
        requires
            old(self).consistent(),
            !(fate is Recorded),
            how == settled(fate),
        ensures
            final(self).consistent(),
            (final(self)@, action@) == settle(old(self)@, entry, fate),
    {
        let ghost o = Outcome { entry, fate };
        match how {
            Settled::LeftOut(_) | Settled::Unreadable => self.stats.record_skipped(),
            _ => {},
        }
        self.awaited = None;
        self.phase = Phase::Listing;
        self.history = Ghost(self.history@.push(o));
        proof {
            let h = old(self).history@;
            assert(h.push(o).drop_last() =~= h);
            lemma_count_push(h, o, |o: Outcome| is_processed(o));
            lemma_count_push(h, o, |o: Outcome| is_skipped(o));
        }
        Action::Next(how)
    }

    /// Decides on an entry of the directory that is being listed, as far as
    /// its name, kind and size allow.
    fn meet(&mut self, name: String, is_directory: bool, size_bytes: u64) -> (action: Action)
        requires
            old(self).consistent(),
        ensures
            final(self).consistent(),
            (final(self)@, action@) == meet(
                old(self)@,
                EntryView {
                    path: old(self)@.current.push(name@),
                    is_directory,
                    size_bytes: size_bytes as nat,
                },
            ),
    {
        let mut path = clone_strings(&self.current);
        path.push(name);
        let entry = Entry { relative_path: path, is_directory, size_bytes };
        assert(entry@.path =~= names(self.current@).push(name@));
        if needs_content(&entry, &self.config) {
            let action = Action::ReadPrefix {
                path: clone_strings(&entry.relative_path),
                limit: bytes_wanted(self.config.detector),
            };
            self.awaited = Some(entry);
            self.phase = Phase::AwaitingPrefix;
            action
        } else {
            let d = decide(&entry, &self.config, false);
            if !d.included {
                self.settle(Settled::LeftOut(d.reason), Ghost(entry@), Ghost(Fate::LeftOut(d.reason)))
            } else if is_directory {
                let ghost e = entry@;
                self.pending.push(entry.relative_path);
                assert(paths(self.pending@) =~= paths(old(self).pending@).push(e.path));
                self.settle(Settled::Entered, Ghost(e), Ghost(Fate::Entered))
            } else {
                let action = Action::ReadContent(clone_strings(&entry.relative_path));
                self.awaited = Some(entry);
                self.phase = Phase::AwaitingContent;
                action
            }
        }
    }

    /// Decides on the file whose first bytes came in.
    fn judge_prefix(&mut self, bytes: Vec<u8>) -> (action: Action)
        requires
            old(self).wf(),
            old(self)@.phase == Phase::AwaitingPrefix,
        ensures
            final(self).consistent(),
            (final(self)@, action@) == next(old(self)@, EventView::Prefix(bytes@)),
    {
        match self.awaited.take() {
            Some(entry) => {
                let d = classify(&entry, &self.config, bytes.as_slice());
                if d.included {
                    let action = Action::ReadContent(clone_strings(&entry.relative_path));
                    self.awaited = Some(entry);
                    self.phase = Phase::AwaitingContent;
                    action
                } else {
                    self.settle(Settled::LeftOut(d.reason), Ghost(entry@), Ghost(Fate::LeftOut(d.reason)))
                }
            },
            None => Action::Unexpected,
        }
    }

    /// Passes over the file that could not be read.
    fn give_up(&mut self) -> (action: Action)
        requires
            old(self).wf(),
            old(self)@.awaited is Some,
        ensures
            final(self).consistent(),
            (final(self)@, action@) == settle(
                old(self)@,
                old(self)@.awaited->0,
                Fate::Unreadable,
            ),
    {
        let ghost entry = self@.awaited->0;
        self.settle(Settled::Unreadable, Ghost(entry), Ghost(Fate::Unreadable))
    }

    /// Adds the record of the file whose text came in.
    fn add_record(&mut self, text: String) -> (action: Action)
        requires
            old(self).wf(),
            old(self)@.awaited is Some,
        ensures
            final(self).consistent(),
            (final(self)@, action@) == settle(
                old(self)@,
                old(self)@.awaited->0,
                Fate::Recorded(text@),
            ),
    {
        match self.awaited.take() {
            Some(entry) => {
                let ghost o = Outcome { entry: entry@, fate: Fate::Recorded(text@) };
                let added = record_of(&entry, self.config.size_style, text.as_str());
                self.records.push(added);
                self.stats.record_processed();
                self.phase = Phase::Listing;
                self.history = Ghost(self.history@.push(o));
                proof {
                    let h = old(self).history@;
                    assert(h.push(o).drop_last() =~= h);
                    lemma_count_push(h, o, |o: Outcome| is_processed(o));
                    lemma_count_push(h, o, |o: Outcome| is_skipped(o));
                    assert(names(self.records@) =~= names(old(self).records@).push(added@));
                }
                Action::Next(Settled::Recorded)
            },
            None => Action::Unexpected,
        }
    }
}

} // verus!
