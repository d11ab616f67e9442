//! The directory of capture files: which files are taken, how a file is
//! marked once it has been processed, and what the listener does next.

use netflow_parser::netflow_common::NetflowCommonFlowSet;
use vstd::prelude::*;
use crate::capture::{capture_frames, opens_as_capture, payloads_of};
use crate::decoder::records_of;

verus! {

/// The directory that is scanned for capture files.
pub const PCAP_PATH: &'static str = "./pcaps";

/// What the name of a capture file ends with.
pub const PCAP_EXTENSION: &'static str = ".pcap";

/// What is appended to the name of a capture file that has been processed.
pub const PCAP_PARSED_EXTENSION: &'static str = ".parsed";

/// How many seconds the listener sleeps between two scans.
pub const PCAP_LISTEN_INTERVAL_SECS: u64 = 5;

/// `name` ends with `suffix`.
pub open spec fn ends_with(name: Seq<char>, suffix: Seq<char>) -> bool {
    &&& suffix.len() <= name.len()
    &&& name.subrange(name.len() - suffix.len(), name.len() as int) == suffix
}

/// `name` is the name of a capture file that has not been processed yet.
pub open spec fn is_capture(name: Seq<char>) -> bool {
    ends_with(name, PCAP_EXTENSION@)
}

/// The name under which a processed capture file is kept.
pub open spec fn marked(name: Seq<char>) -> Seq<char> {
    name + PCAP_PARSED_EXTENSION@
}

/// The views of the strings of `names`.
pub open spec fn views(names: Seq<String>) -> Seq<Seq<char>> {
    names.map_values(|n: String| n@)
}

/// The capture files among `names`, in their order.
pub open spec fn captures(names: Seq<Seq<char>>) -> Seq<Seq<char>> {
    names.filter(|n: Seq<char>| is_capture(n))
}

/// Whether `name` ends with `suffix`.
pub fn name_ends_with(name: &str, suffix: &str) -> (r: bool)
    ensures
        r == ends_with(name@, suffix@),
{
    let n = name.unicode_len();
    let m = suffix.unicode_len();
    if m > n {
        return false;
    }
    let start = n - m;
    let mut i: usize = 0;
    while i < m
        invariant
            i <= m,
            m <= n,
            start == n - m,
            n == name@.len(),
            m == suffix@.len(),
            forall|j: int| 0 <= j < i ==> name@[start + j] == suffix@[j],
        decreases m - i,
    {
        if name.get_char(start + i) != suffix.get_char(i) {
            proof {
                assert(name@.subrange(n - m, n as int)[i as int] != suffix@[i as int]);
            }
            return false;
        }
        i += 1;
    }
    proof {
        assert(name@.subrange(n - m, n as int) =~= suffix@);
    }
    true
}

/// Whether `name` is the name of a capture file that has not been processed
/// yet.
pub fn is_capture_name(name: &str) -> (r: bool)
    ensures
        r == is_capture(name@),
{
    name_ends_with(name, PCAP_EXTENSION)
}

/// The name under which a processed capture file is kept.
pub fn processed_name(name: &str) -> (r: String)
    ensures
        r@ == marked(name@),
{
    let mut r = String::from_str(name);
    r.append(PCAP_PARSED_EXTENSION);
    r
}

/// A file that has been marked as processed is no capture file any more, so
/// the next scan leaves it out.
pub proof fn law_marked_is_left_out(name: Seq<char>)
    ensures
        !is_capture(marked(name)),
{
    reveal_strlit(".pcap");
    reveal_strlit(".parsed");
    let m = marked(name);
    let suffix = PCAP_EXTENSION@;
    assert(m[m.len() - 1] == 'd');
    assert(suffix[4] == 'p');
    if is_capture(m) {
        assert(m.subrange(m.len() - 5, m.len() as int)[4] == suffix[4]);
    }
}

/// Where the listener stands in its cycle.
#[derive(Clone, Copy, Debug, PartialEq, Eq, Structural)]
pub enum Phase {
    /// The directory is being listed.
    Scanning,
    /// The first pending file is being read.
    Reading,
    /// The flow records of the first pending file are being merged into the
    /// store.
    Merging,
    /// The first pending file is being renamed.
    Renaming,
    /// It is being logged that the first pending file is no capture file.
    Skipping,
    /// The listener sleeps until the next scan.
    Sleeping,
}

/// What the listener is told.
#[derive(Debug)]
pub enum Event {
    /// The names found in the directory; none where it is missing or cannot
    /// be read.
    Listing(Vec<String>),
    /// The bytes of the file that was to be read.
    Loaded(Vec<u8>),
    /// The file that was to be read could not be read; this has been logged.
    Unreadable,
    /// What the listener asked for last has been done, or has failed and been
    /// logged.
    Finished,
}

/// What the listener asks for.
#[derive(Debug)]
pub enum Action {
    /// List the directory and report the names.
    Scan { directory: String },
    /// Read the file and report its bytes.
    Read { file: String },
    /// Merge these flow records into the store, as one batch.
    Merge { flowsets: Vec<NetflowCommonFlowSet> },
    /// Rename the file to `marked`; log it if that fails.
    Rename { file: String, marked: String },
    /// Log that the file is no capture file.
    Skip { file: String },
    /// Sleep for so many seconds.
    Sleep { seconds: u64 },
}

/// An event as plain values.
pub ghost enum EventView {
    Listing(Seq<Seq<char>>),
    Loaded(Seq<u8>),
    Unreadable,
    Finished,
}

/// An action as plain values.
pub ghost enum ActionView {
    Scan { directory: Seq<char> },
    Read { file: Seq<char> },
    Merge { flowsets: Seq<NetflowCommonFlowSet> },
    Rename { file: Seq<char>, marked: Seq<char> },
    Skip { file: Seq<char> },
    Sleep { seconds: u64 },
}

/// The listener as plain values.
pub ghost struct ListenerView {
    /// The capture files of this pass that are not done with; the first of
    /// them is the one at work.
    pub pending: Seq<Seq<char>>,
    pub phase: Phase,
}

impl View for Event {
    type V = EventView;

    open spec fn view(&self) -> EventView {
        match self {
            Event::Listing(names) => EventView::Listing(views(names@)),
            Event::Loaded(bytes) => EventView::Loaded(bytes@),
            Event::Unreadable => EventView::Unreadable,
            Event::Finished => EventView::Finished,
        }
    }
}

impl View for Action {
    type V = ActionView;

    open spec fn view(&self) -> ActionView {
        match self {
            Action::Scan { directory } => ActionView::Scan { directory: directory@ },
            Action::Read { file } => ActionView::Read { file: file@ },
            Action::Merge { flowsets } => ActionView::Merge { flowsets: flowsets@ },
            Action::Rename { file, marked } => ActionView::Rename { file: file@, marked: marked@ },
            Action::Skip { file } => ActionView::Skip { file: file@ },
            Action::Sleep { seconds } => ActionView::Sleep { seconds: *seconds },
        }
    }
}

/// The listener is at work on a file: the first pending one.
pub open spec fn at_work(state: ListenerView, phase: Phase) -> bool {
    state.phase == phase && state.pending.len() > 0
}

/// What comes next in a pass over `pending`: the first file is read, or the
/// listener sleeps when none is left.
pub open spec fn start(pending: Seq<Seq<char>>) -> (ListenerView, ActionView) {
    if pending.len() == 0 {
        (
            ListenerView { pending: Seq::empty(), phase: Phase::Sleeping },
            ActionView::Sleep { seconds: PCAP_LISTEN_INTERVAL_SECS },
        )
    } else {
        (ListenerView { pending, phase: Phase::Reading }, ActionView::Read { file: pending[0] })
    }
}

/// The pass is given up and the directory is scanned anew.
pub open spec fn rescan() -> (ListenerView, ActionView) {
    (
        ListenerView { pending: Seq::empty(), phase: Phase::Scanning },
        ActionView::Scan { directory: PCAP_PATH@ },
    )
}

/// What follows when the bytes of the file at work have come: the flow
/// records found in them are to be merged, or, where the bytes are no capture
/// file, that is to be logged.
pub open spec fn loaded(state: ListenerView, bytes: Seq<u8>) -> (ListenerView, ActionView) {
    if opens_as_capture(bytes) {
        (
            ListenerView { pending: state.pending, phase: Phase::Merging },
            ActionView::Merge { flowsets: records_of(payloads_of(capture_frames(bytes))) },
        )
    } else {
        (
            ListenerView { pending: state.pending, phase: Phase::Skipping },
            ActionView::Skip { file: state.pending[0] },
        )
    }
}

/// One turn of the listener.
///
/// A listing starts a pass over the capture files that it names, in their
/// order. Each file is read first. What cannot be read, or is no capture
/// file, is left under its name, so that a later pass tries it again. The
/// flow records of a capture file are merged into the store, and only when
/// that has been done is the file renamed, so that a later pass leaves it
/// out. After the last file the listener sleeps, and then scans again. An
/// event that does not answer what was asked for starts a new scan.
pub open spec fn turn(state: ListenerView, event: EventView) -> (ListenerView, ActionView) {
    match event {
        EventView::Listing(names) => start(captures(names)),
        EventView::Loaded(bytes) => if at_work(state, Phase::Reading) {
            loaded(state, bytes)
        } else {
            rescan()
        },
        EventView::Unreadable => if at_work(state, Phase::Reading) {
            start(state.pending.drop_first())
        } else {
            rescan()
        },
        EventView::Finished => if at_work(state, Phase::Merging) {
            (
                ListenerView { pending: state.pending, phase: Phase::Renaming },
                ActionView::Rename { file: state.pending[0], marked: marked(state.pending[0]) },
            )
        } else if at_work(state, Phase::Renaming) || at_work(state, Phase::Skipping) {
            start(state.pending.drop_first())
        } else {
            rescan()
        },
    }
}

/// The decisions of the loop that takes capture files in from a directory.
/// Whoever runs the loop does what `listen` asks for and reports back.
#[derive(Debug)]
pub struct PcapListener {
    files: Vec<String>,
    next: usize,
    phase: Phase,
}

impl View for PcapListener {
    type V = ListenerView;

    closed spec fn view(&self) -> ListenerView {
        ListenerView {
            pending: views(self.files@).subrange(self.next as int, self.files@.len() as int),
            phase: self.phase,
        }
    }
}

impl PcapListener {
    /// The cursor lies within the files of the pass.
    pub closed spec fn wf(&self) -> bool {
        self.next <= self.files@.len()
    }

    /// A listener that has not scanned yet.
    pub fn new() -> (listener: PcapListener)
        ensures
            listener.wf(),
            listener@ == (ListenerView { pending: Seq::empty(), phase: Phase::Scanning }),
    {
        let listener = PcapListener { files: Vec::new(), next: 0, phase: Phase::Scanning };
        assert(listener@.pending =~= Seq::empty());
        listener
    }

    /// Whether the listener is at work on a file in this phase.
    fn is_at_work(&self, phase: Phase) -> (r: bool)
        requires
            self.wf(),
        ensures
            r == at_work(self@, phase),
    {
        self.phase == phase && self.next < self.files.len()
    }

    /// Starts on the pending files: the first is read, or the listener sleeps
    /// when none is left.
    fn start(&mut self) -> (action: Action)
        requires
            old(self).wf(),
        ensures
            final(self).wf(),
            (final(self)@, action@) == start(old(self)@.pending),
    {
        if self.next < self.files.len() {
            let file = self.files[self.next].clone();
            self.phase = Phase::Reading;
            proof {
                assert(self@.pending =~= old(self)@.pending);
            }
            Action::Read { file }
        } else {
            self.phase = Phase::Sleeping;
            proof {
                assert(self@.pending =~= Seq::empty());
            }
            Action::Sleep { seconds: PCAP_LISTEN_INTERVAL_SECS }
        }
    }

    /// Leaves the file at work and starts on the rest.
    fn start_next(&mut self) -> (action: Action)
        requires
            old(self).wf(),
            old(self)@.pending.len() > 0,
        ensures
            final(self).wf(),
            (final(self)@, action@) == start(old(self)@.pending.drop_first()),
    {
        let count = self.files.len();
        assert(self.next < count) by {
            assert(self@.pending.len() == count - self.next);
        }
        self.next = self.next + 1;
        proof {
            assert(self@.pending =~= old(self)@.pending.drop_first());
        }
        self.start()
    }

    /// Gives the pass up and asks for a new scan.
    fn rescan(&mut self) -> (action: Action)
        ensures
            final(self).wf(),
            (final(self)@, action@) == rescan(),
    {
        self.files = Vec::new();
        self.next = 0;
        self.phase = Phase::Scanning;
        proof {
            assert(self@.pending =~= Seq::empty());
        }
        Action::Scan { directory: String::from_str(PCAP_PATH) }
    }

    /// One turn of the listener: what to do after `event`.
    pub fn listen(&mut self, event: Event) -> (action: Action)
        requires
            old(self).wf(),
        ensures
            final(self).wf(),
            (final(self)@, action@) == turn(old(self)@, event@),
    {
        match event {
            Event::Listing(names) => {
                self.files = PcapListener::get_pcaps_list(&names);
                self.next = 0;
                proof {
                    assert(self@.pending =~= captures(views(names@)));
                }
                self.start()
            },
            Event::Loaded(bytes) => {
                if self.is_at_work(Phase::Reading) {
                    match PcapListener::process_pcap(bytes.as_slice()) {
                        Some(flowsets) => {
                            self.phase = Phase::Merging;
                            Action::Merge { flowsets }
                        },
                        None => {
                            self.phase = Phase::Skipping;
                            Action::Skip { file: self.files[self.next].clone() }
                        },
                    }
                } else {
                    self.rescan()
                }
            },
            Event::Unreadable => {
                if self.is_at_work(Phase::Reading) {
                    self.start_next()
                } else {
                    self.rescan()
                }
            },
            Event::Finished => {
                if self.is_at_work(Phase::Merging) {
                    let file = self.files[self.next].clone();
                    let marked = processed_name(file.as_str());
                    self.phase = Phase::Renaming;
                    Action::Rename { file, marked }
                } else if self.is_at_work(Phase::Renaming) || self.is_at_work(Phase::Skipping) {
                    self.start_next()
                } else {
                    self.rescan()
                }
            },
        }
    }

    /// The capture files among `names`, in their order.
    pub fn get_pcaps_list(names: &Vec<String>) -> (r: Vec<String>)
        ensures
            views(r@) == captures(views(names@)),
    {
        let mut r: Vec<String> = Vec::new();
        let mut i: usize = 0;
        proof {
            reveal(Seq::filter);
            assert(views(names@).take(0) =~= Seq::empty());
            assert(views(r@) =~= Seq::empty());
        }
        while i < names.len()
            invariant
                i <= names@.len(),
                views(r@) == captures(views(names@).take(i as int)),
            decreases names@.len() - i,
        {
            proof {
                let all = views(names@);
                reveal(Seq::filter);
                assert(all.take(i + 1).drop_last() =~= all.take(i as int));
                assert(all.take(i + 1).last() == names@[i as int]@);
            }
            let ghost before = views(r@);
            if is_capture_name(names[i].as_str()) {
                r.push(names[i].clone());
                proof {
                    assert(views(r@) =~= before.push(names@[i as int]@));
                }
            }
            i += 1;
        }
        proof {
            assert(views(names@).take(names@.len() as int) =~= views(names@));
        }
        r
    }
}

} // verus!
