//! Subscriptions: every entry of a log from an offset on, in order, as it
//! comes.
//!
//! A subscription follows the files of a log that others write to, and whose
//! oldest segments may disappear. It does no input or output itself: it says
//! what is to be looked up or read, and is told what came of it.

use vstd::pervasive::unreached;
use vstd::prelude::*;

use crate::log::bytes;
use crate::log::entry::{EntryModel, LogEntry, Offset};
use crate::log::error::{Corruption, StorageError};
use crate::log::layout;
use crate::log::names;
use crate::log::segment;
use crate::log::segment::{
    read_index, read_record, read_watermark, SegmentHeader, HEADER_LEN,
};

verus! {

/// Where a subscription stands in a data file.
#[derive(Debug, Clone, Copy, PartialEq, Eq, Structural)]
pub struct Cursor {
    /// The segment.
    pub base: u64,
    /// The position of the next record.
    pub pos: u64,
    /// Whether the segment may still grow. Where it may, the end of the file
    /// means that there is nothing yet; where not, that something is missing.
    pub active: bool,
}

/// What a subscription waits to be told.
#[derive(Debug, Clone, Copy, PartialEq, Eq, Structural)]
pub enum SubscriptionPhase {
    /// The names of the files.
    Scanning,
    /// The names of the files once more: a segment has disappeared.
    Rescanning,
    /// The watermark.
    Marking,
    /// Whether the data file of the segment is there.
    Opening { base: u64 },
    /// Whether the index file of the segment is there.
    Stating { base: u64 },
    /// The index of the segment.
    Indexing { base: u64 },
    /// The record with offset `current` of a segment without an index, on the
    /// way to the one that is due.
    Seeking { base: u64, pos: u64, current: u64 },
    /// The record where the subscription stands.
    Reading,
    /// Whether the data file of the segment that follows is there.
    OpeningNext,
    /// Whether the index file of the segment that follows is there.
    StatingNext,
}

/// What is to be done next for a subscription.
#[derive(Debug)]
pub enum SubscriptionAction {
    /// List the names of the log's files.
    Scan,
    /// Read the watermark.
    ReadWatermark,
    /// Open the data file.
    Open { base: u64 },
    /// Look whether the index file is there.
    FindIndex { base: u64 },
    /// Read the index file.
    ReadIndex { base: u64 },
    /// Read the record at this position of the data file: its bytes, as far as
    /// they are there. More bytes do no harm.
    Read { base: u64, pos: u64 },
    /// Here is the entry that is due.
    Deliver(LogEntry),
    /// There is nothing yet: ask again once something was appended.
    Wait,
    /// It cannot go on.
    Fail(StorageError),
    /// It cannot go on: something could not be done.
    FailIo,
    /// The subscription is closed.
    End,
}

/// What came of an action.
#[derive(Debug)]
pub enum SubscriptionEvent {
    Names(Vec<String>),
    Bytes(Vec<u8>),
    Done,
    /// The file is not there.
    Missing,
    Failed,
}

/// A subscription, as a model.
pub struct SubscriptionModel {
    /// The offset that is due.
    pub next: u64,
    pub at: Option<Cursor>,
    pub closed: bool,
    pub phase: Option<SubscriptionPhase>,
}

/// A subscription to a segment log.
#[derive(Debug)]
pub struct SegmentLogSubscription {
    next_offset: u64,
    at: Option<Cursor>,
    closed: bool,
    phase: Option<SubscriptionPhase>,
}

impl View for SegmentLogSubscription {
    type V = SubscriptionModel;

    closed spec fn view(&self) -> SubscriptionModel {
        SubscriptionModel {
            next: self.next_offset,
            at: self.at,
            closed: self.closed,
            phase: self.phase,
        }
    }
}

/// The largest of these base offsets that is not larger than `offset`.
pub open spec fn largest_up_to(bases: Seq<u64>, offset: u64) -> Option<u64>
    decreases bases.len(),
{
    if bases.len() == 0 {
        None
    } else {
        let r = largest_up_to(bases.drop_last(), offset);
        let b = bases.last();
        if b <= offset && (r matches Some(x) ==> x <= b) {
            Some(b)
        } else {
            r
        }
    }
}

/// The smallest of these base offsets.
pub open spec fn smallest(bases: Seq<u64>) -> Option<u64>
    decreases bases.len(),
{
    if bases.len() == 0 {
        None
    } else {
        let b = bases.last();
        match smallest(bases.drop_last()) {
            Some(x) if x < b => Some(x),
            _ => Some(b),
        }
    }
}

/// The segment that is looked for is the last one that begins at the offset or
/// before it.
pub proof fn law_scan(bases: Seq<u64>, offset: u64)
    ensures
        match largest_up_to(bases, offset) {
            Some(b) => bases.contains(b) && b <= offset && forall|x: u64|
                bases.contains(x) && x <= offset ==> x <= b,
            None => forall|x: u64| bases.contains(x) ==> x > offset,
        },
        match smallest(bases) {
            Some(b) => bases.contains(b) && forall|x: u64| bases.contains(x) ==> b <= x,
            None => bases.len() == 0,
        },
    decreases bases.len(),
{
    if bases.len() > 0 {
        let front = bases.drop_last();
        let last = bases.last();
        law_scan(front, offset);
        assert(bases[bases.len() - 1] == last);
        assert forall|x: u64| bases.contains(x) implies x == last || front.contains(x) by {
            let i = choose|i: int| 0 <= i < bases.len() && bases[i] == x;
            if i < front.len() {
                assert(front[i] == x);
            }
        }
        assert forall|x: u64| front.contains(x) implies bases.contains(x) by {
            let i = choose|i: int| 0 <= i < front.len() && front[i] == x;
            assert(bases[i] == x);
        }
    }
}

/// A subscription and what is to be done for it.
pub struct SubscriptionState {
    pub model: SubscriptionModel,
    pub action: SubscriptionAction,
}

/// The subscription waits to be told something.
pub open spec fn asks(
    m: SubscriptionModel,
    phase: SubscriptionPhase,
    action: SubscriptionAction,
) -> SubscriptionState {
    SubscriptionState { model: SubscriptionModel { phase: Some(phase), ..m }, action }
}

/// The subscription waits for entries.
pub open spec fn waits(m: SubscriptionModel) -> SubscriptionState {
    SubscriptionState {
        model: SubscriptionModel { phase: None, ..m },
        action: SubscriptionAction::Wait,
    }
}

/// The subscription cannot go on.
pub open spec fn fails(m: SubscriptionModel, e: StorageError) -> SubscriptionState {
    SubscriptionState {
        model: SubscriptionModel { phase: None, closed: true, ..m },
        action: SubscriptionAction::Fail(e),
    }
}

/// The subscription cannot go on: something could not be done.
pub open spec fn fails_io(m: SubscriptionModel) -> SubscriptionState {
    SubscriptionState {
        model: SubscriptionModel { phase: None, closed: true, ..m },
        action: SubscriptionAction::FailIo,
    }
}

/// The subscription reads the record where it stands.
pub open spec fn reads(m: SubscriptionModel, at: Cursor) -> SubscriptionState {
    asks(
        SubscriptionModel { at: Some(at), ..m },
        SubscriptionPhase::Reading,
        SubscriptionAction::Read { base: at.base, pos: at.pos },
    )
}

/// The subscription looks for the record that is due in a segment without an
/// index; the record with offset `current` stands at `pos`.
pub open spec fn seeks(m: SubscriptionModel, base: u64, pos: u64, current: u64) -> SubscriptionState {
    if current == m.next {
        reads(m, Cursor { base, pos, active: true })
    } else {
        asks(
            m,
            SubscriptionPhase::Seeking { base, pos, current },
            SubscriptionAction::Read { base, pos },
        )
    }
}

/// The offset that is due is not kept any more.
pub open spec fn expires(m: SubscriptionModel, first: Option<u64>) -> SubscriptionState {
    fails(
        m,
        StorageError::RetentionExpired {
            requested: Offset(m.next),
            earliest_available: match first {
                Some(n) => Some(Offset(n)),
                None => None,
            },
        },
    )
}

/// The next entry was asked for.
pub open spec fn begun(m: SubscriptionModel) -> SubscriptionState {
    if m.closed {
        SubscriptionState {
            model: SubscriptionModel { phase: None, ..m },
            action: SubscriptionAction::End,
        }
    } else {
        match m.at {
            Some(at) => reads(m, at),
            None => asks(m, SubscriptionPhase::Scanning, SubscriptionAction::Scan),
        }
    }
}

/// The names of the files are known.
pub open spec fn scanned(m: SubscriptionModel, bases: Seq<u64>) -> SubscriptionState {
    match largest_up_to(bases, m.next) {
        Some(base) => asks(
            m,
            SubscriptionPhase::Opening { base },
            SubscriptionAction::Open { base },
        ),
        None => match smallest(bases) {
            Some(first) => expires(m, Some(first)),
            None => asks(m, SubscriptionPhase::Marking, SubscriptionAction::ReadWatermark),
        },
    }
}

/// The names of the files are known once more, after a segment disappeared.
pub open spec fn rescanned(m: SubscriptionModel, bases: Seq<u64>) -> SubscriptionState {
    match (largest_up_to(bases, m.next), smallest(bases)) {
        (None, Some(first)) => expires(m, Some(first)),
        _ => waits(m),
    }
}

/// There are no segments, and this is the watermark.
pub open spec fn marked(m: SubscriptionModel, watermark: Seq<u8>) -> SubscriptionState {
    match segment::parse_watermark(watermark) {
        Some(n) if n > m.next => expires(m, None),
        _ => waits(m),
    }
}

/// The index of the segment is known.
pub open spec fn indexed(m: SubscriptionModel, base: u64, index: Seq<u8>) -> SubscriptionState {
    match segment::parse_index(index) {
        Err(e) => fails(m, e),
        Ok(positions) => if m.next - base >= positions.len() {
            waits(m)
        } else {
            reads(m, Cursor { base, pos: positions[m.next - base], active: false })
        },
    }
}

/// A record on the way to the one that is due was read.
pub open spec fn sought(
    m: SubscriptionModel,
    base: u64,
    pos: u64,
    current: u64,
    window: Seq<u8>,
) -> SubscriptionState {
    match segment::parse_record(window) {
        Ok((_, len)) => seeks(m, base, (pos + len) as u64, (current + 1) as u64),
        Err(StorageError::Corrupted(Corruption::Sentinel)) => waits(m),
        Err(StorageError::UnexpectedEof) => reads(m, Cursor { base, pos, active: true }),
        Err(e) => fails(m, e),
    }
}

/// The record where the subscription stands was read.
pub open spec fn was_read(
    st: SubscriptionState,
    m: SubscriptionModel,
    at: Cursor,
    window: Seq<u8>,
) -> bool {
    match segment::parse_record(window) {
        Ok((e, len)) => {
            let on = SubscriptionModel {
                at: Some(Cursor { pos: (at.pos + len) as u64, ..at }),
                ..m
            };
            if e.offset < m.next && at.active {
                st == reads(on, Cursor { pos: (at.pos + len) as u64, ..at })
            } else if e.offset != m.next {
                st == fails(
                    on,
                    StorageError::Corrupted(
                        Corruption::SubscriptionOffset { expected: m.next, found: e.offset },
                    ),
                )
            } else {
                &&& st.model == SubscriptionModel { next: (m.next + 1) as u64, phase: None, ..on }
                &&& st.action matches SubscriptionAction::Deliver(entry) && entry@ == e
            }
        },
        Err(StorageError::Corrupted(Corruption::Sentinel)) => st == asks(
            m,
            SubscriptionPhase::OpeningNext,
            SubscriptionAction::Open { base: m.next },
        ),
        Err(StorageError::UnexpectedEof) => st == if at.active {
            waits(m)
        } else {
            fails(
                m,
                StorageError::Corrupted(Corruption::ClosedSegmentEnds { position: at.pos }),
            )
        },
        Err(e) => st == fails(m, e),
    }
}

/// A subscription has gone on, after what came of the last action.
pub open spec fn resumed(
    st: SubscriptionState,
    m: SubscriptionModel,
    phase: SubscriptionPhase,
    event: SubscriptionEvent,
) -> bool {
    match (phase, event) {
        (SubscriptionPhase::Scanning, SubscriptionEvent::Names(list)) => st == scanned(
            m,
            names::bases_in(list@),
        ),
        (SubscriptionPhase::Rescanning, SubscriptionEvent::Names(list)) => st == rescanned(
            m,
            names::bases_in(list@),
        ),
        (SubscriptionPhase::Marking, SubscriptionEvent::Bytes(w)) => st == marked(m, w@),
        (SubscriptionPhase::Marking, SubscriptionEvent::Missing) => st == waits(m),
        (SubscriptionPhase::Opening { base }, SubscriptionEvent::Done) => st == asks(
            m,
            SubscriptionPhase::Stating { base },
            SubscriptionAction::FindIndex { base },
        ),
        (SubscriptionPhase::Opening { .. }, SubscriptionEvent::Missing) => st == asks(
            m,
            SubscriptionPhase::Rescanning,
            SubscriptionAction::Scan,
        ),
        (SubscriptionPhase::Stating { base }, SubscriptionEvent::Done) => st == asks(
            m,
            SubscriptionPhase::Indexing { base },
            SubscriptionAction::ReadIndex { base },
        ),
        (SubscriptionPhase::Stating { base }, SubscriptionEvent::Missing) => st == seeks(
            m,
            base,
            HEADER_LEN,
            base,
        ),
        (SubscriptionPhase::Indexing { base }, SubscriptionEvent::Bytes(index)) => st == indexed(
            m,
            base,
            index@,
        ),
        (SubscriptionPhase::Indexing { .. }, SubscriptionEvent::Missing) => st == asks(
            m,
            SubscriptionPhase::Rescanning,
            SubscriptionAction::Scan,
        ),
        (
            SubscriptionPhase::Seeking { base, pos, current },
            SubscriptionEvent::Bytes(window),
        ) => st == sought(m, base, pos, current, window@),
        (SubscriptionPhase::Reading, SubscriptionEvent::Bytes(window)) => was_read(
            st,
            m,
            m.at->Some_0,
            window@,
        ),
        (SubscriptionPhase::OpeningNext, SubscriptionEvent::Done) => st == asks(
            m,
            SubscriptionPhase::StatingNext,
            SubscriptionAction::FindIndex { base: m.next },
        ),
        (SubscriptionPhase::OpeningNext, SubscriptionEvent::Missing) => st == asks(
            SubscriptionModel { at: None, ..m },
            SubscriptionPhase::Scanning,
            SubscriptionAction::Scan,
        ),
        (SubscriptionPhase::StatingNext, SubscriptionEvent::Done) => st == reads(
            m,
            Cursor { base: m.next, pos: HEADER_LEN, active: false },
        ),
        (SubscriptionPhase::StatingNext, SubscriptionEvent::Missing) => st == reads(
            m,
            Cursor { base: m.next, pos: HEADER_LEN, active: true },
        ),
        _ => st == fails_io(m),
    }
}

/// What a subscription waits for makes sense.
pub open spec fn subscription_wf(m: SubscriptionModel) -> bool {
    match m.phase {
        Some(SubscriptionPhase::Opening { base }) => base <= m.next,
        Some(SubscriptionPhase::Stating { base }) => base <= m.next,
        Some(SubscriptionPhase::Indexing { base }) => base <= m.next,
        Some(SubscriptionPhase::Seeking { base, pos, current }) => current < m.next,
        Some(SubscriptionPhase::Reading) => m.at is Some,
        _ => true,
    }
}

/// The bytes that were read lie where a file position can name them.
pub open spec fn bytes_fit(m: SubscriptionModel, event: SubscriptionEvent) -> bool {
    event matches SubscriptionEvent::Bytes(window) ==> match m.phase {
        Some(SubscriptionPhase::Seeking { base, pos, current }) => pos + window@.len() <= u64::MAX,
        Some(SubscriptionPhase::Reading) => m.at->Some_0.pos + window@.len() <= u64::MAX,
        _ => true,
    }
}

/// The base offset of the last segment that begins at `offset` or before it,
/// and that of the first segment, by the names of the files.
pub fn scan_segments(list: &Vec<String>, offset: u64) -> (r: (Option<u64>, Option<u64>))
    ensures
        r.0 == largest_up_to(names::bases_in(list@), offset),
        r.1 == smallest(names::bases_in(list@)),
{
    let mut best: Option<u64> = None;
    let mut first: Option<u64> = None;
    let mut i: usize = 0;
    assert(list@.take(0) =~= seq![]);
    while i < list.len()
        invariant
            i <= list@.len(),
            best == largest_up_to(names::bases_in(list@.take(i as int)), offset),
            first == smallest(names::bases_in(list@.take(i as int))),
        decreases list@.len() - i,
    {
        let ghost upto = list@.take(i + 1);
        let ghost before = names::bases_in(list@.take(i as int));
        proof {
            assert(upto.drop_last() =~= list@.take(i as int));
            assert(upto.last() == list@[i as int]);
        }
        if let Some(base) = names::segment_base(list[i].as_str()) {
            proof {
                names::lemma_base_in(list@[i as int]@, base);
                assert(before.push(base).drop_last() =~= before);
            }
            first = match first {
                Some(x) => if x < base {
                    Some(x)
                } else {
                    Some(base)
                },
                None => Some(base),
            };
            if base <= offset {
                best = match best {
                    Some(x) => if x <= base {
                        Some(base)
                    } else {
                        Some(x)
                    },
                    None => Some(base),
                };
            }
        }
        i = i + 1;
    }
    assert(list@.take(i as int) =~= list@);
    (best, first)
}

impl SegmentLogSubscription {
    /// What the subscription waits for makes sense.
    pub open spec fn wf(&self) -> bool {
        subscription_wf(self@)
    }

    /// A subscription from an offset on.
    pub fn new(from: u64) -> (r: Self)
        ensures
            r.wf(),
            r@ == fresh(from),
    {
        SegmentLogSubscription { next_offset: from, at: None, closed: false, phase: None }
    }

    /// The offset that is due.
    pub fn next_offset(&self) -> (r: u64)
        ensures
            r == self@.next,
    {
        self.next_offset
    }

    /// Ends the subscription.
    pub fn close(&mut self)
        ensures
            final(self).wf(),
            final(self)@ == ended(old(self)@).model,
    {
        self.closed = true;
        self.at = None;
        self.phase = None;
    }

    /// Asks for the entry that is due, and says what is to be done first.
    pub fn next_entry(&mut self) -> (r: SubscriptionAction)
        ensures
            final(self).wf(),
            (SubscriptionState { model: final(self)@, action: r }) == begun(old(self)@),
    {
        self.phase = None;
        if self.closed {
            return SubscriptionAction::End;
        }
        match self.at {
            Some(at) => self.read(at),
            None => {
                self.phase = Some(SubscriptionPhase::Scanning);
                SubscriptionAction::Scan
            },
        }
    }

    /// Goes on: takes in what came of the last action, and says what is to be
    /// done next.
    pub fn resume(&mut self, event: SubscriptionEvent) -> (r: SubscriptionAction)
        requires
            old(self).wf(),
            old(self)@.phase is Some,
            old(self)@.next < u64::MAX,
            bytes_fit(old(self)@, event),
        ensures
            final(self).wf(),
            resumed(
                SubscriptionState { model: final(self)@, action: r },
                old(self)@,
                old(self)@.phase->Some_0,
                event,
            ),
    {
        let phase = match self.phase {
            Some(phase) => phase,
            None => unreached(),
        };
        match (phase, event) {
            (SubscriptionPhase::Scanning, SubscriptionEvent::Names(list)) => {
                let (best, first) = scan_segments(&list, self.next_offset);
                match (best, first) {
                    (Some(base), _) => {
                        proof {
                            law_scan(names::bases_in(list@), self.next_offset);
                        }
                        self.phase = Some(SubscriptionPhase::Opening { base });
                        SubscriptionAction::Open { base }
                    },
                    (None, Some(first)) => self.expire(Some(first)),
                    (None, None) => {
                        self.phase = Some(SubscriptionPhase::Marking);
                        SubscriptionAction::ReadWatermark
                    },
                }
            },
            (SubscriptionPhase::Rescanning, SubscriptionEvent::Names(list)) => {
                match scan_segments(&list, self.next_offset) {
                    (None, Some(first)) => self.expire(Some(first)),
                    _ => self.wait(),
                }
            },
            (SubscriptionPhase::Marking, SubscriptionEvent::Bytes(w)) => {
                match read_watermark(w.as_slice()) {
                    Some(n) if n > self.next_offset => self.expire(None),
                    _ => self.wait(),
                }
            },
            (SubscriptionPhase::Marking, SubscriptionEvent::Missing) => self.wait(),
            (SubscriptionPhase::Opening { base }, SubscriptionEvent::Done) => {
                self.phase = Some(SubscriptionPhase::Stating { base });
                SubscriptionAction::FindIndex { base }
            },
            (SubscriptionPhase::Opening { .. }, SubscriptionEvent::Missing) => {
                self.phase = Some(SubscriptionPhase::Rescanning);
                SubscriptionAction::Scan
            },
            (SubscriptionPhase::Stating { base }, SubscriptionEvent::Done) => {
                self.phase = Some(SubscriptionPhase::Indexing { base });
                SubscriptionAction::ReadIndex { base }
            },
            (SubscriptionPhase::Stating { base }, SubscriptionEvent::Missing) => self.seek(
                base,
                HEADER_LEN,
                base,
            ),
            (SubscriptionPhase::Indexing { base }, SubscriptionEvent::Bytes(index)) => {
                match read_index(index.as_slice()) {
                    Err(e) => self.fail(e),
                    Ok(positions) => {
                        let i: u64 = self.next_offset - base;
                        if i >= positions.len() as u64 {
                            self.wait()
                        } else {
                            self.read(Cursor { base, pos: positions[i as usize], active: false })
                        }
                    },
                }
            },
            (SubscriptionPhase::Indexing { .. }, SubscriptionEvent::Missing) => {
                self.phase = Some(SubscriptionPhase::Rescanning);
                SubscriptionAction::Scan
            },
            (
                SubscriptionPhase::Seeking { base, pos, current },
                SubscriptionEvent::Bytes(window),
            ) => {
                match read_record(window.as_slice()) {
                    Ok((_, len)) => self.seek(base, pos + len, current + 1),
                    Err(StorageError::Corrupted(Corruption::Sentinel)) => self.wait(),
                    Err(StorageError::UnexpectedEof) => self.read(
                        Cursor { base, pos, active: true },
                    ),
                    Err(e) => self.fail(e),
                }
            },
            (SubscriptionPhase::Reading, SubscriptionEvent::Bytes(window)) => self.take(window),
            (SubscriptionPhase::OpeningNext, SubscriptionEvent::Done) => {
                self.phase = Some(SubscriptionPhase::StatingNext);
                SubscriptionAction::FindIndex { base: self.next_offset }
            },
            (SubscriptionPhase::OpeningNext, SubscriptionEvent::Missing) => {
                self.at = None;
                self.phase = Some(SubscriptionPhase::Scanning);
                SubscriptionAction::Scan
            },
            (SubscriptionPhase::StatingNext, SubscriptionEvent::Done) => self.read(
                Cursor { base: self.next_offset, pos: HEADER_LEN, active: false },
            ),
            (SubscriptionPhase::StatingNext, SubscriptionEvent::Missing) => self.read(
                Cursor { base: self.next_offset, pos: HEADER_LEN, active: true },
            ),
            _ => {
                self.phase = None;
                self.closed = true;
                SubscriptionAction::FailIo
            },
        }
    }

    /// Takes in the record where the subscription stands.
    fn take(&mut self, window: Vec<u8>) -> (r: SubscriptionAction)
        requires
            old(self)@.at matches Some(at) && at.pos + window@.len() <= u64::MAX,
            old(self)@.next < u64::MAX,
        ensures
            final(self).wf(),
            was_read(
                SubscriptionState { model: final(self)@, action: r },
                old(self)@,
                old(self)@.at->Some_0,
                window@,
            ),
    {
        let mut at = match self.at {
            Some(at) => at,
            None => unreached(),
        };
        match read_record(window.as_slice()) {
            Ok((entry, len)) => {
                at.pos = at.pos + len;
                self.at = Some(at);
                let found: u64 = entry.offset.as_u64();
                if found < self.next_offset && at.active {
                    return self.read(at);
                }
                if found != self.next_offset {
                    return self.fail(
                        StorageError::Corrupted(
                            Corruption::SubscriptionOffset { expected: self.next_offset, found },
                        ),
                    );
                }
                self.next_offset = self.next_offset + 1;
                self.phase = None;
                SubscriptionAction::Deliver(entry)
            },
            Err(StorageError::Corrupted(Corruption::Sentinel)) => {
                self.phase = Some(SubscriptionPhase::OpeningNext);
                SubscriptionAction::Open { base: self.next_offset }
            },
            Err(StorageError::UnexpectedEof) => if at.active {
                self.wait()
            } else {
                self.fail(
                    StorageError::Corrupted(Corruption::ClosedSegmentEnds { position: at.pos }),
                )
            },
            Err(e) => self.fail(e),
        }
    }

    fn wait(&mut self) -> (r: SubscriptionAction)
        ensures
            final(self).wf(),
            (SubscriptionState { model: final(self)@, action: r }) == waits(old(self)@),
    {
        self.phase = None;
        SubscriptionAction::Wait
    }

    fn fail(&mut self, e: StorageError) -> (r: SubscriptionAction)
        ensures
            final(self).wf(),
            (SubscriptionState { model: final(self)@, action: r }) == fails(old(self)@, e),
    {
        self.phase = None;
        self.closed = true;
        SubscriptionAction::Fail(e)
    }

    fn expire(&mut self, first: Option<u64>) -> (r: SubscriptionAction)
        ensures
            final(self).wf(),
            (SubscriptionState { model: final(self)@, action: r }) == expires(old(self)@, first),
    {
        let requested = Offset::new(self.next_offset);
        let earliest_available = match first {
            Some(n) => Some(Offset::new(n)),
            None => None,
        };
        self.fail(StorageError::RetentionExpired { requested, earliest_available })
    }

    fn read(&mut self, at: Cursor) -> (r: SubscriptionAction)
        ensures
            final(self).wf(),
            (SubscriptionState { model: final(self)@, action: r }) == reads(old(self)@, at),
    {
        self.at = Some(at);
        self.phase = Some(SubscriptionPhase::Reading);
        SubscriptionAction::Read { base: at.base, pos: at.pos }
    }

    fn seek(&mut self, base: u64, pos: u64, current: u64) -> (r: SubscriptionAction)
        requires
            current <= old(self)@.next,
        ensures
            final(self).wf(),
            (SubscriptionState { model: final(self)@, action: r }) == seeks(
                old(self)@,
                base,
                pos,
                current,
            ),
    {
        if current == self.next_offset {
            self.read(Cursor { base, pos, active: true })
        } else {
            self.phase = Some(SubscriptionPhase::Seeking { base, pos, current });
            SubscriptionAction::Read { base, pos }
        }
    }
}

/// A subscription delivers entries in the order of their offsets, and leaves
/// none out: it delivers the one that is due, and then the next one is.
pub proof fn law_delivers_in_order(
    st: SubscriptionState,
    m: SubscriptionModel,
    phase: SubscriptionPhase,
    event: SubscriptionEvent,
)
    requires
        m.next < u64::MAX,
        resumed(st, m, phase, event),
    ensures
        match st.action {
            SubscriptionAction::Deliver(entry) => entry@.offset == m.next && st.model.next == m.next
                + 1,
            _ => st.model.next == m.next,
        },
{
}

/// A subscription that has failed, or was closed, is over.
pub proof fn law_failure_is_final(
    st: SubscriptionState,
    m: SubscriptionModel,
    phase: SubscriptionPhase,
    event: SubscriptionEvent,
)
    requires
        resumed(st, m, phase, event),
        st.action is Fail || st.action is FailIo,
    ensures
        st.model.closed,
        begun(st.model).action is End,
{
}

/// A call on a subscription.
pub enum Call {
    /// The next entry was asked for.
    Next,
    /// It was told what came of the last action.
    Resume(SubscriptionEvent),
    /// It was closed.
    Close,
}

/// A call on a subscription, and what came of it.
pub struct Turn {
    pub call: Call,
    pub state: SubscriptionState,
}

/// A subscription from an offset on.
pub open spec fn fresh(from: u64) -> SubscriptionModel {
    SubscriptionModel { next: from, at: None, closed: false, phase: None }
}

/// The subscription was closed.
pub open spec fn ended(m: SubscriptionModel) -> SubscriptionState {
    SubscriptionState {
        model: SubscriptionModel { at: None, closed: true, phase: None, ..m },
        action: SubscriptionAction::End,
    }
}

/// This came of a call on a subscription.
pub open spec fn came_of(turn: Turn, m: SubscriptionModel) -> bool {
    match turn.call {
        Call::Next => turn.state == begun(m),
        Call::Resume(event) => {
            &&& m.phase is Some
            &&& m.next < u64::MAX
            &&& resumed(turn.state, m, m.phase->Some_0, event)
        },
        Call::Close => turn.state == ended(m),
    }
}

/// The subscription after the first `i` calls.
pub open spec fn model_after(turns: Seq<Turn>, from: u64, i: int) -> SubscriptionModel {
    if i <= 0 {
        fresh(from)
    } else {
        turns[i - 1].state.model
    }
}

/// What came of calls on a subscription from an offset on, one after the other.
pub open spec fn history(turns: Seq<Turn>, from: u64) -> bool {
    forall|i: int|
        0 <= i < turns.len() ==> came_of(#[trigger] turns[i], model_after(turns, from, i))
}

/// The entries that were delivered, in order.
pub open spec fn delivered(turns: Seq<Turn>) -> Seq<EntryModel>
    decreases turns.len(),
{
    if turns.len() == 0 {
        seq![]
    } else {
        match turns.last().state.action {
            SubscriptionAction::Deliver(entry) => delivered(turns.drop_last()).push(entry@),
            _ => delivered(turns.drop_last()),
        }
    }
}

/// The calls before the last one are a history too.
proof fn lemma_history_front(turns: Seq<Turn>, from: u64)
    requires
        history(turns, from),
        turns.len() > 0,
    ensures
        history(turns.drop_last(), from),
{
    let front = turns.drop_last();
    assert forall|i: int| 0 <= i < front.len() implies came_of(
        #[trigger] front[i],
        model_after(front, from, i),
    ) by {
        assert(came_of(turns[i], model_after(turns, from, i)));
    }
}

/// Whatever calls there were, a subscription has delivered exactly the entries
/// with the offsets from the first one on, each once and in order, and the one
/// behind them is due.
pub proof fn law_delivers_every_offset_once(turns: Seq<Turn>, from: u64)
    requires
        history(turns, from),
    ensures
        model_after(turns, from, turns.len() as int).next == from + delivered(turns).len(),
        forall|k: int|
            0 <= k < delivered(turns).len() ==> (#[trigger] delivered(turns)[k]).offset == from + k,
    decreases turns.len(),
{
    if turns.len() > 0 {
        let n = turns.len() - 1;
        let m = model_after(turns, from, n);
        lemma_history_front(turns, from);
        law_delivers_every_offset_once(turns.drop_last(), from);
        assert(m == model_after(turns.drop_last(), from, n));
        assert(came_of(turns[n], m));
        if let Call::Resume(event) = turns[n].call {
            law_delivers_in_order(turns[n].state, m, m.phase->Some_0, event);
        }
    }
}

/// A subscription is over.
pub open spec fn over(turn: Turn) -> bool {
    turn.state.action is Fail || turn.state.action is FailIo || turn.call is Close
}

/// After a failure, or once it was closed, a subscription gives nothing but the
/// end, however often it is asked.
pub proof fn law_nothing_comes_after_the_end(turns: Seq<Turn>, from: u64, i: int, j: int)
    requires
        history(turns, from),
        0 <= i < j < turns.len(),
        over(turns[i]),
    ensures
        turns[j].state.action is End,
{
    lemma_stays_closed(turns, from, i, j - 1);
    assert(came_of(turns[j], model_after(turns, from, j)));
}

/// A subscription that is over stays closed, and waits for nothing.
proof fn lemma_stays_closed(turns: Seq<Turn>, from: u64, i: int, j: int)
    requires
        history(turns, from),
        0 <= i <= j < turns.len(),
        over(turns[i]),
    ensures
        turns[j].state.model.closed,
        turns[j].state.model.phase is None,
    decreases j - i,
{
    assert(came_of(turns[j], model_after(turns, from, j)));
    if i < j {
        lemma_stays_closed(turns, from, i, j - 1);
    }
}

/// A subscription that stands at a record of a data file delivers that entry,
/// and then stands at the record that follows.
pub proof fn law_delivers_what_was_appended(
    st: SubscriptionState,
    m: SubscriptionModel,
    h: SegmentHeader,
    es: Seq<EntryModel>,
    tail: Seq<u8>,
    i: int,
    window: Vec<u8>,
)
    requires
        layout::good_run(es, h.base_offset),
        0 <= i < es.len(),
        m.next == h.base_offset + i,
        m.at matches Some(at) && at.base == h.base_offset && at.pos == layout::position(es, i),
        window@ == layout::data_file(h, es, tail).skip(layout::position(es, i)),
        layout::data_file(h, es, tail).len() <= u64::MAX,
        resumed(st, m, SubscriptionPhase::Reading, SubscriptionEvent::Bytes(window)),
    ensures
        st.action matches SubscriptionAction::Deliver(entry) && entry@ == es[i],
        st.model.at == Some(
            Cursor { pos: layout::position(es, i + 1) as u64, ..m.at->Some_0 },
        ),
{
    assert(layout::good(es[i]));
    layout::lemma_read_at(h, es, tail, i);
}

/// A subscription that has come to the end of the records waits for more in a
/// segment that may still grow, and moves to the next segment behind the end
/// mark.
pub proof fn law_end_of_records(
    st: SubscriptionState,
    m: SubscriptionModel,
    h: SegmentHeader,
    es: Seq<EntryModel>,
    tail: Seq<u8>,
    window: Vec<u8>,
)
    requires
        m.at matches Some(at) && at.base == h.base_offset && at.active && at.pos
            == layout::position(es, es.len() as int),
        tail.len() == 0 || tail == segment::end_mark(),
        window@ == layout::data_file(h, es, tail).skip(layout::position(es, es.len() as int)),
        resumed(st, m, SubscriptionPhase::Reading, SubscriptionEvent::Bytes(window)),
    ensures
        st == if tail.len() == 0 {
            waits(m)
        } else {
            asks(
                m,
                SubscriptionPhase::OpeningNext,
                SubscriptionAction::Open { base: m.next },
            )
        },
{
    broadcast use bytes::group_le_len;

    segment::law_header_reads_back(h, seq![]);
    assert(es.take(es.len() as int) =~= es);
    assert(window@ =~= tail);
    if tail.len() > 0 {
        bytes::lemma_le_read_back(seq![], 0, seq![]);
        assert(seq![] + bytes::le4(0) + seq![] =~= tail);
    }
}

} // verus!
