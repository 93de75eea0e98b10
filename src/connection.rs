use vstd::prelude::*;
use crate::document::{decode_payload, decodes_to, json_of, IngestError, IngestOutcome};

verus! {

/// What a read on a connection observed.
#[derive(Debug)]
pub enum ReadEvent {
    /// Some bytes arrived.
    Data(Vec<u8>),
    /// The peer closed its write side.
    End,
    /// The read failed; the text describes the failure.
    Error(String),
}

/// How a connection that has already delivered `received` ends, given the
/// events that follow: `None` while it stays open, `Ok` with its whole payload
/// after a clean close, `Err` with the failure's text after a broken read.
pub open spec fn settle(received: Seq<u8>, events: Seq<ReadEvent>) -> Option<Result<Seq<u8>, Seq<char>>>
    decreases events.len(),
{
    if events.len() == 0 {
        None
    } else {
        match events[0] {
            ReadEvent::Data(chunk) => settle(received + chunk@, events.drop_first()),
            ReadEvent::End => Some(Ok(received)),
            ReadEvent::Error(message) => Some(Err(message@)),
        }
    }
}

/// The bytes of the data events that come before the first end or error.
pub open spec fn payload_of(events: Seq<ReadEvent>) -> Seq<u8>
    decreases events.len(),
{
    if events.len() == 0 {
        Seq::empty()
    } else {
        match events[0] {
            ReadEvent::Data(chunk) => chunk@ + payload_of(events.drop_first()),
            _ => Seq::empty(),
        }
    }
}

/// `r` is what a new connection that observes `events` reports: nothing while it
/// stays open, and else exactly one outcome.
pub open spec fn reports(events: Seq<ReadEvent>, r: Option<IngestOutcome>) -> bool {
    match settle(Seq::empty(), events) {
        None => r is None,
        Some(Ok(payload)) => r matches Some(o) && decodes_to(payload, o),
        Some(Err(message)) => r matches Some(IngestOutcome::Failed(IngestError::Read(m)))
            && m@ == message,
    }
}

/// The work on one accepted connection: it gathers the bytes read until the
/// peer closes, then decodes them. Finishing consumes the task, so a
/// connection yields exactly one outcome.
pub struct ConnectionTask {
    buffer: Vec<u8>,
}

impl View for ConnectionTask {
    type V = Seq<u8>;

    /// The bytes received so far.
    closed spec fn view(&self) -> Seq<u8> {
        self.buffer@
    }
}

impl ConnectionTask {
    pub fn new() -> (r: ConnectionTask)
        ensures
            r@ == Seq::<u8>::empty(),
    {
        ConnectionTask { buffer: Vec::new() }
    }

    /// Appends the bytes of one read.
    pub fn on_data(&mut self, chunk: &[u8])
        ensures
            final(self)@ == old(self)@ + chunk@,
    {
        let ghost start = self.buffer@;
        let mut i: usize = 0;
        while i < chunk.len()
            invariant
                0 <= i <= chunk@.len(),
                self.buffer@ == start + chunk@.subrange(0, i as int),
            decreases chunk@.len() - i,
        {
            self.buffer.push(chunk[i]);
            i = i + 1;
            assert(self.buffer@ =~= start + chunk@.subrange(0, i as int));
        }
        assert(chunk@.subrange(0, chunk@.len() as int) =~= chunk@);
    }

    /// The peer closed cleanly: decodes everything received.
    pub fn on_end(self) -> (r: IngestOutcome)
        ensures
            decodes_to(self@, r),
            self@.len() == 0 ==> r matches IngestOutcome::Failed(IngestError::Parse(_)),
    {
        decode_payload(self.buffer.as_slice())
    }

    /// A read failed: the connection is reported as unreadable, whatever it held.
    pub fn on_error(self, message: String) -> (r: IngestOutcome)
        ensures
            r == IngestOutcome::Failed(IngestError::Read(message)),
    {
        IngestOutcome::Failed(IngestError::Read(message))
    }
}

/// Runs a new connection through `events` in order, and returns its outcome
/// once the stream ends, or `None` if it never does.
/// A connection closed before any byte arrived reports a parse failure.
pub fn ingest(events: &Vec<ReadEvent>) -> (r: Option<IngestOutcome>)
    ensures
        reports(events@, r),
        settle(Seq::empty(), events@) == Some(Ok::<Seq<u8>, Seq<char>>(Seq::empty())) ==> r matches Some(
            IngestOutcome::Failed(IngestError::Parse(_)),
        ),
{
    let mut task = ConnectionTask::new();
    let mut i: usize = 0;
    assert(events@.skip(0) =~= events@);
    while i < events.len()
        invariant
            0 <= i <= events@.len(),
            settle(Seq::empty(), events@) == settle(task@, events@.skip(i as int)),
        decreases events@.len() - i,
    {
        assert(events@.skip(i as int)[0] == events@[i as int]);
        assert(events@.skip(i as int).drop_first() =~= events@.skip(i + 1));
        match &events[i] {
            ReadEvent::Data(chunk) => {
                task.on_data(chunk.as_slice());
            },
            ReadEvent::End => {
                return Some(task.on_end());
            },
            ReadEvent::Error(message) => {
                return Some(task.on_error(message.clone()));
            },
        }
        i = i + 1;
    }
    assert(events@.skip(i as int).len() == 0);
    None
}

/// `events` is a run of data events closed by one clean end.
pub open spec fn closes_cleanly(events: Seq<ReadEvent>) -> bool {
    &&& events.len() > 0
    &&& events.last() is End
    &&& forall|i: int| 0 <= i < events.len() - 1 ==> #[trigger] events[i] is Data
}

/// `events` is a run of data events broken off by the read error at `k`.
pub open spec fn breaks_at(events: Seq<ReadEvent>, k: int) -> bool {
    &&& 0 <= k < events.len()
    &&& events[k] is Error
    &&& forall|i: int| 0 <= i < k ==> #[trigger] events[i] is Data
}

proof fn lemma_settle_closed(received: Seq<u8>, events: Seq<ReadEvent>)
    requires
        closes_cleanly(events),
    ensures
        settle(received, events) == Some(Ok::<Seq<u8>, Seq<char>>(received + payload_of(events))),
    decreases events.len(),
{
    if events.len() == 1 {
        assert(events[0] is End);
        assert(received + payload_of(events) =~= received);
    } else {
        let rest = events.drop_first();
        assert(events[0] is Data);
        assert forall|i: int| 0 <= i < rest.len() - 1 implies #[trigger] rest[i] is Data by {
            assert(events[i + 1] is Data);
        }
        assert(rest.last() == events.last());
        let chunk = events[0]->Data_0@;
        lemma_settle_closed(received + chunk, rest);
        assert(received + chunk + payload_of(rest) =~= received + (chunk + payload_of(rest)));
    }
}

proof fn lemma_settle_broken(received: Seq<u8>, events: Seq<ReadEvent>, k: int)
    requires
        breaks_at(events, k),
    ensures
        settle(received, events) == Some(Err::<Seq<u8>, Seq<char>>(events[k]->Error_0@)),
    decreases k,
{
    if k > 0 {
        let rest = events.drop_first();
        assert(events[0] is Data);
        assert forall|i: int| 0 <= i < k - 1 implies #[trigger] rest[i] is Data by {
            assert(events[i + 1] is Data);
        }
        assert(rest[k - 1] == events[k]);
        lemma_settle_broken(received + events[0]->Data_0@, rest, k - 1);
    }
}

/// A connection whose bytes, however they were split into reads, form one
/// document and are followed by a clean close reports exactly that document.
pub proof fn lemma_document_is_decoded(events: Seq<ReadEvent>)
    requires
        closes_cleanly(events),
        json_of(payload_of(events)) is Some,
    ensures
        forall|r: Option<IngestOutcome>|
            reports(events, r) <==> r == Some(
                IngestOutcome::Decoded(json_of(payload_of(events))->0),
            ),
{
    lemma_settle_closed(Seq::empty(), events);
    assert(Seq::<u8>::empty() + payload_of(events) =~= payload_of(events));
}

/// A connection whose bytes do not form one document (no bytes at all
/// included) and are followed by a clean close reports a parse failure, and
/// nothing else.
pub proof fn lemma_malformed_is_parse_failure(events: Seq<ReadEvent>)
    requires
        closes_cleanly(events),
        json_of(payload_of(events)) is None,
    ensures
        forall|r: Option<IngestOutcome>|
            reports(events, r) <==> r matches Some(
                IngestOutcome::Failed(IngestError::Parse(_)),
            ),
{
    lemma_settle_closed(Seq::empty(), events);
    assert(Seq::<u8>::empty() + payload_of(events) =~= payload_of(events));
}

/// A connection broken off by a read error reports that read failure, whatever
/// it received before and whatever follows: never a document, never nothing.
pub proof fn lemma_broken_read_is_read_failure(events: Seq<ReadEvent>, k: int)
    requires
        breaks_at(events, k),
    ensures
        forall|r: Option<IngestOutcome>|
            reports(events, r) <==> (r matches Some(IngestOutcome::Failed(IngestError::Read(m)))
                && m@ == events[k]->Error_0@),
{
    lemma_settle_broken(Seq::empty(), events, k);
}

/// The bytes that two connections have received once the reads of `schedule`
/// were delivered in order, each to the connection it is tagged with (`true`
/// for the first), starting from `received`.
pub open spec fn deliver(received: (Seq<u8>, Seq<u8>), schedule: Seq<(bool, Seq<u8>)>) -> (
    Seq<u8>,
    Seq<u8>,
)
    decreases schedule.len(),
{
    if schedule.len() == 0 {
        received
    } else {
        let (to_first, chunk) = schedule[0];
        let next = if to_first {
            (received.0 + chunk, received.1)
        } else {
            (received.0, received.1 + chunk)
        };
        deliver(next, schedule.drop_first())
    }
}

/// The bytes of the reads in `schedule` that are tagged `side`, in order.
pub open spec fn own_bytes(schedule: Seq<(bool, Seq<u8>)>, side: bool) -> Seq<u8>
    decreases schedule.len(),
{
    if schedule.len() == 0 {
        Seq::empty()
    } else {
        let rest = own_bytes(schedule.drop_first(), side);
        if schedule[0].0 == side {
            schedule[0].1 + rest
        } else {
            rest
        }
    }
}

proof fn lemma_deliver_splits(received: (Seq<u8>, Seq<u8>), schedule: Seq<(bool, Seq<u8>)>)
    ensures
        deliver(received, schedule) == (
            received.0 + own_bytes(schedule, true),
            received.1 + own_bytes(schedule, false),
        ),
    decreases schedule.len(),
{
    if schedule.len() == 0 {
        assert(received.0 + own_bytes(schedule, true) =~= received.0);
        assert(received.1 + own_bytes(schedule, false) =~= received.1);
    } else {
        let (to_first, chunk) = schedule[0];
        let rest = schedule.drop_first();
        let next = if to_first {
            (received.0 + chunk, received.1)
        } else {
            (received.0, received.1 + chunk)
        };
        lemma_deliver_splits(next, rest);
        assert(received.0 + chunk + own_bytes(rest, true) =~= received.0 + (chunk + own_bytes(
            rest,
            true,
        )));
        assert(received.1 + chunk + own_bytes(rest, false) =~= received.1 + (chunk + own_bytes(
            rest,
            false,
        )));
    }
}

/// Two connections read concurrently, their reads interleaved in any order,
/// each end up holding exactly their own bytes in the order they were sent;
/// so when each closes cleanly after sending a document of its own, each
/// reports its own document and no byte of the other's.
pub proof fn lemma_connections_are_isolated(schedule: Seq<(bool, Seq<u8>)>)
    ensures
        deliver((Seq::empty(), Seq::empty()), schedule) == (
            own_bytes(schedule, true),
            own_bytes(schedule, false),
        ),
        json_of(own_bytes(schedule, true)) is Some ==> forall|r: IngestOutcome|
            decodes_to(deliver((Seq::empty(), Seq::empty()), schedule).0, r) <==> r
                == IngestOutcome::Decoded(json_of(own_bytes(schedule, true))->0),
        json_of(own_bytes(schedule, false)) is Some ==> forall|r: IngestOutcome|
            decodes_to(deliver((Seq::empty(), Seq::empty()), schedule).1, r) <==> r
                == IngestOutcome::Decoded(json_of(own_bytes(schedule, false))->0),
{
    lemma_deliver_splits((Seq::empty(), Seq::empty()), schedule);
    assert(Seq::<u8>::empty() + own_bytes(schedule, true) =~= own_bytes(schedule, true));
    assert(Seq::<u8>::empty() + own_bytes(schedule, false) =~= own_bytes(schedule, false));
}

} // verus!
