//! Print jobs that arrive over TCP, one job a connection.

use vstd::prelude::*;

verus! {

/// Address on which jobs are awaited.
pub const BIND_ADDRESS: &'static str = "127.0.0.1:9100";

/// Bytes asked for in one read.
pub const CHUNK: usize = 8192;

/// Seconds of silence that end a job.
pub const READ_TIMEOUT_SECS: u64 = 5;

/// Milliseconds between two looks for a connection.
pub const ACCEPT_PAUSE_MS: u64 = 10;

/// A job as it came in.
#[derive(Clone, Debug)]
pub struct CapturedJob {
    /// Who sent it, and to which address.
    pub source: String,
    pub bytes: Vec<u8>,
}

/// Names a connection by its two ends.
pub fn job_source(peer: &str, bind_addr: &str) -> (source: String)
    ensures
        source@ == peer@ + " -> "@ + bind_addr@,
{
    let mut source = peer.to_owned();
    source.append(" -> ");
    source.append(bind_addr);
    source
}

/// What came of an attempt to accept a connection.
#[derive(Clone, Copy, PartialEq, Eq, Structural, Debug)]
pub enum AcceptEvent {
    Connected,
    WouldBlock,
    Failed,
}

/// What the listener does next.
#[derive(Clone, Copy, PartialEq, Eq, Structural, Debug)]
pub enum AcceptStep {
    /// Read a job from the connection.
    ReadJob,
    /// Wait a little and look again.
    Pause,
    /// End the listener.
    Leave,
}

/// Decides what the listener does: it ends when asked to, or when accepting fails.
pub fn accept_step(stop_requested: bool, event: AcceptEvent) -> (step: AcceptStep)
    ensures
        step is Leave <==> stop_requested || event is Failed,
        step is ReadJob <==> !stop_requested && event is Connected,
        step is Pause <==> !stop_requested && event is WouldBlock,
{
    if stop_requested {
        return AcceptStep::Leave;
    }
    match event {
        AcceptEvent::Connected => AcceptStep::ReadJob,
        AcceptEvent::WouldBlock => AcceptStep::Pause,
        AcceptEvent::Failed => AcceptStep::Leave,
    }
}

/// What came of a read from a connection.
#[derive(Clone, Debug)]
pub enum ReadEvent {
    /// Bytes; none where the peer has closed its end.
    Data(Vec<u8>),
    WouldBlock,
    TimedOut,
    Failed,
}

/// What the reader of a job does next.
#[derive(Clone, Copy, PartialEq, Eq, Structural, Debug)]
pub enum ReadStep {
    ReadMore,
    /// The job is complete.
    Finish,
    /// The connection broke, and with it the job.
    Abandon,
}

/// The bytes of an event.
pub open spec fn event_bytes(event: ReadEvent) -> Seq<u8> {
    match event {
        ReadEvent::Data(bytes) => bytes@,
        _ => seq![],
    }
}

/// What an event asks for: silence and a closed connection end a job, and any other failure
/// loses it.
pub open spec fn step_after(event: ReadEvent) -> ReadStep {
    match event {
        ReadEvent::Data(bytes) => if bytes@.len() == 0 {
            ReadStep::Finish
        } else {
            ReadStep::ReadMore
        },
        ReadEvent::WouldBlock => ReadStep::ReadMore,
        ReadEvent::TimedOut => ReadStep::Finish,
        ReadEvent::Failed => ReadStep::Abandon,
    }
}

/// The bytes of some events, one after the other.
pub open spec fn all_bytes(events: Seq<ReadEvent>) -> Seq<u8>
    decreases events.len(),
{
    if events.len() == 0 {
        seq![]
    } else {
        all_bytes(events.drop_last()) + event_bytes(events.last())
    }
}

/// Where the first event stands that ends a job, or the end.
pub open spec fn last_read(events: Seq<ReadEvent>) -> nat
    decreases events.len(),
{
    if events.len() == 0 {
        0
    } else if step_after(events[0]) is ReadMore {
        1 + last_read(events.drop_first())
    } else {
        0
    }
}

/// A job that is being read.
#[derive(Clone, Debug)]
pub struct JobReader {
    pub received: Vec<u8>,
}

impl JobReader {
    /// A job of which nothing has been read.
    pub fn new() -> (reader: JobReader)
        ensures
            reader.received@.len() == 0,
    {
        JobReader { received: Vec::new() }
    }

    /// Takes in what came of a read, and decides what to do next.
    pub fn on_read(&mut self, event: &ReadEvent) -> (step: ReadStep)
        ensures
            final(self).received@ == old(self).received@ + event_bytes(*event),
            *event matches ReadEvent::Data(bytes) ==> final(self).received@ == old(self).received@
                + bytes@,
            !(*event is Data) ==> final(self).received@ == old(self).received@,
            step == step_after(*event),
    {
        match event {
            ReadEvent::Data(bytes) => {
                if bytes.len() == 0 {
                    assert(self.received@ =~= self.received@ + event_bytes(*event));
                    ReadStep::Finish
                } else {
                    let ghost before = self.received@;
                    for i in 0..bytes.len()
                        invariant
                            self.received@ == before + bytes@.take(i as int),
                    {
                        self.received.push(bytes[i]);
                        assert(bytes@.take(i + 1) =~= bytes@.take(i as int).push(bytes@[i as int]));
                    }
                    assert(bytes@.take(bytes@.len() as int) =~= bytes@);
                    ReadStep::ReadMore
                }
            },
            ReadEvent::WouldBlock => {
                assert(self.received@ =~= self.received@ + event_bytes(*event));
                ReadStep::ReadMore
            },
            ReadEvent::TimedOut => {
                assert(self.received@ =~= self.received@ + event_bytes(*event));
                ReadStep::Finish
            },
            ReadEvent::Failed => {
                assert(self.received@ =~= self.received@ + event_bytes(*event));
                ReadStep::Abandon
            },
        }
    }

    /// Hands over the job. A connection on which nothing was sent makes no job.
    pub fn finish(self, source: String) -> (job: Option<CapturedJob>)
        ensures
            job is None <==> self.received@.len() == 0,
            job matches Some(j) ==> j.source@ == source@ && j.bytes@ == self.received@,
    {
        if self.received.len() == 0 {
            None
        } else {
            Some(CapturedJob { source, bytes: self.received })
        }
    }
}

/// Reads a job from the events of a connection: everything that was sent before it fell silent or
/// was closed. A connection that breaks makes no job, and neither does one that has not ended.
pub fn read_one_job(events: &Vec<ReadEvent>, source: String) -> (job: Option<CapturedJob>)
    ensures
        ({
            let n = last_read(events@) as int;
            let sent = all_bytes(events@.take(n));
            &&& job is Some <==> n < events@.len() && step_after(events@[n]) is Finish && sent.len()
                > 0
            &&& job matches Some(j) ==> j.source@ == source@ && j.bytes@ == sent
        }),
{
    let mut reader = JobReader::new();
    assert(events@.skip(0) =~= events@);
    assert(events@.take(0) =~= seq![]);
    for i in 0..events.len()
        invariant
            last_read(events@) == i + last_read(events@.skip(i as int)),
            reader.received@ == all_bytes(events@.take(i as int)),
    {
        proof {
            let rest = events@.skip(i as int);
            assert(rest.drop_first() =~= events@.skip(i + 1));
            assert(rest[0] == events@[i as int]);
            assert(events@.take(i + 1).drop_last() =~= events@.take(i as int));
        }
        match reader.on_read(&events[i]) {
            ReadStep::ReadMore => {},
            ReadStep::Finish => {
                assert(event_bytes(events@[i as int]) =~= seq![]);
                assert(reader.received@ =~= all_bytes(events@.take(i as int)));
                return reader.finish(source);
            },
            ReadStep::Abandon => {
                return None;
            },
        }
    }
    None
}

/// However the bytes of a connection are cut into reads, they make the same job.
pub proof fn lemma_cuts_do_not_matter(events: Seq<ReadEvent>, more: Seq<ReadEvent>)
    ensures
        all_bytes(events + more) == all_bytes(events) + all_bytes(more),
    decreases more.len(),
{
    if more.len() == 0 {
        assert(events + more =~= events);
        assert(all_bytes(events) + all_bytes(more) =~= all_bytes(events));
    } else {
        lemma_cuts_do_not_matter(events, more.drop_last());
        assert((events + more).drop_last() =~= events + more.drop_last());
        assert(all_bytes(events + more) =~= all_bytes(events) + all_bytes(more));
    }
}

/// What reads deliver is kept byte for byte: the bytes of some events are those of their reads, laid
/// end to end, and nothing else.
pub proof fn lemma_reads_are_kept_whole(events: Seq<ReadEvent>)
    ensures
        all_bytes(events) == events.map_values(
            |event: ReadEvent|
                match event {
                    ReadEvent::Data(bytes) => bytes@,
                    _ => Seq::<u8>::empty(),
                },
        ).flatten(),
    decreases events.len(),
{
    let delivered = |event: ReadEvent|
        match event {
            ReadEvent::Data(bytes) => bytes@,
            _ => Seq::<u8>::empty(),
        };
    let parts = events.map_values(delivered);
    parts.lemma_flatten_and_flatten_alt_are_equivalent();
    if events.len() > 0 {
        let front = events.drop_last();
        lemma_reads_are_kept_whole(front);
        assert(parts.drop_last() =~= front.map_values(delivered));
        front.map_values(delivered).lemma_flatten_and_flatten_alt_are_equivalent();
        assert(parts.last() == delivered(events.last()));
        assert(event_bytes(events.last()) =~= delivered(events.last()));
    } else {
        assert(parts =~= seq![]);
    }
}

/// A job goes on through every read that brings bytes or would have to wait. Its end is the first
/// event of another kind: silence or a closed connection, which complete it, or a failure.
pub proof fn lemma_where_a_job_ends(events: Seq<ReadEvent>)
    ensures
        last_read(events) <= events.len(),
        forall|i: int|
            0 <= i < last_read(events) ==> (#[trigger] events[i]) is WouldBlock || (
            events[i] matches ReadEvent::Data(bytes) && bytes@.len() > 0),
        last_read(events) < events.len() ==> ({
            let end = events[last_read(events) as int];
            &&& end is TimedOut || end is Failed || (end matches ReadEvent::Data(bytes)
                && bytes@.len() == 0)
            &&& step_after(end) is Finish <==> !(end is Failed)
            &&& step_after(end) is Abandon <==> end is Failed
        }),
    decreases events.len(),
{
    if events.len() > 0 && step_after(events[0]) is ReadMore {
        let rest = events.drop_first();
        lemma_where_a_job_ends(rest);
        assert forall|i: int| 0 <= i < last_read(events) implies (#[trigger] events[i]) is WouldBlock
            || (events[i] matches ReadEvent::Data(bytes) && bytes@.len() > 0) by {
            if i > 0 {
                assert(rest[i - 1] == events[i]);
            }
        }
    }
}

/// A job that comes in some reads, and is then complete, holds exactly what they delivered: one
/// read after the other, with every byte in its place.
pub proof fn lemma_job_of_reads(reads: Seq<Vec<u8>>, end: ReadEvent)
    requires
        forall|i: int| 0 <= i < reads.len() ==> (#[trigger] reads[i])@.len() > 0,
        end is TimedOut || (end matches ReadEvent::Data(bytes) && bytes@.len() == 0),
    ensures
        ({
            let events = reads.map_values(|bytes: Vec<u8>| ReadEvent::Data(bytes)).push(end);
            let n = last_read(events) as int;
            &&& n == reads.len()
            &&& step_after(events[n]) is Finish
            &&& all_bytes(events.take(n)) == reads.map_values(|bytes: Vec<u8>| bytes@).flatten()
        }),
{
    let data = reads.map_values(|bytes: Vec<u8>| ReadEvent::Data(bytes));
    let events = data.push(end);
    let n = last_read(events) as int;
    lemma_where_a_job_ends(events);
    if n < reads.len() {
        assert(reads[n]@.len() > 0);
        assert(events[n] == ReadEvent::Data(reads[n]));
    }
    assert(events[reads.len() as int] == end);
    assert(n == reads.len());
    assert(events.take(n) =~= data);
    lemma_reads_are_kept_whole(data);
    assert(data.map_values(
        |event: ReadEvent|
            match event {
                ReadEvent::Data(bytes) => bytes@,
                _ => Seq::<u8>::empty(),
            },
    ) =~= reads.map_values(|bytes: Vec<u8>| bytes@));
}

/// How the bytes of a job were cut into reads does not show: reads that deliver the same bytes in
/// the same order make the same job.
pub proof fn lemma_job_depends_on_its_bytes(
    reads: Seq<Vec<u8>>,
    end: ReadEvent,
    other: Seq<Vec<u8>>,
    other_end: ReadEvent,
)
    requires
        forall|i: int| 0 <= i < reads.len() ==> (#[trigger] reads[i])@.len() > 0,
        forall|i: int| 0 <= i < other.len() ==> (#[trigger] other[i])@.len() > 0,
        end is TimedOut || (end matches ReadEvent::Data(bytes) && bytes@.len() == 0),
        other_end is TimedOut || (other_end matches ReadEvent::Data(bytes) && bytes@.len() == 0),
    ensures
        ({
            let events = reads.map_values(|bytes: Vec<u8>| ReadEvent::Data(bytes)).push(end);
            let others = other.map_values(|bytes: Vec<u8>| ReadEvent::Data(bytes)).push(other_end);
            all_bytes(events.take(last_read(events) as int)) == all_bytes(
                others.take(last_read(others) as int),
            ) <==> reads.map_values(|bytes: Vec<u8>| bytes@).flatten() == other.map_values(
                |bytes: Vec<u8>| bytes@,
            ).flatten()
        }),
{
    lemma_job_of_reads(reads, end);
    lemma_job_of_reads(other, other_end);
}

} // verus!
