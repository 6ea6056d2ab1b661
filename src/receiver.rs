//! The receiver's side of a transfer: a state machine that turns what comes
//! off the connection into the disk operations that keep the resume record
//! behind the destination file, and a model of the disk that gives those
//! operations their meaning.
use crate::codec::{be_bytes, be_value, decode_be, encode_be, lemma_pow256_facts};
use crate::handshake::{decode_name, encode_request, request_bytes, SIZE_FIELD_LEN};
use crate::progress::{percent_complete, percent_of};
use vstd::prelude::*;
use vstd::utf8::{decode_utf8, valid_utf8};

verus! {

/// Where a transfer stands.
#[derive(Clone, Copy, Debug, PartialEq, Eq, Structural)]
pub enum Phase {
    /// The header has not been accepted yet.
    Handshaking,
    /// Payload bytes are being appended to the destination file.
    Streaming,
    /// The stream ended cleanly; the resume record is to be removed.
    Completed,
    /// The transfer failed; the last checkpoint stays on disk.
    Aborted,
}

/// The receiver's counters and phase.
#[derive(Clone, Copy, Debug, PartialEq, Eq, Structural)]
pub struct ReceiverState {
    /// Bytes the destination file held when this session began.
    pub resume_offset: u64,
    /// Size of the whole resource as announced in the header; 0 before it.
    pub total_size: u64,
    /// Payload bytes appended in this session.
    pub received: u64,
    pub phase: Phase,
}

/// An operation on the destination file or on the resume record, in the
/// order in which the caller must perform it.
#[derive(Debug)]
pub enum DiskOp {
    /// Append these bytes to the destination file.
    Append(Vec<u8>),
    /// Overwrite the resume record from its start with these bytes.
    WriteRecord(Vec<u8>),
    /// Delete the resume record.
    RemoveRecord,
}

/// What a `DiskOp` does, as a value.
pub enum DiskEffect {
    Append(Seq<u8>),
    WriteRecord(Seq<u8>),
    RemoveRecord,
}

impl View for DiskOp {
    type V = DiskEffect;

    open spec fn view(&self) -> DiskEffect {
        match self {
            DiskOp::Append(b) => DiskEffect::Append(b@),
            DiskOp::WriteRecord(b) => DiskEffect::WriteRecord(b@),
            DiskOp::RemoveRecord => DiskEffect::RemoveRecord,
        }
    }
}

/// The destination file and the resume record (absent or its bytes).
pub struct DiskImage {
    pub file: Seq<u8>,
    pub record: Option<Seq<u8>>,
}

/// Why the receiver refused an event.
#[derive(Clone, Copy, Debug, PartialEq, Eq, Structural)]
pub enum ReceiveError {
    /// The event does not belong to the current phase.
    OutOfOrder,
    /// The name in the header is not UTF-8.
    InvalidName,
    /// The byte count would not fit in 64 bits.
    CounterOverflow,
}

/// The bytes of the resume record as read at startup: empty when it is absent.
pub open spec fn record_contents(d: DiskImage) -> Seq<u8> {
    match d.record {
        Some(b) => b,
        None => seq![],
    }
}

/// The resume offset that a record holds: its first eight bytes, big-endian,
/// or 0 when it is shorter.
pub open spec fn record_value(contents: Seq<u8>) -> nat {
    if contents.len() >= 8 {
        be_value(contents.subrange(0, 8))
    } else {
        0
    }
}

/// Bytes committed to the destination file so far.
pub open spec fn checkpoint(s: ReceiverState) -> nat {
    (s.resume_offset + s.received) as nat
}

pub open spec fn state_wf(s: ReceiverState) -> bool {
    &&& checkpoint(s) <= u64::MAX
    &&& (s.phase == Phase::Streaming || s.phase == Phase::Completed) ==> s.total_size >= 1
}

/// The state at startup, from the resume record's bytes.
pub open spec fn initial_state(record: Seq<u8>) -> ReceiverState {
    ReceiverState {
        resume_offset: record_value(record) as u64,
        total_size: 0,
        received: 0,
        phase: Phase::Handshaking,
    }
}

/// The size of the whole resource: what remains plus what the file holds,
/// never 0, and held at the largest `u64` where the sum does not fit.
pub open spec fn session_total(resume_offset: u64, remaining: u64) -> u64 {
    let t = resume_offset + remaining;
    if t == 0 {
        1
    } else if t > u64::MAX {
        u64::MAX
    } else {
        t as u64
    }
}

/// The state after the header with `remaining` and `name` came.
pub open spec fn header_step(s: ReceiverState, remaining: u64, name: Seq<u8>) -> ReceiverState {
    if s.phase != Phase::Handshaking {
        s
    } else if valid_utf8(name) {
        ReceiverState {
            total_size: session_total(s.resume_offset, remaining),
            phase: Phase::Streaming,
            ..s
        }
    } else {
        ReceiverState { phase: Phase::Aborted, ..s }
    }
}

/// The state after one read from the connection, and the disk operations
/// it calls for: an empty read ends the stream.
pub open spec fn read_step(s: ReceiverState, chunk: Seq<u8>) -> (ReceiverState, Seq<DiskEffect>) {
    if s.phase != Phase::Streaming {
        (s, seq![])
    } else if chunk.len() == 0 {
        (ReceiverState { phase: Phase::Completed, ..s }, seq![DiskEffect::RemoveRecord])
    } else if checkpoint(s) + chunk.len() > u64::MAX {
        (ReceiverState { phase: Phase::Aborted, ..s }, seq![])
    } else {
        let next = ReceiverState { received: (s.received + chunk.len()) as u64, ..s };
        (
            next,
            seq![DiskEffect::Append(chunk), DiskEffect::WriteRecord(be_bytes(checkpoint(next), 8))],
        )
    }
}

/// The effects of what `on_read` returned: none for an error.
pub open spec fn effects_of(r: Result<Vec<DiskOp>, ReceiveError>) -> Seq<DiskEffect> {
    match r {
        Ok(ops) => ops@.map_values(|o: DiskOp| o@),
        Err(_) => seq![],
    }
}

/// The receiver of one transfer.
pub struct Receiver {
    state: ReceiverState,
}

impl View for Receiver {
    type V = ReceiverState;

    closed spec fn view(&self) -> ReceiverState {
        self.state
    }
}

impl Receiver {
    pub open spec fn wf(&self) -> bool {
        state_wf(self@)
    }

    /// Starts a transfer from the resume record's bytes (empty when the
    /// record was just created).
    pub fn from_record(record: &[u8]) -> (r: Receiver)
        ensures
            r@ == initial_state(record@),
            r.wf(),
    {
        let resume_offset = if record.len() >= SIZE_FIELD_LEN {
            decode_be(record, SIZE_FIELD_LEN)
        } else {
            0
        };
        Receiver {
            state: ReceiverState {
                resume_offset,
                total_size: 0,
                received: 0,
                phase: Phase::Handshaking,
            },
        }
    }

    /// The first message to the redirector: the resume offset.
    pub fn request(&self) -> (r: Vec<u8>)
        ensures
            r@ == request_bytes(self@.resume_offset),
    {
        encode_request(self.state.resume_offset)
    }

    /// Takes the header: `remaining` bytes are to come, for the resource
    /// named by `name`. Returns the name as text.
    pub fn accept_header(&mut self, remaining: u64, name: Vec<u8>) -> (r: Result<
        String,
        ReceiveError,
    >)
        requires
            old(self).wf(),
        ensures
            final(self).wf(),
            final(self)@ == header_step(old(self)@, remaining, name@),
            r is Ok <==> old(self)@.phase == Phase::Handshaking && valid_utf8(name@),
            r matches Ok(s) ==> s@ == decode_utf8(name@),
            r matches Err(e) ==> e == if old(self)@.phase != Phase::Handshaking {
                ReceiveError::OutOfOrder
            } else {
                ReceiveError::InvalidName
            },
    {
        if self.state.phase != Phase::Handshaking {
            return Err(ReceiveError::OutOfOrder);
        }
        match decode_name(name) {
            Some(text) => {
                let total = match self.state.resume_offset.checked_add(remaining) {
                    Some(t) => if t == 0 {
                        1
                    } else {
                        t
                    },
                    None => u64::MAX,
                };
                self.state.total_size = total;
                self.state.phase = Phase::Streaming;
                Ok(text)
            },
            None => {
                self.state.phase = Phase::Aborted;
                Err(ReceiveError::InvalidName)
            },
        }
    }

    /// Takes one read from the connection. A non-empty chunk yields its
    /// append and then the new checkpoint; an empty one ends the stream and
    /// yields the removal of the record.
    pub fn on_read(&mut self, chunk: Vec<u8>) -> (r: Result<Vec<DiskOp>, ReceiveError>)
        requires
            old(self).wf(),
        ensures
            final(self).wf(),
            (final(self)@, effects_of(r)) == read_step(old(self)@, chunk@),
            r is Ok <==> old(self)@.phase == Phase::Streaming && (chunk@.len() == 0
                || checkpoint(old(self)@) + chunk@.len() <= u64::MAX),
            r matches Err(e) ==> e == if old(self)@.phase != Phase::Streaming {
                ReceiveError::OutOfOrder
            } else {
                ReceiveError::CounterOverflow
            },
    {
        if self.state.phase != Phase::Streaming {
            return Err(ReceiveError::OutOfOrder);
        }
        if chunk.len() == 0 {
            self.state.phase = Phase::Completed;
            let ops = vec![DiskOp::RemoveRecord];
            proof {
                assert(ops@.map_values(|o: DiskOp| o@) =~= seq![DiskEffect::RemoveRecord]);
            }
            return Ok(ops);
        }
        let len = chunk.len() as u64;
        let committed = self.state.resume_offset + self.state.received;
        if len > u64::MAX - committed {
            self.state.phase = Phase::Aborted;
            return Err(ReceiveError::CounterOverflow);
        }
        self.state.received = self.state.received + len;
        proof {
            lemma_pow256_facts();
        }
        let record = encode_be(committed + len, SIZE_FIELD_LEN);
        let ghost chunk_view = chunk@;
        let ops = vec![DiskOp::Append(chunk), DiskOp::WriteRecord(record)];
        proof {
            assert(ops@.map_values(|o: DiskOp| o@) =~= seq![
                DiskEffect::Append(chunk_view),
                DiskEffect::WriteRecord(be_bytes(checkpoint(self@), 8)),
            ]);
        }
        Ok(ops)
    }

    /// Bytes the destination file held when this session began.
    pub fn resume_offset(&self) -> (r: u64)
        ensures
            r == self@.resume_offset,
    {
        self.state.resume_offset
    }

    /// Size of the whole resource; 0 before the header.
    pub fn total_size(&self) -> (r: u64)
        ensures
            r == self@.total_size,
    {
        self.state.total_size
    }

    /// Payload bytes appended in this session.
    pub fn received(&self) -> (r: u64)
        ensures
            r == self@.received,
    {
        self.state.received
    }

    /// Bytes committed to the destination file: the value of the resume record.
    pub fn committed(&self) -> (r: u64)
        requires
            self.wf(),
        ensures
            r == checkpoint(self@),
    {
        self.state.resume_offset + self.state.received
    }

    /// Share of the whole resource that the file holds, in whole percent.
    pub fn percent_done(&self) -> (r: u128)
        requires
            self.wf(),
            self@.phase == Phase::Streaming || self@.phase == Phase::Completed,
        ensures
            r == percent_of(checkpoint(self@) as u64, self@.total_size),
    {
        percent_complete(self.state.resume_offset + self.state.received, self.state.total_size)
    }

    pub fn phase(&self) -> (r: Phase)
        ensures
            r == self@.phase,
    {
        self.state.phase
    }
}

} // verus!
