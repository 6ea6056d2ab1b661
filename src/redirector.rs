//! The redirector's side of a transfer: what to ask the origin for, what to
//! answer the receiver, and how much has been sent.
use crate::codec::{be_value, decimal_digits, parse_unsigned, push_decimal, unsigned_value};
use crate::disk::concat_all;
use crate::handshake::{
    decode_request, encode_header, floored_total, header_bytes, name_fits, HandshakeError,
};
use vstd::prelude::*;
use vstd::string::StrSliceExecFns;
use vstd::utf8::encode_utf8;

verus! {

/// What follows the last `/` of `s`; all of `s` when it holds none.
pub open spec fn last_segment(s: Seq<char>) -> Seq<char>
    decreases s.len(),
{
    if s.len() == 0 {
        s
    } else if s.last() == '/' {
        seq![]
    } else {
        last_segment(s.drop_last()).push(s.last())
    }
}

/// The value of the `Range` header that asks for everything from `offset` on.
pub open spec fn range_value(offset: u64) -> Seq<u8> {
    seq![0x62u8, 0x79, 0x74, 0x65, 0x73, 0x3d] + decimal_digits(offset as nat) + seq![0x2du8]
}

/// The bytes that remain at the origin, from its `Content-Length` header:
/// 0 when the header is absent.
pub open spec fn remaining_from(content_length: Option<&[u8]>) -> Option<u64> {
    match content_length {
        None => Some(0),
        Some(text) => unsigned_value(text@),
    }
}

/// Why the redirector cannot answer a receiver.
#[derive(Clone, Copy, Debug, PartialEq, Eq, Structural)]
pub enum RelayError {
    /// The origin's `Content-Length` is not an unsigned number.
    BadContentLength,
    /// The resource's name does not fit in the header.
    NameTooLong,
    /// The origin's byte stream failed.
    OriginFailed,
    /// The byte count would not fit in 64 bits.
    CounterOverflow,
    /// The event came after the session had ended.
    OutOfOrder,
}

/// Where a relay session stands.
#[derive(Clone, Copy, Debug, PartialEq, Eq, Structural)]
pub enum RelayPhase {
    /// Bytes from the origin are being forwarded.
    Streaming,
    /// The origin's stream ended cleanly.
    Finished,
    /// The session failed.
    Failed,
}

/// The redirector's counters and phase.
#[derive(Clone, Copy, Debug, PartialEq, Eq, Structural)]
pub struct RelayState {
    /// Bytes the receiver already had.
    pub resume_offset: u64,
    /// The resume offset plus every byte forwarded in this session.
    pub total_sent: u64,
    pub phase: RelayPhase,
}

/// What the origin's byte stream yielded next.
#[derive(Debug)]
pub enum OriginEvent {
    /// A chunk of the resource.
    Chunk(Vec<u8>),
    /// The stream ended.
    End,
    /// The stream failed.
    Failed,
}

/// What the redirector is to do next.
#[derive(Debug)]
pub enum RelayAction {
    /// Write these bytes to the receiver.
    Forward(Vec<u8>),
    /// The transfer is complete: close the connection.
    Finish,
    /// End the session with this error.
    Fail(RelayError),
}

/// An `OriginEvent` as a value.
pub enum OriginInput {
    Chunk(Seq<u8>),
    End,
    Failed,
}

/// A `RelayAction` as a value.
pub enum RelayOutput {
    Forward(Seq<u8>),
    Finish,
    Fail(RelayError),
}

impl View for OriginEvent {
    type V = OriginInput;

    open spec fn view(&self) -> OriginInput {
        match self {
            OriginEvent::Chunk(b) => OriginInput::Chunk(b@),
            OriginEvent::End => OriginInput::End,
            OriginEvent::Failed => OriginInput::Failed,
        }
    }
}

impl View for RelayAction {
    type V = RelayOutput;

    open spec fn view(&self) -> RelayOutput {
        match self {
            RelayAction::Forward(b) => RelayOutput::Forward(b@),
            RelayAction::Finish => RelayOutput::Finish,
            RelayAction::Fail(e) => RelayOutput::Fail(*e),
        }
    }
}

/// The state and the action after one event of the origin's stream: a chunk
/// is forwarded and counted, the end finishes, a failure fails.
pub open spec fn relay_step(s: RelayState, e: OriginInput) -> (RelayState, RelayOutput) {
    if s.phase != RelayPhase::Streaming {
        (s, RelayOutput::Fail(RelayError::OutOfOrder))
    } else {
        match e {
            OriginInput::Chunk(b) => if s.total_sent + b.len() > u64::MAX {
                (
                    RelayState { phase: RelayPhase::Failed, ..s },
                    RelayOutput::Fail(RelayError::CounterOverflow),
                )
            } else {
                (
                    RelayState { total_sent: (s.total_sent + b.len()) as u64, ..s },
                    RelayOutput::Forward(b),
                )
            },
            OriginInput::End => (
                RelayState { phase: RelayPhase::Finished, ..s },
                RelayOutput::Finish,
            ),
            OriginInput::Failed => (
                RelayState { phase: RelayPhase::Failed, ..s },
                RelayOutput::Fail(RelayError::OriginFailed),
            ),
        }
    }
}

/// The state after the origin yielded each of `chunks` in order, and the
/// bytes forwarded to the receiver meanwhile.
pub open spec fn run_relay(s: RelayState, chunks: Seq<Seq<u8>>) -> (RelayState, Seq<u8>)
    decreases chunks.len(),
{
    if chunks.len() == 0 {
        (s, seq![])
    } else {
        let (s1, sent) = run_relay(s, chunks.drop_last());
        let (s2, out) = relay_step(s1, OriginInput::Chunk(chunks.last()));
        match out {
            RelayOutput::Forward(b) => (s2, sent + b),
            _ => (s2, sent),
        }
    }
}

/// Over any chunks from the origin whose total fits in 64 bits, the
/// redirector forwards exactly those bytes, in order, and its count grows to
/// the resume offset plus their length: it never counts a byte not sent.
pub proof fn lemma_relay_counts_what_it_sends(s: RelayState, chunks: Seq<Seq<u8>>)
    requires
        s.phase == RelayPhase::Streaming,
        s.total_sent + concat_all(chunks).len() <= u64::MAX,
    ensures
        ({
            let (s2, sent) = run_relay(s, chunks);
            &&& s2.phase == RelayPhase::Streaming
            &&& s2.resume_offset == s.resume_offset
            &&& sent == concat_all(chunks)
            &&& s2.total_sent == s.total_sent + sent.len()
        }),
    decreases chunks.len(),
{
    if chunks.len() > 0 {
        lemma_relay_counts_what_it_sends(s, chunks.drop_last());
    }
}

/// The name of the resource that `url` points to: its last path segment.
pub fn resource_name(url: &str) -> (r: &str)
    ensures
        r@ == last_segment(url@),
{
    let n = url.unicode_len();
    let mut start: usize = n;
    proof {
        assert(url@.subrange(0, n as int) =~= url@);
        assert(last_segment(url@) + url@.subrange(n as int, n as int) =~= last_segment(url@));
    }
    while start > 0 && url.get_char(start - 1) != '/'
        invariant
            start <= n == url@.len(),
            last_segment(url@) == last_segment(url@.subrange(0, start as int)) + url@.subrange(
                start as int,
                n as int,
            ),
        decreases start,
    {
        proof {
            let pre = url@.subrange(0, start as int);
            assert(pre.drop_last() =~= url@.subrange(0, start - 1));
            assert(pre.last() == url@[start - 1]);
            assert(url@.subrange(start - 1, n as int) =~= seq![url@[start - 1]] + url@.subrange(
                start as int,
                n as int,
            ));
            assert(last_segment(url@.subrange(0, start - 1)).push(url@[start - 1]) + url@.subrange(
                start as int,
                n as int,
            ) =~= last_segment(url@.subrange(0, start - 1)) + url@.subrange(
                start - 1,
                n as int,
            ));
        }
        start = start - 1;
    }
    proof {
        let pre = url@.subrange(0, start as int);
        if start > 0 {
            assert(pre.last() == url@[start - 1]);
        }
        assert(last_segment(pre) =~= seq![]);
        assert(seq![] + url@.subrange(start as int, n as int) =~= url@.subrange(
            start as int,
            n as int,
        ));
    }
    url.substring_char(start, n)
}

/// The `Range` header value for a transfer that resumes at `offset`.
pub fn range_header(offset: u64) -> (r: Vec<u8>)
    ensures
        r@ == range_value(offset),
{
    let mut out: Vec<u8> = vec![0x62u8, 0x79, 0x74, 0x65, 0x73, 0x3d];
    let ghost prefix = out@;
    push_decimal(offset, &mut out);
    out.push(0x2d);
    proof {
        assert(prefix =~= seq![0x62u8, 0x79, 0x74, 0x65, 0x73, 0x3d]);
        assert(out@ =~= range_value(offset));
    }
    out
}

/// The bytes that remain at the origin, from its `Content-Length` header.
pub fn origin_remaining(content_length: Option<&[u8]>) -> (r: Result<u64, RelayError>)
    ensures
        r is Ok <==> remaining_from(content_length) is Some,
        r matches Ok(v) ==> remaining_from(content_length) == Some(v),
        r matches Err(e) ==> e == RelayError::BadContentLength,
{
    match content_length {
        None => Ok(0),
        Some(text) => match parse_unsigned(text) {
            Some(v) => Ok(v),
            None => Err(RelayError::BadContentLength),
        },
    }
}

/// One client's transfer, as the redirector sees it.
pub struct RelaySession {
    state: RelayState,
}

impl View for RelaySession {
    type V = RelayState;

    closed spec fn view(&self) -> RelayState {
        self.state
    }
}

impl RelaySession {
    /// Starts a session from the receiver's request; `None` when fewer than
    /// eight bytes came.
    pub fn from_request(request: &[u8]) -> (r: Option<RelaySession>)
        ensures
            request@.len() >= 8 <==> r is Some,
            r matches Some(s) ==> s@.resume_offset as nat == be_value(request@.subrange(0, 8))
                && s@.total_sent == s@.resume_offset && s@.phase == RelayPhase::Streaming,
    {
        match decode_request(request) {
            Some(offset) => Some(
                RelaySession {
                    state: RelayState {
                        resume_offset: offset,
                        total_sent: offset,
                        phase: RelayPhase::Streaming,
                    },
                },
            ),
            None => None,
        }
    }

    /// Where the receiver's copy ends, and so where the origin is to start.
    pub fn offset(&self) -> (r: u64)
        ensures
            r == self@.resume_offset,
    {
        self.state.resume_offset
    }

    /// The `Range` header value to send to the origin.
    pub fn range(&self) -> (r: Vec<u8>)
        ensures
            r@ == range_value(self@.resume_offset),
    {
        range_header(self.state.resume_offset)
    }

    /// The header for the receiver, from the origin's `Content-Length` and
    /// the resource's URL.
    pub fn answer(&self, content_length: Option<&[u8]>, url: &str) -> (r: Result<
        Vec<u8>,
        RelayError,
    >)
        ensures
            r is Ok <==> remaining_from(content_length) is Some
                && name_fits(last_segment(url@)),
            r matches Ok(v) ==> v@ == header_bytes(
                floored_total(remaining_from(content_length)->Some_0),
                encode_utf8(last_segment(url@)),
            ),
            r matches Err(e) ==> e == if remaining_from(content_length) is None {
                RelayError::BadContentLength
            } else {
                RelayError::NameTooLong
            },
    {
        let remaining = match origin_remaining(content_length) {
            Ok(v) => v,
            Err(e) => return Err(e),
        };
        let name = resource_name(url);
        match encode_header(remaining, name) {
            Ok(v) => Ok(v),
            Err(HandshakeError::NameTooLong) => Err(RelayError::NameTooLong),
        }
    }

    /// Takes the next event of the origin's stream and says what to do.
    pub fn on_origin(&mut self, event: OriginEvent) -> (r: RelayAction)
        ensures
            (final(self)@, r@) == relay_step(old(self)@, event@),
    {
        if self.state.phase != RelayPhase::Streaming {
            return RelayAction::Fail(RelayError::OutOfOrder);
        }
        match event {
            OriginEvent::Chunk(bytes) => {
                let len = bytes.len() as u64;
                if len > u64::MAX - self.state.total_sent {
                    self.state.phase = RelayPhase::Failed;
                    RelayAction::Fail(RelayError::CounterOverflow)
                } else {
                    self.state.total_sent = self.state.total_sent + len;
                    RelayAction::Forward(bytes)
                }
            },
            OriginEvent::End => {
                self.state.phase = RelayPhase::Finished;
                RelayAction::Finish
            },
            OriginEvent::Failed => {
                self.state.phase = RelayPhase::Failed;
                RelayAction::Fail(RelayError::OriginFailed)
            },
        }
    }

    pub fn phase(&self) -> (r: RelayPhase)
        ensures
            r == self@.phase,
    {
        self.state.phase
    }

    /// The resume offset plus every byte forwarded in this session.
    pub fn sent(&self) -> (r: u64)
        ensures
            r == self@.total_sent,
    {
        self.state.total_sent
    }
}

} // verus!
