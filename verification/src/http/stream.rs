//! Reassembly of HTTP messages from the plaintext chunks of a TLS stream.
use vstd::prelude::*;
use crate::events::PlaintextDirection;
use crate::table::Table;
use super::parser::{
    lemma_frame_bounds, policy_view, request_frame, request_policy, request_result_view,
    response_frame, response_policy, response_result_view, HttpParseResult, HttpParser,
};
use super::policy::PayloadDecision;
use super::{HttpRequest, HttpResponse, RequestView, ResponseView};

verus! {

pub const MAX_STREAM_BUFFER: usize = 128 * 1024;

#[derive(Debug, Clone, PartialEq, Eq)]
pub enum HttpMessage {
    Request(HttpRequest),
    Response(HttpResponse),
}

pub enum MessageView {
    Request(RequestView),
    Response(ResponseView),
}

pub open spec fn message_view(m: HttpMessage) -> MessageView {
    match m {
        HttpMessage::Request(r) => MessageView::Request(r@),
        HttpMessage::Response(r) => MessageView::Response(r@),
    }
}

pub open spec fn messages_view(ms: Seq<HttpMessage>) -> Seq<MessageView> {
    ms.map_values(|m: HttpMessage| message_view(m))
}

/// The complete requests at the front of `buf`, and what is left of it.
pub open spec fn drain_requests(buf: Seq<u8>) -> (Seq<u8>, Seq<MessageView>)
    decreases buf.len(),
{
    match request_frame(buf) {
        HttpParseResult::Complete { message, consumed } => {
            proof {
                lemma_frame_bounds(buf);
            }
            let (rest, more) = drain_requests(buf.subrange(consumed as int, buf.len() as int));
            (rest, seq![MessageView::Request(message)] + more)
        },
        HttpParseResult::Incomplete => (buf, Seq::empty()),
        HttpParseResult::Invalid => (Seq::empty(), Seq::empty()),
    }
}

/// The complete responses at the front of `buf`, and what is left of it.
pub open spec fn drain_responses(buf: Seq<u8>) -> (Seq<u8>, Seq<MessageView>)
    decreases buf.len(),
{
    match response_frame(buf) {
        HttpParseResult::Complete { message, consumed } => {
            proof {
                lemma_frame_bounds(buf);
            }
            let (rest, more) = drain_responses(buf.subrange(consumed as int, buf.len() as int));
            (rest, seq![MessageView::Response(message)] + more)
        },
        HttpParseResult::Incomplete => (buf, Seq::empty()),
        HttpParseResult::Invalid => (Seq::empty(), Seq::empty()),
    }
}

/// One direction of a stream: buffered bytes, the payload decision once the
/// head has been seen, and whether the last chunk was cut short.
pub struct DirState {
    pub buffer: Seq<u8>,
    pub policy: Option<Option<Seq<char>>>,
    pub gap: bool,
}

pub struct StreamView {
    pub request: DirState,
    pub response: DirState,
}

/// One chunk pushed into one direction: the new state and the messages completed.
pub open spec fn push_dir(s: DirState, requests: bool, bytes: Seq<u8>, truncated: bool) -> (
    DirState,
    Seq<MessageView>,
) {
    let buffer = if s.gap {
        Seq::<u8>::empty()
    } else {
        s.buffer
    };
    let policy = if s.gap {
        None
    } else {
        s.policy
    };
    if bytes.len() > MAX_STREAM_BUFFER - buffer.len() {
        (DirState { buffer: Seq::empty(), policy, gap: true }, Seq::empty())
    } else {
        let joined = buffer + bytes;
        let seen = if requests {
            request_policy(joined)
        } else {
            response_policy(joined)
        };
        let policy2 = match seen {
            Some(p) => Some(p),
            None => policy,
        };
        let (rest, messages) = if requests {
            drain_requests(joined)
        } else {
            drain_responses(joined)
        };
        (DirState { buffer: rest, policy: policy2, gap: truncated }, messages)
    }
}

proof fn lemma_drain_requests(buf: Seq<u8>)
    ensures
        drain_requests(buf).0.len() <= buf.len(),
        forall|i: int| 0 <= i < drain_requests(buf).1.len() ==> #[trigger] drain_requests(buf).1[i] is Request,
    decreases buf.len(),
{
    lemma_frame_bounds(buf);
    if let HttpParseResult::Complete { message, consumed } = request_frame(buf) {
        let tail = buf.subrange(consumed as int, buf.len() as int);
        lemma_drain_requests(tail);
        let more = drain_requests(tail).1;
        assert forall|i: int| 0 <= i < drain_requests(buf).1.len() implies #[trigger] drain_requests(buf).1[i] is Request by {
            if i > 0 {
                assert(drain_requests(buf).1[i] == more[i - 1]);
            }
        }
    }
}

proof fn lemma_drain_responses(buf: Seq<u8>)
    ensures
        drain_responses(buf).0.len() <= buf.len(),
        forall|i: int| 0 <= i < drain_responses(buf).1.len() ==> #[trigger] drain_responses(buf).1[i] is Response,
    decreases buf.len(),
{
    lemma_frame_bounds(buf);
    if let HttpParseResult::Complete { message, consumed } = response_frame(buf) {
        let tail = buf.subrange(consumed as int, buf.len() as int);
        lemma_drain_responses(tail);
        let more = drain_responses(tail).1;
        assert forall|i: int| 0 <= i < drain_responses(buf).1.len() implies #[trigger] drain_responses(buf).1[i] is Response by {
            if i > 0 {
                assert(drain_responses(buf).1[i] == more[i - 1]);
            }
        }
    }
}

/// What one push does to a stream whose buffers are within bounds: a chunk
/// that would take its direction past `MAX_STREAM_BUFFER` (counting from
/// empty after a gap) completes nothing and empties that direction; either
/// way both buffers stay within bounds, the other direction is untouched,
/// and writes complete only requests while reads complete only responses.
pub proof fn law_push_bounds(s: StreamView, d: PlaintextDirection, bytes: Seq<u8>, truncated: bool)
    requires
        bounded(s),
    ensures
        ({
            let (after, messages) = push_spec(s, d, bytes, truncated);
            let (dir, other, dir_after, other_after) = match d {
                PlaintextDirection::Write => (s.request, s.response, after.request, after.response),
                PlaintextDirection::Read => (s.response, s.request, after.response, after.request),
            };
            let held = if dir.gap {
                0
            } else {
                dir.buffer.len()
            };
            &&& bounded(after)
            &&& after.request.buffer.len() + after.response.buffer.len() <= 2 * MAX_STREAM_BUFFER
            &&& other_after == other
            &&& held + bytes.len() > MAX_STREAM_BUFFER ==> messages.len() == 0 && dir_after.buffer.len() == 0
                && dir_after.gap
            &&& forall|i: int| 0 <= i < messages.len() ==> match d {
                PlaintextDirection::Write => #[trigger] messages[i] is Request,
                PlaintextDirection::Read => messages[i] is Response,
            }
        }),
{
    let dir = match d {
        PlaintextDirection::Write => s.request,
        PlaintextDirection::Read => s.response,
    };
    let buffer = if dir.gap {
        Seq::<u8>::empty()
    } else {
        dir.buffer
    };
    lemma_drain_requests(buffer + bytes);
    lemma_drain_responses(buffer + bytes);
}

pub open spec fn push_spec(s: StreamView, d: PlaintextDirection, bytes: Seq<u8>, truncated: bool) -> (
    StreamView,
    Seq<MessageView>,
) {
    match d {
        PlaintextDirection::Write => {
            let (r, m) = push_dir(s.request, true, bytes, truncated);
            (StreamView { request: r, response: s.response }, m)
        },
        PlaintextDirection::Read => {
            let (r, m) = push_dir(s.response, false, bytes, truncated);
            (StreamView { request: s.request, response: r }, m)
        },
    }
}

pub open spec fn fresh_stream() -> StreamView {
    StreamView {
        request: DirState { buffer: Seq::empty(), policy: None, gap: false },
        response: DirState { buffer: Seq::empty(), policy: None, gap: false },
    }
}

#[derive(Debug)]
pub struct StreamReassembler {
    request_buffer: Vec<u8>,
    response_buffer: Vec<u8>,
    request_policy: Option<PayloadDecision>,
    response_policy: Option<PayloadDecision>,
    request_gap: bool,
    response_gap: bool,
    parser: HttpParser,
}

impl View for StreamReassembler {
    type V = StreamView;

    closed spec fn view(&self) -> StreamView {
        StreamView {
            request: DirState {
                buffer: self.request_buffer@,
                policy: policy_view(self.request_policy),
                gap: self.request_gap,
            },
            response: DirState {
                buffer: self.response_buffer@,
                policy: policy_view(self.response_policy),
                gap: self.response_gap,
            },
        }
    }
}

/// Neither direction holds more than `MAX_STREAM_BUFFER` bytes.
pub open spec fn bounded(s: StreamView) -> bool {
    s.request.buffer.len() <= MAX_STREAM_BUFFER && s.response.buffer.len() <= MAX_STREAM_BUFFER
}

/// `buf[from..]` as a new vector.
fn tail(buf: &Vec<u8>, from: usize) -> (r: Vec<u8>)
    requires
        from <= buf@.len(),
    ensures
        r@ == buf@.subrange(from as int, buf@.len() as int),
{
    let mut r: Vec<u8> = Vec::new();
    let mut i = from;
    while i < buf.len()
        invariant
            from <= i <= buf@.len(),
            r@ == buf@.subrange(from as int, i as int),
        decreases buf@.len() - i,
    {
        r.push(buf[i]);
        assert(buf@.subrange(from as int, i + 1) =~= buf@.subrange(from as int, i as int).push(
            buf@[i as int],
        ));
        i += 1;
    }
    r
}

/// Appends `bytes` to `buf`.
fn append(buf: &mut Vec<u8>, bytes: &[u8])
    ensures
        final(buf)@ == old(buf)@ + bytes@,
{
    let mut i: usize = 0;
    while i < bytes.len()
        invariant
            i <= bytes@.len(),
            buf@ == old(buf)@ + bytes@.subrange(0, i as int),
        decreases bytes@.len() - i,
    {
        buf.push(bytes[i]);
        assert(bytes@.subrange(0, i + 1) =~= bytes@.subrange(0, i as int).push(bytes@[i as int]));
        i += 1;
    }
    assert(bytes@.subrange(0, bytes@.len() as int) =~= bytes@);
}

/// One chunk pushed into one direction's buffer, policy and gap flag.
fn push_into(
    parser: &HttpParser,
    requests: bool,
    buffer: &mut Vec<u8>,
    policy: &mut Option<PayloadDecision>,
    gap: &mut bool,
    bytes: &[u8],
    truncated: bool,
) -> (r: Vec<HttpMessage>)
    requires
        old(buffer)@.len() <= MAX_STREAM_BUFFER,
    ensures
        ({
            let (s, m) = push_dir(
                DirState { buffer: old(buffer)@, policy: policy_view(*old(policy)), gap: *old(gap) },
                requests,
                bytes@,
                truncated,
            );
            &&& final(buffer)@ == s.buffer
            &&& policy_view(*final(policy)) == s.policy
            &&& *final(gap) == s.gap
            &&& messages_view(r@) == m
        }),
        final(buffer)@.len() <= MAX_STREAM_BUFFER,
{
    if *gap {
        *buffer = Vec::new();
        *policy = None;
        *gap = false;
    }
    if bytes.len() > MAX_STREAM_BUFFER - buffer.len() {
        *buffer = Vec::new();
        *gap = true;
        return Vec::new();
    }
    append(buffer, bytes);
    let seen = if requests {
        parser.request_payload_policy(buffer.as_slice())
    } else {
        parser.response_payload_policy(buffer.as_slice())
    };
    match seen {
        Some(p) => {
            *policy = Some(p);
        },
        None => {},
    }
    let ghost joined = buffer@;
    let mut messages: Vec<HttpMessage> = Vec::new();
    assert(messages_view(messages@) =~= Seq::<MessageView>::empty());
    assert(messages_view(messages@) + drain_requests(joined).1 =~= drain_requests(joined).1);
    assert(messages_view(messages@) + drain_responses(joined).1 =~= drain_responses(joined).1);
    loop
        invariant
            requests ==> drain_requests(joined) == (drain_requests(buffer@).0, messages_view(
                messages@,
            ) + drain_requests(buffer@).1),
            !requests ==> drain_responses(joined) == (drain_responses(buffer@).0, messages_view(
                messages@,
            ) + drain_responses(buffer@).1),
            buffer@.len() <= MAX_STREAM_BUFFER,
        ensures
            requests ==> drain_requests(buffer@) == (buffer@, Seq::<MessageView>::empty()),
            !requests ==> drain_responses(buffer@) == (buffer@, Seq::<MessageView>::empty()),
        decreases buffer@.len(),
    {
        let ghost before = buffer@;
        let ghost prev = messages@;
        proof {
            lemma_frame_bounds(before);
        }
        if requests {
            match parser.parse_request_frame(buffer.as_slice()) {
                HttpParseResult::Complete { message, consumed } => {
                    let rest = tail(buffer, consumed);
                    *buffer = rest;
                    let ghost m = message@;
                    messages.push(HttpMessage::Request(message));
                    assert(messages_view(messages@) =~= messages_view(prev).push(
                        MessageView::Request(m),
                    ));
                    assert(messages_view(prev) + (seq![MessageView::Request(m)] + drain_requests(
                        buffer@,
                    ).1) =~= messages_view(messages@) + drain_requests(buffer@).1);
                },
                HttpParseResult::Incomplete => {
                    break;
                },
                HttpParseResult::Invalid => {
                    *buffer = Vec::new();
                    break;
                },
            }
        } else {
            match parser.parse_response_frame(buffer.as_slice()) {
                HttpParseResult::Complete { message, consumed } => {
                    let rest = tail(buffer, consumed);
                    *buffer = rest;
                    let ghost m = message@;
                    messages.push(HttpMessage::Response(message));
                    assert(messages_view(messages@) =~= messages_view(prev).push(
                        MessageView::Response(m),
                    ));
                    assert(messages_view(prev) + (seq![MessageView::Response(m)] + drain_responses(
                        buffer@,
                    ).1) =~= messages_view(messages@) + drain_responses(buffer@).1);
                },
                HttpParseResult::Incomplete => {
                    break;
                },
                HttpParseResult::Invalid => {
                    *buffer = Vec::new();
                    break;
                },
            }
        }
    }
    assert(messages_view(messages@) + Seq::<MessageView>::empty() =~= messages_view(messages@));
    if truncated {
        *gap = true;
    }
    messages
}

impl StreamReassembler {
    pub fn new() -> (r: Self)
        ensures
            r@ == fresh_stream(),
    {
        StreamReassembler {
            request_buffer: Vec::new(),
            response_buffer: Vec::new(),
            request_policy: None,
            response_policy: None,
            request_gap: false,
            response_gap: false,
            parser: HttpParser,
        }
    }

    /// Adds one plaintext chunk in one direction and returns the messages it completes.
    pub fn push(&mut self, direction: PlaintextDirection, bytes: &[u8], truncated: bool) -> (r: Vec<
        HttpMessage,
    >)
        requires
            bounded(old(self)@),
        ensures
            (final(self)@, messages_view(r@)) == push_spec(old(self)@, direction, bytes@, truncated),
            bounded(final(self)@),
    {
        match direction {
            PlaintextDirection::Write => push_into(
                &self.parser,
                true,
                &mut self.request_buffer,
                &mut self.request_policy,
                &mut self.request_gap,
                bytes,
                truncated,
            ),
            PlaintextDirection::Read => push_into(
                &self.parser,
                false,
                &mut self.response_buffer,
                &mut self.response_policy,
                &mut self.response_gap,
                bytes,
                truncated,
            ),
        }
    }

    pub fn buffered_len(&self) -> (r: usize)
        requires
            bounded(self@),
        ensures
            r == self@.request.buffer.len() + self@.response.buffer.len(),
    {
        self.request_buffer.len() + self.response_buffer.len()
    }

    pub fn payload_policy(&self, direction: PlaintextDirection) -> (r: Option<PayloadDecision>)
        ensures
            policy_view(r) == match direction {
                PlaintextDirection::Write => self@.request.policy,
                PlaintextDirection::Read => self@.response.policy,
            },
    {
        match direction {
            PlaintextDirection::Write => self.request_policy,
            PlaintextDirection::Read => self.response_policy,
        }
    }
}

impl Default for StreamReassembler {
    fn default() -> (r: Self)
        ensures
            r@ == fresh_stream(),
    {
        StreamReassembler::new()
    }
}


/// Reassemblers of all streams, by stream key.
#[derive(Debug)]
pub struct HttpTracker {
    streams: Table<String, StreamReassembler>,
}

impl HttpTracker {
    /// The state of each stream, by key.
    pub closed spec fn streams_view(&self) -> Map<Seq<char>, StreamView> {
        self.streams.map().map_values(|s: StreamReassembler| s@)
    }

    pub closed spec fn wf(&self) -> bool {
        &&& self.streams.wf()
        &&& forall|k: Seq<char>| #[trigger]
            self.streams.map().contains_key(k) ==> bounded(self.streams.map()[k]@)
    }

    /// The state a stream has before its next chunk: what it holds, or a fresh one.
    pub open spec fn stream_or_fresh(&self, key: Seq<char>) -> StreamView {
        if self.streams_view().contains_key(key) {
            self.streams_view()[key]
        } else {
            fresh_stream()
        }
    }

    pub fn new() -> (r: Self)
        ensures
            r.wf(),
            r.streams_view() == Map::<Seq<char>, StreamView>::empty(),
    {
        let r = HttpTracker { streams: Table::new() };
        assert(r.streams_view() =~= Map::<Seq<char>, StreamView>::empty());
        r
    }

    /// Feeds one plaintext chunk to the stream with the given key.
    pub fn observe(
        &mut self,
        stream_key: &str,
        direction: PlaintextDirection,
        bytes: &[u8],
        truncated: bool,
    ) -> (r: Vec<HttpMessage>)
        requires
            old(self).wf(),
        ensures
            final(self).wf(),
            final(self).streams_view() == old(self).streams_view().insert(
                stream_key@,
                push_spec(old(self).stream_or_fresh(stream_key@), direction, bytes@, truncated).0,
            ),
            messages_view(r@) == push_spec(
                old(self).stream_or_fresh(stream_key@),
                direction,
                bytes@,
                truncated,
            ).1,
    {
        let key = stream_key.to_owned();
        let mut stream = match self.streams.remove(&key) {
            Some(s) => s,
            None => StreamReassembler::new(),
        };
        let out = stream.push(direction, bytes, truncated);
        let ghost pushed = stream;
        self.streams.insert(key, stream);
        proof {
            let before = old(self).streams.map();
            let after = self.streams.map();
            assert(after =~= before.insert(stream_key@, pushed));
            assert forall|k: Seq<char>| #[trigger] after.contains_key(k) implies bounded(after[k]@) by {
                if k != stream_key@ {
                    assert(before.contains_key(k));
                }
            }
            assert(self.streams_view() =~= old(self).streams_view().insert(stream_key@, pushed@));
        }
        out
    }

    pub fn stream_count(&self) -> (r: usize)
        requires
            self.wf(),
        ensures
            r == self.streams_view().len(),
    {
        proof {
            self.streams.lemma_len();
            assert(self.streams_view().dom() =~= self.streams.map().dom());
        }
        self.streams.len()
    }

    pub fn payload_policy(&self, stream_key: &str, direction: PlaintextDirection) -> (r: Option<
        PayloadDecision,
    >)
        requires
            self.wf(),
        ensures
            policy_view(r) == if self.streams_view().contains_key(stream_key@) {
                match direction {
                    PlaintextDirection::Write => self.streams_view()[stream_key@].request.policy,
                    PlaintextDirection::Read => self.streams_view()[stream_key@].response.policy,
                }
            } else {
                None
            },
    {
        let key = stream_key.to_owned();
        match self.streams.get(&key) {
            Some(stream) => stream.payload_policy(direction),
            None => None,
        }
    }
}

impl Default for HttpTracker {
    fn default() -> (r: Self)
        ensures
            r.wf(),
            r.streams_view() == Map::<Seq<char>, StreamView>::empty(),
    {
        HttpTracker::new()
    }
}

} // verus!
