//! Responses: the parsed head, and the decisions that complete a body of
//! known length or stream one of unknown length.
use vstd::prelude::*;
use vstd::slice::slice_subrange;
use vstd::utf8::decode_utf8;
use crate::bytes::{append_bytes, copy_range};
use crate::errors::GettingBodyErrors;
use crate::chars::{chars_of, string_from_chars};
use crate::head::{
    HeadView, parse_head, head_end, head_terminator, occurs_at, is_first_occurrence, find_bytes,
    utf8_string, split_lines, split_tokens, vecs_view, char_vecs_view, parse_status_code, join_tokens,
    headers_apply,
    apply_header_line, apply_line, lines, tokens, join_space,
};
use crate::request::{HttpBody, headers_view, header_lookup, keys_unique};

verus! {

/// Why no response could be read from a buffer.
#[derive(Debug, PartialEq, Eq, Structural, Clone, Copy)]
pub enum HeadError {
    /// the blank line that ends the head has not arrived yet
    Incomplete,
    /// the head is complete but not a well-formed response head
    Malformed,
}

/// An HTTP response.
pub struct HttpResponse {
    pub http_version: String,
    pub status_code: u16,
    pub status_label: String,
    pub headers: Vec<(String, String)>,
    pub content_length: Option<usize>,
    pub body: Option<HttpBody>,
    pub size_of_head: usize,
}

/// The first `n` bytes, or all of them where there are fewer.
pub open spec fn take_upto(s: Seq<u8>, n: int) -> Seq<u8> {
    if s.len() <= n {
        s
    } else {
        s.subrange(0, n)
    }
}

/// What to do with the body once the head is parsed.
pub enum BodyPlan {
    /// the body is complete in the buffer
    Complete(Vec<u8>),
    /// the body has a known length; these bytes of it are in the buffer
    Partial(Vec<u8>),
    /// no length is declared and nothing follows the head
    NoBody,
    /// no length is declared: stream until the peer closes, these bytes first
    Stream(Vec<u8>),
    /// the declared length exceeds the configured bound
    TooLarge,
}

/// The plan for a body, given the bytes read with the head.
pub open spec fn body_plan_spec(buffer: Seq<u8>, head_len: int, cl: Option<usize>, limit: usize) -> (
    int,
    Seq<u8>,
) {
    let rest = buffer.subrange(head_len, buffer.len() as int);
    match cl {
        Some(n) => if n > limit {
            (4, Seq::empty())
        } else if rest.len() >= n {
            (0, rest.subrange(0, n as int))
        } else {
            (1, rest)
        },
        None => if rest.len() == 0 {
            (2, Seq::empty())
        } else {
            (3, rest)
        },
    }
}

impl BodyPlan {
    /// The plan as a tag (in declaration order) and the bytes it carries.
    pub open spec fn view(&self) -> (int, Seq<u8>) {
        match self {
            BodyPlan::Complete(b) => (0, b@),
            BodyPlan::Partial(b) => (1, b@),
            BodyPlan::NoBody => (2, Seq::empty()),
            BodyPlan::Stream(b) => (3, b@),
            BodyPlan::TooLarge => (4, Seq::empty()),
        }
    }
}

/// Decides how the body is read. A declared length within `limit` is read
/// in full, taking first what follows the head in the buffer; a larger one is
/// refused; with no length the body streams, unless nothing follows the head.
pub fn plan_body(buffer: &[u8], head_len: usize, content_length: Option<usize>, limit: usize) -> (r: BodyPlan)
    requires
        head_len <= buffer@.len(),
    ensures
        r.view() == body_plan_spec(buffer@, head_len as int, content_length, limit),
{
    let n = buffer.len();
    match content_length {
        Some(cl) => {
            if cl > limit {
                BodyPlan::TooLarge
            } else if n - head_len >= cl {
                let b = copy_range(buffer, head_len, head_len + cl);
                assert(b@ =~= buffer@.subrange(head_len as int, n as int).subrange(0, cl as int));
                BodyPlan::Complete(b)
            } else {
                BodyPlan::Partial(copy_range(buffer, head_len, n))
            }
        },
        None => {
            if n == head_len {
                assert(buffer@.subrange(head_len as int, n as int).len() == 0);
                BodyPlan::NoBody
            } else {
                BodyPlan::Stream(copy_range(buffer, head_len, n))
            }
        },
    }
}

/// Adds the bytes of one read to a body of declared length `content_length`;
/// returns whether the body is complete, and then cuts it to that length.
pub fn absorb_body_bytes(body: &mut Vec<u8>, chunk: &[u8], content_length: usize) -> (done: bool)
    requires
        old(body)@.len() < content_length,
    ensures
        done == (old(body)@.len() + chunk@.len() >= content_length),
        final(body)@ == take_upto(old(body)@ + chunk@, content_length as int),
{
    append_bytes(body, chunk);
    if body.len() >= content_length {
        body.truncate(content_length);
        assert(body@ =~= take_upto(old(body)@ + chunk@, content_length as int));
        true
    } else {
        false
    }
}

/// The result of one read by the task that streams a body.
pub enum ReadOutcome {
    /// these bytes arrived
    Data(Vec<u8>),
    /// the peer closed the stream
    Closed,
    /// the read failed or timed out
    Failed,
}

impl ReadOutcome {
    /// The bytes that arrived, or `None` for a close or a failure.
    pub open spec fn view(&self) -> Option<Seq<u8>> {
        match self {
            ReadOutcome::Data(d) => Some(d@),
            _ => None,
        }
    }
}

/// The message sent for one read: non-empty data as a non-final chunk,
/// anything else as the empty final chunk.
pub open spec fn drain_message(o: Option<Seq<u8>>) -> (Seq<u8>, bool) {
    match o {
        Some(d) => if d.len() > 0 {
            (d, false)
        } else {
            (Seq::empty(), true)
        },
        None => (Seq::empty(), true),
    }
}

/// The messages a streaming task sends for a run of reads: one per read,
/// until the final one.
pub open spec fn drain_run(os: Seq<Option<Seq<u8>>>) -> Seq<(Seq<u8>, bool)>
    decreases os.len(),
{
    if os.len() == 0 {
        Seq::empty()
    } else {
        let p = drain_run(os.drop_last());
        if p.len() > 0 && p.last().1 {
            p
        } else {
            p.push(drain_message(os.last()))
        }
    }
}

/// What the streaming task does next.
#[derive(Debug, PartialEq, Eq, Structural, Clone, Copy)]
pub enum DrainAction {
    /// stop without sending anything more
    Stop,
    /// read from the stream
    Read,
}

/// The task that reads a body of unknown length and sends it on in chunks.
pub struct StreamDrain {
    pub finished: bool,
}

impl StreamDrain {
    /// A task that has sent nothing yet.
    pub fn new() -> (r: StreamDrain)
        ensures
            !r.finished,
    {
        StreamDrain { finished: false }
    }

    /// Reads go on until the final chunk has been sent or the response was
    /// dropped; the flag is looked at before every read.
    pub fn next_action(&self, cancelled: bool) -> (r: DrainAction)
        ensures
            r == (if self.finished || cancelled {
                DrainAction::Stop
            } else {
                DrainAction::Read
            }),
    {
        if self.finished || cancelled {
            DrainAction::Stop
        } else {
            DrainAction::Read
        }
    }

    /// The message to send for one read: non-empty data goes on as a
    /// non-final chunk; an empty read, a close or a failure gives the one
    /// empty final chunk, after which the task stops.
    pub fn on_read(&mut self, outcome: ReadOutcome) -> (r: (Vec<u8>, bool))
        requires
            !old(self).finished,
        ensures
            (r.0@, r.1) == drain_message(outcome.view()),
            final(self).finished == r.1,
    {
        match outcome {
            ReadOutcome::Data(d) => {
                if d.len() > 0 {
                    (d, false)
                } else {
                    self.finished = true;
                    (Vec::new(), true)
                }
            },
            _ => {
                self.finished = true;
                (Vec::new(), true)
            },
        }
    }
}

/// The data of a run of messages, concatenated in order.
pub open spec fn concat_chunks(msgs: Seq<(Seq<u8>, bool)>) -> Seq<u8>
    decreases msgs.len(),
{
    if msgs.len() == 0 {
        Seq::empty()
    } else {
        concat_chunks(msgs.drop_last()) + msgs.last().0
    }
}

/// One message taken by an assembler that holds `body`: the chunk is
/// appended, and the body is complete where the message is final.
pub open spec fn assemble_step(body: Seq<u8>, msg: (Seq<u8>, bool)) -> (Seq<u8>, bool) {
    (body + msg.0, msg.1)
}

/// What a run of messages gives to a fresh assembler: the body once a final
/// message arrives (later messages are never read), else the bytes so far
/// and no end.
pub open spec fn assemble(msgs: Seq<(Seq<u8>, bool)>) -> (Seq<u8>, bool)
    decreases msgs.len(),
{
    if msgs.len() == 0 {
        (Seq::empty(), false)
    } else {
        let (b, done) = assemble(msgs.drop_last());
        if done {
            (b, true)
        } else {
            assemble_step(b, msgs.last())
        }
    }
}

/// The result of handing one message to a `BodyAssembler`.
pub enum AssembleStep {
    /// wait for the next message
    Continue,
    /// the body is complete
    Finished(Vec<u8>),
    /// the channel closed early
    Failed(GettingBodyErrors),
}

/// Collects a streamed body, message after message.
pub struct BodyAssembler {
    pub body: Vec<u8>,
}

impl BodyAssembler {
    /// An assembler with nothing received.
    pub fn new() -> (r: BodyAssembler)
        ensures
            r.body@.len() == 0,
    {
        BodyAssembler { body: Vec::new() }
    }

    /// Takes the next message, or `None` where the channel closed: a
    /// non-final chunk is kept, a final one completes the body, and a close
    /// fails with the bytes that had arrived.
    pub fn receive(&mut self, msg: Option<(Vec<u8>, bool)>) -> (r: AssembleStep)
        ensures
            match msg {
                None => r matches AssembleStep::Failed(GettingBodyErrors::ConnectionError(Some(p)))
                    && p@ == old(self).body@,
                Some((d, end)) => (final(self).body@, end) == assemble_step(old(self).body@, (d@, end))
                    && if end {
                    r matches AssembleStep::Finished(b) && b@ == final(self).body@
                } else {
                    r is Continue
                },
            },
    {
        match msg {
            None => {
                let partial = copy_range(self.body.as_slice(), 0, self.body.len());
                AssembleStep::Failed(GettingBodyErrors::ConnectionError(Some(partial)))
            },
            Some((d, end)) => {
                append_bytes(&mut self.body, d.as_slice());
                if end {
                    AssembleStep::Finished(copy_range(self.body.as_slice(), 0, self.body.len()))
                } else {
                    AssembleStep::Continue
                }
            },
        }
    }
}

/// Streamed bodies lose and reorder nothing: for messages of which only the
/// last is final, the assembled body is every chunk concatenated in order,
/// and it is complete exactly at that last message.
pub proof fn lemma_stream_preserves_chunks(msgs: Seq<(Seq<u8>, bool)>)
    requires
        msgs.len() > 0,
        msgs.last().1,
        forall|i: int| 0 <= i < msgs.len() - 1 ==> !(#[trigger] msgs[i]).1,
    ensures
        assemble(msgs) == (concat_chunks(msgs), true),
        forall|k: int| 0 <= k < msgs.len() ==> !(#[trigger] assemble(msgs.subrange(0, k))).1,
{
    lemma_assemble_open(msgs.drop_last());
    assert forall|k: int| 0 <= k < msgs.len() implies !(#[trigger] assemble(msgs.subrange(0, k))).1 by {
        assert(msgs.subrange(0, k) =~= msgs.drop_last().subrange(0, k));
        lemma_assemble_open(msgs.drop_last().subrange(0, k));
    }
}

/// A streaming task sends the final chunk at most once, and only last.
pub proof fn lemma_drain_final_once_last(os: Seq<Option<Seq<u8>>>)
    ensures
        forall|i: int| 0 <= i < drain_run(os).len() - 1 ==> !(#[trigger] drain_run(os)[i]).1,
    decreases os.len(),
{
    if os.len() > 0 {
        let p = drain_run(os.drop_last());
        lemma_drain_final_once_last(os.drop_last());
        if !(p.len() > 0 && p.last().1) {
            let r = p.push(drain_message(os.last()));
            assert(r == drain_run(os));
            assert forall|i: int| 0 <= i < r.len() - 1 implies !(#[trigger] r[i]).1 by {
                assert(r[i] == p[i]);
            }
        }
    }
}

/// A streamed body arrives whole: whatever the reads, once the streaming
/// task has sent its final chunk, the assembler completes with every chunk
/// it sent, in order.
pub proof fn lemma_drain_then_assemble(os: Seq<Option<Seq<u8>>>)
    requires
        drain_run(os).len() > 0,
        drain_run(os).last().1,
    ensures
        assemble(drain_run(os)) == (concat_chunks(drain_run(os)), true),
{
    lemma_drain_final_once_last(os);
    lemma_stream_preserves_chunks(drain_run(os));
}

/// Before any final message, assembling concatenates.
proof fn lemma_assemble_open(msgs: Seq<(Seq<u8>, bool)>)
    requires
        forall|i: int| 0 <= i < msgs.len() ==> !(#[trigger] msgs[i]).1,
    ensures
        assemble(msgs) == (concat_chunks(msgs), false),
    decreases msgs.len(),
{
    if msgs.len() > 0 {
        let p = msgs.drop_last();
        assert forall|i: int| 0 <= i < p.len() implies !(#[trigger] p[i]).1 by {
            assert(p[i] == msgs[i]);
        }
        lemma_assemble_open(p);
        assert(!msgs[msgs.len() - 1].1);
    }
}

impl HttpResponse {
    /// The parsed head of this response.
    pub open spec fn head_view(&self) -> HeadView {
        (
            self.http_version@,
            self.status_code,
            self.status_label@,
            headers_view(self.headers@),
            self.content_length,
            self.size_of_head as nat,
        )
    }

    /// Parses the head at the start of `bytes`. Fails with `Incomplete`
    /// until the blank line that ends the head is there, and with `Malformed`
    /// where the head is not a response head. The body is not attached.
    pub fn read(bytes: &[u8]) -> (r: Result<HttpResponse, HeadError>)
        ensures
            match r {
                Ok(resp) => parse_head(bytes@) == Some(resp.head_view()) && resp.body is None
                    && keys_unique(headers_view(resp.headers@)),
                Err(HeadError::Incomplete) => head_end(bytes@) is None,
                Err(HeadError::Malformed) => head_end(bytes@) is Some && parse_head(bytes@) is None,
            },
    {
        let term: [u8; 4] = [13u8, 10u8, 13u8, 10u8];
        assert(term@ =~= head_terminator());
        let index = match find_bytes(bytes, &term) {
            None => {
                return Err(HeadError::Incomplete);
            },
            Some(i) => i,
        };
        proof {
            let c = choose|c: int| is_first_occurrence(bytes@, head_terminator(), c);
            if c < index as int {
                assert(!occurs_at(bytes@, head_terminator(), c));
            } else if c > index as int {
                assert(!occurs_at(bytes@, head_terminator(), index as int));
            }
            assert(head_end(bytes@) == Some(index as int));
        }
        let n = bytes.len();
        assert(index + 4 <= n);
        let section = slice_subrange(bytes, 0, index);
        let ls = split_lines(section);
        let ghost lv = vecs_view(ls@);
        assert(lv == lines(bytes@.subrange(0, index as int)));
        if utf8_string(copy_range(bytes, 0, index)).is_none() {
            return Err(HeadError::Malformed);
        }
        if ls.len() == 0 {
            return Err(HeadError::Malformed);
        }
        assert(lv[0] == ls@[0]@);
        let status_line = match utf8_string(copy_range(ls[0].as_slice(), 0, ls[0].len())) {
            None => {
                assert(ls@[0]@.subrange(0, ls@[0]@.len() as int) =~= lv[0]);
                return Err(HeadError::Malformed);
            },
            Some(s) => s,
        };
        assert(ls@[0]@.subrange(0, ls@[0]@.len() as int) =~= lv[0]);
        let status_chars = chars_of(status_line.as_str());
        let ts = split_tokens(&status_chars);
        let ghost tv = char_vecs_view(ts@);
        assert(tv == tokens(decode_utf8(lv[0])));
        if ts.len() < 2 {
            return Err(HeadError::Malformed);
        }
        assert(tv[1] == ts@[1]@ && tv[0] == ts@[0]@);
        let code = match parse_status_code(&ts[1]) {
            None => {
                return Err(HeadError::Malformed);
            },
            Some(c) => c,
        };
        let label_chars = join_tokens(&ts, 2);
        let ghost label_view = label_chars@;
        assert(label_view == join_space(tv.subrange(2, tv.len() as int)));
        let http_version = string_from_chars(&ts[0]);
        let status_label = string_from_chars(&label_chars);
        let mut headers: Vec<(String, String)> = Vec::new();
        let mut content_length: Option<usize> = None;
        let mut j: usize = 1;
        assert(lv.subrange(1, 1) =~= Seq::<Seq<u8>>::empty());
        assert(headers_view(headers@) =~= Seq::<(Seq<char>, Seq<char>)>::empty());
        let ghost expected = match headers_apply(lv.subrange(1, lv.len() as int)) {
            None => None,
            Some((h, cl)) => Some(
                (tv[0], code as u16, label_view, h, cl, (index + 4) as nat),
            ),
        };
        assert(parse_head(bytes@) == expected);
        while j < ls.len()
            invariant
                1 <= j <= ls@.len(),
                lv == vecs_view(ls@),
                parse_head(bytes@) == expected,
                head_end(bytes@) is Some,
                expected == match headers_apply(lv.subrange(1, lv.len() as int)) {
                    None => None,
                    Some((h, cl)) => Some(
                        (tv[0], code as u16, label_view, h, cl, (index + 4) as nat),
                    ),
                },
                headers_apply(lv.subrange(1, j as int)) == Some((headers_view(headers@), content_length)),
                keys_unique(headers_view(headers@)),
            decreases ls@.len() - j,
        {
            assert(lv.subrange(1, j + 1).drop_last() =~= lv.subrange(1, j as int));
            assert(lv.subrange(1, j + 1).last() == ls@[j as int]@);
            let ghost hv0 = headers_view(headers@);
            let ghost cl0 = content_length;
            if !apply_header_line(ls[j].as_slice(), &mut headers, &mut content_length) {
                proof {
                    assert(lv.subrange(1, ls@.len() as int).subrange(0, j as int) =~= lv.subrange(1, j + 1));
                    assert(apply_line(ls@[j as int]@, hv0, cl0) is None);
                    assert(headers_apply(lv.subrange(1, j + 1)) is None);
                    lemma_headers_apply_stuck(lv.subrange(1, ls@.len() as int), j - 1);
                }
                return Err(HeadError::Malformed);
            }
            j = j + 1;
        }
        assert(lv.subrange(1, j as int) =~= lv.subrange(1, lv.len() as int));
        let resp = HttpResponse {
            http_version,
            status_code: code as u16,
            status_label,
            headers,
            content_length,
            body: None,
            size_of_head: index + 4,
        };
        assert(resp.head_view() == (tv[0], code as u16, label_view,
            headers_view(resp.headers@), content_length, (index + 4) as nat));
        Ok(resp)
    }

    /// The value of a header, by its exact key: the first entry with that
    /// key (the only one, in a response that `read` produced).
    pub fn get(&self, key: &str) -> (r: Option<&String>)
        ensures
            match r {
                Some(v) => exists|i: int|
                    0 <= i < self.headers@.len() && headers_view(self.headers@)[i] == (key@, v@)
                        && forall|j: int| 0 <= j < i ==> (#[trigger] headers_view(self.headers@)[j]).0 != key@,
                None => forall|j: int| 0 <= j < self.headers@.len() ==> (#[trigger] headers_view(self.headers@)[j]).0 != key@,
            },
            keys_unique(headers_view(self.headers@)) ==> match r {
                Some(v) => header_lookup(headers_view(self.headers@), key@) == Some(v@),
                None => header_lookup(headers_view(self.headers@), key@) is None,
            },
    {
        let ghost h = headers_view(self.headers@);
        let k = key.to_owned();
        let mut i: usize = 0;
        while i < self.headers.len()
            invariant
                i <= self.headers@.len(),
                k@ == key@,
                h == headers_view(self.headers@),
                forall|j: int| 0 <= j < i ==> (#[trigger] h[j]).0 != key@,
            decreases self.headers@.len() - i,
        {
            if self.headers[i].0 == k {
                proof {
                    assert(h[i as int].0 == key@);
                    if keys_unique(h) {
                        let c = choose|c: int| 0 <= c < h.len() && #[trigger] h[c].0 == key@;
                        if c < i as int {
                            assert(h[c].0 != h[i as int].0);
                        } else if c > i as int {
                            assert(h[i as int].0 != h[c].0);
                        }
                    }
                }
                return Some(&self.headers[i].1);
            }
            i = i + 1;
        }
        proof {
            assert forall|j: int| 0 <= j < h.len() implies !(#[trigger] h[j].0 == key@) by {
                assert(h[j].0 != key@);
            }
        }
        None
    }

    /// The body bytes where no waiting is needed: a copy of a body known in
    /// full, or `NoBody` where there is none. `None` for a streamed body,
    /// which is collected as it arrives.
    pub fn fixed_body_bytes(&self) -> (r: Option<Result<Vec<u8>, GettingBodyErrors>>)
        ensures
            match self.body {
                None => r == Some(Err::<Vec<u8>, GettingBodyErrors>(GettingBodyErrors::NoBody)),
                Some(HttpBody::Bytes(b)) => r matches Some(Ok(v)) && v@ == b@,
                Some(HttpBody::Stream(_)) => r is None,
            },
    {
        match &self.body {
            None => Some(Err(GettingBodyErrors::NoBody)),
            Some(HttpBody::Bytes(b)) => Some(Ok(copy_range(b.as_slice(), 0, b.len()))),
            Some(HttpBody::Stream(_)) => None,
        }
    }
}

/// Once a header line fails to apply, applying more lines fails too.
proof fn lemma_headers_apply_stuck(ls: Seq<Seq<u8>>, k: int)
    requires
        0 <= k < ls.len(),
        headers_apply(ls.subrange(0, k + 1)) is None,
    ensures
        headers_apply(ls) is None,
    decreases ls.len(),
{
    if k + 1 == ls.len() {
        assert(ls.subrange(0, k + 1) =~= ls);
    } else {
        assert(ls.drop_last().subrange(0, k + 1) =~= ls.subrange(0, k + 1));
        lemma_headers_apply_stuck(ls.drop_last(), k);
    }
}

} // verus!
