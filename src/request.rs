//! Requests and request bodies, and the bytes of a request head.
use vstd::prelude::*;
use vstd::utf8::encode_utf8;
use crate::bytes::append_bytes;
use crate::traits::IntoUri;

verus! {

#[verifier::external_type_specification]
#[verifier::external_body]
#[verifier::reject_recursive_types(T)]
pub struct ExReceiver<T>(tokio::sync::mpsc::Receiver<T>);

#[verifier::external_type_specification]
#[verifier::external_body]
#[verifier::reject_recursive_types(T)]
pub struct ExSender<T>(tokio::sync::mpsc::Sender<T>);

/// One message of a streamed body: a chunk and whether it is the last one.
pub type BodyChunk = (Vec<u8>, bool);

/// The number of messages a channel holds before its sender waits, as the
/// sending end reports it (`max_capacity`).
pub uninterp spec fn sender_bound(s: tokio::sync::mpsc::Sender<BodyChunk>) -> nat;

/// The number of messages a channel holds before its sender waits, as the
/// receiving end reports it (`max_capacity`).
pub uninterp spec fn receiver_bound(r: tokio::sync::mpsc::Receiver<BodyChunk>) -> nat;

/// Relies on tokio::sync::mpsc::channel: a bounded channel whose both ends
/// report the given capacity as their `max_capacity`; it panics on a capacity
/// of zero or above its permit limit.
#[verifier::external_body]
fn bounded_channel(capacity: usize) -> (r: (
    tokio::sync::mpsc::Sender<BodyChunk>,
    tokio::sync::mpsc::Receiver<BodyChunk>,
))
    requires
        0 < capacity <= MAX_CHANNEL_CAPACITY,
    ensures
        sender_bound(r.0) == capacity,
        receiver_bound(r.1) == capacity,
{
    tokio::sync::mpsc::channel(capacity)
}

/// The largest capacity a bounded channel accepts.
pub const MAX_CHANNEL_CAPACITY: usize = usize::MAX >> 3usize;

/// The receiving end of a streamed body and the length it declares.
pub struct BodyBytesSender {
    pub receiver: tokio::sync::mpsc::Receiver<BodyChunk>,
    pub length: usize,
}

/// A request or response body.
pub enum HttpBody {
    /// bytes known in full
    Bytes(Vec<u8>),
    /// chunks that arrive over a channel
    Stream(BodyBytesSender),
}

impl HttpBody {
    /// A body of the given bytes.
    pub fn from_bytes(bytes: &[u8]) -> (r: HttpBody)
        ensures
            r matches HttpBody::Bytes(b) && b@ == bytes@,
    {
        HttpBody::Bytes(crate::bytes::copy_range(bytes, 0, bytes.len()))
    }

    /// A body of the UTF-8 bytes of a string.
    pub fn from_string(value: &str) -> (r: HttpBody)
        ensures
            r matches HttpBody::Bytes(b) && b@ == encode_utf8(value@),
    {
        Self::from_bytes(value.as_bytes())
    }

    /// A streamed body that declares `length` bytes, and the sender through
    /// which its producer pushes them; the channel between them holds up to
    /// `length` messages.
    pub fn send_chunks_stream(length: usize) -> (r: (HttpBody, tokio::sync::mpsc::Sender<BodyChunk>))
        requires
            0 < length <= MAX_CHANNEL_CAPACITY,
        ensures
            r.0 matches HttpBody::Stream(s) && s.length == length && receiver_bound(s.receiver)
                == length,
            sender_bound(r.1) == length,
    {
        let (sender, receiver) = bounded_channel(length);
        (HttpBody::Stream(BodyBytesSender { receiver, length }), sender)
    }
}

/// A header mapping as (key, value) pairs of characters.
pub type HeadersView = Seq<(Seq<char>, Seq<char>)>;

/// The view of a header list.
pub open spec fn headers_view(h: Seq<(String, String)>) -> HeadersView {
    h.map_values(|p: (String, String)| (p.0@, p.1@))
}

/// No key occurs twice.
pub open spec fn keys_unique(h: HeadersView) -> bool {
    forall|i: int, j: int| 0 <= i < j < h.len() ==> #[trigger] h[i].0 != #[trigger] h[j].0
}

/// The value stored under `key`, if any.
pub open spec fn header_lookup(h: HeadersView, key: Seq<char>) -> Option<Seq<char>> {
    if exists|i: int| 0 <= i < h.len() && #[trigger] h[i].0 == key {
        let i = choose|i: int| 0 <= i < h.len() && #[trigger] h[i].0 == key;
        Some(h[i].1)
    } else {
        None
    }
}

/// `h` with `key` mapped to `value`: the existing entry is updated in place,
/// or a new entry goes last.
pub open spec fn header_insert(h: HeadersView, key: Seq<char>, value: Seq<char>) -> HeadersView {
    if exists|i: int| 0 <= i < h.len() && #[trigger] h[i].0 == key {
        let i = choose|i: int| 0 <= i < h.len() && #[trigger] h[i].0 == key;
        h.update(i, (key, value))
    } else {
        h.push((key, value))
    }
}

/// The bytes of `s` with each "//" (from the left, without overlap) written "/".
pub open spec fn collapse_slashes(s: Seq<u8>) -> Seq<u8>
    decreases s.len(),
{
    if s.len() == 0 {
        Seq::empty()
    } else if s.len() >= 2 && s[0] == 47u8 && s[1] == 47u8 {
        seq![47u8] + collapse_slashes(s.subrange(2, s.len() as int))
    } else {
        seq![s[0]] + collapse_slashes(s.subrange(1, s.len() as int))
    }
}

/// "<key>: <value>\r\n"
pub open spec fn header_line(k: Seq<char>, v: Seq<char>) -> Seq<u8> {
    encode_utf8(k) + seq![58u8, 32u8] + encode_utf8(v) + seq![13u8, 10u8]
}

/// One header line per entry, in order.
pub open spec fn header_block(h: HeadersView) -> Seq<u8>
    decreases h.len(),
{
    if h.len() == 0 {
        Seq::empty()
    } else {
        header_block(h.drop_last()) + header_line(h.last().0, h.last().1)
    }
}

/// " HTTP/1.1\r\n"
pub open spec fn version_suffix() -> Seq<u8> {
    seq![32u8, 72u8, 84u8, 84u8, 80u8, 47u8, 49u8, 46u8, 49u8, 13u8, 10u8]
}

/// The request head: request line, header lines, blank line.
pub open spec fn request_head(method: Seq<char>, path: Seq<char>, h: HeadersView) -> Seq<u8> {
    encode_utf8(method) + seq![32u8] + collapse_slashes(encode_utf8(path)) + version_suffix()
        + header_block(h) + seq![13u8, 10u8]
}

/// Appends `src` to `dst` with each "//" written "/".
fn append_collapsed(dst: &mut Vec<u8>, src: &[u8])
    ensures
        final(dst)@ == old(dst)@ + collapse_slashes(src@),
{
    let ghost start = dst@;
    let mut i: usize = 0;
    assert(src@.subrange(0, src@.len() as int) =~= src@);
    while i < src.len()
        invariant
            i <= src@.len(),
            start + collapse_slashes(src@) == dst@ + collapse_slashes(src@.subrange(i as int, src@.len() as int)),
        decreases src@.len() - i,
    {
        let ghost rest = src@.subrange(i as int, src@.len() as int);
        if i + 1 < src.len() && src[i] == 47u8 && src[i + 1] == 47u8 {
            dst.push(47u8);
            assert(rest.subrange(2, rest.len() as int) =~= src@.subrange(i + 2, src@.len() as int));
            i = i + 2;
        } else {
            dst.push(src[i]);
            assert(rest.subrange(1, rest.len() as int) =~= src@.subrange(i + 1, src@.len() as int));
            i = i + 1;
        }
    }
    assert(src@.subrange(i as int, src@.len() as int) =~= Seq::<u8>::empty());
    assert(dst@ =~= start + collapse_slashes(src@));
}

/// What `water_uri` makes of the text of an address: `None` where it is not
/// an address, else the address's path, if it has one.
pub uninterp spec fn uri_path_of(text: Seq<char>) -> Option<Option<Seq<char>>>;

/// The view of a parsed path.
pub open spec fn parsed_path_view(r: Option<Option<String>>) -> Option<Option<Seq<char>>> {
    match r {
        None => None,
        Some(None) => Some(None),
        Some(Some(p)) => Some(Some(p@)),
    }
}

/// Relies on water_uri::Uri::new: parses the text of an address; the path is
/// taken from the parsed address, and a parse error becomes `None`.
#[verifier::external_body]
fn parse_uri_path(text: &String) -> (r: Option<Option<String>>)
    ensures
        parsed_path_view(r) == uri_path_of(text@),
{
    match water_uri::Uri::new(text.clone()) {
        Ok(uri) => Some(uri.path),
        Err(_) => None,
    }
}

/// The path a request for `text` asks for.
pub open spec fn request_path_spec(text: Seq<char>) -> Seq<char> {
    match uri_path_of(text) {
        None => text,
        Some(None) => seq!['/'],
        Some(Some(p)) => p,
    }
}

/// The path a request for `text` asks for: the path of the address, "/" for
/// an address without one, and the text itself where it is no address.
pub fn request_path(text: &String) -> (r: String)
    ensures
        r@ == request_path_spec(text@),
{
    match parse_uri_path(text) {
        None => text.clone(),
        Some(None) => {
            let r = "/".to_owned();
            proof {
                reveal_strlit("/");
            }
            r
        },
        Some(Some(p)) => p,
    }
}

/// Sets `key` to `value` in a header list with unique keys: an existing
/// entry with that key is updated in place, otherwise the entry goes last.
pub fn insert_header(headers: &mut Vec<(String, String)>, key: String, value: String)
    requires
        keys_unique(headers_view(old(headers)@)),
    ensures
        keys_unique(headers_view(final(headers)@)),
        headers_view(final(headers)@) == header_insert(headers_view(old(headers)@), key@, value@),
        header_lookup(headers_view(final(headers)@), key@) == Some(value@),
{
    let ghost h = headers_view(headers@);
    let mut i: usize = 0;
    while i < headers.len()
        invariant
            i <= headers@.len(),
            *headers == *old(headers),
            h == headers_view(old(headers)@),
            keys_unique(h),
            forall|j: int| 0 <= j < i ==> #[trigger] h[j].0 != key@,
        decreases headers@.len() - i,
    {
        if headers[i].0 == key {
            let ghost ki = key@;
            headers.set(i, (key, value));
            proof {
                assert(h[i as int].0 == ki);
                let c = choose|j: int| 0 <= j < h.len() && #[trigger] h[j].0 == ki;
                if c < i as int {
                    assert(h[c].0 != h[i as int].0);
                } else if c > i as int {
                    assert(h[i as int].0 != h[c].0);
                }
                assert(c == i as int);
                let hn = headers_view(headers@);
                assert(hn =~= h.update(i as int, (ki, value@)));
                assert(hn[i as int].0 == ki);
                assert forall|a: int, b: int| 0 <= a < b < hn.len() implies #[trigger] hn[a].0
                    != #[trigger] hn[b].0 by {
                    assert(hn[a].0 == h[a].0 && hn[b].0 == h[b].0);
                }
            }
            return;
        }
        i = i + 1;
    }
    headers.push((key, value));
    proof {
        let hn = headers_view(headers@);
        assert(hn =~= h.push((key@, value@)));
        assert(hn[h.len() as int].0 == key@);
        assert forall|a: int, b: int| 0 <= a < b < hn.len() implies #[trigger] hn[a].0
            != #[trigger] hn[b].0 by {
            if b < h.len() {
                assert(hn[a].0 == h[a].0 && hn[b].0 == h[b].0);
            } else {
                assert(hn[a].0 == h[a].0);
            }
        }
        assert(!(exists|j: int| 0 <= j < h.len() && #[trigger] h[j].0 == key@));
    }
}

/// An HTTP request: method, path, headers and an optional body.
pub struct HttpRequest {
    pub method: &'static str,
    pub path: String,
    pub headers: Vec<(String, String)>,
    pub body: Option<HttpBody>,
}

impl HttpRequest {
    /// The headers as a sequence of (key, value) character strings.
    pub open spec fn headers_spec(&self) -> HeadersView {
        headers_view(self.headers@)
    }

    /// Header keys are unique.
    pub open spec fn wf(&self) -> bool {
        keys_unique(self.headers_spec())
    }

    /// A GET request for a path, without headers or body.
    pub fn with_path(path: String) -> (r: HttpRequest)
        ensures
            r.wf(),
            r.method@ == seq!['G', 'E', 'T'],
            r.path@ == path@,
            r.headers@.len() == 0,
            r.body is None,
    {
        let r = HttpRequest { method: "GET", path, headers: Vec::new(), body: None };
        proof {
            reveal_strlit("GET");
        }
        r
    }

    /// A GET request for the path of an address; text that is not an address
    /// is taken as the path itself, and an address without a path asks for "/".
    pub fn new<U: IntoUri>(into_uri: U) -> (r: HttpRequest)
        ensures
            r.wf(),
            r.method@ == seq!['G', 'E', 'T'],
            r.path@ == request_path_spec(into_uri.text()),
            r.headers@.len() == 0,
            r.body is None,
    {
        let text = into_uri.to_string();
        let path = request_path(&text);
        Self::with_path(path)
    }

    /// Sets `key` to `value`: an existing entry with that key is updated in
    /// place, otherwise the entry goes last.
    pub fn set_header(&mut self, key: String, value: String)
        requires
            old(self).wf(),
        ensures
            final(self).wf(),
            final(self).headers_spec() == header_insert(old(self).headers_spec(), key@, value@),
            header_lookup(final(self).headers_spec(), key@) == Some(value@),
            final(self).method == old(self).method,
            final(self).path == old(self).path,
            final(self).body == old(self).body,
    {
        insert_header(&mut self.headers, key, value);
    }

    /// The request head as it goes on the wire: the method, the path with
    /// each "//" written "/", the version, one line per header in order, and
    /// a blank line.
    pub fn writeable_head_bytes(&self) -> (r: Vec<u8>)
        ensures
            r@ == request_head(self.method@, self.path@, self.headers_spec()),
    {
        let mut out: Vec<u8> = Vec::with_capacity(1000);
        append_bytes(&mut out, self.method.as_bytes());
        out.push(32u8);
        append_collapsed(&mut out, self.path.as_str().as_bytes());
        let suffix: [u8; 11] = [32u8, 72u8, 84u8, 84u8, 80u8, 47u8, 49u8, 46u8, 49u8, 13u8, 10u8];
        append_bytes(&mut out, &suffix);
        assert(suffix@ =~= version_suffix());
        assert(out@ == encode_utf8(self.method@) + seq![32u8] + collapse_slashes(encode_utf8(self.path@))
            + version_suffix());
        let ghost prefix = out@;
        let mut i: usize = 0;
        while i < self.headers.len()
            invariant
                i <= self.headers@.len(),
                out@ == prefix + header_block(self.headers_spec().subrange(0, i as int)),
            decreases self.headers@.len() - i,
        {
            let (k, v) = &self.headers[i];
            append_bytes(&mut out, k.as_str().as_bytes());
            out.push(58u8);
            out.push(32u8);
            append_bytes(&mut out, v.as_str().as_bytes());
            out.push(13u8);
            out.push(10u8);
            proof {
                let hs = self.headers_spec();
                let sub = hs.subrange(0, i + 1);
                assert(sub.drop_last() =~= hs.subrange(0, i as int));
                assert(sub.last() == (k@, v@));
            }
            i = i + 1;
            assert(out@ =~= prefix + header_block(self.headers_spec().subrange(0, i as int)));
        }
        assert(self.headers_spec().subrange(0, i as int) =~= self.headers_spec());
        out.push(13u8);
        out.push(10u8);
        assert(out@ =~= request_head(self.method@, self.path@, self.headers_spec()));
        out
    }

    /// A GET request.
    pub fn get<U: IntoUri>(into_uri: U) -> (r: HttpRequest)
        ensures
            r.wf(),
            r.method@ == seq!['G', 'E', 'T'],
            r.path@ == request_path_spec(into_uri.text()),
            r.headers@.len() == 0,
            r.body is None,
    {
        Self::new(into_uri)
    }

    /// A POST request.
    pub fn post<U: IntoUri>(into_uri: U) -> (r: HttpRequest)
        ensures
            r.wf(),
            r.method@ == seq!['P', 'O', 'S', 'T'],
            r.path@ == request_path_spec(into_uri.text()),
            r.headers@.len() == 0,
            r.body is None,
    {
        let mut new = Self::new(into_uri);
        new.set_method("POST");
        proof {
            reveal_strlit("POST");
        }
        new
    }

    /// A PATCH request.
    pub fn patch<U: IntoUri>(into_uri: U) -> (r: HttpRequest)
        ensures
            r.wf(),
            r.method@ == seq!['P', 'A', 'T', 'C', 'H'],
            r.path@ == request_path_spec(into_uri.text()),
            r.headers@.len() == 0,
            r.body is None,
    {
        let mut new = Self::new(into_uri);
        new.set_method("PATCH");
        proof {
            reveal_strlit("PATCH");
        }
        new
    }

    /// A DELETE request.
    pub fn delete<U: IntoUri>(into_uri: U) -> (r: HttpRequest)
        ensures
            r.wf(),
            r.method@ == seq!['D', 'E', 'L', 'E', 'T', 'E'],
            r.path@ == request_path_spec(into_uri.text()),
            r.headers@.len() == 0,
            r.body is None,
    {
        let mut new = Self::new(into_uri);
        new.set_method("DELETE");
        proof {
            reveal_strlit("DELETE");
        }
        new
    }

    /// Whether no header key occurs twice.
    pub fn keys_are_unique(&self) -> (r: bool)
        ensures
            r == self.wf(),
    {
        let ghost h = self.headers_spec();
        let n = self.headers.len();
        let mut i: usize = 0;
        while i < n
            invariant
                n == self.headers@.len(),
                h == self.headers_spec(),
                i <= n,
                forall|a: int, b: int| 0 <= a < b < h.len() && a < i ==> #[trigger] h[a].0 != #[trigger] h[b].0,
            decreases n - i,
        {
            let mut j: usize = i + 1;
            while j < n
                invariant
                    n == self.headers@.len(),
                    h == self.headers_spec(),
                    i < j <= n,
                    forall|a: int, b: int| 0 <= a < b < h.len() && a < i ==> #[trigger] h[a].0 != #[trigger] h[b].0,
                    forall|b: int| i < b < j ==> h[i as int].0 != #[trigger] h[b].0,
                decreases n - j,
            {
                if self.headers[i].0 == self.headers[j].0 {
                    assert(h[i as int].0 == h[j as int].0);
                    return false;
                }
                j = j + 1;
            }
            i = i + 1;
        }
        true
    }

    /// Replaces the method.
    pub fn set_method(&mut self, method: &'static str)
        ensures
            final(self).method == method,
            final(self).path == old(self).path,
            final(self).headers == old(self).headers,
            final(self).body == old(self).body,
    {
        self.method = method;
    }

    /// Replaces the body.
    pub fn set_body(&mut self, body: HttpBody)
        ensures
            final(self).body == Some(body),
            final(self).method == old(self).method,
            final(self).path == old(self).path,
            final(self).headers == old(self).headers,
    {
        self.body = Some(body);
    }
}

} // verus!
