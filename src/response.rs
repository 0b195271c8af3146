//! A received response and the ways its body is turned into values.
use vstd::prelude::*;
use vstd::string::StringSliceAdditionalSpecFns;

use crate::error::Error;
use crate::error::Kind;
use crate::headers::header_entries;
use crate::headers::header_values;
use crate::headers::views_of;

verus! {

/// One unit of a response body as the transport delivers it.
#[derive(Clone, Debug)]
pub enum Frame {
    /// Payload bytes.
    Data(Vec<u8>),
    /// A frame that carries no payload, such as trailers.
    Other,
    /// The body stream failed.
    Failed,
}

/// Whether the frames hold a failure.
pub open spec fn has_failure(fs: Seq<Frame>) -> bool {
    exists|i: int| 0 <= i < fs.len() && fs[i] is Failed
}

/// The items of the data stream over `fs`: each payload in order, frames
/// without payload skipped, and a failure as a last `None` item.
pub open spec fn stream_items(fs: Seq<Frame>) -> Seq<Option<Seq<u8>>>
    decreases fs.len(),
{
    if fs.len() == 0 {
        Seq::empty()
    } else {
        let before = stream_items(fs.drop_last());
        if has_failure(fs.drop_last()) {
            before
        } else {
            match fs.last() {
                Frame::Data(d) => before.push(Some(d@)),
                Frame::Other => before,
                Frame::Failed => before.push(None),
            }
        }
    }
}

/// The whole body over `fs`: the payloads joined, or `None` on a failure.
pub open spec fn collected(fs: Seq<Frame>) -> Option<Seq<u8>>
    decreases fs.len(),
{
    if fs.len() == 0 {
        Some(Seq::empty())
    } else {
        match collected(fs.drop_last()) {
            None => None,
            Some(p) => match fs.last() {
                Frame::Data(d) => Some(p + d@),
                Frame::Other => Some(p),
                Frame::Failed => None,
            },
        }
    }
}

proof fn lemma_collected_none(fs: Seq<Frame>)
    ensures
        collected(fs) is None <==> has_failure(fs),
    decreases fs.len(),
{
    if fs.len() > 0 {
        lemma_collected_none(fs.drop_last());
        if has_failure(fs.drop_last()) {
            let i = choose|i: int| 0 <= i < fs.drop_last().len() && fs.drop_last()[i] is Failed;
            assert(fs[i] is Failed);
        }
        if has_failure(fs) && !has_failure(fs.drop_last()) {
            let i = choose|i: int| 0 <= i < fs.len() && fs[i] is Failed;
            if i < fs.len() - 1 {
                assert(fs.drop_last()[i] is Failed);
            }
        }
    }
}

proof fn lemma_items_stop(fs: Seq<Frame>, k: int)
    requires
        0 <= k <= fs.len(),
        has_failure(fs.take(k)),
    ensures
        stream_items(fs) == stream_items(fs.take(k)),
    decreases fs.len() - k,
{
    if k < fs.len() {
        lemma_items_stop(fs, k + 1);
        let i = choose|i: int| 0 <= i < fs.take(k).len() && fs.take(k)[i] is Failed;
        assert(fs.take(k + 1).drop_last() =~= fs.take(k));
        assert(fs.take(k + 1)[i] is Failed);
    } else {
        assert(fs.take(k) =~= fs);
    }
}

/// An HTTP status code of the client-error or server-error classes.
pub open spec fn is_error_status(s: u16) -> bool {
    400 <= s < 600
}

pub open spec fn is_digit(b: u8) -> bool {
    48 <= b <= 57
}

/// The value of a run of decimal digits.
pub open spec fn digits_value(s: Seq<u8>) -> nat
    decreases s.len(),
{
    if s.len() == 0 {
        0
    } else {
        digits_value(s.drop_last()) * 10 + (s.last() - 48) as nat
    }
}

/// The digits of a decimal text after an optional leading `+`.
pub open spec fn unsigned_digits(s: Seq<u8>) -> Seq<u8> {
    if s.len() > 0 && s[0] == 43 {
        s.drop_first()
    } else {
        s
    }
}

/// A decimal `u64` as `str::parse` reads it: an optional `+`, then at least
/// one digit and nothing else, with a value that fits.
pub open spec fn decimal_u64(s: Seq<u8>) -> Option<u64> {
    let d = unsigned_digits(s);
    if d.len() > 0 && (forall|i: int| 0 <= i < d.len() ==> is_digit(#[trigger] d[i]))
        && digits_value(d) <= u64::MAX {
        Some(digits_value(d) as u64)
    } else {
        None
    }
}

proof fn lemma_digits_grow(s: Seq<u8>, j: int, k: int)
    requires
        0 <= j <= k <= s.len(),
        forall|i: int| 0 <= i < s.len() ==> is_digit(#[trigger] s[i]),
    ensures
        digits_value(s.take(j)) <= digits_value(s.take(k)),
    decreases k - j,
{
    if j < k {
        lemma_digits_grow(s, j, k - 1);
        assert(s.take(k).drop_last() =~= s.take(k - 1));
    }
}

/// The `content-length` header name.
pub open spec fn content_length_name() -> Seq<char> {
    seq!['c', 'o', 'n', 't', 'e', 'n', 't', '-', 'l', 'e', 'n', 'g', 't', 'h']
}

/// The `content-type` header name.
pub open spec fn content_type_name() -> Seq<char> {
    seq!['c', 'o', 'n', 't', 'e', 'n', 't', '-', 't', 'y', 'p', 'e']
}

/// Parses a decimal `u64` in the form that `decimal_u64` describes.
pub fn parse_decimal_u64(s: &[u8]) -> (r: Option<u64>)
    ensures
        r == decimal_u64(s@),
{
    let mut start: usize = 0;
    if s.len() > 0 && s[0] == 43 {
        start = 1;
    }
    let ghost d = unsigned_digits(s@);
    assert(d =~= s@.subrange(start as int, s@.len() as int));
    if start >= s.len() {
        return None;
    }
    let mut v: u64 = 0;
    let mut i: usize = start;
    while i < s.len()
        invariant
            start <= i <= s.len(),
            d == unsigned_digits(s@),
            d == s@.subrange(start as int, s@.len() as int),
            forall|j: int| 0 <= j < i - start ==> is_digit(#[trigger] d[j]),
            v as nat == digits_value(d.take(i - start)),
        decreases s.len() - i,
    {
        let b = s[i];
        if b < 48 || b > 57 {
            proof {
                assert(!is_digit(d[i - start]));
            }
            return None;
        }
        proof {
            assert(d.take(i - start + 1).drop_last() =~= d.take(i - start));
            assert(d[i - start] == b);
        }
        let step = v.checked_mul(10);
        match step {
            None => {
                proof {
                    assert(digits_value(d.take(i - start + 1)) == v * 10 + (b - 48));
                    assert(digits_value(d.take(i - start + 1)) > u64::MAX);
                    assert(decimal_u64(s@) is None) by {
                        if forall|j: int| 0 <= j < d.len() ==> is_digit(#[trigger] d[j]) {
                            lemma_digits_grow(d, i - start + 1, d.len() as int);
                            assert(d.take(d.len() as int) =~= d);
                        }
                    }
                }
                return None;
            },
            Some(t) => match t.checked_add((b - 48) as u64) {
                None => {
                    proof {
                        assert(digits_value(d.take(i - start + 1)) == t + (b - 48));
                        assert(decimal_u64(s@) is None) by {
                            if forall|j: int| 0 <= j < d.len() ==> is_digit(#[trigger] d[j]) {
                                lemma_digits_grow(d, i - start + 1, d.len() as int);
                                assert(d.take(d.len() as int) =~= d);
                            }
                        }
                    }
                    return None;
                },
                Some(w) => {
                    v = w;
                },
            },
        }
        i = i + 1;
    }
    proof {
        assert(d.take(d.len() as int) =~= d);
    }
    Some(v)
}

/// Joins the payloads of `frames`; a failed frame is a body error.
pub fn collect_body(frames: &Vec<Frame>) -> (r: Result<Vec<u8>, Error>)
    ensures
        r is Ok <==> collected(frames@) is Some,
        r matches Ok(b) ==> Some(b@) == collected(frames@),
        r matches Err(e) ==> e.kind == Kind::Body && e.url is None && e.status is None
                && !e.timed_out,
{
    let mut out: Vec<u8> = Vec::new();
    let mut i: usize = 0;
    while i < frames.len()
        invariant
            0 <= i <= frames@.len(),
            collected(frames@.take(i as int)) == Some(out@),
        decreases frames.len() - i,
    {
        proof {
            assert(frames@.take(i as int + 1).drop_last() =~= frames@.take(i as int));
        }
        match &frames[i] {
            Frame::Data(d) => {
                let mut j: usize = 0;
                let ghost before = out@;
                while j < d.len()
                    invariant
                        0 <= j <= d@.len(),
                        out@ == before + d@.take(j as int),
                    decreases d.len() - j,
                {
                    out.push(d[j]);
                    proof {
                        assert(d@.take(j as int + 1) =~= d@.take(j as int).push(d@[j as int]));
                    }
                    j = j + 1;
                }
                proof {
                    assert(d@.take(d@.len() as int) =~= d@);
                }
            },
            Frame::Other => {},
            Frame::Failed => {
                proof {
                    assert(frames@.take(i as int + 1)[i as int] is Failed);
                    lemma_collected_none(frames@.take(i as int + 1));
                    lemma_collected_none(frames@);
                    assert(has_failure(frames@)) by {
                        assert(frames@[i as int] is Failed);
                    }
                }
                return Err(Error::body());
            },
        }
        i = i + 1;
    }
    proof {
        assert(frames@.take(frames@.len() as int) =~= frames@);
    }
    Ok(out)
}

/// What the data stream does with one polled frame.
pub enum StreamStep {
    /// Hand this item to the consumer.
    Yield(Result<Vec<u8>, Error>),
    /// Poll the body again.
    Skip,
    /// Hand out no more items.
    End,
}

/// The decision for one poll of the body, where `None` is its end: a payload
/// is handed on, a frame without payload is skipped, a failure is handed on
/// as a body error after which the stream ends.
pub fn stream_step(polled: Option<Frame>) -> (r: StreamStep)
    ensures
        match polled {
            None => r is End,
            Some(Frame::Data(d)) => r matches StreamStep::Yield(Ok(b)) && b == d,
            Some(Frame::Other) => r is Skip,
            Some(Frame::Failed) => r matches StreamStep::Yield(Err(e)) && e.kind == Kind::Body
                && e.url is None && e.status is None && !e.timed_out,
        },
{
    match polled {
        None => StreamStep::End,
        Some(Frame::Data(d)) => StreamStep::Yield(Ok(d)),
        Some(Frame::Other) => StreamStep::Skip,
        Some(Frame::Failed) => StreamStep::Yield(Err(Error::body())),
    }
}

/// The data stream over `frames`: payloads in order, other frames skipped,
/// and a failure ending the stream with one error item.
pub fn data_stream(frames: &Vec<Frame>) -> (r: Vec<Result<Vec<u8>, Error>>)
    ensures
        r@.len() == stream_items(frames@).len(),
        forall|i: int|
            0 <= i < r@.len() ==> match #[trigger] r@[i] {
                Ok(b) => stream_items(frames@)[i] == Some(b@),
                Err(e) => stream_items(frames@)[i] is None && e.kind == Kind::Body
                    && e.url is None && e.status is None && !e.timed_out,
            },
{
    let mut out: Vec<Result<Vec<u8>, Error>> = Vec::new();
    let mut i: usize = 0;
    while i < frames.len()
        invariant
            0 <= i <= frames@.len(),
            !has_failure(frames@.take(i as int)),
            out@.len() == stream_items(frames@.take(i as int)).len(),
            forall|k: int|
                0 <= k < out@.len() ==> match #[trigger] out@[k] {
                    Ok(b) => stream_items(frames@.take(i as int))[k] == Some(b@),
                    Err(e) => stream_items(frames@.take(i as int))[k] is None && e.kind
                        == Kind::Body && e.url is None && e.status is None && !e.timed_out,
                },
        decreases frames.len() - i,
    {
        let ghost prev = frames@.take(i as int);
        let ghost next = frames@.take(i as int + 1);
        proof {
            assert(next.drop_last() =~= prev);
        }
        match &frames[i] {
            Frame::Data(d) => {
                let c = d.clone();
                proof {
                    assert(c@ =~= d@);
                }
                out.push(Ok(c));
            },
            Frame::Other => {},
            Frame::Failed => {
                out.push(Err(Error::body()));
                proof {
                    assert(next[i as int] is Failed);
                    lemma_items_stop(frames@, i as int + 1);
                }
                return out;
            },
        }
        proof {
            assert(!has_failure(next)) by {
                if has_failure(next) {
                    let k = choose|k: int| 0 <= k < next.len() && next[k] is Failed;
                    if k < i {
                        assert(prev[k] is Failed);
                    }
                }
            }
        }
        i = i + 1;
    }
    proof {
        assert(frames@.take(frames@.len() as int) =~= frames@);
    }
    out
}

/// A byte that `HeaderValue::to_str` lets through.
pub open spec fn is_visible_byte(b: u8) -> bool {
    (32 <= b && b < 127) || b == 9
}

pub open spec fn is_visible(v: Seq<u8>) -> bool {
    forall|i: int| 0 <= i < v.len() ==> is_visible_byte(#[trigger] v[i])
}

/// The `charset` parameter that `mime` reads from a media type, if the text
/// parses as one and carries that parameter.
pub uninterp spec fn charset_param(content_type: Seq<u8>) -> Option<Seq<u8>>;

/// The text that `encoding_rs` decodes from `body` under the encoding that
/// `label` names, or `None` for a label it does not know.
pub uninterp spec fn decoded_text(label: Seq<u8>, body: Seq<u8>) -> Option<Seq<char>>;

pub open spec fn utf8_label() -> Seq<u8> {
    seq![117u8, 116u8, 102u8, 45u8, 56u8]
}

/// Relies on `str::from_utf8`, `Mime`'s `FromStr` and `Mime::get_param`:
/// the `charset` parameter of a content type, where there is one.
#[verifier::external_body]
fn content_type_charset(content_type: &[u8]) -> (r: Option<Vec<u8>>)
    requires
        is_visible(content_type@),
    ensures
        match r {
            Some(c) => charset_param(content_type@) == Some(c@),
            None => charset_param(content_type@) is None,
        },
{
    let text = std::str::from_utf8(content_type).ok()?;
    let media: mime::Mime = text.parse().ok()?;
    media.get_param("charset").map(|c| c.as_str().as_bytes().to_vec())
}

/// Relies on `Encoding::for_label` and `Encoding::decode`: the body decoded
/// with BOM sniffing, the BOM removed and malformed sequences replaced; the
/// label `utf-8` is always known.
#[verifier::external_body]
fn decode_labeled(label: &[u8], body: &[u8]) -> (r: Option<String>)
    ensures
        match r {
            Some(t) => decoded_text(label@, body@) == Some(t@),
            None => decoded_text(label@, body@) is None,
        },
        label@ == utf8_label() ==> r is Some,
{
    encoding_rs::Encoding::for_label(label).map(|e| e.decode(body).0.into_owned())
}

/// The label a body is decoded under: the `charset` of a readable
/// `Content-Type`, else `fallback`.
pub open spec fn charset_label(h: Map<Seq<char>, Seq<Seq<u8>>>, fallback: Seq<u8>) -> Seq<u8> {
    if h.contains_key(content_type_name()) && is_visible(h[content_type_name()][0])
        && charset_param(h[content_type_name()][0]) is Some {
        charset_param(h[content_type_name()][0])->Some_0
    } else {
        fallback
    }
}

/// A readable `Content-Type` with a `charset` decides the label over the
/// fallback; without that header, or where it cannot be read or carries no
/// `charset`, the fallback is used.
pub proof fn charset_header_over_fallback(h: Map<Seq<char>, Seq<Seq<u8>>>, fallback: Seq<u8>)
    ensures
        h.contains_key(content_type_name()) && is_visible(h[content_type_name()][0])
            && charset_param(h[content_type_name()][0]) is Some ==> charset_label(h, fallback)
            == charset_param(h[content_type_name()][0])->Some_0,
        !h.contains_key(content_type_name()) ==> charset_label(h, fallback) == fallback,
        h.contains_key(content_type_name()) && (!is_visible(h[content_type_name()][0])
            || charset_param(h[content_type_name()][0]) is None) ==> charset_label(h, fallback)
            == fallback,
{
}

/// The text of `body` under `label`, or under UTF-8 where the label is unknown.
pub open spec fn text_under(label: Seq<u8>, body: Seq<u8>) -> Seq<char> {
    match decoded_text(label, body) {
        Some(t) => t,
        None => decoded_text(utf8_label(), body)->Some_0,
    }
}

/// Decodes `body` under `label`, falling back to UTF-8 for an unknown label.
pub fn decode_text(label: &[u8], body: &[u8]) -> (r: String)
    ensures
        r@ == text_under(label@, body@),
{
    match decode_labeled(label, body) {
        Some(t) => t,
        None => {
            let utf8: [u8; 5] = [117u8, 116u8, 102u8, 45u8, 56u8];
            let fallback = utf8.as_slice();
            proof {
                assert(fallback@ =~= utf8_label());
            }
            match decode_labeled(fallback, body) {
                Some(t) => t,
                None => String::new(),
            }
        },
    }
}

fn copy_bytes(s: &[u8]) -> (r: Vec<u8>)
    ensures
        r@ == s@,
{
    let mut out: Vec<u8> = Vec::new();
    let mut i: usize = 0;
    while i < s.len()
        invariant
            0 <= i <= s@.len(),
            out@ == s@.take(i as int),
        decreases s.len() - i,
    {
        out.push(s[i]);
        proof {
            assert(s@.take(i as int + 1) =~= s@.take(i as int).push(s@[i as int]));
        }
        i = i + 1;
    }
    proof {
        assert(s@.take(s@.len() as int) =~= s@);
    }
    out
}

/// The encoding label for a response with headers `h`.
pub fn select_charset(h: &http::HeaderMap, fallback: &[u8]) -> (r: Vec<u8>)
    ensures
        r@ == charset_label(header_entries(*h), fallback@),
{
    let name = "content-type";
    proof {
        reveal_strlit("content-type");
        assert(name@ =~= content_type_name());
    }
    let vs = header_values(h, name);
    if vs.len() > 0 {
        proof {
            assert(views_of(vs@).len() == vs@.len());
            assert(vs@[0]@ == views_of(vs@)[0]);
        }
        let v = &vs[0];
        let mut visible = true;
        let mut i: usize = 0;
        while i < v.len()
            invariant
                0 <= i <= v@.len(),
                visible == (forall|j: int| 0 <= j < i ==> is_visible_byte(#[trigger] v@[j])),
            decreases v.len() - i,
        {
            let b = v[i];
            if !((32 <= b && b < 127) || b == 9) {
                visible = false;
            }
            i = i + 1;
        }
        if visible {
            if let Some(c) = content_type_charset(v.as_slice()) {
                return c;
            }
        }
    }
    copy_bytes(fallback)
}

/// A response: status, headers and final URL, which may be read any number
/// of times, and a body that one decoding consumes.
pub struct Response {
    status: u16,
    headers: http::HeaderMap,
    url: String,
    frames: Vec<Frame>,
}

impl Response {
    pub closed spec fn status_spec(&self) -> u16 {
        self.status
    }

    pub closed spec fn entries(&self) -> Map<Seq<char>, Seq<Seq<u8>>> {
        header_entries(self.headers)
    }

    pub closed spec fn url_spec(&self) -> Seq<char> {
        self.url@
    }

    pub closed spec fn frames_spec(&self) -> Seq<Frame> {
        self.frames@
    }

    pub fn new(status: u16, headers: http::HeaderMap, url: String, frames: Vec<Frame>) -> (r:
        Response)
        requires
            100 <= status <= 999,
        ensures
            r.status_spec() == status,
            r.entries() == header_entries(headers),
            r.url_spec() == url@,
            r.frames_spec() == frames@,
    {
        Response { status, headers, url, frames }
    }

    pub fn status(&self) -> (r: u16)
        ensures
            r == self.status_spec(),
    {
        self.status
    }

    pub fn headers(&self) -> (r: &http::HeaderMap)
        ensures
            header_entries(*r) == self.entries(),
    {
        &self.headers
    }

    pub fn headers_mut(&mut self) -> (r: &mut http::HeaderMap)
        ensures
            header_entries(*r) == old(self).entries(),
            header_entries(*final(r)) == final(self).entries(),
            final(self).status_spec() == old(self).status_spec(),
            final(self).url_spec() == old(self).url_spec(),
            final(self).frames_spec() == old(self).frames_spec(),
    {
        &mut self.headers
    }

    pub fn url(&self) -> (r: &String)
        ensures
            r@ == self.url_spec(),
    {
        &self.url
    }

    /// The `Content-Length` header read as a decimal number; `None` where it
    /// is absent or not a number that fits.
    pub fn content_length(&self) -> (r: Option<u64>)
        ensures
            r == (if self.entries().contains_key(content_length_name()) {
                decimal_u64(self.entries()[content_length_name()][0])
            } else {
                None
            }),
    {
        let name = "content-length";
        proof {
            reveal_strlit("content-length");
            assert(name@ =~= content_length_name());
        }
        let vs = header_values(&self.headers, name);
        if vs.len() == 0 {
            proof {
                assert(views_of(vs@).len() == vs@.len());
            }
            None
        } else {
            proof {
                assert(views_of(vs@).len() == vs@.len());
                assert(vs@[0]@ == views_of(vs@)[0]);
            }
            parse_decimal_u64(vs[0].as_slice())
        }
    }

    /// The whole body; a failure while reading it is a body error.
    pub fn bytes(self) -> (r: Result<Vec<u8>, Error>)
        ensures
            r is Ok <==> collected(self.frames_spec()) is Some,
            r matches Ok(b) ==> Some(b@) == collected(self.frames_spec()),
            r matches Err(e) ==> e.kind == Kind::Body && e.url is None && e.status is None
                && !e.timed_out,
    {
        collect_body(&self.frames)
    }

    /// The body as text, under the `charset` of `Content-Type` where one is
    /// given and readable, else under `default_encoding`, and under UTF-8
    /// where that label is unknown.
    pub fn text_with_charset(self, default_encoding: &str) -> (r: Result<String, Error>)
        ensures
            r is Ok <==> collected(self.frames_spec()) is Some,
            r matches Ok(t) ==> t@ == text_under(
                charset_label(self.entries(), default_encoding.spec_bytes()),
                collected(self.frames_spec())->Some_0,
            ),
            r matches Err(e) ==> e.kind == Kind::Body && e.url is None && e.status is None
                && !e.timed_out,
    {
        let label = select_charset(&self.headers, default_encoding.as_bytes());
        let body = collect_body(&self.frames)?;
        Ok(decode_text(label.as_slice(), body.as_slice()))
    }

    /// The body as text with `utf-8` as the default encoding.
    pub fn text(self) -> (r: Result<String, Error>)
        ensures
            r is Ok <==> collected(self.frames_spec()) is Some,
            r matches Ok(t) ==> t@ == text_under(
                charset_label(self.entries(), utf8_label()),
                collected(self.frames_spec())->Some_0,
            ),
            r matches Err(e) ==> e.kind == Kind::Body && e.url is None && e.status is None
                && !e.timed_out,
    {
        let fallback = "utf-8";
        proof {
            reveal_strlit("utf-8");
            assert(fallback.spec_bytes() =~= utf8_label()) by {
                vstd::string::is_ascii_spec_bytes(fallback);
            }
        }
        self.text_with_charset(fallback)
    }

    /// The body's data frames as a finite sequence of chunks, in order.
    pub fn bytes_stream(self) -> (r: Vec<Result<Vec<u8>, Error>>)
        ensures
            r@.len() == stream_items(self.frames_spec()).len(),
            forall|i: int|
                0 <= i < r@.len() ==> match #[trigger] r@[i] {
                    Ok(b) => stream_items(self.frames_spec())[i] == Some(b@),
                    Err(e) => stream_items(self.frames_spec())[i] is None && e.kind
                        == Kind::Body && e.url is None && e.status is None && !e.timed_out,
                },
    {
        data_stream(&self.frames)
    }

    /// The response itself for a status below 400 or from 600 on; a status
    /// error carrying the URL and the code otherwise.
    pub fn error_for_status(self) -> (r: Result<Response, Error>)
        ensures
            !is_error_status(self.status_spec()) ==> r == Ok::<Response, Error>(self),
            is_error_status(self.status_spec()) ==> r is Err,
            r matches Err(e) ==> e.kind == Kind::Status && e.status == Some(self.status_spec())
                && e.url is Some && e.url->Some_0@ == self.url_spec(),
    {
        if 400 <= self.status && self.status < 600 {
            Err(Error::status_code(self.url, self.status))
        } else {
            Ok(self)
        }
    }

    /// As `error_for_status`, on a borrowed response.
    pub fn error_for_status_ref(&self) -> (r: Result<&Response, Error>)
        ensures
            !is_error_status(self.status_spec()) ==> r == Ok::<&Response, Error>(self),
            is_error_status(self.status_spec()) ==> r is Err,
            r matches Err(e) ==> e.kind == Kind::Status && e.status == Some(self.status_spec())
                && e.url is Some && e.url->Some_0@ == self.url_spec(),
    {
        if 400 <= self.status && self.status < 600 {
            Err(Error::status_code(self.url.clone(), self.status))
        } else {
            Ok(self)
        }
    }
}

} // verus!
