//! Message heads and the keep-alive rule.

use vstd::prelude::*;
use crate::headers::Headers;
use crate::headers::close_token;
use crate::headers::keep_alive_token;
use crate::headers::spec_conn_has;
use crate::method::Method;
use crate::version::HttpVersion;

verus! {

/// A message head: version, subject (request line or status line), and
/// headers.
#[derive(Debug)]
pub struct MessageHead<S> {
    /// HTTP version of the message.
    pub version: HttpVersion,
    /// Request line or status line of the message.
    pub subject: S,
    /// Headers of the message.
    pub headers: Headers,
}

/// The subject of a request: method and request target.
#[derive(Debug)]
pub struct RequestLine(pub Method, pub Vec<u8>);

/// An incoming request head.
pub type RequestHead = MessageHead<RequestLine>;

/// An incoming response head.
pub type ResponseHead = MessageHead<crate::status::RawStatus>;

/// The keep-alive rule: HTTP/1.1 stays open unless `Connection: close`;
/// HTTP/1.0 stays open only with `Connection: keep-alive`.
pub open spec fn spec_should_keep_alive(
    version: HttpVersion,
    headers: Seq<(Seq<u8>, Seq<u8>)>,
) -> bool {
    match version {
        HttpVersion::Http10 => spec_conn_has(headers, keep_alive_token()),
        HttpVersion::Http11 => !spec_conn_has(headers, close_token()),
    }
}

/// Checks whether a connection should be kept alive after a message
/// with this version and these headers.
pub fn should_keep_alive(version: HttpVersion, headers: &Headers) -> (r: bool)
    ensures
        r == spec_should_keep_alive(version, headers@),
{
    match version {
        HttpVersion::Http10 => {
            let tok = crate::headers::keep_alive_bytes();
            headers.connection_contains(tok.as_slice())
        },
        HttpVersion::Http11 => {
            let tok = crate::headers::close_bytes();
            !headers.connection_contains(tok.as_slice())
        },
    }
}

impl<S> MessageHead<S> {
    /// Whether this head asks for the connection to stay open.
    pub fn should_keep_alive(&self) -> (r: bool)
        ensures
            r == spec_should_keep_alive(self.version, self.headers@),
    {
        should_keep_alive(self.version, &self.headers)
    }
}

/// A byte buffer with a write cursor: bytes before `pos` have been
/// handed to the transport, the rest still wait.
pub struct WriteBuf {
    pub bytes: Vec<u8>,
    pub pos: usize,
}

impl WriteBuf {
    /// The bytes not yet handed to the transport.
    pub open spec fn remaining(&self) -> Seq<u8> {
        self.bytes@.skip(self.pos as int)
    }

    /// A buffer cursor is well formed while its position is inside (or
    /// just past) its bytes.
    pub open spec fn wf(&self) -> bool {
        self.pos <= self.bytes@.len()
    }

    /// Wraps freshly rendered bytes, none of them written yet.
    pub fn new(bytes: Vec<u8>) -> (r: WriteBuf)
        ensures
            r.wf(),
            r.remaining() == bytes@,
            r.bytes@ == bytes@,
            r.pos == 0,
    {
        let r = WriteBuf { bytes, pos: 0 };
        proof {
            assert(r.bytes@.skip(0) =~= r.bytes@);
        }
        r
    }
}

/// Statuses that forbid a response body outright.
pub open spec fn spec_empty_status(code: int) -> bool {
    (100 <= code && code <= 199) || code == 204 || code == 304
}

/// The body framing an incoming request head selects: `GET` and `HEAD`
/// carry no body; otherwise Content-Length, then chunked
/// Transfer-Encoding; contradictory or invalid framing headers are
/// malformed.
pub open spec fn spec_server_decoder(v: crate::parse::ReqHeadView) -> Result<
    crate::decode::Decoder,
    crate::Error,
> {
    if v.method == crate::method::get_token() || v.method == crate::method::head_token() {
        Ok(crate::decode::Decoder::Empty)
    } else {
        match crate::headers::spec_content_length(v.headers) {
            crate::headers::ContentLength::Bad => Err(crate::Error::Header),
            crate::headers::ContentLength::Value(n) => if crate::headers::spec_has_name(
                v.headers,
                crate::headers::transfer_encoding_name(),
            ) {
                Err(crate::Error::Header)
            } else {
                Ok(crate::decode::Decoder::Length(n))
            },
            crate::headers::ContentLength::Absent => if crate::headers::spec_te_chunked(
                v.headers,
            ) {
                Ok(crate::decode::Decoder::Chunked(crate::decode::ChunkedState::SizeFirst, 0))
            } else if crate::headers::spec_has_name(
                v.headers,
                crate::headers::transfer_encoding_name(),
            ) {
                Err(crate::Error::Header)
            } else {
                Ok(crate::decode::Decoder::Empty)
            },
        }
    }
}

/// Selects the body decoder for an incoming request head.
pub fn server_decoder(head: &MessageHead<RequestLine>) -> (r: Result<
    crate::decode::Decoder,
    crate::Error,
>)
    ensures
        r == spec_server_decoder(crate::parse::req_view(*head)),
{
    if head.subject.0.is_get() || head.subject.0.is_head() {
        return Ok(crate::decode::Decoder::Empty);
    }
    let te_key = crate::headers::transfer_encoding_key();
    match head.headers.content_length() {
        crate::headers::ContentLength::Bad => Err(crate::Error::Header),
        crate::headers::ContentLength::Value(n) => {
            if head.headers.has(te_key.as_slice()) {
                Err(crate::Error::Header)
            } else {
                Ok(crate::decode::Decoder::Length(n))
            }
        },
        crate::headers::ContentLength::Absent => {
            if head.headers.te_chunked() {
                Ok(crate::decode::Decoder::Chunked(crate::decode::ChunkedState::SizeFirst, 0))
            } else if head.headers.has(te_key.as_slice()) {
                Err(crate::Error::Header)
            } else {
                Ok(crate::decode::Decoder::Empty)
            }
        },
    }
}

/// Invalid or mutually differing Content-Length lines make a request
/// malformed. `GET` and `HEAD` are excluded: rule order gives them an
/// empty body before the framing headers are consulted.
pub proof fn lemma_bad_content_length_rejected(v: crate::parse::ReqHeadView)
    requires
        v.method != crate::method::get_token(),
        v.method != crate::method::head_token(),
        crate::headers::spec_content_length(v.headers) is Bad,
    ensures
        spec_server_decoder(v) == Err::<crate::decode::Decoder, crate::Error>(
            crate::Error::Header,
        ),
{
}

/// A request carrying both Content-Length and Transfer-Encoding is
/// malformed, under the same `GET`/`HEAD` exclusion.
pub proof fn lemma_both_framings_rejected(v: crate::parse::ReqHeadView)
    requires
        v.method != crate::method::get_token(),
        v.method != crate::method::head_token(),
        crate::headers::spec_content_length(v.headers) is Value,
        crate::headers::spec_has_name(v.headers, crate::headers::transfer_encoding_name()),
    ensures
        spec_server_decoder(v) == Err::<crate::decode::Decoder, crate::Error>(
            crate::Error::Header,
        ),
{
}

/// The body framing an incoming response head selects: bodiless
/// statuses first, then answers to `HEAD` and successful answers to
/// `CONNECT` (both remembered from the request), then chunked
/// Transfer-Encoding, then Content-Length, and otherwise the body
/// runs to connection close.
pub open spec fn spec_client_decoder(
    v: crate::parse::RespHeadView,
    req_is_head: bool,
    req_is_connect: bool,
) -> Result<crate::decode::Decoder, crate::Error> {
    if spec_empty_status(v.code) {
        Ok(crate::decode::Decoder::Empty)
    } else if req_is_head {
        Ok(crate::decode::Decoder::Empty)
    } else if req_is_connect && 200 <= v.code <= 299 {
        Ok(crate::decode::Decoder::Empty)
    } else if crate::headers::spec_te_chunked(v.headers) {
        Ok(crate::decode::Decoder::Chunked(crate::decode::ChunkedState::SizeFirst, 0))
    } else {
        match crate::headers::spec_content_length(v.headers) {
            crate::headers::ContentLength::Bad => Err(crate::Error::Header),
            crate::headers::ContentLength::Value(n) => Ok(crate::decode::Decoder::Length(n)),
            crate::headers::ContentLength::Absent => Ok(
                crate::decode::Decoder::CloseDelimited(false),
            ),
        }
    }
}

/// Selects the body decoder for an incoming response head, given
/// whether the request it answers was `HEAD` or `CONNECT`. A
/// close-delimited result obliges the caller to drop keep-alive.
pub fn client_decoder(
    head: &MessageHead<crate::status::RawStatus>,
    req_is_head: bool,
    req_is_connect: bool,
) -> (r: Result<crate::decode::Decoder, crate::Error>)
    ensures
        r == spec_client_decoder(crate::parse::resp_view(*head), req_is_head, req_is_connect),
{
    let code = head.subject.0;
    if (100 <= code && code <= 199) || code == 204 || code == 304 {
        return Ok(crate::decode::Decoder::Empty);
    }
    if req_is_head {
        return Ok(crate::decode::Decoder::Empty);
    }
    if req_is_connect && 200 <= code && code <= 299 {
        return Ok(crate::decode::Decoder::Empty);
    }
    if head.headers.te_chunked() {
        return Ok(crate::decode::Decoder::Chunked(crate::decode::ChunkedState::SizeFirst, 0));
    }
    match head.headers.content_length() {
        crate::headers::ContentLength::Bad => Err(crate::Error::Header),
        crate::headers::ContentLength::Value(n) => Ok(crate::decode::Decoder::Length(n)),
        crate::headers::ContentLength::Absent => Ok(crate::decode::Decoder::CloseDelimited(false)),
    }
}

/// The headers with a `Date` line appended when none is present.
pub open spec fn with_date(h: Seq<(Seq<u8>, Seq<u8>)>, now: int) -> Seq<(Seq<u8>, Seq<u8>)> {
    if crate::headers::spec_has_name(h, crate::headers::date_name()) {
        h
    } else {
        h + seq![(crate::headers::date_wire_name(), crate::date::spec_http_date(now))]
    }
}

/// The headers with chunked Transfer-Encoding in force: already
/// chunked headers stay; otherwise any Transfer-Encoding lines are
/// replaced by a single `chunked`.
pub open spec fn with_chunked_te(h: Seq<(Seq<u8>, Seq<u8>)>) -> Seq<(Seq<u8>, Seq<u8>)> {
    if crate::headers::spec_te_chunked(h) {
        h
    } else {
        crate::headers::remove_name(h, crate::headers::transfer_encoding_wire_name()) + seq![
            (crate::headers::transfer_encoding_wire_name(), crate::headers::chunked_token()),
        ]
    }
}

/// The framing of an outgoing response body: none at all to a `HEAD`
/// request or for a bodiless status, the declared Content-Length when
/// one is present, and chunked otherwise.
pub open spec fn spec_server_encoder_kind(
    v: crate::parse::RespHeadView,
    req_is_head: bool,
) -> crate::encode::KindView {
    if req_is_head || spec_empty_status(v.code) {
        crate::encode::KindView::Empty
    } else {
        match crate::headers::spec_content_length(v.headers) {
            crate::headers::ContentLength::Value(n) => crate::encode::KindView::Length(n as int),
            _ => crate::encode::KindView::Chunked(crate::encode::CwView::Init),
        }
    }
}

/// The head actually written for an outgoing response: a `Date` line
/// is added when missing, and chunked Transfer-Encoding is put in
/// force when a body follows without a Content-Length.
pub open spec fn spec_server_head_out(
    v: crate::parse::RespHeadView,
    req_is_head: bool,
    now: int,
) -> crate::parse::RespHeadView {
    let h1 = with_date(v.headers, now);
    let h2 = if req_is_head || spec_empty_status(v.code) {
        h1
    } else {
        match crate::headers::spec_content_length(v.headers) {
            crate::headers::ContentLength::Value(_) => h1,
            _ => with_chunked_te(h1),
        }
    };
    crate::parse::RespHeadView { version: v.version, code: v.code, reason: v.reason, headers: h2 }
}

/// Serializes an outgoing response head and builds its body encoder.
/// `req_is_head` says whether the request being answered was `HEAD`;
/// `now_secs` is the clock for an added `Date` line. The head must
/// carry a three-digit status and consistent Content-Length lines:
/// anything else is contradictory framing, which the engine refuses
/// before ever calling here.
pub fn server_encode(head: MessageHead<crate::status::RawStatus>, req_is_head: bool, now_secs: u64) -> (r: (
    Vec<u8>,
    crate::encode::Encoder,
))
    requires
        now_secs <= crate::date::MAX_DATE_SECS,
        100 <= head.subject.0 <= 999,
        !(crate::headers::spec_content_length(crate::parse::resp_view(head).headers) is Bad),
    ensures
        r.0@ == crate::parse::render_response_head(
            spec_server_head_out(crate::parse::resp_view(head), req_is_head, now_secs as int),
        ),
        r.1.wf(),
        r.1@.prefix_rem.len() == 0,
        r.1@.kind == spec_server_encoder_kind(crate::parse::resp_view(head), req_is_head),
{
    let ghost v0 = crate::parse::resp_view(head);
    let mut head = head;
    let date_key = crate::headers::date_key();
    if !head.headers.has(date_key.as_slice()) {
        let stamp = crate::date::http_date(now_secs);
        let wire = crate::headers::date_wire_key();
        head.headers.push(crate::headers::copy_bytes(wire.as_slice()), stamp);
        proof {
            assert(head.headers@ =~= with_date(v0.headers, now_secs as int));
        }
    }
    let code = head.subject.0;
    let bodiless = req_is_head || (100 <= code && code <= 199) || code == 204 || code == 304;
    let cl = head.headers.content_length();
    proof {
        assert(crate::headers::spec_content_length(head.headers@) == crate::headers::spec_content_length(
            v0.headers,
        )) by {
            if !crate::headers::spec_has_name(v0.headers, crate::headers::date_name()) {
                let h1 = with_date(v0.headers, now_secs as int);
                assert(h1.drop_last() =~= v0.headers);
                assert(crate::headers::lower_seq(crate::headers::date_name()).len() == 4);
                assert(crate::headers::lower_seq(crate::headers::content_length_name()).len()
                    == 14);
                assert(!crate::headers::name_is(h1.last(), crate::headers::content_length_name()));
            }
        }
    }
    let enc = if bodiless {
        crate::encode::Encoder::empty()
    } else {
        match cl {
            crate::headers::ContentLength::Value(n) => crate::encode::Encoder::length(n),
            _ => {
                if !head.headers.te_chunked() {
                    let te_key = crate::headers::transfer_encoding_wire_key();
                    let tok = crate::headers::chunked_bytes();
                    head.headers.set(
                        crate::headers::copy_bytes(te_key.as_slice()),
                        crate::headers::copy_bytes(tok.as_slice()),
                    );
                }
                proof {
                    assert(head.headers@ =~= with_chunked_te(
                        with_date(v0.headers, now_secs as int),
                    ));
                }
                crate::encode::Encoder::chunked()
            },
        }
    };
    let bytes = crate::parse::serialize_response_head(&head);
    proof {
        assert(crate::parse::resp_view(head) =~= spec_server_head_out(
            v0,
            req_is_head,
            now_secs as int,
        ));
    }
    (bytes, enc)
}

/// The framing of an outgoing request body: `GET` and `HEAD` send
/// none, a declared Content-Length is honoured, and anything else is
/// chunked.
pub open spec fn spec_client_encoder_kind(v: crate::parse::ReqHeadView) -> crate::encode::KindView {
    if v.method == crate::method::get_token() || v.method == crate::method::head_token() {
        crate::encode::KindView::Length(0)
    } else {
        match crate::headers::spec_content_length(v.headers) {
            crate::headers::ContentLength::Value(n) => crate::encode::KindView::Length(n as int),
            _ => crate::encode::KindView::Chunked(crate::encode::CwView::Init),
        }
    }
}

/// The head actually written for an outgoing request.
pub open spec fn spec_client_head_out(v: crate::parse::ReqHeadView) -> crate::parse::ReqHeadView {
    if v.method == crate::method::get_token() || v.method == crate::method::head_token() {
        v
    } else {
        match crate::headers::spec_content_length(v.headers) {
            crate::headers::ContentLength::Value(_) => v,
            _ => crate::parse::ReqHeadView {
                version: v.version,
                method: v.method,
                target: v.target,
                headers: with_chunked_te(v.headers),
            },
        }
    }
}

/// Serializes an outgoing request head and builds its body encoder.
/// The head's Content-Length lines must be consistent: contradictory
/// framing is refused by the engine before this call.
pub fn client_encode(head: MessageHead<RequestLine>) -> (r: (Vec<u8>, crate::encode::Encoder))
    requires
        !(crate::headers::spec_content_length(crate::parse::req_view(head).headers) is Bad),
    ensures
        r.0@ == crate::parse::render_request_head(
            spec_client_head_out(crate::parse::req_view(head)),
        ),
        r.1.wf(),
        r.1@.prefix_rem.len() == 0,
        r.1@.kind == spec_client_encoder_kind(crate::parse::req_view(head)),
{
    let ghost v0 = crate::parse::req_view(head);
    let mut head = head;
    let enc = if head.subject.0.is_get() || head.subject.0.is_head() {
        crate::encode::Encoder::length(0)
    } else {
        match head.headers.content_length() {
            crate::headers::ContentLength::Value(n) => crate::encode::Encoder::length(n),
            _ => {
                if !head.headers.te_chunked() {
                    let te_key = crate::headers::transfer_encoding_wire_key();
                    let tok = crate::headers::chunked_bytes();
                    head.headers.set(
                        crate::headers::copy_bytes(te_key.as_slice()),
                        crate::headers::copy_bytes(tok.as_slice()),
                    );
                }
                proof {
                    assert(head.headers@ =~= with_chunked_te(v0.headers));
                }
                crate::encode::Encoder::chunked()
            },
        }
    };
    let bytes = crate::parse::serialize_request_head(&head);
    proof {
        assert(crate::parse::req_view(head) =~= spec_client_head_out(v0));
    }
    (bytes, enc)
}

/// The server role: requests come in, responses go out.
pub struct ServerMessage;

/// The client role: requests go out, responses come in.
pub struct ClientMessage;

impl ServerMessage {
    /// A server reads first.
    pub fn initial_interest() -> (r: crate::next::Next)
        ensures
            r.interest == crate::next::NextKind::Read,
            r.timeout_ms is None,
    {
        crate::next::Next::read()
    }

    /// Parses an incoming request head.
    pub fn parse(bytes: &[u8]) -> (r: Result<
        Option<(MessageHead<RequestLine>, usize)>,
        crate::Error,
    >)
        ensures
            r matches Ok(Some(p)) ==> crate::parse::spec_parse_request(bytes@)
                == crate::parse::ReqOut::Done(crate::parse::req_view(p.0), p.1 as int) && 0 < p.1
                <= bytes@.len(),
            r matches Ok(None) ==> crate::parse::spec_parse_request(bytes@) is Pending,
            r matches Err(e) ==> crate::parse::spec_parse_request(bytes@)
                == crate::parse::ReqOut::Bad(e),
    {
        crate::parse::parse_request(bytes)
    }

    /// Selects the body decoder for an incoming request head.
    pub fn decoder(head: &MessageHead<RequestLine>) -> (r: Result<
        crate::decode::Decoder,
        crate::Error,
    >)
        ensures
            r == spec_server_decoder(crate::parse::req_view(*head)),
    {
        server_decoder(head)
    }

    /// Serializes an outgoing response head and builds its encoder.
    pub fn encode(head: MessageHead<crate::status::RawStatus>, req_is_head: bool, now_secs: u64) -> (r: (
        Vec<u8>,
        crate::encode::Encoder,
    ))
        requires
            now_secs <= crate::date::MAX_DATE_SECS,
            100 <= head.subject.0 <= 999,
            !(crate::headers::spec_content_length(crate::parse::resp_view(head).headers) is Bad),
        ensures
            r.0@ == crate::parse::render_response_head(
                spec_server_head_out(crate::parse::resp_view(head), req_is_head, now_secs as int),
            ),
            r.1.wf(),
            r.1@.prefix_rem.len() == 0,
            r.1@.kind == spec_server_encoder_kind(crate::parse::resp_view(head), req_is_head),
    {
        server_encode(head, req_is_head, now_secs)
    }
}

impl ClientMessage {
    /// A client writes first.
    pub fn initial_interest() -> (r: crate::next::Next)
        ensures
            r.interest == crate::next::NextKind::Write,
            r.timeout_ms is None,
    {
        crate::next::Next::write()
    }

    /// Parses an incoming response head.
    pub fn parse(bytes: &[u8]) -> (r: Result<
        Option<(MessageHead<crate::status::RawStatus>, usize)>,
        crate::Error,
    >)
        ensures
            r matches Ok(Some(p)) ==> crate::parse::spec_parse_response(bytes@)
                == crate::parse::RespOut::Done(crate::parse::resp_view(p.0), p.1 as int) && 0 < p.1
                <= bytes@.len(),
            r matches Ok(None) ==> crate::parse::spec_parse_response(bytes@) is Pending,
            r matches Err(e) ==> crate::parse::spec_parse_response(bytes@)
                == crate::parse::RespOut::Bad(e),
    {
        crate::parse::parse_response(bytes)
    }

    /// Selects the body decoder for an incoming response head, given
    /// whether the request it answers was `HEAD` or `CONNECT`.
    pub fn decoder(
        head: &MessageHead<crate::status::RawStatus>,
        req_is_head: bool,
        req_is_connect: bool,
    ) -> (r: Result<crate::decode::Decoder, crate::Error>)
        ensures
            r == spec_client_decoder(
                crate::parse::resp_view(*head),
                req_is_head,
                req_is_connect,
            ),
    {
        client_decoder(head, req_is_head, req_is_connect)
    }

    /// Serializes an outgoing request head and builds its encoder.
    pub fn encode(head: MessageHead<RequestLine>) -> (r: (Vec<u8>, crate::encode::Encoder))
        requires
            !(crate::headers::spec_content_length(crate::parse::req_view(head).headers) is Bad),
        ensures
            r.0@ == crate::parse::render_request_head(
                spec_client_head_out(crate::parse::req_view(head)),
            ),
            r.1.wf(),
            r.1@.prefix_rem.len() == 0,
            r.1@.kind == spec_client_encoder_kind(crate::parse::req_view(head)),
    {
        client_encode(head)
    }
}

} // verus!
