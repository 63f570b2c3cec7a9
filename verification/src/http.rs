//! Just enough HTTP: the heads of requests, and answers of bounded size.
use crate::lex::{
    after_prefix, cut, cut_at, equals_lower, first_word, first_word_of, from_chars, lines, lines_of,
    lowered, number_of, parse_number, slice_of, starts_with_lower, strip_prefix, texts, trim,
    trimmed,
};
use crate::text::{cat2, cat_num, decimal, is_prefix, push_decimal, to_chars};
use vstd::prelude::*;
use vstd::string::*;
use vstd::utf8::{decode_utf8, valid_utf8};

verus! {

/// How long the head of a request may be, in bytes.
pub const MAX_REQUEST_HEAD: usize = 8_192;

/// How long the body of a request may be, in bytes.
pub const MAX_RPC_BODY: usize = 2_621_440;

/// How long the body of an answer may be, in bytes.
pub const MAX_RPC_RESPONSE_BODY: usize = 8_388_608;

/// How long the head of an answer may be, in bytes.
pub const MAX_RPC_RESPONSE_HEADERS: usize = 65_536;

/// How many bytes of an answer are read at a time.
pub const READ_CHUNK: usize = 4_096;

// ---------------------------------------------------------------------------
// The end of a head
// ---------------------------------------------------------------------------
/// Whether a blank line ends right before a position.
pub open spec fn head_ends_at(b: Seq<u8>, end: int) -> bool {
    &&& 4 <= end <= b.len()
    &&& b[end - 4] == 13
    &&& b[end - 3] == 10
    &&& b[end - 2] == 13
    &&& b[end - 1] == 10
}

/// Whether the first blank line ends right before a position.
pub open spec fn first_head_end(b: Seq<u8>, end: int) -> bool {
    head_ends_at(b, end) && forall|j: int| j < end ==> !#[trigger] head_ends_at(b, j)
}

fn ends_head(b: &Vec<u8>, end: usize) -> (r: bool)
    requires
        end <= b@.len(),
    ensures
        r == head_ends_at(b@, end as int),
{
    end >= 4 && b[end - 4] == 13 && b[end - 3] == 10 && b[end - 2] == 13 && b[end - 1] == 10
}

fn find_head_end(b: &Vec<u8>) -> (r: Option<usize>)
    ensures
        match r {
            Some(e) => first_head_end(b@, e as int),
            None => forall|j: int| !#[trigger] head_ends_at(b@, j),
        },
{
    let mut e: usize = 4;
    while e <= b.len()
        invariant
            4 <= e,
            e <= b@.len() + 1 || e == 4,
            forall|j: int| j < e ==> !#[trigger] head_ends_at(b@, j),
        decreases b@.len() + 1 - e,
    {
        if ends_head(b, e) {
            return Some(e);
        }
        if e == b.len() {
            return None;
        }
        e = e + 1;
    }
    None
}

/// How the reading of the head of a request stands.
#[derive(Clone, Copy, Debug, PartialEq, Eq, Structural)]
pub enum HeadStatus {
    More,
    Complete,
    TooLong,
}

/// How the reading of the head of a request stands after the given bytes.
pub open spec fn head_status(b: Seq<u8>) -> HeadStatus {
    if head_ends_at(b, b.len() as int) {
        HeadStatus::Complete
    } else if b.len() >= MAX_REQUEST_HEAD {
        HeadStatus::TooLong
    } else {
        HeadStatus::More
    }
}

/// The head of a request as it comes in, byte by byte.
pub struct HeadReader {
    pub buf: Vec<u8>,
}

impl HeadReader {
    pub fn new() -> (r: Self)
        ensures
            r.buf@ == Seq::<u8>::empty(),
    {
        HeadReader { buf: Vec::new() }
    }

    /// Takes the next byte.
    pub fn push(&mut self, byte: u8) -> (r: HeadStatus)
        requires
            head_status(old(self).buf@) is More,
        ensures
            final(self).buf@ == old(self).buf@.push(byte),
            r == head_status(final(self).buf@),
    {
        self.buf.push(byte);
        let n: usize = self.buf.len();
        if ends_head(&self.buf, n) {
            HeadStatus::Complete
        } else if n >= MAX_REQUEST_HEAD {
            HeadStatus::TooLong
        } else {
            HeadStatus::More
        }
    }
}

/// The head of a request never takes more memory than it may.
pub proof fn law_request_head_is_bounded(b: Seq<u8>, byte: u8)
    requires
        head_status(b) is More,
    ensures
        b.push(byte).len() <= MAX_REQUEST_HEAD,
{
}

// ---------------------------------------------------------------------------
// Bytes as text
// ---------------------------------------------------------------------------
/// The text of bytes, with a mark in place of what is not UTF-8.
pub uninterp spec fn lossy_text(b: Seq<u8>) -> Seq<char>;

/// Reads bytes as text, with a mark in place of what is not UTF-8.
///
/// Calls `String::from_utf8_lossy` of std. The contract names the text, and
/// says that bytes in UTF-8 give the text that they stand for.
#[verifier::external_body]
fn text_lossy(b: &[u8]) -> (r: String)
    ensures
        r@ == lossy_text(b@),
        valid_utf8(b@) ==> r@ == decode_utf8(b@),
{
    String::from_utf8_lossy(b).into_owned()
}

/// Reads bytes as text, if they are in UTF-8.
///
/// Calls `std::str::from_utf8`. The contract says that it succeeds exactly on
/// UTF-8, with the text that the bytes stand for.
#[verifier::external_body]
fn text_strict(b: &[u8]) -> (r: Option<String>)
    ensures
        match r {
            Some(s) => valid_utf8(b@) && s@ == decode_utf8(b@),
            None => !valid_utf8(b@),
        },
{
    std::str::from_utf8(b).ok().map(|s| s.to_string())
}

// ---------------------------------------------------------------------------
// Requests
// ---------------------------------------------------------------------------
/// The length that the first line with a length gives, if it is a number.
pub open spec fn request_length(ls: Seq<Seq<char>>) -> Option<nat>
    decreases ls.len(),
{
    if ls.len() == 0 {
        None
    } else if is_prefix("content-length:"@, lowered(ls[0])) {
        match number_of(trimmed(ls[0].skip("content-length:"@.len() as int)), usize::MAX as nat) {
            Ok(n) => Some(n),
            Err(_) => None,
        }
    } else {
        request_length(ls.drop_first())
    }
}

/// The length of the body that the head of a request gives.
pub fn extract_content_length(headers: &str) -> (r: Option<usize>)
    ensures
        match r {
            Some(n) => request_length(lines_of(headers@)) == Some(n as nat),
            None => request_length(lines_of(headers@)) is None,
        },
{
    let chars = to_chars(headers);
    let ls = lines(chars.as_slice());
    let key = to_chars("content-length:");
    let ghost all = texts(ls@);
    let mut i: usize = 0;
    assert(all.skip(0) =~= all);
    while i < ls.len()
        invariant
            all == texts(ls@),
            all == lines_of(headers@),
            i <= ls@.len(),
            key@ == "content-length:"@,
            request_length(all.skip(i as int)) == request_length(all),
        decreases ls@.len() - i,
    {
        let ghost rest = all.skip(i as int);
        assert(rest[0] == ls@[i as int]@);
        assert(rest.drop_first() =~= all.skip(i + 1));
        if starts_with_lower(ls[i].as_slice(), key.as_slice()) {
            let value = slice_of(ls[i].as_slice(), key.len(), ls[i].len());
            assert(value@ =~= ls@[i as int]@.skip(key@.len() as int));
            let value = trim(value.as_slice());
            return match parse_number(value.as_slice(), usize::MAX as u64) {
                Ok(n) => Some(n as usize),
                Err(_) => None,
            };
        }
        i = i + 1;
    }
    assert(all.skip(i as int).len() == 0);
    None
}

/// What a request asks for.
#[derive(Debug)]
pub enum RequestKind {
    /// A stream of events, with this query.
    Stream { query: String },
    /// Not a POST.
    WrongMethod,
    /// A body without a length, or too long.
    BadLength,
    /// A call, with a body of this length.
    Call { content_length: usize },
}

/// What a `RequestKind` says.
pub ghost enum RequestView {
    Stream { query: Seq<char> },
    WrongMethod,
    BadLength,
    Call { content_length: nat },
}

impl View for RequestKind {
    type V = RequestView;

    open spec fn view(&self) -> RequestView {
        match self {
            RequestKind::Stream { query } => RequestView::Stream { query: query@ },
            RequestKind::WrongMethod => RequestView::WrongMethod,
            RequestKind::BadLength => RequestView::BadLength,
            RequestKind::Call { content_length } => RequestView::Call {
                content_length: *content_length as nat,
            },
        }
    }
}

/// The first line of a text.
pub open spec fn first_line(s: Seq<char>) -> Seq<char> {
    if lines_of(s).len() > 0 {
        lines_of(s)[0]
    } else {
        Seq::empty()
    }
}

/// What follows the path of the stream in a request line that asks for it, by
/// GET or by POST.
pub open spec fn stream_rest(line: Seq<char>) -> Option<Seq<char>> {
    match after_prefix(line, "GET /sse"@) {
        Some(rest) => Some(rest),
        None => after_prefix(line, "POST /sse"@),
    }
}

/// The query at the start of a text; empty where there is none.
pub open spec fn query_of(rest: Seq<char>) -> Seq<char> {
    match after_prefix(first_word_of(rest), "?"@) {
        Some(q) => q,
        None => Seq::empty(),
    }
}

/// What the head of a request asks for.
pub open spec fn request_of(head: Seq<char>) -> RequestView {
    match stream_rest(first_line(head)) {
        Some(rest) => RequestView::Stream { query: query_of(rest) },
        None => if !is_prefix("POST "@, head) {
            RequestView::WrongMethod
        } else {
            match request_length(lines_of(head)) {
                Some(n) if 0 < n <= MAX_RPC_BODY => RequestView::Call { content_length: n },
                _ => RequestView::BadLength,
            }
        },
    }
}

/// What the head of a request asks for, as text.
pub fn classify_request(head: &str) -> (r: RequestKind)
    ensures
        r@ == request_of(head@),
{
    let chars = to_chars(head);
    let ls = lines(chars.as_slice());
    let line = if ls.len() > 0 {
        assert(texts(ls@)[0] == ls@[0]@);
        slice_of(ls[0].as_slice(), 0, ls[0].len())
    } else {
        Vec::new()
    };
    assert(line@ =~= first_line(head@));
    let get = to_chars("GET /sse");
    let post = to_chars("POST /sse");
    let rest = match strip_prefix(line.as_slice(), get.as_slice()) {
        Some(rest) => Some(rest),
        None => strip_prefix(line.as_slice(), post.as_slice()),
    };
    match rest {
        Some(rest) => {
            let word = first_word(rest.as_slice());
            let mark = to_chars("?");
            let query = match strip_prefix(word.as_slice(), mark.as_slice()) {
                Some(q) => q,
                None => Vec::new(),
            };
            assert(query@ =~= query_of(rest@));
            return RequestKind::Stream { query: from_chars(query.as_slice()) };
        },
        None => {},
    }
    let verb = to_chars("POST ");
    if strip_prefix(chars.as_slice(), verb.as_slice()).is_none() {
        return RequestKind::WrongMethod;
    }
    match extract_content_length(head) {
        Some(n) => {
            if n == 0 || n > MAX_RPC_BODY {
                RequestKind::BadLength
            } else {
                RequestKind::Call { content_length: n }
            }
        },
        None => RequestKind::BadLength,
    }
}

/// What the head of a request asks for, as it came in.
pub fn read_request(head: &[u8]) -> (r: RequestKind)
    ensures
        r@ == request_of(lossy_text(head@)),
        valid_utf8(head@) ==> r@ == request_of(decode_utf8(head@)),
{
    let text = text_lossy(head);
    classify_request(text.as_str())
}

/// No body is read whose length is not given, is zero, or is over the cap.
pub proof fn law_request_body_is_bounded(head: Seq<char>, n: nat)
    requires
        request_of(head) == (RequestView::Call { content_length: n }),
    ensures
        0 < n <= MAX_RPC_BODY,
        request_length(lines_of(head)) == Some(n),
{
}

// ---------------------------------------------------------------------------
// Writing heads
// ---------------------------------------------------------------------------
/// The words for a status.
pub open spec fn status_text(status: u16) -> Seq<char> {
    if status == 200 {
        "OK"@
    } else if status == 400 {
        "Bad Request"@
    } else if status == 405 {
        "Method Not Allowed"@
    } else {
        "Error"@
    }
}

/// The head of an answer.
pub open spec fn response_head_text(status: u16, len: nat) -> Seq<char> {
    "HTTP/1.1 "@ + decimal(status as nat) + " "@ + status_text(status)
        + "\r\nContent-Type: application/json\r\nContent-Length: "@ + decimal(len)
        + "\r\nConnection: close\r\n\r\n"@
}

/// The head of an answer with a body of the given length.
pub fn response_head(status: u16, body_len: usize) -> (r: String)
    ensures
        r@ == response_head_text(status, body_len as nat),
{
    let words = if status == 200 {
        "OK"
    } else if status == 400 {
        "Bad Request"
    } else if status == 405 {
        "Method Not Allowed"
    } else {
        "Error"
    };
    let mut s = cat_num("HTTP/1.1 ", status as u64, " ");
    s.append(words);
    s.append("\r\nContent-Type: application/json\r\nContent-Length: ");
    push_decimal(&mut s, body_len as u64);
    s.append("\r\nConnection: close\r\n\r\n");
    s
}

/// The host and port in a URL: what stands before the first slash, without the
/// scheme.
pub open spec fn address_in(url: Seq<char>) -> Seq<char> {
    let rest = match after_prefix(url, "http://"@) {
        Some(r) => r,
        None => url,
    };
    match cut_at(rest, '/') {
        Some((a, _)) => a,
        None => rest,
    }
}

/// The host and port in a URL.
pub fn address_of(url: &str) -> (r: String)
    ensures
        r@ == address_in(url@),
{
    let chars = to_chars(url);
    let scheme = to_chars("http://");
    let rest = match strip_prefix(chars.as_slice(), scheme.as_slice()) {
        Some(r) => r,
        None => chars,
    };
    match cut(rest.as_slice(), '/') {
        Some((a, _)) => from_chars(a.as_slice()),
        None => from_chars(rest.as_slice()),
    }
}

/// The head of a call.
pub open spec fn call_head_text(addr: Seq<char>, len: nat) -> Seq<char> {
    "POST / HTTP/1.1\r\nHost: "@ + addr + "\r\nContent-Type: application/json\r\nContent-Length: "@
        + decimal(len) + "\r\nConnection: close\r\n\r\n"@
}

/// The head of a call with a body of the given length.
pub fn call_head(addr: &str, body_len: usize) -> (r: String)
    ensures
        r@ == call_head_text(addr@, body_len as nat),
{
    let mut s = cat2("POST / HTTP/1.1\r\nHost: ", addr);
    s.append("\r\nContent-Type: application/json\r\nContent-Length: ");
    push_decimal(&mut s, body_len as u64);
    s.append("\r\nConnection: close\r\n\r\n");
    s
}

// ---------------------------------------------------------------------------
// Reading answers
// ---------------------------------------------------------------------------
/// The length that a line gives, if it gives one.
pub open spec fn line_length(l: Seq<char>) -> Option<nat> {
    match cut_at(l, ':') {
        Some((k, v)) => if lowered(trimmed(k)) == "content-length"@ {
            match number_of(trimmed(v), usize::MAX as nat) {
                Ok(n) => Some(n),
                Err(_) => None,
            }
        } else {
            None
        },
        None => None,
    }
}

/// The length that the first line with a proper length gives.
pub open spec fn response_length(ls: Seq<Seq<char>>) -> Option<nat>
    decreases ls.len(),
{
    if ls.len() == 0 {
        None
    } else if line_length(ls[0]) is Some {
        line_length(ls[0])
    } else {
        response_length(ls.drop_first())
    }
}

fn declared_length(head: &str) -> (r: Option<usize>)
    ensures
        match r {
            Some(n) => response_length(lines_of(head@)) == Some(n as nat),
            None => response_length(lines_of(head@)) is None,
        },
{
    let chars = to_chars(head);
    let ls = lines(chars.as_slice());
    let key = to_chars("content-length");
    let ghost all = texts(ls@);
    let mut i: usize = 0;
    assert(all.skip(0) =~= all);
    while i < ls.len()
        invariant
            all == texts(ls@),
            all == lines_of(head@),
            i <= ls@.len(),
            key@ == "content-length"@,
            response_length(all.skip(i as int)) == response_length(all),
        decreases ls@.len() - i,
    {
        let ghost rest = all.skip(i as int);
        assert(rest[0] == ls@[i as int]@);
        assert(rest.drop_first() =~= all.skip(i + 1));
        match cut(ls[i].as_slice(), ':') {
            Some((k, v)) => {
                let k = trim(k.as_slice());
                if equals_lower(k.as_slice(), key.as_slice()) {
                    let v = trim(v.as_slice());
                    match parse_number(v.as_slice(), usize::MAX as u64) {
                        Ok(n) => {
                            return Some(n as usize);
                        },
                        Err(_) => {},
                    }
                }
            },
            None => {},
        }
        i = i + 1;
    }
    assert(all.skip(i as int).len() == 0);
    None
}

/// What an answer's head turns out to be.
pub ghost enum HeadVerdict {
    /// More is to be read.
    Incomplete,
    /// The head ends here, and a body of this length follows.
    Body { end: nat, length: nat },
    /// The answer is refused.
    Refused(Seq<char>),
}

/// What the head of an answer turns out to be, given all that was read.
pub open spec fn head_verdict(b: Seq<u8>, max_body: usize, max_headers: usize) -> HeadVerdict {
    if exists|e: int| first_head_end(b, e) {
        let e = choose|e: int| first_head_end(b, e);
        if e > max_headers {
            HeadVerdict::Refused(
                "RPC response headers exceeded "@ + decimal(max_headers as nat) + " byte cap"@,
            )
        } else if !valid_utf8(b.take(e)) {
            HeadVerdict::Refused("RPC response has invalid UTF-8 in headers"@)
        } else {
            match response_length(lines_of(decode_utf8(b.take(e)))) {
                None => HeadVerdict::Refused("RPC response missing Content-Length header"@),
                Some(n) => if n > max_body {
                    HeadVerdict::Refused(
                        "RPC response Content-Length "@ + decimal(n) + " exceeds cap of "@
                            + decimal(max_body as nat) + " bytes"@,
                    )
                } else if b.len() - e > n {
                    HeadVerdict::Refused(
                        "RPC response body exceeds declared Content-Length ("@ + decimal(
                            (b.len() - e) as nat,
                        ) + " > "@ + decimal(n) + ")"@,
                    )
                } else {
                    HeadVerdict::Body { end: e as nat, length: n }
                },
            }
        }
    } else if b.len() >= max_headers {
        HeadVerdict::Refused(
            "RPC response headers exceeded "@ + decimal(max_headers as nat) + " byte cap"@,
        )
    } else {
        HeadVerdict::Incomplete
    }
}

/// The reading of an answer.
pub struct ResponseReader {
    pub buf: Vec<u8>,
    /// Where the body starts and how long it is, once the head has come.
    pub body: Option<(usize, usize)>,
    pub max_body: usize,
    pub max_headers: usize,
}

/// What a `ResponseReader` holds.
pub ghost struct ReaderView {
    pub buf: Seq<u8>,
    pub body: Option<(usize, usize)>,
    pub max_body: usize,
    pub max_headers: usize,
}

impl View for ResponseReader {
    type V = ReaderView;

    open spec fn view(&self) -> ReaderView {
        ReaderView {
            buf: self.buf@,
            body: self.body,
            max_body: self.max_body,
            max_headers: self.max_headers,
        }
    }
}

/// The least of two lengths.
pub open spec fn least(a: int, b: int) -> int {
    if a < b {
        a
    } else {
        b
    }
}

impl ReaderView {
    /// The head and the body fit their caps, and the body is not longer than
    /// declared.
    pub open spec fn inv(self) -> bool {
        match self.body {
            None => self.buf.len() <= self.max_headers,
            Some((e, n)) => {
                &&& e <= self.buf.len() <= e + n
                &&& n <= self.max_body
                &&& 4 <= e <= self.max_headers
            },
        }
    }

    /// The state once all that was read has been looked at, or why the answer
    /// is refused.
    pub open spec fn looked_at(self) -> Result<ReaderView, Seq<char>> {
        match self.body {
            Some(_) => Ok(self),
            None => match head_verdict(self.buf, self.max_body, self.max_headers) {
                HeadVerdict::Incomplete => Ok(self),
                HeadVerdict::Refused(m) => Err(m),
                HeadVerdict::Body { end, length } => Ok(
                    ReaderView { body: Some((end as usize, length as usize)), ..self },
                ),
            },
        }
    }

    /// How many bytes to read next; none when the answer is complete.
    pub open spec fn wanted(self) -> int {
        match self.body {
            None => least(READ_CHUNK as int, self.max_headers - self.buf.len()),
            Some((e, n)) => least(READ_CHUNK as int, e + n - self.buf.len()),
        }
    }

    /// The message when nothing more comes.
    pub open spec fn closed_text(self) -> Seq<char> {
        match self.body {
            None => "RPC response closed before headers complete"@,
            Some((e, n)) => "RPC response closed with "@ + decimal((e + n - self.buf.len()) as nat)
                + " bytes remaining (declared "@ + decimal(n as nat) + " total)"@,
        }
    }

    /// The body.
    pub open spec fn payload(self) -> Seq<u8> {
        match self.body {
            Some((e, _)) => self.buf.skip(e as int),
            None => Seq::empty(),
        }
    }

    /// What comes of reading all of `data`, as much at a time as is wanted.
    pub open spec fn run(self, data: Seq<u8>) -> Result<Seq<u8>, Seq<char>>
        decreases data.len(),
    {
        match self.looked_at() {
            Err(m) => Err(m),
            Ok(v) => {
                let n = least(v.wanted(), data.len() as int);
                if v.wanted() <= 0 {
                    Ok(v.payload())
                } else if n <= 0 {
                    Err(v.closed_text())
                } else {
                    ReaderView { buf: v.buf + data.take(n), ..v }.run(data.skip(n))
                }
            },
        }
    }
}

proof fn lemma_first_end_unique(b: Seq<u8>, x: int, y: int)
    requires
        first_head_end(b, x),
        first_head_end(b, y),
    ensures
        x == y,
{
    if x < y {
        assert(!head_ends_at(b, x));
    } else if y < x {
        assert(!head_ends_at(b, y));
    }
}

impl ResponseReader {
    pub fn new(max_body: usize, max_headers: usize) -> (r: Self)
        ensures
            r@ == (ReaderView { buf: Seq::empty(), body: None, max_body, max_headers }),
            r@.inv(),
    {
        ResponseReader { buf: Vec::new(), body: None, max_body, max_headers }
    }

    fn look(&mut self) -> (r: Result<(), String>)
        requires
            old(self)@.inv(),
        ensures
            match r {
                Ok(()) => old(self)@.looked_at() == Ok::<ReaderView, Seq<char>>(final(self)@)
                    && final(self)@.inv() && final(self)@.wanted() >= 0 && (final(self)@.body
                    is None ==> final(self)@.wanted() > 0),
                Err(e) => old(self)@.looked_at() == Err::<ReaderView, Seq<char>>(e@),
            },
    {
        if self.body.is_some() {
            return Ok(());
        }
        match find_head_end(&self.buf) {
            None => {
                if self.buf.len() >= self.max_headers {
                    return Err(
                        cat_num(
                            "RPC response headers exceeded ",
                            self.max_headers as u64,
                            " byte cap",
                        ),
                    );
                }
                Ok(())
            },
            Some(end) => {
                proof {
                    let e = choose|e: int| first_head_end(self.buf@, e);
                    lemma_first_end_unique(self.buf@, e, end as int);
                }
                let mut head: Vec<u8> = Vec::new();
                let mut i: usize = 0;
                while i < end
                    invariant
                        i <= end <= self.buf@.len(),
                        head@ == self.buf@.take(i as int),
                    decreases end - i,
                {
                    head.push(self.buf[i]);
                    i = i + 1;
                    assert(head@ =~= self.buf@.take(i as int));
                }
                match text_strict(head.as_slice()) {
                    None => Err(String::from_str("RPC response has invalid UTF-8 in headers")),
                    Some(text) => match declared_length(text.as_str()) {
                        None => Err(
                            String::from_str("RPC response missing Content-Length header"),
                        ),
                        Some(n) => {
                            let already: usize = self.buf.len() - end;
                            if n > self.max_body {
                                let mut s = cat_num(
                                    "RPC response Content-Length ",
                                    n as u64,
                                    " exceeds cap of ",
                                );
                                push_decimal(&mut s, self.max_body as u64);
                                s.append(" bytes");
                                Err(s)
                            } else if already > n {
                                let mut s = cat_num(
                                    "RPC response body exceeds declared Content-Length (",
                                    already as u64,
                                    " > ",
                                );
                                push_decimal(&mut s, n as u64);
                                s.append(")");
                                Err(s)
                            } else {
                                self.body = Some((end, n));
                                Ok(())
                            }
                        },
                    },
                }
            },
        }
    }

    /// Looks at what was read, and tells how many bytes to read next: none
    /// when the answer is complete.
    pub fn advance(&mut self) -> (r: Result<usize, String>)
        requires
            old(self)@.inv(),
        ensures
            match r {
                Ok(n) => old(self)@.looked_at() == Ok::<ReaderView, Seq<char>>(final(self)@)
                    && final(self)@.inv() && n == final(self)@.wanted() && (n == 0
                    ==> final(self)@.body is Some),
                Err(e) => old(self)@.looked_at() == Err::<ReaderView, Seq<char>>(e@),
            },
    {
        match self.look() {
            Err(e) => {
                return Err(e);
            },
            Ok(()) => {},
        }
        let left: usize = match self.body {
            None => self.max_headers - self.buf.len(),
            Some((e, n)) => n - (self.buf.len() - e),
        };
        Ok(
            if left < READ_CHUNK {
                left
            } else {
                READ_CHUNK
            },
        )
    }

    /// Takes what was read: no more than was wanted. Where nothing came, the
    /// answer is cut short.
    pub fn feed(&mut self, chunk: &[u8]) -> (r: Result<(), String>)
        requires
            old(self)@.inv(),
            chunk@.len() <= old(self)@.wanted(),
            old(self)@.wanted() > 0,
        ensures
            match r {
                Ok(()) => chunk@.len() > 0 && final(self)@ == (ReaderView {
                    buf: old(self)@.buf + chunk@,
                    ..old(self)@
                }) && final(self)@.inv(),
                Err(e) => chunk@.len() == 0 && e@ == old(self)@.closed_text(),
            },
    {
        if chunk.len() == 0 {
            return Err(
                match self.body {
                    None => String::from_str("RPC response closed before headers complete"),
                    Some((e, n)) => {
                        let left: usize = n - (self.buf.len() - e);
                        let mut s = cat_num(
                            "RPC response closed with ",
                            left as u64,
                            " bytes remaining (declared ",
                        );
                        push_decimal(&mut s, n as u64);
                        s.append(" total)");
                        s
                    },
                },
            );
        }
        let ghost before = self.buf@;
        let mut i: usize = 0;
        assert(before + chunk@.take(0) =~= before);
        while i < chunk.len()
            invariant
                i <= chunk@.len(),
                self.buf@ == before + chunk@.take(i as int),
                self.body == old(self).body,
                self.max_body == old(self).max_body,
                self.max_headers == old(self).max_headers,
            decreases chunk@.len() - i,
        {
            self.buf.push(chunk[i]);
            i = i + 1;
            assert(self.buf@ =~= before + chunk@.take(i as int));
        }
        assert(chunk@.take(i as int) =~= chunk@);
        Ok(())
    }

    /// The body of a complete answer.
    pub fn into_body(self) -> (r: Vec<u8>)
        requires
            self@.inv(),
        ensures
            r@ == self@.payload(),
    {
        let mut out: Vec<u8> = Vec::new();
        match self.body {
            None => {},
            Some((e, _)) => {
                let mut i: usize = e;
                assert(self.buf@.subrange(e as int, e as int) =~= Seq::<u8>::empty());
                while i < self.buf.len()
                    invariant
                        e <= i <= self.buf@.len(),
                        out@ == self.buf@.subrange(e as int, i as int),
                    decreases self.buf@.len() - i,
                {
                    out.push(self.buf[i]);
                    i = i + 1;
                    assert(out@ =~= self.buf@.subrange(e as int, i as int));
                }
                assert(out@ =~= self.buf@.skip(e as int));
            },
        }
        assert(out@ =~= self@.payload());
        out
    }
}

/// Reads an answer that is there in full: `data` is read as much at a time as
/// is wanted. The body is returned, or why the answer is refused.
pub fn read_bounded_http_response(data: &[u8], max_body: usize, max_headers: usize) -> (r: Result<
    Vec<u8>,
    String,
>)
    ensures
        ({
            let start = ReaderView { buf: Seq::empty(), body: None, max_body, max_headers };
            match r {
                Ok(b) => start.run(data@) == Ok::<Seq<u8>, Seq<char>>(b@),
                Err(e) => start.run(data@) == Err::<Seq<u8>, Seq<char>>(e@),
            }
        }),
{
    let mut reader = ResponseReader::new(max_body, max_headers);
    let ghost start = reader@;
    let total: usize = data.len();
    let mut at: usize = 0;
    assert(data@.skip(0) =~= data@);
    loop
        invariant
            start == (ReaderView { buf: Seq::empty(), body: None, max_body, max_headers }),
            total == data@.len(),
            at <= data@.len(),
            reader@.inv(),
            reader@.run(data@.skip(at as int)) == start.run(data@),
        decreases data@.len() - at,
    {
        let ghost before = reader@;
        let ghost rest = data@.skip(at as int);
        let want: usize = match reader.advance() {
            Err(e) => {
                return Err(e);
            },
            Ok(n) => n,
        };
        let ghost v = reader@;
        if want == 0 {
            return Ok(reader.into_body());
        }
        let left: usize = total - at;
        let n: usize = if want < left {
            want
        } else {
            left
        };
        let mut chunk: Vec<u8> = Vec::new();
        let mut i: usize = 0;
        while i < n
            invariant
                total == data@.len(),
                at <= total,
                i <= n <= total - at,
                chunk@ == data@.subrange(at as int, at + i),
            decreases n - i,
        {
            chunk.push(data[at + i]);
            i = i + 1;
            assert(chunk@ =~= data@.subrange(at as int, at + i));
        }
        assert(chunk@ =~= rest.take(n as int));
        match reader.feed(chunk.as_slice()) {
            Err(e) => {
                return Err(e);
            },
            Ok(()) => {},
        }
        assert(rest.skip(n as int) =~= data@.skip(at + n));
        assert(n == least(v.wanted(), rest.len() as int));
        at = at + n;
    }
}

/// However much is sent, and in whatever pieces, an answer never takes more
/// room than its caps allow: the head with its blank line, and the body. Nor is
/// more asked for.
pub proof fn law_answer_is_bounded(v: ReaderView)
    requires
        v.inv(),
    ensures
        v.body is None ==> v.buf.len() <= v.max_headers,
        v.body matches Some((e, _)) ==> e <= v.max_headers && v.payload().len() <= v.max_body,
        v.buf.len() + (if v.wanted() > 0 { v.wanted() } else { 0 }) <= v.max_headers + v.max_body,
{
}

/// An answer that is accepted has exactly the body that its head declares, and
/// its head ends within the cap.
pub proof fn law_accepted_answer_is_complete(v: ReaderView)
    requires
        v.inv(),
        v.body is Some,
        v.wanted() == 0,
    ensures
        ({
            let (e, n) = v.body->0;
            v.payload().len() == n && n <= v.max_body && e <= v.max_headers
        }),
{
}

/// An answer whose head does not end within the cap is refused, without a read
/// past the cap.
pub proof fn law_long_head_is_refused(v: ReaderView)
    requires
        v.inv(),
        v.body is None,
        v.buf.len() == v.max_headers,
        forall|e: int| !first_head_end(v.buf, e),
    ensures
        v.looked_at() is Err,
{
}

/// Whether the first head in `data` ends at `e` within its cap and is followed
/// by a body of `n` bytes within its cap.
pub open spec fn proper_head(
    data: Seq<u8>,
    e: int,
    n: nat,
    max_body: usize,
    max_headers: usize,
) -> bool {
    &&& first_head_end(data, e)
    &&& e <= max_headers
    &&& valid_utf8(data.take(e))
    &&& response_length(lines_of(decode_utf8(data.take(e)))) == Some(n)
    &&& n <= max_body
}

proof fn lemma_head_of_prefix(b: Seq<u8>, whole: Seq<u8>, e: int)
    requires
        b.is_prefix_of(whole),
        e <= b.len(),
    ensures
        first_head_end(b, e) <==> first_head_end(whole, e),
        e >= 0 ==> b.take(e) == whole.take(e),
{
    assert forall|j: int| j <= e implies #[trigger] head_ends_at(b, j) == head_ends_at(whole, j) by {
        if 4 <= j {
            assert(b[j - 4] == whole[j - 4]);
            assert(b[j - 3] == whole[j - 3]);
            assert(b[j - 2] == whole[j - 2]);
            assert(b[j - 1] == whole[j - 1]);
        }
    }
    assert(head_ends_at(b, e) == head_ends_at(whole, e));
    if first_head_end(b, e) {
        assert forall|j: int| j < e implies !#[trigger] head_ends_at(whole, j) by {
            assert(!head_ends_at(b, j));
        }
    }
    if first_head_end(whole, e) {
        assert forall|j: int| j < e implies !#[trigger] head_ends_at(b, j) by {
            assert(!head_ends_at(whole, j));
        }
    }
    if e >= 0 {
        assert(b.take(e) =~= whole.take(e));
    }
}

proof fn lemma_accepted_run(v: ReaderView, data: Seq<u8>, body: Seq<u8>) -> (r: (int, nat))
    requires
        v.inv(),
        v.run(data) == Ok::<Seq<u8>, Seq<char>>(body),
        v.body matches Some((e, n)) ==> proper_head(
            v.buf + data,
            e as int,
            n as nat,
            v.max_body,
            v.max_headers,
        ),
    ensures
        proper_head(v.buf + data, r.0, r.1, v.max_body, v.max_headers),
        r.0 + r.1 <= v.buf.len() + data.len(),
        body == (v.buf + data).subrange(r.0, r.0 + r.1),
    decreases data.len(),
{
    let whole = v.buf + data;
    let w = v.looked_at()->Ok_0;
    if v.body is None {
        if exists|e: int| first_head_end(v.buf, e) {
            let e = choose|e: int| first_head_end(v.buf, e);
            lemma_head_of_prefix(v.buf, whole, e);
        }
    }
    let n = least(w.wanted(), data.len() as int);
    if w.wanted() <= 0 {
        let (e, k) = w.body->0;
        assert(body =~= whole.subrange(e as int, e + k));
        (e as int, k as nat)
    } else {
        let next = ReaderView { buf: w.buf + data.take(n), ..w };
        assert(next.buf + data.skip(n) =~= whole);
        lemma_accepted_run(next, data.skip(n), body)
    }
}

/// An accepted answer is the body that the head declares: what follows the
/// first head, as long as its length says.
pub proof fn law_accepted_answer_is_the_declared_body(
    data: Seq<u8>,
    max_body: usize,
    max_headers: usize,
    body: Seq<u8>,
)
    requires
        (ReaderView { buf: Seq::empty(), body: None, max_body, max_headers }).run(data) == Ok::<
            Seq<u8>,
            Seq<char>,
        >(body),
    ensures
        exists|e: int, n: nat| #[trigger]
            proper_head(data, e, n, max_body, max_headers) && e + n <= data.len() && body
                == data.subrange(e, e + n),
{
    let v = ReaderView { buf: Seq::empty(), body: None, max_body, max_headers };
    assert(v.buf + data =~= data);
    let r = lemma_accepted_run(v, data, body);
    assert(proper_head(data, r.0, r.1, max_body, max_headers));
}

proof fn lemma_proper_run(v: ReaderView, data: Seq<u8>, e: int, n: nat)
    requires
        v.inv(),
        proper_head(v.buf + data, e, n, v.max_body, v.max_headers),
        v.buf.len() + data.len() == e + n,
        v.body matches Some((x, k)) ==> x == e && k == n,
    ensures
        v.run(data) == Ok::<Seq<u8>, Seq<char>>((v.buf + data).skip(e)),
    decreases data.len(),
{
    let whole = v.buf + data;
    if v.body is None {
        if e <= v.buf.len() {
            lemma_head_of_prefix(v.buf, whole, e);
            let x = choose|x: int| first_head_end(v.buf, x);
            lemma_first_end_unique(v.buf, x, e);
        } else {
            assert forall|x: int| !first_head_end(v.buf, x) by {
                if first_head_end(v.buf, x) {
                    lemma_head_of_prefix(v.buf, whole, x);
                    lemma_first_end_unique(whole, x, e);
                }
            }
        }
    }
    let w = v.looked_at()->Ok_0;
    let k = least(w.wanted(), data.len() as int);
    if w.wanted() <= 0 {
        assert(data.len() == 0);
        assert(w.payload() =~= whole.skip(e));
    } else {
        let next = ReaderView { buf: w.buf + data.take(k), ..w };
        assert(next.buf + data.skip(k) =~= whole);
        lemma_proper_run(next, data.skip(k), e, n);
    }
}

/// An answer with a proper head and exactly the body that it declares is
/// accepted.
pub proof fn law_proper_answer_is_accepted(
    data: Seq<u8>,
    max_body: usize,
    max_headers: usize,
    e: int,
    n: nat,
)
    requires
        proper_head(data, e, n, max_body, max_headers),
        data.len() == e + n,
    ensures
        (ReaderView { buf: Seq::empty(), body: None, max_body, max_headers }).run(data) == Ok::<
            Seq<u8>,
            Seq<char>,
        >(data.skip(e)),
{
    let v = ReaderView { buf: Seq::empty(), body: None, max_body, max_headers };
    assert(v.buf + data =~= data);
    lemma_proper_run(v, data, e, n);
}

/// An answer without a length, or with one over the cap, is refused before any
/// more of it is read.
pub proof fn law_unbounded_answer_is_refused(v: ReaderView, e: int)
    requires
        v.inv(),
        v.body is None,
        first_head_end(v.buf, e),
        valid_utf8(v.buf.take(e)),
        ({
            let n = response_length(lines_of(decode_utf8(v.buf.take(e))));
            n is None || n->0 > v.max_body
        }),
    ensures
        v.looked_at() is Err,
{
    let x = choose|x: int| first_head_end(v.buf, x);
    lemma_first_end_unique(v.buf, x, e);
}

} // verus!
