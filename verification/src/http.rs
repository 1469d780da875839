//! HTTP requests and WebSocket frames as bytes: what of them the broker reads and what it writes.
use crate::assoc;
use crate::broker;
use crate::bytes;
use crate::codec;
use crate::json;
use crate::json::{Json, JsonView};
use crate::text;
use vstd::prelude::*;
use vstd::utf8::encode_utf8;

verus! {

/// The most bytes of a request before its header has ended.
pub const HEAD_CEILING: usize = 1048576;

/// The longest WebSocket frame.
pub const FRAME_CEILING: u64 = 1_000_000;

/// How long a client has for the header of its request, in seconds.
pub const HEADER_TIMEOUT_SECS: u64 = 15;

/// Where some bytes first stand in others.
pub open spec fn find_bytes(s: Seq<u8>, p: Seq<u8>) -> Option<int>
    decreases s.len(),
{
    if p.len() <= s.len() && s.take(p.len() as int) == p {
        Some(0)
    } else if s.len() == 0 {
        None
    } else {
        match find_bytes(s.drop_first(), p) {
            Some(i) => Some(i + 1),
            None => None,
        }
    }
}

/// Where some bytes first stand in others.
pub fn position_of(s: &[u8], p: &[u8]) -> (r: Option<usize>)
    ensures
        r is Some <==> find_bytes(s@, p@) is Some,
        r is Some ==> find_bytes(s@, p@) == Some(r->0 as int) && r->0 + p@.len() <= s@.len(),
        s@.len() <= usize::MAX,
{
    let n: usize = s.len();
    let mut i: usize = 0;
    assert(s@.skip(0) =~= s@);
    loop
        invariant
            i <= n,
            n == s@.len(),
            find_bytes(s@, p@) == match find_bytes(s@.skip(i as int), p@) {
                Some(k) => Some(i + k),
                None => None::<int>,
            },
        decreases n - i,
    {
        let ghost rest = s@.skip(i as int);
        if p.len() <= n - i {
            let here = bytes::part(s, i, i + p.len());
            assert(here@ =~= rest.take(p@.len() as int));
            if bytes::same(here, p) {
                return Some(i);
            }
        }
        if i == n {
            return None;
        }
        assert(rest.drop_first() =~= s@.skip(i + 1));
        i += 1;
    }
}

/// The end of a header.
pub open spec fn blank_line() -> Seq<u8> {
    seq![13u8, 10, 13, 10]
}

/// How the reading of a request goes on after more of it has come.
#[derive(Clone, Copy, Debug, PartialEq, Eq, Structural)]
pub enum Progress {
    /// The header has not ended.
    More,
    /// The header is there.
    Complete,
    /// The client speaks TLS.
    Tls,
    /// The header is too long.
    TooLarge,
}

/// How the reading of a request goes on.
pub open spec fn progress_of(buf: Seq<u8>) -> Progress {
    if buf.len() >= 3 && buf[0] == 0x16 && buf[1] == 0x03 {
        Progress::Tls
    } else if find_bytes(buf, blank_line()) is Some {
        Progress::Complete
    } else if buf.len() > HEAD_CEILING {
        Progress::TooLarge
    } else {
        Progress::More
    }
}

/// Where a blank line first stands.
pub fn find_blank_line(buf: &[u8]) -> (r: Option<usize>)
    ensures
        r is Some <==> find_bytes(buf@, blank_line()) is Some,
        r is Some ==> find_bytes(buf@, blank_line()) == Some(r->0 as int) && r->0 + 4 <= buf@.len(),
        buf@.len() <= usize::MAX,
{
    let mut p: Vec<u8> = Vec::new();
    p.push(13);
    p.push(10);
    p.push(13);
    p.push(10);
    assert(p@ =~= blank_line());
    position_of(buf, p.as_slice())
}

/// How the reading of a request goes on.
pub fn read_progress(buf: &[u8]) -> (r: Progress)
    ensures
        r == progress_of(buf@),
{
    if buf.len() >= 3 && buf[0] == 0x16 && buf[1] == 0x03 {
        return Progress::Tls;
    }
    if find_blank_line(buf).is_some() {
        return Progress::Complete;
    }
    if buf.len() > HEAD_CEILING {
        return Progress::TooLarge;
    }
    Progress::More
}

/// A request without its body.
#[derive(Debug)]
pub struct Head {
    pub method: String,
    pub path: String,
    pub headers: Vec<(String, String)>,
}

#[verifier::ext_equal]
pub struct HeadView {
    pub method: Seq<char>,
    pub path: Seq<char>,
    pub headers: Seq<(Seq<char>, Seq<char>)>,
}

impl View for Head {
    type V = HeadView;

    open spec fn view(&self) -> HeadView {
        HeadView {
            method: self.method@,
            path: self.path@,
            headers: assoc::pairs(self.headers@),
        }
    }
}

/// Headers with one more line taken in. Names are in lower case; a line without a colon is none.
pub open spec fn with_line(
    headers: Seq<(Seq<char>, Seq<char>)>,
    line: Seq<char>,
) -> Seq<(Seq<char>, Seq<char>)> {
    let k = text::find(line, ':');
    if k < line.len() {
        assoc::with(
            headers,
            text::lowered(text::trimmed(line.take(k))),
            text::trimmed(line.skip(k + 1)),
        )
    } else {
        headers
    }
}

/// Headers with all lines of a text taken in.
pub open spec fn with_lines(
    headers: Seq<(Seq<char>, Seq<char>)>,
    s: Seq<char>,
) -> Seq<(Seq<char>, Seq<char>)>
    decreases s.len(),
{
    match text::find_text(s, "\r\n"@) {
        Some(k) => if 0 <= k <= s.len() - 2 {
            with_lines(with_line(headers, s.take(k)), s.skip(k + 2))
        } else {
            with_line(headers, s)
        },
        None => with_line(headers, s),
    }
}

/// The part of a text before another, and the part behind it.
pub open spec fn cut_at(s: Seq<char>, p: Seq<char>) -> Option<(Seq<char>, Seq<char>)> {
    match text::find_text(s, p) {
        Some(k) => Some((s.take(k), s.skip(k + p.len()))),
        None => None,
    }
}

/// The request that a text starts with; `None` where it has no header or no request line.
pub open spec fn head_of(s: Seq<char>) -> Option<HeadView> {
    match cut_at(s, "\r\n\r\n"@) {
        Some((head, _)) => {
            let (line, rest) = match cut_at(head, "\r\n"@) {
                Some((a, b)) => (a, Some(b)),
                None => (head, None),
            };
            let (method, r1) = text::word(line);
            let (path, _) = text::word(r1);
            if method.len() == 0 || path.len() == 0 {
                None
            } else {
                Some(
                    HeadView {
                        method,
                        path,
                        headers: match rest {
                            Some(t) => with_lines(Seq::empty(), t),
                            None => Seq::empty(),
                        },
                    },
                )
            }
        },
        None => None,
    }
}

/// Takes in one header line.
fn read_line(headers: &mut Vec<(String, String)>, line: &[char])
    ensures
        assoc::pairs(final(headers)@) == with_line(assoc::pairs(old(headers)@), line@),
{
    let k: usize = text::find_char(line, ':');
    if k < line.len() {
        let name = text::text_of(text::to_lowered(text::trim(text::head(line, k))).as_slice());
        let value = text::text_of(text::trim(text::tail(line, k + 1)));
        assoc::put(headers, name.as_str(), value);
    }
}

/// Takes in all header lines.
fn read_lines(headers: &mut Vec<(String, String)>, s: &[char])
    ensures
        assoc::pairs(final(headers)@) == with_lines(assoc::pairs(old(headers)@), s@),
    decreases s@.len(),
{
    let mark = text::chars_of("\r\n");
    proof {
        reveal_strlit("\r\n");
    }
    match text::find_in(s, mark.as_slice()) {
        Some(k) => {
            read_line(headers, text::head(s, k));
            read_lines(headers, text::tail(s, k + 2));
        },
        None => read_line(headers, s),
    }
}

/// Reads the request that a text starts with.
pub fn parse_head(s: &str) -> (r: Option<Head>)
    ensures
        match r {
            Some(h) => head_of(s@) == Some(h@),
            None => head_of(s@) is None,
        },
{
    let all = text::chars_of(s);
    let end = text::chars_of("\r\n\r\n");
    let mark = text::chars_of("\r\n");
    proof {
        reveal_strlit("\r\n");
    }
    let k: usize = match text::find_in(all.as_slice(), end.as_slice()) {
        Some(k) => k,
        None => {
            return None;
        },
    };
    let head = text::head(all.as_slice(), k);
    let mut headers: Vec<(String, String)> = Vec::new();
    assert(assoc::pairs(headers@) =~= Seq::empty());
    let line: &[char] = match text::find_in(head, mark.as_slice()) {
        Some(i) => {
            read_lines(&mut headers, text::tail(head, i + 2));
            text::head(head, i)
        },
        None => head,
    };
    let (method, r1) = text::take_word(line);
    let (path, _rest) = text::take_word(r1);
    if method.len() == 0 || path.len() == 0 {
        return None;
    }
    Some(Head { method: text::text_of(method), path: text::text_of(path), headers })
}

/// Reads the request that some bytes start with.
pub fn parse_request(buf: &[u8]) -> (r: Option<Head>)
    ensures
        match r {
            Some(h) => head_of(bytes::text_of(buf@)) == Some(h@),
            None => head_of(bytes::text_of(buf@)) is None,
        },
{
    parse_head(bytes::decode(buf).as_str())
}

/// How many bytes of body a request announces.
pub open spec fn announced(headers: Seq<(Seq<char>, Seq<char>)>) -> nat {
    match assoc::lookup(headers, "content-length"@) {
        Some(t) => match text::unsigned(t, usize::MAX as nat) {
            Some(n) => n,
            None => 0,
        },
        None => 0,
    }
}

/// How many bytes of body a request announces.
pub fn content_length(headers: &Vec<(String, String)>) -> (n: usize)
    ensures
        n == announced(assoc::pairs(headers@)),
{
    match assoc::get(headers, "content-length") {
        Some(t) => match text::parse_unsigned(
            text::chars_of(t.as_str()).as_slice(),
            usize::MAX as u64,
        ) {
            Some(n) => n as usize,
            None => 0,
        },
        None => 0,
    }
}

/// What of a body has come with the header.
pub open spec fn body_start(buf: Seq<u8>) -> Seq<u8> {
    match find_bytes(buf, blank_line()) {
        Some(i) => buf.skip(i + 4),
        None => Seq::empty(),
    }
}

/// What of a body has come with the header.
pub fn early_body(buf: &[u8]) -> (r: Vec<u8>)
    ensures
        r@ == body_start(buf@),
{
    match find_blank_line(buf) {
        Some(i) => {
            let rest = bytes::part(buf, i + 4, buf.len());
            assert(rest@ =~= buf@.skip(i + 4));
            bytes::copied(rest)
        },
        None => {
            let r: Vec<u8> = Vec::new();
            assert(r@ =~= Seq::<u8>::empty());
            r
        },
    }
}

/// The value that a body stands for: nothing said is an empty object, and what is no JSON is kept
/// as text.
pub open spec fn body_value_of(raw: Seq<u8>, parsed: Option<JsonView>) -> JsonView {
    if raw.len() == 0 {
        broker::nothing()
    } else {
        match parsed {
            Some(j) => j,
            None => JsonView::Object(seq![("_raw"@, JsonView::Text(bytes::text_of(raw)))]),
        }
    }
}

/// The value that a body stands for, given what it parses to.
pub fn body_value(raw: &[u8], parsed: Option<Json>) -> (r: Json)
    ensures
        r@ == body_value_of(
            raw@,
            match parsed {
                Some(j) => Some(j@),
                None => None,
            },
        ),
{
    if raw.len() == 0 {
        return broker::empty_object();
    }
    match parsed {
        Some(j) => j,
        None => {
            let mut o = broker::start();
            json::add_member(&mut o, "_raw", Json::Text(bytes::decode(raw)));
            json::object(o)
        },
    }
}

/// One of the parts between commas is `websocket`.
pub open spec fn offers_websocket(s: Seq<char>) -> bool
    decreases s.len(),
{
    let k = text::find(s, ',');
    let part = if 0 <= k < s.len() { s.take(k) } else { s };
    text::trimmed(part) == "websocket"@ || (0 <= k < s.len() && offers_websocket(s.skip(k + 1)))
}

/// A request to speak WebSocket.
pub open spec fn wants_websocket(headers: Seq<(Seq<char>, Seq<char>)>) -> bool {
    match assoc::lookup(headers, "upgrade"@) {
        Some(t) => offers_websocket(text::lowered(t)),
        None => false,
    }
}

fn names_websocket(s: &[char]) -> (r: bool)
    ensures
        r == offers_websocket(s@),
    decreases s@.len(),
{
    let k: usize = text::find_char(s, ',');
    assert(s@.take(s@.len() as int) =~= s@);
    if text::is_text(text::trim(text::head(s, k)), "websocket") {
        return true;
    }
    k < s.len() && names_websocket(text::tail(s, k + 1))
}

/// Whether a request wants to speak WebSocket.
pub fn is_websocket_upgrade(headers: &Vec<(String, String)>) -> (r: bool)
    ensures
        r == wants_websocket(assoc::pairs(headers@)),
{
    match assoc::get(headers, "upgrade") {
        Some(t) => names_websocket(
            text::to_lowered(text::chars_of(t.as_str()).as_slice()).as_slice(),
        ),
        None => false,
    }
}

/// How long a client has for its header: for ever on the WebSocket port, where it connects early
/// and asks late.
pub fn header_timeout(ws_port: u16, local_port: u16) -> (r: Option<u64>)
    ensures
        r == (if ws_port != 0 && local_port == ws_port {
            None
        } else {
            Some(HEADER_TIMEOUT_SECS)
        }),
{
    if ws_port != 0 && local_port == ws_port {
        None
    } else {
        Some(HEADER_TIMEOUT_SECS)
    }
}

/// Headers with the address of the other side, unless they name one.
pub fn note_peer(headers: &mut Vec<(String, String)>, ip: &str)
    ensures
        assoc::pairs(final(headers)@) == (if assoc::lookup(
            assoc::pairs(old(headers)@),
            "x-peer-ip"@,
        ) is Some {
            assoc::pairs(old(headers)@)
        } else {
            assoc::with(assoc::pairs(old(headers)@), "x-peer-ip"@, ip@)
        }),
{
    if assoc::get(headers, "x-peer-ip").is_none() {
        assoc::put(headers, "x-peer-ip", ip.to_owned());
    }
}

// Writing

/// What a status is called.
pub open spec fn reason_of(code: u16) -> Seq<char> {
    if code == 101 {
        "Switching Protocols"@
    } else if code == 204 {
        "No Content"@
    } else if code == 400 {
        "Bad Request"@
    } else if code == 404 {
        "Not Found"@
    } else if code == 409 {
        "Conflict"@
    } else if code == 500 {
        "Internal Server Error"@
    } else if code == 503 {
        "Service Unavailable"@
    } else {
        "OK"@
    }
}

fn reason(code: u16) -> (r: &'static str)
    ensures
        r@ == reason_of(code),
{
    if code == 101 {
        "Switching Protocols"
    } else if code == 204 {
        "No Content"
    } else if code == 400 {
        "Bad Request"
    } else if code == 404 {
        "Not Found"
    } else if code == 409 {
        "Conflict"
    } else if code == 500 {
        "Internal Server Error"
    } else if code == 503 {
        "Service Unavailable"
    } else {
        "OK"
    }
}

/// The header of an answer.
pub open spec fn answer_head(code: u16, ctype: Seq<char>, len: nat) -> Seq<char> {
    "HTTP/1.1 "@ + text::decimal(code as nat) + " "@ + reason_of(code) + "\r\nContent-Type: "@
        + ctype + "\r\nContent-Length: "@ + text::decimal(len)
        + "\r\nConnection: close\r\nAccess-Control-Allow-Origin: *\r\n\r\n"@
}

/// Writes the header of an answer.
pub fn http_head(code: u16, ctype: &str, len: usize) -> (r: String)
    ensures
        r@ == answer_head(code, ctype@, len as nat),
{
    let mut r = String::new();
    r.append("HTTP/1.1 ");
    text::push_decimal(&mut r, code as u64);
    r.append(" ");
    r.append(reason(code));
    r.append("\r\nContent-Type: ");
    r.append(ctype);
    r.append("\r\nContent-Length: ");
    text::push_decimal(&mut r, len as u64);
    r.append("\r\nConnection: close\r\nAccess-Control-Allow-Origin: *\r\n\r\n");
    assert(r@ =~= answer_head(code, ctype@, len as nat));
    r
}

/// The proof that a WebSocket key was read.
pub open spec fn accept_of(key: Seq<char>) -> Seq<char> {
    codec::base64_of(
        codec::sha1_of(encode_utf8(key) + encode_utf8("258EAFA5-E914-47DA-95CA-C5AB0DC85B11"@)),
    )
}

/// The answer to a request to speak WebSocket; `None` where it has no key.
pub open spec fn upgrade_text(headers: Seq<(Seq<char>, Seq<char>)>) -> Option<Seq<char>> {
    match assoc::lookup(headers, "sec-websocket-key"@) {
        Some(key) => Some(
            "HTTP/1.1 101 Switching Protocols\r\nUpgrade: websocket\r\nConnection: Upgrade\r\nSec-WebSocket-Accept: "@
                + accept_of(key) + "\r\n"@ + (match assoc::lookup(
                headers,
                "sec-websocket-protocol"@,
            ) {
                Some(p) => "Sec-WebSocket-Protocol: "@ + p + "\r\n"@,
                None => Seq::empty(),
            }) + "\r\n"@,
        ),
        None => None,
    }
}

/// Answers a request to speak WebSocket; `None` where it has no key.
pub fn ws_upgrade(headers: &Vec<(String, String)>) -> (r: Option<String>)
    ensures
        broker::opt_view(r) == upgrade_text(assoc::pairs(headers@)),
{
    let key = match assoc::get(headers, "sec-websocket-key") {
        Some(k) => k,
        None => {
            return None;
        },
    };
    let accept = codec::sha1_base64(key.as_str(), "258EAFA5-E914-47DA-95CA-C5AB0DC85B11");
    let mut r = String::new();
    r.append(
        "HTTP/1.1 101 Switching Protocols\r\nUpgrade: websocket\r\nConnection: Upgrade\r\nSec-WebSocket-Accept: ",
    );
    r.append(accept.as_str());
    r.append("\r\n");
    if let Some(p) = assoc::get(headers, "sec-websocket-protocol") {
        r.append("Sec-WebSocket-Protocol: ");
        r.append(p.as_str());
        r.append("\r\n");
    }
    r.append("\r\n");
    assert(Some(r@) =~= upgrade_text(assoc::pairs(headers@)));
    Some(r)
}

// WebSocket frames

/// The frame that carries a binary message.
pub open spec fn frame_of(payload: Seq<u8>) -> Seq<u8> {
    let n = payload.len();
    seq![0x82u8] + (if n < 126 {
        seq![n as u8]
    } else if n < 65536 {
        seq![126u8] + bytes::be(n, 2)
    } else {
        seq![127u8] + bytes::be(n, 8)
    }) + payload
}

/// Writes a binary message as a frame.
pub fn ws_frame(payload: &[u8]) -> (r: Vec<u8>)
    ensures
        r@ == frame_of(payload@),
{
    let n: usize = payload.len();
    let mut r: Vec<u8> = Vec::new();
    r.push(0x82);
    if n < 126 {
        r.push(n as u8);
    } else if n < 65536 {
        r.push(126);
        bytes::push_be(&mut r, n as u64, 2);
    } else {
        r.push(127);
        bytes::push_be(&mut r, n as u64, 8);
    }
    r.extend_from_slice(payload);
    assert(r@ =~= frame_of(payload@));
    r
}

/// How many more bytes the length of a frame has, by its second byte.
pub open spec fn length_bytes(second: u8) -> nat {
    if second % 128 == 126 {
        2
    } else if second % 128 == 127 {
        8
    } else {
        0
    }
}

/// How many more bytes the length of a frame has.
pub fn ws_length_bytes(second: u8) -> (n: usize)
    ensures
        n == length_bytes(second),
{
    let low: u8 = second % 128;
    if low == 126 {
        2
    } else if low == 127 {
        8
    } else {
        0
    }
}

/// The length of a frame by its second byte and the further bytes of the length. `None` where it
/// is too long.
pub open spec fn frame_length(second: u8, more: Seq<u8>) -> Option<nat> {
    let n = if length_bytes(second) == 0 { (second % 128) as nat } else { bytes::from_be(more) };
    if n > FRAME_CEILING { None } else { Some(n) }
}

/// The length of a frame.
pub fn ws_length(second: u8, more: &[u8]) -> (r: Option<u64>)
    requires
        more@.len() == length_bytes(second),
    ensures
        match r {
            Some(n) => frame_length(second, more@) == Some(n as nat),
            None => frame_length(second, more@) is None,
        },
{
    let low: u8 = second % 128;
    let n: u64 = if low == 126 || low == 127 {
        bytes::read_be(more)
    } else {
        low as u64
    };
    if n > FRAME_CEILING {
        None
    } else {
        Some(n)
    }
}

/// Data with a mask of four bytes laid over it.
pub open spec fn masked(data: Seq<u8>, mask: Seq<u8>) -> Seq<u8> {
    Seq::new(data.len(), |i: int| data[i] ^ mask[i % 4])
}

/// Lays a mask of four bytes over data.
pub fn ws_unmask(data: &[u8], mask: &[u8]) -> (r: Vec<u8>)
    requires
        mask@.len() == 4,
    ensures
        r@ == masked(data@, mask@),
{
    let mut r: Vec<u8> = Vec::new();
    let mut i: usize = 0;
    while i < data.len()
        invariant
            i <= data@.len(),
            mask@.len() == 4,
            r@ == masked(data@, mask@).take(i as int),
        decreases data@.len() - i,
    {
        r.push(data[i] ^ mask[i % 4]);
        i += 1;
        assert(r@ =~= masked(data@, mask@).take(i as int));
    }
    assert(masked(data@, mask@).take(i as int) =~= masked(data@, mask@));
    r
}

/// A mask laid over data twice gives the data back.
pub proof fn masked_twice(data: Seq<u8>, mask: Seq<u8>)
    requires
        mask.len() == 4,
    ensures
        masked(masked(data, mask), mask) == data,
{
    assert forall|i: int| 0 <= i < data.len() implies masked(masked(data, mask), mask)[i]
        == data[i] by {
        let a = data[i];
        let b = mask[i % 4];
        assert((a ^ b) ^ b == a) by (bit_vector);
    }
    assert(masked(masked(data, mask), mask) =~= data);
}

/// A frame that the broker writes is read with the length of its payload.
pub proof fn frame_length_reads_back(payload: Seq<u8>)
    requires
        payload.len() <= FRAME_CEILING,
    ensures
        ({
            let f = frame_of(payload);
            let k = length_bytes(f[1]) as int;
            &&& frame_length(f[1], f.subrange(2, 2 + k)) == Some(payload.len())
            &&& f.skip(2 + k) == payload
        }),
{
    let n = payload.len();
    let f = frame_of(payload);
    bytes::lemma_power256();
    bytes::lemma_be_len(n, 2);
    bytes::lemma_be_len(n, 8);
    if n < 126 {
        assert(f.skip(2) =~= payload);
    } else if n < 65536 {
        bytes::be_reads_back(n, 2);
        assert(f.subrange(2, 4) =~= bytes::be(n, 2));
        assert(f.skip(4) =~= payload);
    } else {
        bytes::be_reads_back(n, 8);
        assert(f.subrange(2, 10) =~= bytes::be(n, 8));
        assert(f.skip(10) =~= payload);
    }
}

/// What a frame asks for.
pub enum FrameAction {
    Close,
    /// Write these bytes.
    Write(Vec<u8>),
    /// Take the data as a message.
    Message,
    Ignore,
}

#[verifier::ext_equal]
pub enum FrameActionView {
    Close,
    Write(Seq<u8>),
    Message,
    Ignore,
}

impl View for FrameAction {
    type V = FrameActionView;

    open spec fn view(&self) -> FrameActionView {
        match *self {
            FrameAction::Close => FrameActionView::Close,
            FrameAction::Write(v) => FrameActionView::Write(v@),
            FrameAction::Message => FrameActionView::Message,
            FrameAction::Ignore => FrameActionView::Ignore,
        }
    }
}

/// What a frame asks for, by its first byte and its data. A ping is answered where the answer is a
/// short frame.
pub open spec fn frame_action(first: u8, data: Seq<u8>) -> FrameActionView {
    let opcode = first % 16;
    if opcode == 8 {
        FrameActionView::Close
    } else if opcode == 9 {
        if data.len() < 126 {
            FrameActionView::Write(seq![0x8au8, data.len() as u8] + data)
        } else {
            FrameActionView::Ignore
        }
    } else if opcode == 1 || opcode == 2 {
        FrameActionView::Message
    } else {
        FrameActionView::Ignore
    }
}

/// What a frame asks for.
pub fn ws_action(first: u8, data: &[u8]) -> (r: FrameAction)
    ensures
        r@ == frame_action(first, data@),
{
    let opcode: u8 = first % 16;
    if opcode == 8 {
        return FrameAction::Close;
    }
    if opcode == 9 {
        if data.len() < 126 {
            let mut v: Vec<u8> = Vec::new();
            v.push(0x8a);
            v.push(data.len() as u8);
            v.extend_from_slice(data);
            assert(v@ =~= seq![0x8au8, data@.len() as u8] + data@);
            return FrameAction::Write(v);
        }
        return FrameAction::Ignore;
    }
    if opcode == 1 || opcode == 2 {
        return FrameAction::Message;
    }
    FrameAction::Ignore
}

/// The parameters with which a message is answered: its own, with the search that it names.
pub open spec fn answer_params(v: JsonView) -> Seq<(Seq<char>, JsonView)> {
    let own = broker::object_field(v, "params"@);
    match v.field("lobby_search_id"@) {
        Some(id) => if assoc::lookup(own, "lobby_search_id"@) is None && !(id is Null) {
            assoc::with(own, "lobby_search_id"@, id)
        } else {
            own
        },
        None => own,
    }
}

/// What a message is answered with: its command and its parameters. A message that is no JSON is
/// answered where it speaks of joining a lobby.
pub open spec fn message_answer(data: Seq<u8>, parsed: Option<JsonView>) -> Option<JsonView> {
    match parsed {
        Some(v) => Some(
            JsonView::Object(
                seq![
                    (
                        "command"@,
                        JsonView::Text(
                            match v.text_field("command"@) {
                                Some(c) => c,
                                None => Seq::empty(),
                            },
                        ),
                    ),
                    ("params"@, JsonView::Object(answer_params(v))),
                ],
            ),
        ),
        None => if find_bytes(data, encode_utf8("join_lobby"@)) is Some {
            Some(
                JsonView::Object(
                    seq![
                        ("command"@, JsonView::Text("join_lobby"@)),
                        ("params"@, broker::nothing()),
                    ],
                ),
            )
        } else {
            None
        },
    }
}

/// The view of an optional value.
pub open spec fn opt_json(j: Option<Json>) -> Option<JsonView> {
    match j {
        Some(v) => Some(v@),
        None => None,
    }
}

/// An answer with a command and its parameters.
fn command_obj(command: &str, params: Vec<(String, Json)>) -> (r: Json)
    ensures
        r@ == JsonView::Object(
            seq![
                ("command"@, JsonView::Text(command@)),
                ("params"@, JsonView::Object(json::members(params@))),
            ],
        ),
{
    let mut o = broker::start();
    json::add_member(&mut o, "command", json::string(command));
    json::add_member(&mut o, "params", json::object(params));
    let r = json::object(o);
    assert(r@->Object_0 =~= seq![
        ("command"@, JsonView::Text(command@)),
        ("params"@, JsonView::Object(json::members(params@))),
    ]);
    r
}

/// Answers a message, given what it parses to.
pub fn ws_message(data: &[u8], parsed: Option<Json>) -> (r: Option<Json>)
    ensures
        opt_json(r) == message_answer(data@, opt_json(parsed)),
{
    match parsed {
        Some(v) => {
            let mut params = broker::members_or_none(v.field("params"));
            if assoc::get(&params, "lobby_search_id").is_none() {
                if let Some(id) = v.field("lobby_search_id") {
                    match id {
                        Json::Null => {},
                        _ => assoc::put(&mut params, "lobby_search_id", id.copy()),
                    }
                }
            }
            proof {
                reveal_strlit("");
                assert(""@ =~= Seq::empty());
                assert(json::members(params@) == answer_params(v@));
            }
            let command: &str = match v.text_field("command") {
                Some(c) => c,
                None => "",
            };
            let r = command_obj(command, params);
            assert(r@->Object_0 =~= message_answer(data@, Some(v@))->0->Object_0);
            Some(r)
        },
        None => {
            let word = "join_lobby";
            if position_of(data, word.as_bytes()).is_some() {
                Some(command_obj("join_lobby", broker::start()))
            } else {
                None
            }
        },
    }
}

}
