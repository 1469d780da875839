//! Reading single values out of a reply without reading the whole of it, and the requests that the
//! replies answer.
use crate::broker_queue::PollResult;
use crate::bytes;
use crate::party;
use crate::party::{Peer, PeerView};
use crate::text;
use vstd::prelude::*;

verus! {

/// How many objects of a list are read.
pub const OBJECT_CAP: usize = 32;

/// The text between the first and the second place where `p` stands, or up to the end where it
/// stands once.
pub open spec fn piece_after(s: Seq<char>, p: Seq<char>) -> Option<Seq<char>> {
    match text::find_text(s, p) {
        Some(i) => {
            let r = s.skip(i + p.len());
            match text::find_text(r, p) {
                Some(j) => Some(r.take(j)),
                None => Some(r),
            }
        },
        None => None,
    }
}

/// Cuts out the text between the first and the second place where `p` stands.
pub fn cut_after<'a>(s: &'a [char], p: &[char]) -> (r: Option<&'a [char]>)
    ensures
        match r {
            Some(t) => piece_after(s@, p@) == Some(t@),
            None => piece_after(s@, p@) is None,
        },
{
    match text::find_in(s, p) {
        Some(i) => {
            let rest = text::tail(s, i + p.len());
            match text::find_in(rest, p) {
                Some(j) => Some(text::head(rest, j)),
                None => Some(rest),
            }
        },
        None => None,
    }
}

/// A name as it stands before its value.
pub open spec fn quoted_name(key: Seq<char>, end: Seq<char>) -> Seq<char> {
    "\""@ + key + end
}

/// Writes a name as it stands before its value.
pub fn name_pattern(key: &str, end: &str) -> (r: Vec<char>)
    ensures
        r@ == quoted_name(key@, end@),
{
    let mut s = String::new();
    s.append("\"");
    s.append(key);
    s.append(end);
    assert(s@ =~= quoted_name(key@, end@));
    text::chars_of(s.as_str())
}

/// A character of a number.
pub open spec fn is_number_char(c: char) -> bool {
    text::is_digit(c) || c == '.' || c == '-'
}

/// The number under a name, as it is written.
pub open spec fn number_field(s: Seq<char>, key: Seq<char>) -> Option<Seq<char>> {
    match piece_after(s, quoted_name(key, "\":"@)) {
        Some(r) => {
            let t = text::past_white(r);
            let k = text::span(t, |c: char| is_number_char(c));
            if k == 0 { None } else { Some(t.take(k)) }
        },
        None => None,
    }
}

/// The text under a name up to the next quotation mark, or the number under it.
pub open spec fn value_field(s: Seq<char>, key: Seq<char>) -> Option<Seq<char>> {
    match piece_after(s, quoted_name(key, "\":\""@)) {
        Some(r) => {
            let k = text::find(r, '"');
            if k < r.len() { Some(r.take(k)) } else { None }
        },
        None => number_field(s, key),
    }
}

pub open spec fn opt_text(t: Option<String>) -> Option<Seq<char>> {
    match t {
        Some(t) => Some(t@),
        None => None,
    }
}

/// Reads the number under a name, as it is written.
pub fn json_num(s: &[char], key: &str) -> (r: Option<String>)
    ensures
        opt_text(r) == number_field(s@, key@),
{
    match cut_after(s, name_pattern(key, "\":").as_slice()) {
        Some(rest) => {
            let mut i: usize = 0;
            while i < rest.len() && text::space(rest[i])
                invariant
                    i <= rest@.len(),
                    forall|j: int| 0 <= j < i ==> text::is_space(#[trigger] rest@[j]),
                decreases rest@.len() - i,
            {
                i += 1;
            }
            proof {
                text::lemma_span(rest@, |c: char| text::is_space(c), i as int);
            }
            let t = text::tail(rest, i);
            let mut k: usize = 0;
            while k < t.len() && (text::digit(t[k]) || t[k] == '.' || t[k] == '-')
                invariant
                    k <= t@.len(),
                    forall|j: int| 0 <= j < k ==> is_number_char(#[trigger] t@[j]),
                decreases t@.len() - k,
            {
                k += 1;
            }
            proof {
                text::lemma_span(t@, |c: char| is_number_char(c), k as int);
            }
            if k == 0 {
                None
            } else {
                Some(text::text_of(text::head(t, k)))
            }
        },
        None => None,
    }
}

/// Reads the text under a name up to the next quotation mark, or the number under it.
pub fn json_str(s: &[char], key: &str) -> (r: Option<String>)
    ensures
        opt_text(r) == value_field(s@, key@),
{
    match cut_after(s, name_pattern(key, "\":\"").as_slice()) {
        Some(rest) => {
            let k: usize = text::find_char(rest, '"');
            if k < rest.len() {
                Some(text::text_of(text::head(rest, k)))
            } else {
                None
            }
        },
        None => json_num(s, key),
    }
}

/// The objects from place `i` of a list on, where so many braces are open, the outermost of which
/// opened at `start`, and so many objects were read. The list ends at its bracket or with its
/// last object that is read.
pub open spec fn objects_from(
    s: Seq<char>,
    i: int,
    depth: int,
    start: Option<int>,
    count: nat,
) -> Seq<Seq<char>>
    decreases s.len() - i,
{
    if i < 0 || i >= s.len() {
        Seq::empty()
    } else if s[i] == '{' {
        objects_from(s, i + 1, depth + 1, if depth == 0 { Some(i) } else { start }, count)
    } else if s[i] == '}' {
        if depth == 1 {
            match start {
                Some(k) => seq![s.subrange(k, i + 1)] + (if count + 1 >= OBJECT_CAP {
                    Seq::empty()
                } else {
                    objects_from(s, i + 1, 0, None, count + 1)
                }),
                None => objects_from(s, i + 1, 0, None, count),
            }
        } else {
            objects_from(s, i + 1, depth - 1, start, count)
        }
    } else if s[i] == ']' && depth == 0 {
        Seq::empty()
    } else {
        objects_from(s, i + 1, depth, start, count)
    }
}

/// The objects of the list under a name.
pub open spec fn listed_objects(s: Seq<char>, key: Seq<char>) -> Seq<Seq<char>> {
    match piece_after(s, quoted_name(key, "\":["@)) {
        Some(r) => objects_from(r, 0, 0, None, 0),
        None => Seq::empty(),
    }
}

/// Cuts the objects of the list under a name out of a text.
pub fn json_arr_objects(blob: &str, key: &str) -> (r: Vec<String>)
    ensures
        text::views(r@) == listed_objects(blob@, key@),
{
    let all = text::chars_of(blob);
    let mut out: Vec<String> = Vec::new();
    assert(text::views(out@) =~= Seq::empty());
    let rest = match cut_after(all.as_slice(), name_pattern(key, "\":[").as_slice()) {
        Some(rest) => rest,
        None => {
            return out;
        },
    };
    let n: usize = rest.len();
    let mut i: usize = 0;
    let mut depth: i128 = 0;
    let mut start: Option<usize> = None;
    let mut more = true;
    let ghost whole = objects_from(rest@, 0, 0, None, 0);
    assert(whole =~= text::views(out@) + whole);
    while more
        invariant
            i <= n,
            n == rest@.len(),
            -i <= depth <= i,
            more ==> out@.len() < OBJECT_CAP,
            start is Some ==> start->0 < i,
            more ==> whole == text::views(out@) + objects_from(
                rest@,
                i as int,
                depth as int,
                match start {
                    Some(k) => Some(k as int),
                    None => None,
                },
                out@.len(),
            ),
            !more ==> whole == text::views(out@),
        decreases n - i + (if more { 1int } else { 0 }),
    {
        let ghost sofar = text::views(out@);
        if i == n {
            more = false;
            assert(sofar + Seq::empty() =~= sofar);
        } else {
            let c = rest[i];
            if c == '{' {
                if depth == 0 {
                    start = Some(i);
                }
                depth = depth + 1;
            } else if c == '}' {
                depth = depth - 1;
                if depth == 0 {
                    if let Some(k) = start {
                        let t = text::text_of(text::part(rest, k, i + 1));
                        let ghost more_objects = objects_from(
                            rest@,
                            i + 1,
                            0,
                            None,
                            out@.len() + 1,
                        );
                        out.push(t);
                        assert(text::views(out@) =~= sofar.push(t@));
                        assert(sofar + (seq![t@] + more_objects) =~= text::views(out@)
                            + more_objects);
                        assert(sofar + (seq![t@] + Seq::empty()) =~= text::views(out@));
                    }
                    start = None;
                    if out.len() >= OBJECT_CAP {
                        more = false;
                        assert(sofar + Seq::empty() =~= sofar);
                    }
                }
            } else if c == ']' && depth == 0 {
                more = false;
                assert(sofar + Seq::empty() =~= sofar);
            }
            i += 1;
        }
    }
    out
}

/// The peer that an object tells of, where it has an entity.
pub open spec fn told_peer(o: Seq<char>) -> Option<PeerView> {
    match value_field(o, "entity_id"@) {
        Some(entity) => Some(
            PeerView {
                entity,
                ip: match value_field(o, "ip"@) {
                    Some(ip) => ip,
                    None => "127.0.0.1"@,
                },
                udp_port: match value_field(o, "udp_port"@) {
                    Some(t) => match text::unsigned(t, u16::MAX as nat) {
                        Some(n) => n as u16,
                        None => 0,
                    },
                    None => 0,
                },
            },
        ),
        None => None,
    }
}

/// The peers that some objects tell of.
pub open spec fn told_peers(v: Seq<Seq<char>>) -> Seq<PeerView>
    decreases v.len(),
{
    if v.len() == 0 {
        Seq::empty()
    } else {
        match told_peer(v.last()) {
            Some(p) => told_peers(v.drop_last()).push(p),
            None => told_peers(v.drop_last()),
        }
    }
}

/// Reads the peer that an object tells of.
fn read_peer(o: &str) -> (r: Option<Peer>)
    ensures
        match r {
            Some(p) => told_peer(o@) == Some(p@),
            None => told_peer(o@) is None,
        },
{
    let s = text::chars_of(o);
    let entity = match json_str(s.as_slice(), "entity_id") {
        Some(e) => e,
        None => {
            return None;
        },
    };
    let ip = match json_str(s.as_slice(), "ip") {
        Some(ip) => ip,
        None => "127.0.0.1".to_owned(),
    };
    let udp_port: u16 = match json_str(s.as_slice(), "udp_port") {
        Some(t) => match text::parse_unsigned(text::chars_of(t.as_str()).as_slice(), 65535) {
            Some(n) => n as u16,
            None => 0,
        },
        None => 0,
    };
    Some(Peer { entity, ip, udp_port })
}

/// Reads who takes part out of a reply of the broker; a reply that did not come tells of nobody.
pub fn read_peers(reply: Option<String>, seq: u64) -> (r: PollResult)
    ensures
        r.seq == seq,
        r@.members == (match opt_text(reply) {
            Some(t) => told_peers(listed_objects(t, "members"@)),
            None => Seq::empty(),
        }),
{
    let mut members: Vec<Peer> = Vec::new();
    assert(party::peers(members@) =~= Seq::empty());
    if let Some(t) = reply {
        let objects = json_arr_objects(t.as_str(), "members");
        let ghost all = text::views(objects@);
        let mut i: usize = 0;
        assert(all.take(0) =~= Seq::empty());
        while i < objects.len()
            invariant
                i <= objects@.len(),
                all == text::views(objects@),
                party::peers(members@) == told_peers(all.take(i as int)),
            decreases objects@.len() - i,
        {
            assert(all.take(i + 1).drop_last() =~= all.take(i as int));
            assert(all[i as int] == objects@[i as int]@);
            let ghost sofar = party::peers(members@);
            if let Some(p) = read_peer(objects[i].as_str()) {
                members.push(p);
                assert(party::peers(members@) =~= sofar.push(p@));
            }
            i += 1;
        }
        assert(all.take(i as int) =~= all);
    }
    PollResult { seq, members }
}

/// The body of a registration.
pub open spec fn register_text(
    network: Seq<char>,
    entity: Seq<char>,
    udp_port: u16,
    ip: Seq<char>,
) -> Seq<char> {
    "{\"network_id\":\""@ + network + "\",\"entity_id\":\""@ + entity + "\",\"udp_port\":"@
        + text::decimal(udp_port as nat) + ",\"ip\":\""@ + ip + "\"}"@
}

/// Writes the body of a registration.
pub fn register_body(network: &str, entity: &str, udp_port: u16, ip: &str) -> (r: String)
    ensures
        r@ == register_text(network@, entity@, udp_port, ip@),
{
    let mut r = String::new();
    r.append("{\"network_id\":\"");
    r.append(network);
    r.append("\",\"entity_id\":\"");
    r.append(entity);
    r.append("\",\"udp_port\":");
    text::push_decimal(&mut r, udp_port as u64);
    r.append(",\"ip\":\"");
    r.append(ip);
    r.append("\"}");
    assert(r@ =~= register_text(network@, entity@, udp_port, ip@));
    r
}

/// Writes the body of a leave.
pub fn leave_body(network: &str, entity: &str) -> (r: String)
    ensures
        r@ == "{\"network_id\":\""@ + network@ + "\",\"entity_id\":\""@ + entity@ + "\"}"@,
{
    let mut r = String::new();
    r.append("{\"network_id\":\"");
    r.append(network);
    r.append("\",\"entity_id\":\"");
    r.append(entity);
    r.append("\"}");
    assert(r@ =~= "{\"network_id\":\""@ + network@ + "\",\"entity_id\":\""@ + entity@ + "\"}"@);
    r
}

/// Writes the path of a request for the peers of a network.
pub fn peers_path(network: &str) -> (r: String)
    ensures
        r@ == "/party/peers?network_id="@ + network@,
{
    let mut r = String::new();
    r.append("/party/peers?network_id=");
    r.append(network);
    assert(r@ =~= "/party/peers?network_id="@ + network@);
    r
}

/// The head of a request: the header lines of `auth` stand in it as they are.
pub open spec fn request_head(
    method: Seq<char>,
    path: Seq<char>,
    host: Seq<char>,
    port: u16,
    auth: Seq<char>,
    length: nat,
) -> Seq<char> {
    method + " "@ + path + " HTTP/1.1\r\nHost: "@ + host + ":"@ + text::decimal(port as nat)
        + "\r\nContent-Type: application/json\r\n"@ + auth + "Content-Length: "@ + text::decimal(
        length,
    ) + "\r\nConnection: close\r\n\r\n"@
}

/// Writes a request.
pub fn http_request(
    method: &str,
    path: &str,
    host: &str,
    port: u16,
    auth: &str,
    body: &[u8],
) -> (r: Vec<u8>)
    ensures
        r@ == vstd::utf8::encode_utf8(
            request_head(method@, path@, host@, port, auth@, body@.len()),
        ) + body@,
{
    let n: usize = body.len();
    let mut h = String::new();
    h.append(method);
    h.append(" ");
    h.append(path);
    h.append(" HTTP/1.1\r\nHost: ");
    h.append(host);
    h.append(":");
    text::push_decimal(&mut h, port as u64);
    h.append("\r\nContent-Type: application/json\r\n");
    h.append(auth);
    h.append("Content-Length: ");
    text::push_decimal(&mut h, n as u64);
    h.append("\r\nConnection: close\r\n\r\n");
    assert(h@ =~= request_head(method@, path@, host@, port, auth@, body@.len()));
    let mut r = bytes::copied(h.as_str().as_bytes());
    let ghost head = r@;
    r.extend_from_slice(body);
    assert(r@ =~= head + body@);
    r
}

/// The status and the body of a reply; one whose head does not end is none, and a status that
/// cannot be read is 0.
pub open spec fn reply_parts(t: Seq<char>) -> Option<(u16, Seq<char>)> {
    match text::find_text(t, "\r\n\r\n"@) {
        Some(i) => Some(
            (
                match text::unsigned(text::word(text::word(t).1).0, u16::MAX as nat) {
                    Some(n) => n as u16,
                    None => 0,
                },
                t.skip(i + "\r\n\r\n"@.len()),
            ),
        ),
        None => None,
    }
}

/// Reads the status and the body of a reply.
pub fn read_reply(data: &[u8]) -> (r: Option<(u16, String)>)
    ensures
        match r {
            Some(p) => reply_parts(bytes::text_of(data@)) == Some((p.0, p.1@)),
            None => reply_parts(bytes::text_of(data@)) is None,
        },
{
    let t = text::chars_of(bytes::decode(data).as_str());
    let end = text::chars_of("\r\n\r\n");
    match text::find_in(t.as_slice(), end.as_slice()) {
        Some(i) => {
            let (first, rest) = text::take_word(t.as_slice());
            let (second, more) = text::take_word(rest);
            let status: u16 = match text::parse_unsigned(second, 65535) {
                Some(n) => n as u16,
                None => 0,
            };
            Some((status, text::text_of(text::tail(t.as_slice(), i + end.len()))))
        },
        None => None,
    }
}

}
