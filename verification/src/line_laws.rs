//! What is written as lines of text is read back from them: requests and answers, and settings.
use crate::assoc;
use crate::http;
use crate::ini;
use crate::ini::EntryView;
use crate::lan_cfg;
use crate::lan_cfg::LanCfgView;
use crate::lobby_client;
use crate::lobby_model;
use crate::request_laws;
use crate::request_laws::said;
use crate::routes::LobbyIni;
use crate::scan;
use crate::text;
use vstd::prelude::*;

verus! {

// Lines

/// Something without white space.
pub open spec fn is_solid(s: Seq<char>) -> bool {
    s.len() > 0 && forall|i: int| 0 <= i < s.len() ==> !text::is_space(#[trigger] s[i])
}

pub open spec fn crlf() -> Seq<char> {
    seq!['\r', '\n']
}

proof fn lemma_crlf()
    ensures
        "\r\n"@ == crlf(),
        "\r\n\r\n"@ == crlf() + crlf(),
        " "@ == seq![' '],
        ":"@ == seq![':'],
{
    reveal_strlit("\r\n");
    reveal_strlit("\r\n\r\n");
    reveal_strlit(" ");
    reveal_strlit(":");
    assert("\r\n"@ =~= crlf());
    assert("\r\n\r\n"@ =~= crlf() + crlf());
    assert(" "@ =~= seq![' ']);
    assert(":"@ =~= seq![':']);
}

/// A line holds no return.
pub open spec fn is_line(s: Seq<char>) -> bool {
    forall|i: int| 0 <= i < s.len() ==> #[trigger] s[i] != '\r'
}

/// The first line of a text ends where its first return stands.
proof fn lemma_line_end(line: Seq<char>, rest: Seq<char>)
    requires
        is_line(line),
    ensures
        text::find_text(line + crlf() + rest, crlf()) == Some(line.len() as int),
        text::find_text(line, crlf()) is None,
    decreases line.len(),
{
    let s = line + crlf() + rest;
    if line.len() == 0 {
        assert(s.take(2) =~= crlf());
    } else {
        let t = line.drop_first();
        assert(s.drop_first() =~= t + crlf() + rest);
        assert(s[0] == line[0]);
        assert(is_line(t)) by {
            assert forall|i: int| 0 <= i < t.len() implies #[trigger] t[i] != '\r' by {
                assert(t[i] == line[i + 1]);
            }
        }
        lemma_line_end(t, rest);
        if text::begins(s, crlf()) {
            assert(s.take(2)[0] == s[0]);
        }
        if text::begins(line, crlf()) {
            assert(line.take(2)[0] == line[0]);
        }
    }
}

/// A blank line is looked for behind a line that something follows.
proof fn lemma_blank_later(line: Seq<char>, rest: Seq<char>)
    requires
        is_line(line),
        rest.len() > 0,
        rest[0] != '\r',
    ensures
        text::find_text(line + crlf() + rest, crlf() + crlf()) == (match text::find_text(
            rest,
            crlf() + crlf(),
        ) {
            Some(i) => Some(i + line.len() + 2),
            None => None,
        }),
    decreases line.len(),
{
    let p = crlf() + crlf();
    let s = line + crlf() + rest;
    if line.len() == 0 {
        assert(s =~= crlf() + rest);
        if text::begins(s, p) {
            assert(s.take(4)[2] == s[2]);
        }
        let t = s.drop_first();
        assert(t =~= seq!['\n'] + rest);
        if text::begins(t, p) {
            assert(t.take(4)[0] == t[0]);
        }
        assert(t.drop_first() =~= rest);
    } else {
        let t = line.drop_first();
        assert(s.drop_first() =~= t + crlf() + rest);
        assert(s[0] == line[0]);
        assert(is_line(t)) by {
            assert forall|i: int| 0 <= i < t.len() implies #[trigger] t[i] != '\r' by {
                assert(t[i] == line[i + 1]);
            }
        }
        lemma_blank_later(t, rest);
        if text::begins(s, p) {
            assert(s.take(4)[0] == s[0]);
        }
    }
}

/// A blank line behind a line is found there.
proof fn lemma_blank_here(line: Seq<char>, rest: Seq<char>)
    requires
        is_line(line),
    ensures
        text::find_text(line + (crlf() + crlf()) + rest, crlf() + crlf()) == Some(line.len() as int),
    decreases line.len(),
{
    let p = crlf() + crlf();
    let s = line + p + rest;
    if line.len() == 0 {
        assert(s.take(4) =~= p);
    } else {
        let t = line.drop_first();
        assert(s.drop_first() =~= t + p + rest);
        assert(s[0] == line[0]);
        assert(is_line(t)) by {
            assert forall|i: int| 0 <= i < t.len() implies #[trigger] t[i] != '\r' by {
                assert(t[i] == line[i + 1]);
            }
        }
        lemma_blank_here(t, rest);
        if text::begins(s, p) {
            assert(s.take(4)[0] == s[0]);
        }
    }
}

/// The first word of a text is what stands before its first white space.
pub proof fn lemma_word(w: Seq<char>, rest: Seq<char>)
    requires
        is_solid(w),
        rest.len() == 0 || text::is_space(rest[0]),
    ensures
        text::word(w + rest) == (w, rest),
        text::word(seq![' '] + (w + rest)) == (w, rest),
{
    let solid = |c: char| !text::is_space(c);
    let blank = |c: char| text::is_space(c);
    let s = w + rest;
    assert(s[0] == w[0]);
    assert(!blank(s[0]));
    text::lemma_span(s, blank, 0);
    assert(s.skip(0) =~= s);
    assert forall|j: int| 0 <= j < w.len() implies solid(#[trigger] s[j]) by {
        assert(s[j] == w[j]);
    }
    if rest.len() > 0 {
        assert(s[w.len() as int] == rest[0]);
    }
    text::lemma_span(s, solid, w.len() as int);
    assert(s.take(w.len() as int) =~= w);
    assert(s.skip(w.len() as int) =~= rest);
    let u = seq![' '] + s;
    assert(blank(u[0]));
    assert(u[1] == s[0]);
    text::lemma_span(u, blank, 1);
    assert(u.skip(1) =~= s);
}

/// White space before and behind a text is not part of it.
pub proof fn lemma_trimmed(t: Seq<char>)
    requires
        t.len() > 0,
        !text::is_space(t[0]),
        !text::is_space(t.last()),
    ensures
        text::trimmed(t) == t,
        text::trimmed(seq![' '] + t) == t,
{
    let blank = |c: char| text::is_space(c);
    assert(!blank(t[0]) && !blank(t[t.len() - 1]));
    text::lemma_span(t, blank, 0);
    assert(t.skip(0) =~= t);
    text::lemma_span_back(t, blank, t.len() as int);
    assert(t.take(t.len() as int) =~= t);
    let u = seq![' '] + t;
    assert(blank(u[0]));
    assert(u[1] == t[0]);
    text::lemma_span(u, blank, 1);
    assert(u.skip(1) =~= t);
}

// Answers

/// What the broker answers is what the client reads: the status and the body.
pub proof fn answer_is_read(code: u16, ctype: Seq<char>, len: nat, body: Seq<char>)
    requires
        is_line(ctype),
        ctype.len() > 0,
    ensures
        scan::reply_parts(http::answer_head(code, ctype, len) + body) == Some((code, body)),
{
    lemma_crlf();
    text::decimal_is_number(code as nat);
    text::decimal_is_number(len);
    reveal_strlit("HTTP/1.1 ");
    reveal_strlit("\r\nContent-Type: ");
    reveal_strlit("\r\nContent-Length: ");
    reveal_strlit("\r\nConnection: close\r\nAccess-Control-Allow-Origin: *\r\n\r\n");
    let n = text::decimal(code as nat);
    let why = http::reason_of(code);
    let proto = "HTTP/1.1 "@.take(8);
    let h1 = "\r\nContent-Type: "@.skip(2);
    let h2 = "\r\nContent-Length: "@.skip(2);
    let tail = "\r\nConnection: close\r\nAccess-Control-Allow-Origin: *\r\n\r\n"@;
    let h3 = tail.subrange(2, 19);
    let h4 = tail.subrange(21, 51);
    let l1 = proto + seq![' '] + n + seq![' '] + why;
    let l2 = h1 + ctype;
    let l3 = h2 + text::decimal(len);
    let t = http::answer_head(code, ctype, len) + body;
    let r4 = h4 + (crlf() + crlf()) + body;
    let r3 = h3 + crlf() + r4;
    let r2 = l3 + crlf() + r3;
    let r1 = l2 + crlf() + r2;
    assert(tail =~= crlf() + h3 + crlf() + h4 + (crlf() + crlf()));
    assert("HTTP/1.1 "@ =~= proto + seq![' ']);
    assert("\r\nContent-Type: "@ =~= crlf() + h1);
    assert("\r\nContent-Length: "@ =~= crlf() + h2);
    assert(t =~= l1 + crlf() + r1) by {
        assert(t =~= (proto + seq![' '] + n + seq![' '] + why) + (crlf() + h1) + ctype + (crlf()
            + h2) + text::decimal(len) + tail + body);
        assert(r1 =~= h1 + ctype + (crlf() + h2) + text::decimal(len) + (crlf() + h3 + crlf() + h4
            + (crlf() + crlf())) + body);
    }
    lemma_reason(code);
    assert(is_line(l1));
    assert(is_line(l2));
    assert(is_line(l3));
    assert(is_line(h3));
    assert(is_line(h4));
    assert(r1[0] == h1[0] && r2[0] == h2[0] && r3[0] == h3[0] && r4[0] == h4[0]);
    lemma_blank_later(l1, r1);
    lemma_blank_later(l2, r2);
    lemma_blank_later(l3, r3);
    lemma_blank_later(h3, r4);
    lemma_blank_here(h4, body);
    let k = text::find_text(t, crlf() + crlf())->0;
    assert(t.skip(k + 4) =~= body) by {
        assert(t.skip(l1.len() + 2int) =~= r1);
        assert(r1.skip(l2.len() + 2int) =~= r2);
        assert(r2.skip(l3.len() + 2int) =~= r3);
        assert(r3.skip(h3.len() + 2int) =~= r4);
        assert(r4.skip(h4.len() + 4int) =~= body);
        assert(k == l1.len() + 2 + l2.len() + 2 + l3.len() + 2 + h3.len() + 2 + h4.len());
        assert(t.skip(k + 4) =~= r1.skip(k + 4 - l1.len() - 2));
        assert(r1.skip(k + 4 - l1.len() - 2) =~= r2.skip(k + 4 - l1.len() - 2 - l2.len() - 2));
    }
    let behind = seq![' '] + why + crlf() + r1;
    assert(t =~= proto + seq![' '] + n + behind);
    lemma_status(proto, n, behind, t);
}

proof fn lemma_reason(code: u16)
    ensures
        is_line(http::reason_of(code)),
{
    reveal_strlit("Switching Protocols");
    reveal_strlit("No Content");
    reveal_strlit("Bad Request");
    reveal_strlit("Not Found");
    reveal_strlit("Conflict");
    reveal_strlit("Internal Server Error");
    reveal_strlit("Service Unavailable");
    reveal_strlit("OK");
}

proof fn lemma_status(proto: Seq<char>, n: Seq<char>, rest: Seq<char>, t: Seq<char>)
    requires
        is_solid(proto),
        text::is_number(n),
        rest.len() > 0,
        text::is_space(rest[0]),
        t == proto + seq![' '] + n + rest,
    ensures
        text::word(text::word(t).1).0 == n,
{
    assert(is_solid(n)) by {
        assert forall|i: int| 0 <= i < n.len() implies !text::is_space(#[trigger] n[i]) by {
            assert(text::is_digit(n[i]));
        }
    }
    let r = seq![' '] + (n + rest);
    assert(t =~= proto + r);
    lemma_word(proto, r);
    lemma_word(n, rest);
}

// Headers

/// A header line gives its value under its name, whatever the case of its letters, and leaves the
/// other headers.
pub proof fn header_is_read(
    headers: Seq<(Seq<char>, Seq<char>)>,
    name: Seq<char>,
    value: Seq<char>,
    other: Seq<char>,
)
    requires
        is_solid(name),
        !name.contains(':'),
        value.len() > 0,
        !text::is_space(value[0]),
        !text::is_space(value.last()),
    ensures
        ({
            let h = http::with_line(headers, name + seq![':', ' '] + value);
            &&& assoc::lookup(h, text::lowered(name)) == Some(value)
            &&& other != text::lowered(name) ==> assoc::lookup(h, other) == assoc::lookup(
                headers,
                other,
            )
        }),
{
    let line = name + seq![':', ' '] + value;
    let k = name.len() as int;
    assert forall|j: int| 0 <= j < k implies line[j] != ':' by {
        assert(line[j] == name[j]);
        assert(name.contains(name[j]));
    }
    assert(line[k] == ':');
    text::lemma_find(line, ':', k);
    assert(line.take(k) =~= name);
    assert(line.skip(k + 1) =~= seq![' '] + value);
    assert(!text::is_space(name[0]) && !text::is_space(name[k - 1]));
    lemma_trimmed(name);
    lemma_trimmed(value);
    assoc::set_is_found(headers, text::lowered(name), value, other);
}

// Registrations

/// A registration says which network, who, under which port and under which address.
pub proof fn registration_says_what_is_asked(
    network: Seq<char>,
    entity: Seq<char>,
    udp_port: u16,
    ip: Seq<char>,
)
    requires
        request_laws::is_plain(network),
        request_laws::is_plain(entity),
        request_laws::is_plain(ip),
    ensures
        ({
            let r = said(lobby_model::utf8(scan::register_text(network, entity, udp_port, ip)));
            &&& assoc::lookup(r, "network_id"@) == Some(network)
            &&& assoc::lookup(r, "entity_id"@) == Some(entity)
            &&& assoc::lookup(r, "udp_port"@) == Some(text::decimal(udp_port as nat))
            &&& assoc::lookup(r, "ip"@) == Some(ip)
        }),
{
    request_laws::lemma_registration(network, entity, udp_port, ip);
}

// Settings

/// A setting on a line of its own is read with the section that is open, its name in lower case
/// and its value as it is; a comment behind it does not count.
pub proof fn setting_is_read(
    section: Seq<char>,
    key: Seq<char>,
    value: Seq<char>,
    comment: Seq<char>,
)
    requires
        is_solid(key),
        !key.contains('='),
        !key.contains(';'),
        key[0] != '[',
        value.len() > 0,
        !value.contains(';'),
        !text::is_space(value[0]),
        !text::is_space(value.last()),
    ensures
        ini::setting_on(section, key + seq!['='] + value) == seq![
            EntryView { section, key: text::lowered(key), value },
        ],
        ini::setting_on(section, key + seq!['='] + value + seq![';'] + comment) == seq![
            EntryView { section, key: text::lowered(key), value },
        ],
        ini::section_after(section, key + seq!['='] + value) == section,
{
    let l = key + seq!['='] + value;
    assert forall|j: int| 0 <= j < l.len() implies l[j] != ';' by {
        if j < key.len() {
            assert(key.contains(key[j]));
        } else if j > key.len() {
            assert(value.contains(value[j - key.len() - 1]));
        }
    }
    text::lemma_find(l, ';', l.len() as int);
    assert(l.take(l.len() as int) =~= l);
    assert(l[0] == key[0] && l.last() == value.last());
    assert(!text::is_space(key[0]));
    lemma_trimmed(l);
    let m = l + seq![';'] + comment;
    assert forall|j: int| 0 <= j < l.len() implies m[j] != ';' by {
        assert(m[j] == l[j]);
    }
    assert(m[l.len() as int] == ';');
    text::lemma_find(m, ';', l.len() as int);
    assert(m.take(l.len() as int) =~= l);
    let k = key.len() as int;
    assert forall|j: int| 0 <= j < k implies l[j] != '=' by {
        assert(key.contains(key[j]));
    }
    assert(l[k] == '=');
    text::lemma_find(l, '=', k);
    assert(l.take(k) =~= key);
    assert(l.skip(k + 1) =~= value);
    assert(!text::is_space(key[k - 1]));
    lemma_trimmed(key);
    lemma_trimmed(value);
}

/// A line in brackets opens its section, and gives no setting.
pub proof fn section_is_opened(before: Seq<char>, name: Seq<char>)
    requires
        is_solid(name),
        !name.contains(';'),
    ensures
        ini::section_after(before, seq!['['] + name + seq![']']) == text::lowered(name),
        ini::setting_on(before, seq!['['] + name + seq![']']).len() == 0,
{
    let l = seq!['['] + name + seq![']'];
    assert forall|j: int| 0 <= j < l.len() implies l[j] != ';' by {
        if 0 < j < l.len() - 1 {
            assert(name.contains(name[j - 1]));
        }
    }
    text::lemma_find(l, ';', l.len() as int);
    assert(l.take(l.len() as int) =~= l);
    lemma_trimmed(l);
    assert(l.subrange(1, l.len() - 1) =~= name);
    assert(!text::is_space(name[0]) && !text::is_space(name[name.len() - 1]));
    lemma_trimmed(name);
}

/// The settings of a text are those of its first line, then those of the rest in the section that
/// the first line leaves open.
pub proof fn lines_are_read_in_order(section: Seq<char>, line: Seq<char>, rest: Seq<char>)
    requires
        !line.contains('\n'),
    ensures
        ini::settings_from(section, line + seq!['\n'] + rest) == ini::setting_on(section, line)
            + ini::settings_from(ini::section_after(section, line), rest),
{
    let s = line + seq!['\n'] + rest;
    assert forall|j: int| 0 <= j < line.len() implies s[j] != '\n' by {
        assert(s[j] == line[j]);
        assert(line.contains(line[j]));
    }
    assert(s[line.len() as int] == '\n');
    text::lemma_find(s, '\n', line.len() as int);
    assert(s.take(line.len() as int) =~= line);
    assert(s.skip(line.len() + 1int) =~= rest);
}

/// Each setting of the client changes what it names and nothing else; a port that is none changes
/// nothing.
pub proof fn settings_change_what_they_name(c: LanCfgView, value: Seq<char>, n: u16)
    requires
        value.len() > 0,
    ensures
        c.set("server"@, "host"@, value) == (LanCfgView { host: value, ..c }),
        c.set("server"@, "port"@, text::decimal(n as nat)) == (LanCfgView { port: n, ..c }),
        c.set("server"@, "ws_port"@, text::decimal(n as nat)) == (LanCfgView { ws_port: n, ..c }),
        c.set("party"@, "advertise_ip"@, value) == (LanCfgView { advertise_ip: Some(value), ..c }),
        c.set("party"@, "udp_port"@, text::decimal(n as nat)) == (LanCfgView { udp_port: n, ..c }),
        text::unsigned(value, 65535) is None ==> c.set("server"@, "port"@, value) == c,
{
    lemma_port(n);
    reveal_strlit("server");
    reveal_strlit("party");
    reveal_strlit("host");
    reveal_strlit("port");
    reveal_strlit("ws_port");
    reveal_strlit("advertise_ip");
    reveal_strlit("udp_port");
    assert("server"@.len() == 6 && "party"@.len() == 5 && "host"@.len() == 4 && "port"@.len() == 4
        && "ws_port"@.len() == 7 && "advertise_ip"@.len() == 12 && "udp_port"@.len() == 8);
    assert("host"@[0] != "port"@[0]);
}

proof fn lemma_port(n: u16)
    ensures
        text::unsigned(text::decimal(n as nat), 65535) == Some(n as nat),
{
    text::decimal_is_number(n as nat);
}

/// Of several settings each later one is taken over on top of the earlier ones.
pub proof fn last_setting_counts(c: LanCfgView, v: Seq<EntryView>, e: EntryView)
    ensures
        c.set_all(v.push(e)) == c.set_all(v).set(e.section, e.key, e.value),
    decreases v.len(),
{
    if v.len() > 0 {
        let f = v[0];
        assert(v.push(e)[0] == f);
        assert(v.push(e).drop_first() =~= v.drop_first().push(e));
        last_setting_counts(c.set(f.section, f.key, f.value), v.drop_first(), e);
    } else {
        assert(v.push(e)[0] == e);
        assert(v.push(e).drop_first() =~= v);
        let d = c.set(e.section, e.key, e.value);
        assert(c.set_all(v) == c && d.set_all(v) == d);
    }
}

/// An override names the host and the port of the broker and leaves the rest.
pub proof fn override_names_the_broker(c: LanCfgView, host: Seq<char>, n: u16)
    requires
        is_solid(host),
        !host.contains(':'),
    ensures
        c.with_stub(host + seq![':'] + text::decimal(n as nat)) == (LanCfgView {
            host,
            port: n,
            ..c
        }),
        c.with_stub(host) == (LanCfgView { host, ..c }),
{
    lemma_port(n);
    text::decimal_is_number(n as nat);
    let d = text::decimal(n as nat);
    let t = host + seq![':'] + d;
    assert(text::is_digit(d[d.len() - 1]));
    assert(t.last() == d[d.len() - 1]);
    assert(!text::is_space(host[0]) && !text::is_space(host[host.len() - 1]));
    assert(t[0] == host[0]);
    lemma_trimmed(t);
    lemma_trimmed(host);
    assert forall|i: int| 0 <= i < d.len() implies #[trigger] d[i] != ':' by {
        assert(text::is_digit(d[i]));
    }
    lemma_find_last(host, d);
    assert(t.take(host.len() as int) =~= host);
    assert(t.skip(host.len() + 1int) =~= d);
    lemma_no_last(host);
}

proof fn lemma_find_last(a: Seq<char>, b: Seq<char>)
    requires
        forall|i: int| 0 <= i < b.len() ==> #[trigger] b[i] != ':',
    ensures
        text::find_last(a + seq![':'] + b, ':') == Some(a.len() as int),
    decreases b.len(),
{
    let s = a + seq![':'] + b;
    if b.len() > 0 {
        assert(s.last() == b.last());
        assert(s.drop_last() =~= a + seq![':'] + b.drop_last());
        lemma_find_last(a, b.drop_last());
    }
}

proof fn lemma_no_last(a: Seq<char>)
    requires
        !a.contains(':'),
    ensures
        text::find_last(a, ':') is None,
    decreases a.len(),
{
    if a.len() > 0 {
        assert(a.contains(a.last()));
        let t = a.drop_last();
        assert forall|c: char| t.contains(c) implies a.contains(c) by {
            let i = choose|i: int| 0 <= i < t.len() && t[i] == c;
            assert(a[i] == c);
        }
        lemma_no_last(t);
    }
}

/// An address of the game's service leads to the broker instead, with the same path.
pub proof fn service_leads_to_the_broker(c: LanCfgView, host: Seq<char>, path: Seq<char>)
    requires
        host.len() > 0,
        !host.contains('/'),
        path.len() > 0,
        path[0] == '/',
    ensures
        lan_cfg::rewritten("http://"@ + host + path, c) == "http://"@ + c.host + ":"@ + text::decimal(
            c.port as nat,
        ) + path,
{
    reveal_strlit("http://");
    reveal_strlit("://");
    let url = "http://"@ + host + path;
    let l = text::lowered(url);
    assert(l.take(7) =~= "http://"@) by {
        assert forall|i: int| 0 <= i < 7 implies #[trigger] l[i] == "http://"@[i] by {
            assert(url[i] == "http://"@[i]);
        }
    }
    let p = "://"@;
    let s1 = url.drop_first();
    let s2 = s1.drop_first();
    let s3 = s2.drop_first();
    let s4 = s3.drop_first();
    if text::begins(url, p) {
        assert(url.take(3)[0] == url[0]);
    }
    if text::begins(s1, p) {
        assert(s1.take(3)[0] == url[1]);
    }
    if text::begins(s2, p) {
        assert(s2.take(3)[0] == url[2]);
    }
    if text::begins(s3, p) {
        assert(s3.take(3)[0] == url[3]);
    }
    assert(s4.take(3) =~= p);
    reveal_with_fuel(text::find_text, 6);
    assert(text::find_text(url, p) == Some(4int));
    let rest = url.skip(7);
    assert(rest =~= host + path);
    assert forall|j: int| 0 <= j < host.len() implies rest[j] != '/' by {
        assert(host.contains(host[j]));
    }
    assert(rest[host.len() as int] == path[0]);
    text::lemma_find(rest, '/', host.len() as int);
    assert(rest.skip(host.len() as int) =~= path);
    assert(c.origin() + path =~= "http://"@ + c.host + ":"@ + text::decimal(c.port as nat) + path);
}

/// The broker takes the number of players and whether it insists on it from its settings, and
/// other settings change neither.
pub proof fn lobby_settings_are_read(
    c: LobbyIni,
    key: Seq<char>,
    value: Seq<char>,
    section: Seq<char>,
    n: int,
)
    requires
        text::signed(value, i64::MIN as int, i64::MAX as int) == Some(n),
    ensures
        c.set(EntryView { section: "lobby"@, key: "max_players"@, value }) == (LobbyIni {
            max: n,
            ..c
        }),
        c.set(EntryView { section: "lobby"@, key: "override_game_max"@, value: "true"@ })
            == (LobbyIni { override_game: true, ..c }),
        c.set(EntryView { section: "lobby"@, key: "override_game_max"@, value: "false"@ })
            == (LobbyIni { override_game: false, ..c }),
        section != "lobby"@ ==> c.set(EntryView { section, key, value }) == c,
{
    reveal_strlit("max_players");
    reveal_strlit("override_game_max");
    reveal_strlit("true");
    reveal_strlit("false");
    reveal_strlit("1");
    reveal_strlit("yes");
    assert("max_players"@.len() != "override_game_max"@.len());
    assert(text::lowered("true"@) =~= "true"@);
    assert(text::lowered("false"@).len() == 5);
    assert("true"@.len() == 4 && "1"@.len() == 1 && "yes"@.len() == 3);
}

// Requests

proof fn lemma_next_line(headers: Seq<(Seq<char>, Seq<char>)>, line: Seq<char>, rest: Seq<char>)
    requires
        is_line(line),
    ensures
        http::with_lines(headers, line + crlf() + rest) == http::with_lines(
            http::with_line(headers, line),
            rest,
        ),
        http::with_lines(headers, line) == http::with_line(headers, line),
{
    lemma_crlf();
    lemma_line_end(line, rest);
    let s = line + crlf() + rest;
    assert(s.take(line.len() as int) =~= line);
    assert(s.skip(line.len() + 2int) =~= rest);
}

/// The header lines of a request, each behind the one before it.
pub open spec fn header_lines(
    host: Seq<char>,
    token: Seq<char>,
    length: nat,
) -> (Seq<char>, Seq<char>, Seq<char>, Seq<char>, Seq<char>) {
    (
        "Host"@ + seq![':', ' '] + host,
        "Content-Type"@ + seq![':', ' '] + "application/json"@,
        "X-EntityToken"@ + seq![':', ' '] + token,
        "Content-Length"@ + seq![':', ' '] + text::decimal(length),
        "Connection"@ + seq![':', ' '] + "close"@,
    )
}

proof fn lemma_header_names()
    ensures
        is_solid("Host"@) && !"Host"@.contains(':'),
        is_solid("Content-Type"@) && !"Content-Type"@.contains(':'),
        is_solid("X-EntityToken"@) && !"X-EntityToken"@.contains(':'),
        is_solid("Content-Length"@) && !"Content-Length"@.contains(':'),
        is_solid("Connection"@) && !"Connection"@.contains(':'),
        is_solid("application/json"@),
        is_solid("close"@),
        is_solid("HTTP/1.1"@),
        text::lowered("Host"@) == "host"@,
        text::lowered("X-EntityToken"@) == "x-entitytoken"@,
        text::lowered("Content-Length"@) == "content-length"@,
        text::lowered("Host"@).len() == 4,
        text::lowered("Content-Type"@).len() == 12,
        text::lowered("X-EntityToken"@).len() == 13,
        text::lowered("Content-Length"@).len() == 14,
        text::lowered("Connection"@).len() == 10,
{
    reveal_strlit("Host");
    reveal_strlit("Content-Type");
    reveal_strlit("X-EntityToken");
    reveal_strlit("Content-Length");
    reveal_strlit("Connection");
    reveal_strlit("application/json");
    reveal_strlit("close");
    reveal_strlit("HTTP/1.1");
    reveal_strlit("host");
    reveal_strlit("x-entitytoken");
    reveal_strlit("content-length");
    assert(text::lowered("Host"@) =~= "host"@);
    assert(text::lowered("X-EntityToken"@) =~= "x-entitytoken"@);
    assert(text::lowered("Content-Length"@) =~= "content-length"@);
}

proof fn lemma_header_line(name: Seq<char>, value: Seq<char>)
    requires
        is_solid(name),
        is_solid(value),
    ensures
        is_line(name + seq![':', ' '] + value),
{
    let s = name + seq![':', ' '] + value;
    assert forall|i: int| 0 <= i < s.len() implies #[trigger] s[i] != '\r' by {
        if i < name.len() {
            assert(!text::is_space(name[i]));
        } else if i >= name.len() + 2 {
            assert(!text::is_space(value[i - name.len() - 2]));
        }
    }
}

/// The rest of a request behind its first line, without the blank line.
pub open spec fn header_text(host: Seq<char>, token: Seq<char>, length: nat) -> Seq<char> {
    let h = header_lines(host, token, length);
    h.0 + crlf() + (h.1 + crlf() + (if token.len() > 0 {
        h.2 + crlf() + (h.3 + crlf() + h.4)
    } else {
        h.3 + crlf() + h.4
    }))
}

proof fn lemma_headers_read(host: Seq<char>, token: Seq<char>, length: nat)
    requires
        is_solid(host),
        token.len() == 0 || is_solid(token),
    ensures
        ({
            let r = http::with_lines(Seq::empty(), header_text(host, token, length));
            &&& assoc::lookup(r, "host"@) == Some(host)
            &&& assoc::lookup(r, "content-length"@) == Some(text::decimal(length))
            &&& assoc::lookup(r, "x-entitytoken"@) == (if token.len() > 0 {
                Some(token)
            } else {
                None
            })
        }),
{
    lemma_header_names();
    text::decimal_is_number(length);
    let n = text::decimal(length);
    assert(is_solid(n)) by {
        assert forall|i: int| 0 <= i < n.len() implies !text::is_space(#[trigger] n[i]) by {
            assert(text::is_digit(n[i]));
        }
    }
    let h = header_lines(host, token, length);
    lemma_header_line("Host"@, host);
    lemma_header_line("Content-Type"@, "application/json"@);
    lemma_header_line("Content-Length"@, n);
    lemma_header_line("Connection"@, "close"@);
    let e = Seq::<(Seq<char>, Seq<char>)>::empty();
    let tail = h.3 + crlf() + h.4;
    let mid = if token.len() > 0 { h.2 + crlf() + tail } else { tail };
    lemma_next_line(e, h.0, h.1 + crlf() + mid);
    let a = http::with_line(e, h.0);
    lemma_next_line(a, h.1, mid);
    let b = http::with_line(a, h.1);
    if token.len() > 0 {
        lemma_header_line("X-EntityToken"@, token);
        lemma_next_line(b, h.2, tail);
    }
    let c = if token.len() > 0 { http::with_line(b, h.2) } else { b };
    lemma_next_line(c, h.3, h.4);
    let d = http::with_line(c, h.3);
    lemma_next_line(d, h.4, Seq::empty());
    lemma_set("Host"@, host, e);
    lemma_set("Content-Type"@, "application/json"@, a);
    if token.len() > 0 {
        lemma_set("X-EntityToken"@, token, b);
    }
    lemma_set("Content-Length"@, n, c);
    lemma_set("Connection"@, "close"@, d);
}

proof fn lemma_set(name: Seq<char>, value: Seq<char>, headers: Seq<(Seq<char>, Seq<char>)>)
    requires
        is_solid(name),
        !name.contains(':'),
        is_solid(value),
    ensures
        ({
            let h = http::with_line(headers, name + seq![':', ' '] + value);
            &&& assoc::lookup(h, text::lowered(name)) == Some(value)
            &&& forall|other: Seq<char>|
                other != text::lowered(name) ==> #[trigger] assoc::lookup(h, other)
                    == assoc::lookup(headers, other)
        }),
{
    assert(!text::is_space(value[0]) && !text::is_space(value[value.len() - 1]));
    let h = http::with_line(headers, name + seq![':', ' '] + value);
    assert forall|other: Seq<char>| other != text::lowered(name) implies #[trigger] assoc::lookup(
        h,
        other,
    ) == assoc::lookup(headers, other) by {
        header_is_read(headers, name, value, other);
    }
    header_is_read(headers, name, value, name);
}

/// The request line, the headers, the blank line and the body make up a request.
proof fn lemma_request_text(
    method: Seq<char>,
    path: Seq<char>,
    host: Seq<char>,
    port: u16,
    token: Seq<char>,
    length: nat,
    body: Seq<char>,
)
    ensures
        scan::request_head(method, path, host, port, lobby_client::auth_line(token), length) + body == (method
            + seq![' '] + path + seq![' '] + "HTTP/1.1"@) + crlf() + header_text(
            host + seq![':'] + text::decimal(port as nat),
            token,
            length,
        ) + (crlf() + crlf()) + body,
{
    lemma_crlf();
    reveal_strlit(" HTTP/1.1\r\nHost: ");
    reveal_strlit("\r\nContent-Type: application/json\r\n");
    reveal_strlit("Content-Length: ");
    reveal_strlit("\r\nConnection: close\r\n\r\n");
    reveal_strlit("X-EntityToken: ");
    reveal_strlit("HTTP/1.1");
    reveal_strlit("Host");
    reveal_strlit("Content-Type");
    reveal_strlit("application/json");
    reveal_strlit("X-EntityToken");
    reveal_strlit("Content-Length");
    reveal_strlit("Connection");
    reveal_strlit("close");
    let ci = seq![':', ' '];
    let n = text::decimal(length);
    let hp = host + seq![':'] + text::decimal(port as nat);
    let h = header_lines(hp, token, length);
    assert(" HTTP/1.1\r\nHost: "@ =~= seq![' '] + "HTTP/1.1"@ + crlf() + "Host"@ + ci);
    assert("\r\nContent-Type: application/json\r\n"@ =~= crlf() + h.1 + crlf());
    assert("Content-Length: "@ =~= "Content-Length"@ + ci);
    assert("\r\nConnection: close\r\n\r\n"@ =~= crlf() + h.4 + (crlf() + crlf()));
    assert("X-EntityToken: "@ =~= "X-EntityToken"@ + ci);
    let first = method + seq![' '] + path + seq![' '] + "HTTP/1.1"@;
    let auth = lobby_client::auth_line(token);
    let tail = h.3 + crlf() + h.4;
    let mid = if token.len() > 0 { h.2 + crlf() + tail } else { tail };
    if token.len() > 0 {
        assert(auth =~= h.2 + crlf());
    }
    assert(auth + tail =~= mid);
    let t1 = method + seq![' '] + path + (seq![' '] + "HTTP/1.1"@ + crlf() + "Host"@ + ci) + host
        + seq![':'] + text::decimal(port as nat);
    assert(t1 =~= first + crlf() + h.0);
    let t2 = t1 + (crlf() + h.1 + crlf());
    let u2 = t2 + auth + ("Content-Length"@ + ci) + n + (crlf() + h.4 + (crlf() + crlf()));
    assert(u2 =~= t2 + (auth + tail) + (crlf() + crlf()));
    lemma_three_lines(first, h.0, h.1, mid);
    assert(u2 + body =~= first + crlf() + (h.0 + crlf() + (h.1 + crlf() + mid)) + (crlf() + crlf())
        + body);
}

proof fn lemma_three_lines(a: Seq<char>, b: Seq<char>, c: Seq<char>, d: Seq<char>)
    ensures
        a + crlf() + b + (crlf() + c + crlf()) + d == a + crlf() + (b + crlf() + (c + crlf() + d)),
{
    assert(a + crlf() + b + (crlf() + c + crlf()) + d =~= a + crlf() + (b + crlf() + (c + crlf()
        + d)));
}

/// What the client asks is what the broker reads: the method, the path, how long the body is and
/// the token, where there is one.
pub proof fn request_is_read(
    method: Seq<char>,
    path: Seq<char>,
    host: Seq<char>,
    port: u16,
    token: Seq<char>,
    length: nat,
    body: Seq<char>,
)
    requires
        is_solid(method),
        is_solid(path),
        is_solid(host),
        token.len() == 0 || is_solid(token),
        length <= u32::MAX,
    ensures
        ({
            let r = http::head_of(
                scan::request_head(method, path, host, port, lobby_client::auth_line(token), length) + body,
            );
            &&& r is Some
            &&& r->0.method == method
            &&& r->0.path == path
            &&& http::announced(r->0.headers) == length
            &&& assoc::lookup(r->0.headers, "host"@) == Some(
                host + seq![':'] + text::decimal(port as nat),
            )
            &&& assoc::lookup(r->0.headers, "x-entitytoken"@) == (if token.len() > 0 {
                Some(token)
            } else {
                None
            })
        }),
{
    lemma_crlf();
    lemma_header_names();
    let hp = host + seq![':'] + text::decimal(port as nat);
    text::decimal_is_number(port as nat);
    assert(is_solid(hp)) by {
        assert forall|i: int| 0 <= i < hp.len() implies !text::is_space(#[trigger] hp[i]) by {
            if i < host.len() {
                assert(!text::is_space(host[i]));
            } else if i > host.len() {
                assert(text::is_digit(text::decimal(port as nat)[i - host.len() - 1]));
            }
        }
    }
    let first = method + seq![' '] + path + seq![' '] + "HTTP/1.1"@;
    let hs = header_text(hp, token, length);
    lemma_request_text(method, path, host, port, token, length, body);
    lemma_first_line(method, path);
    lemma_request_blank(first, hp, token, length, body);
    let s = first + crlf() + hs + (crlf() + crlf()) + body;
    let head = first + crlf() + hs;
    assert(s.take(head.len() as int) =~= head);
    lemma_line_end(first, hs);
    assert(head.take(first.len() as int) =~= first);
    assert(head.skip(first.len() + 2int) =~= hs);
    lemma_headers_read(hp, token, length);
    text::decimal_is_number(length);
}

proof fn lemma_first_line(method: Seq<char>, path: Seq<char>)
    requires
        is_solid(method),
        is_solid(path),
    ensures
        ({
            let first = method + seq![' '] + path + seq![' '] + "HTTP/1.1"@;
            &&& is_line(first)
            &&& text::word(first).0 == method
            &&& text::word(text::word(first).1).0 == path
        }),
{
    lemma_header_names();
    let first = method + seq![' '] + path + seq![' '] + "HTTP/1.1"@;
    let r2 = seq![' '] + "HTTP/1.1"@;
    let r1 = seq![' '] + (path + r2);
    assert(first =~= method + r1);
    lemma_word(method, r1);
    lemma_word(path, r2);
    assert forall|i: int| 0 <= i < first.len() implies #[trigger] first[i] != '\r' by {
        let k = i - method.len() - 1;
        let m = k - path.len() - 1;
        if i < method.len() {
            assert(!text::is_space(method[i]));
        } else if 0 <= k < path.len() {
            assert(first[i] == path[k]);
            assert(!text::is_space(path[k]));
        } else if 0 <= m {
            assert(first[i] == "HTTP/1.1"@[m]);
            assert(!text::is_space("HTTP/1.1"@[m]));
        }
    }
}

proof fn lemma_request_blank(
    first: Seq<char>,
    host: Seq<char>,
    token: Seq<char>,
    length: nat,
    body: Seq<char>,
)
    requires
        is_line(first),
        is_solid(host),
        token.len() == 0 || is_solid(token),
    ensures
        ({
            let head = first + crlf() + header_text(host, token, length);
            text::find_text(head + (crlf() + crlf()) + body, crlf() + crlf()) == Some(
                head.len() as int,
            )
        }),
{
    lemma_header_names();
    text::decimal_is_number(length);
    let n = text::decimal(length);
    assert(is_solid(n)) by {
        assert forall|i: int| 0 <= i < n.len() implies !text::is_space(#[trigger] n[i]) by {
            assert(text::is_digit(n[i]));
        }
    }
    let p = crlf() + crlf();
    let h = header_lines(host, token, length);
    lemma_header_line("Host"@, host);
    lemma_header_line("Content-Type"@, "application/json"@);
    lemma_header_line("Content-Length"@, n);
    lemma_header_line("Connection"@, "close"@);
    let end = h.4 + p + body;
    lemma_blank_here(h.4, body);
    let r3 = h.3 + crlf() + end;
    assert(end[0] == "Connection"@[0] && !text::is_space("Connection"@[0]));
    lemma_blank_later(h.3, end);
    assert(r3[0] == "Content-Length"@[0] && !text::is_space("Content-Length"@[0]));
    let r2 = if token.len() > 0 { h.2 + crlf() + r3 } else { r3 };
    if token.len() > 0 {
        lemma_header_line("X-EntityToken"@, token);
        lemma_blank_later(h.2, r3);
        assert(r2[0] == "X-EntityToken"@[0] && !text::is_space("X-EntityToken"@[0]));
    }
    let r1 = h.1 + crlf() + r2;
    lemma_blank_later(h.1, r2);
    assert(r1[0] == "Content-Type"@[0] && !text::is_space("Content-Type"@[0]));
    let r0 = h.0 + crlf() + r1;
    lemma_blank_later(h.0, r1);
    assert(r0[0] == "Host"@[0] && !text::is_space("Host"@[0]));
    lemma_blank_later(first, r0);
    let tail = h.3 + crlf() + h.4;
    let mid = if token.len() > 0 { h.2 + crlf() + tail } else { tail };
    assert(tail + p + body =~= r3);
    assert(mid + p + body =~= r2);
    assert((h.1 + crlf() + mid) + p + body =~= r1);
    assert((h.0 + crlf() + (h.1 + crlf() + mid)) + p + body =~= r0);
    let head = first + crlf() + header_text(host, token, length);
    assert(head + p + body =~= first + crlf() + r0);
}

// Messages over a socket

/// A frame is taken for what its kind says: a ping is answered with its own data, a close ends the
/// connection, and texts and bytes are messages.
pub proof fn frames_are_told_apart(first: u8, data: Seq<u8>)
    ensures
        first % 16 == 8 ==> http::frame_action(first, data) is Close,
        first % 16 == 1 || first % 16 == 2 ==> http::frame_action(first, data) is Message,
        first % 16 == 9 && data.len() < 126 ==> (http::frame_action(first, data) matches
            http::FrameActionView::Write(f) && f.len() == 2 + data.len() && f[0] % 16 == 10 && f[1]
            == data.len() && f.skip(2) == data),
        first % 16 == 0 || first % 16 == 10 ==> http::frame_action(first, data) is Ignore,
{
    if first % 16 == 9 && data.len() < 126 {
        let f = seq![0x8au8, data.len() as u8] + data;
        assert(f.skip(2) =~= data);
    }
}

/// A message is answered with its own command and its own parameters; a search that it names goes
/// along where the parameters do not have one.
pub proof fn message_is_answered(
    data: Seq<u8>,
    v: crate::json::JsonView,
    command: Seq<char>,
    key: Seq<char>,
)
    requires
        v.text_field("command"@) == Some(command),
    ensures
        ({
            let r = http::message_answer(data, Some(v));
            let own = crate::broker::object_field(v, "params"@);
            let id = v.field("lobby_search_id"@);
            &&& r is Some
            &&& r->0.text_field("command"@) == Some(command)
            &&& r->0.field("params"@) matches Some(crate::json::JsonView::Object(p))
            &&& assoc::lookup(own, key) is Some ==> assoc::lookup(p, key) == assoc::lookup(own, key)
            &&& key != "lobby_search_id"@ ==> assoc::lookup(p, key) == assoc::lookup(own, key)
            &&& assoc::lookup(own, "lobby_search_id"@) is None && id is Some && !(id->0 is Null)
                ==> assoc::lookup(p, "lobby_search_id"@) == id
        }),
{
    reveal_strlit("command");
    reveal_strlit("params");
    assert("command"@.len() != "params"@.len());
    let o = http::message_answer(data, Some(v))->0->Object_0;
    assert(o[0].0 == "command"@ && o[1].0 == "params"@);
    assoc::lemma_place_is(o, "command"@, 0);
    assoc::lemma_place_is(o, "params"@, 1);
    let own = crate::broker::object_field(v, "params"@);
    if let Some(id) = v.field("lobby_search_id"@) {
        assoc::set_is_found(own, "lobby_search_id"@, id, key);
    }
}

/// A request without a body says nothing, one with JSON says that, and anything else is kept as
/// the text that it is.
pub proof fn body_is_taken(raw: Seq<u8>, j: crate::json::JsonView)
    ensures
        raw.len() == 0 ==> http::body_value_of(raw, Some(j)) == crate::broker::nothing(),
        raw.len() > 0 ==> http::body_value_of(raw, Some(j)) == j,
        raw.len() > 0 ==> http::body_value_of(raw, None).text_field("_raw"@) == Some(
            crate::bytes::text_of(raw),
        ),
{
    if raw.len() > 0 {
        let o = http::body_value_of(raw, None)->Object_0;
        assert(o[0].0 == "_raw"@);
        assoc::lemma_place_is(o, "_raw"@, 0);
    }
}

}
