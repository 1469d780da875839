//! What one peer hands another so that it finds the network: an identifier and an address, in a
//! record of fixed size and as a line of text.
use crate::bytes;
use crate::mesh;
use crate::text;
use crate::wire;
use vstd::prelude::*;

verus! {

pub const IDENT_LEN: usize = 37;

pub const REGION_LEN: usize = 20;

pub const OPAQUE_LEN: usize = 300;

/// The longest line of text, with the zero byte that ends it.
pub const SERIALIZED_MAX: usize = 449;

/// An address of the Internet Protocol, version 4.
#[derive(Clone, Copy, PartialEq, Eq, Structural, Debug)]
pub struct Ip4 {
    pub a: u8,
    pub b: u8,
    pub c: u8,
    pub d: u8,
}

impl Ip4 {
    pub open spec fn octets(self) -> Seq<u8> {
        seq![self.a, self.b, self.c, self.d]
    }

    /// The machine itself.
    pub open spec fn is_loopback(self) -> bool {
        self.a == 127
    }

    /// No address at all.
    pub open spec fn is_unspecified(self) -> bool {
        self.a == 0 && self.b == 0 && self.c == 0 && self.d == 0
    }

    /// An address that other machines can reach.
    pub open spec fn is_reachable(self) -> bool {
        !self.is_loopback() && !self.is_unspecified()
    }

    pub open spec fn shown(self) -> Seq<char> {
        text::decimal(self.a as nat) + "."@ + text::decimal(self.b as nat) + "."@ + text::decimal(
            self.c as nat,
        ) + "."@ + text::decimal(self.d as nat)
    }

    pub fn reachable(&self) -> (r: bool)
        ensures
            r == self.is_reachable(),
    {
        self.a != 127 && !(self.a == 0 && self.b == 0 && self.c == 0 && self.d == 0)
    }
}

/// The address in dotted decimal form.
pub fn ip_string(ip: Ip4) -> (r: String)
    ensures
        r@ == ip.shown(),
{
    let mut r = String::new();
    text::push_decimal(&mut r, ip.a as u64);
    r.append(".");
    text::push_decimal(&mut r, ip.b as u64);
    r.append(".");
    text::push_decimal(&mut r, ip.c as u64);
    r.append(".");
    text::push_decimal(&mut r, ip.d as u64);
    assert(r@ =~= ip.shown());
    r
}

/// The address to tell other machines: the configured one where it can be reached, else that of
/// the interface towards the broker, else that of the interface towards the rest of the world,
/// unless they are the machine itself.
pub open spec fn told_address(
    configured: Option<Ip4>,
    towards_broker: Option<Ip4>,
    outward: Option<Ip4>,
) -> Ip4 {
    if configured is Some && configured->0.is_reachable() {
        configured->0
    } else if towards_broker is Some && !towards_broker->0.is_loopback() {
        towards_broker->0
    } else if outward is Some && !outward->0.is_loopback() {
        outward->0
    } else {
        Ip4 { a: 127, b: 0, c: 0, d: 1 }
    }
}

/// Picks the address to tell other machines.
pub fn lan_ip(
    configured: Option<Ip4>,
    towards_broker: Option<Ip4>,
    outward: Option<Ip4>,
) -> (r: Ip4)
    ensures
        r == told_address(configured, towards_broker, outward),
{
    if let Some(ip) = configured {
        if ip.reachable() {
            return ip;
        }
    }
    if let Some(ip) = towards_broker {
        if ip.a != 127 {
            return ip;
        }
    }
    if let Some(ip) = outward {
        if ip.a != 127 {
            return ip;
        }
    }
    Ip4 { a: 127, b: 0, c: 0, d: 1 }
}

/// The record.
pub struct Descriptor {
    pub identifier: Vec<u8>,
    pub region: Vec<u8>,
    pub opaque: Vec<u8>,
}

#[verifier::ext_equal]
pub struct DescriptorView {
    pub identifier: Seq<u8>,
    pub region: Seq<u8>,
    pub opaque: Seq<u8>,
}

impl View for Descriptor {
    type V = DescriptorView;

    open spec fn view(&self) -> DescriptorView {
        DescriptorView {
            identifier: self.identifier@,
            region: self.region@,
            opaque: self.opaque@,
        }
    }
}

pub open spec fn zeros(n: nat) -> Seq<u8> {
    Seq::new(n, |i: int| 0u8)
}

/// The record of nothing.
pub open spec fn cleared() -> DescriptorView {
    DescriptorView {
        identifier: zeros(IDENT_LEN as nat),
        region: zeros(REGION_LEN as nat),
        opaque: zeros(OPAQUE_LEN as nat),
    }
}

/// The record of a network's identifier, of which as many bytes are kept as have room before a
/// zero byte.
pub open spec fn descriptor_of(id: Seq<char>) -> DescriptorView {
    let b = vstd::utf8::encode_utf8(id);
    DescriptorView {
        identifier: wire::fitted(
            if b.len() < IDENT_LEN { b } else { b.take(IDENT_LEN - 1) },
            IDENT_LEN as nat,
        ),
        region: wire::fitted(seq![0x6cu8, 0x61u8, 0x6eu8], REGION_LEN as nat),
        opaque: zeros(OPAQUE_LEN as nat),
    }
}

impl DescriptorView {
    /// The fields have their sizes.
    pub open spec fn wf(self) -> bool {
        &&& self.identifier.len() == IDENT_LEN
        &&& self.region.len() == REGION_LEN
        &&& self.opaque.len() == OPAQUE_LEN
    }

    /// The identifier.
    pub open spec fn id(self) -> Seq<char> {
        bytes::text_of(wire::before_zero(self.identifier.take(IDENT_LEN - 1)))
    }

    /// The address in the record.
    pub open spec fn stored_ip(self) -> Ip4 {
        Ip4 { a: self.opaque[2], b: self.opaque[3], c: self.opaque[4], d: self.opaque[5] }
    }

    /// The address in the record, where other machines can reach it.
    pub open spec fn advert_ip(self) -> Option<Ip4> {
        if self.stored_ip().is_reachable() { Some(self.stored_ip()) } else { None }
    }

    pub open spec fn with_ip(self, ip: Ip4) -> DescriptorView {
        DescriptorView {
            opaque: self.opaque.update(2, ip.a).update(3, ip.b).update(4, ip.c).update(5, ip.d),
            ..self
        }
    }

    pub open spec fn with_port(self, port: u16) -> DescriptorView {
        DescriptorView {
            opaque: self.opaque.update(0, (port % 256) as u8).update(1, (port / 256) as u8),
            ..self
        }
    }

    /// The line of text, with `fallback` where the record has no address that can be reached.
    pub open spec fn line(self, fallback: Ip4) -> Seq<char> {
        "LAN1."@ + self.id() + "."@ + bytes::hex_of(
            (match self.advert_ip() {
                Some(ip) => ip,
                None => fallback,
            }).octets(),
        )
    }

    /// The record as one string of bytes.
    pub open spec fn image(self) -> Seq<u8> {
        self.identifier + self.region + self.opaque
    }
}

/// As many zero bytes.
fn zeroed(n: usize) -> (r: Vec<u8>)
    ensures
        r@ == zeros(n as nat),
{
    let mut r: Vec<u8> = Vec::new();
    while r.len() < n
        invariant
            r@ == zeros(r@.len()),
            r@.len() <= n,
        decreases n - r@.len(),
    {
        r.push(0);
        assert(r@ =~= zeros(r@.len()));
    }
    r
}

impl Descriptor {
    /// The record of a network's identifier.
    pub fn new(id: &str) -> (r: Descriptor)
        ensures
            r@ == descriptor_of(id@),
            r@.wf(),
    {
        let b = id.as_bytes();
        let n: usize = if b.len() < IDENT_LEN { b.len() } else { IDENT_LEN - 1 };
        let mut identifier = zeroed(IDENT_LEN);
        let mut i: usize = 0;
        while i < n
            invariant
                i <= n <= b@.len(),
                n < IDENT_LEN,
                identifier@.len() == IDENT_LEN,
                forall|j: int| 0 <= j < IDENT_LEN ==> identifier@[j] == if j < i { b@[j] } else { 0 },
            decreases n - i,
        {
            identifier.set(i, b[i]);
            i += 1;
        }
        let mut region = zeroed(REGION_LEN);
        region.set(0, 0x6c);
        region.set(1, 0x61);
        region.set(2, 0x6e);
        let r = Descriptor { identifier, region, opaque: zeroed(OPAQUE_LEN) };
        assert(r@.identifier =~= descriptor_of(id@).identifier);
        assert(r@.region =~= descriptor_of(id@).region);
        r
    }

    /// The record of nothing.
    pub fn clear() -> (r: Descriptor)
        ensures
            r@ == cleared(),
            r@.wf(),
    {
        Descriptor {
            identifier: zeroed(IDENT_LEN),
            region: zeroed(REGION_LEN),
            opaque: zeroed(OPAQUE_LEN),
        }
    }

    pub fn copy(&self) -> (r: Descriptor)
        ensures
            r@ == self@,
    {
        Descriptor {
            identifier: bytes::copied(self.identifier.as_slice()),
            region: bytes::copied(self.region.as_slice()),
            opaque: bytes::copied(self.opaque.as_slice()),
        }
    }

    /// The identifier.
    pub fn id_str(&self) -> (r: String)
        requires
            self@.wf(),
        ensures
            r@ == self@.id(),
    {
        let part = bytes::part(self.identifier.as_slice(), 0, IDENT_LEN - 1);
        assert(part@ =~= self@.identifier.take(IDENT_LEN - 1));
        bytes::decode(wire::until_zero(part).as_slice())
    }

    /// Puts an address into the record.
    pub fn set_advert_ip(&mut self, ip: Ip4)
        requires
            old(self)@.wf(),
        ensures
            final(self)@ == old(self)@.with_ip(ip),
            final(self)@.wf(),
    {
        self.opaque.set(2, ip.a);
        self.opaque.set(3, ip.b);
        self.opaque.set(4, ip.c);
        self.opaque.set(5, ip.d);
    }

    /// Puts a port into the record.
    pub fn set_port(&mut self, port: u16)
        requires
            old(self)@.wf(),
        ensures
            final(self)@ == old(self)@.with_port(port),
            final(self)@.wf(),
    {
        self.opaque.set(0, (port % 256) as u8);
        self.opaque.set(1, (port / 256) as u8);
    }

    /// The address in the record, where other machines can reach it.
    pub fn advert_ip(&self) -> (r: Option<Ip4>)
        requires
            self@.wf(),
        ensures
            r == self@.advert_ip(),
    {
        let ip = Ip4 {
            a: self.opaque[2],
            b: self.opaque[3],
            c: self.opaque[4],
            d: self.opaque[5],
        };
        if ip.reachable() {
            Some(ip)
        } else {
            None
        }
    }

    /// The record as one string of bytes.
    pub fn image(&self) -> (r: Vec<u8>)
        ensures
            r@ == self@.image(),
    {
        let mut r = bytes::copied(self.identifier.as_slice());
        r.extend_from_slice(self.region.as_slice());
        assert(r@ =~= self@.identifier + self@.region);
        r.extend_from_slice(self.opaque.as_slice());
        assert(r@ =~= self@.image());
        r
    }
}

/// The address of a peer as it was told, or the one in the record where it was told the machine
/// itself.
pub open spec fn peer_address(raw: Seq<char>, d: DescriptorView) -> Seq<char> {
    if mesh::is_loopback(raw) && d.advert_ip() is Some { d.advert_ip()->0.shown() } else { raw }
}

/// A peer behind a broker on its own machine is told as that machine: the record knows better.
pub fn rewrite_peer_ip(raw: String, d: &Descriptor) -> (r: String)
    requires
        d@.wf(),
    ensures
        r@ == peer_address(raw@, d@),
{
    if !mesh::is_loopback_ip(raw.as_str()) {
        return raw;
    }
    match d.advert_ip() {
        Some(ip) => ip_string(ip),
        None => raw,
    }
}

/// What a hexadecimal digit stands for.
pub open spec fn hex_value(c: char) -> Option<nat> {
    if '0' <= c <= '9' {
        Some((c as nat - 48) as nat)
    } else if 'a' <= c <= 'f' {
        Some((c as nat - 87) as nat)
    } else if 'A' <= c <= 'F' {
        Some((c as nat - 55) as nat)
    } else {
        None
    }
}

/// The number that hexadecimal digits stand for.
pub open spec fn hex_number(s: Seq<char>) -> Option<nat>
    decreases s.len(),
{
    if s.len() == 0 {
        Some(0)
    } else {
        match (hex_number(s.drop_last()), hex_value(s.last())) {
            (Some(n), Some(d)) => Some(16 * n + d),
            _ => None,
        }
    }
}

/// The number in eight characters: hexadecimal digits, of which the first may be a plus sign.
pub open spec fn eight_digits(s: Seq<char>) -> Option<nat> {
    if s.len() != 8 {
        None
    } else if s[0] == '+' {
        hex_number(s.drop_first())
    } else {
        hex_number(s)
    }
}

/// The identifier and the address, where it has one, of a line of text.
pub open spec fn line_parts(raw: Seq<char>) -> (Seq<char>, Option<Seq<u8>>) {
    let rest = if text::begins(raw, "LAN1."@) { raw.skip("LAN1."@.len() as int) } else { raw };
    let k = text::find(rest, '.');
    let more = rest.skip(k + 1);
    (
        rest.take(k),
        if k < rest.len() {
            match eight_digits(more.take(text::find(more, '.'))) {
                Some(n) => Some(bytes::be(n, 4)),
                None => None,
            }
        } else {
            None
        },
    )
}

/// What a hexadecimal digit stands for.
fn read_hex_digit(c: char) -> (r: Option<u8>)
    ensures
        match r {
            Some(d) => hex_value(c) == Some(d as nat) && d < 16,
            None => hex_value(c) is None,
        },
{
    if '0' <= c && c <= '9' {
        Some((c as u32 - 48) as u8)
    } else if 'a' <= c && c <= 'f' {
        Some((c as u32 - 87) as u8)
    } else if 'A' <= c && c <= 'F' {
        Some((c as u32 - 55) as u8)
    } else {
        None
    }
}

proof fn lemma_hex_number_prefix(s: Seq<char>, k: int)
    requires
        0 <= k <= s.len(),
        hex_number(s.take(k)) is None,
    ensures
        hex_number(s) is None,
    decreases s.len() - k,
{
    if k < s.len() {
        assert(s.take(k + 1).drop_last() =~= s.take(k));
        lemma_hex_number_prefix(s, k + 1);
    } else {
        assert(s.take(k) =~= s);
    }
}

/// Reads up to eight hexadecimal digits.
fn read_hex(s: &[char]) -> (r: Option<u32>)
    requires
        s@.len() <= 8,
    ensures
        match r {
            Some(n) => hex_number(s@) == Some(n as nat),
            None => hex_number(s@) is None,
        },
{
    let mut n: u64 = 0;
    let mut bound: u64 = 1;
    let mut i: usize = 0;
    assert(s@.take(0) =~= Seq::empty());
    while i < s.len()
        invariant
            i <= s@.len() <= 8,
            hex_number(s@.take(i as int)) == Some(n as nat),
            n < bound,
            bound <= 0x1_0000_0000,
            i == 0 ==> bound == 1,
            i == 1 ==> bound == 0x10,
            i == 2 ==> bound == 0x100,
            i == 3 ==> bound == 0x1000,
            i == 4 ==> bound == 0x1_0000,
            i == 5 ==> bound == 0x10_0000,
            i == 6 ==> bound == 0x100_0000,
            i == 7 ==> bound == 0x1000_0000,
            i == 8 ==> bound == 0x1_0000_0000,
        decreases s@.len() - i,
    {
        assert(s@.take(i + 1).drop_last() =~= s@.take(i as int));
        match read_hex_digit(s[i]) {
            Some(d) => {
                n = 16 * n + d as u64;
                bound = 16 * bound;
            },
            None => {
                proof {
                    lemma_hex_number_prefix(s@, i + 1);
                }
                return None;
            },
        }
        i += 1;
    }
    assert(s@.take(i as int) =~= s@);
    Some(n as u32)
}

/// The address whose octets are those of a number, the most significant first.
fn ip_of(n: u32) -> (r: Ip4)
    ensures
        r.octets() == bytes::be(n as nat, 4),
{
    let r = Ip4 {
        a: ((n / 0x100_0000) % 256) as u8,
        b: ((n / 0x1_0000) % 256) as u8,
        c: ((n / 0x100) % 256) as u8,
        d: (n % 256) as u8,
    };
    proof {
        reveal_with_fuel(bytes::be, 5);
        assert(r.octets() =~= bytes::be(n as nat, 4));
    }
    r
}

pub open spec fn octets_of(ip: Option<Ip4>) -> Option<Seq<u8>> {
    match ip {
        Some(ip) => Some(ip.octets()),
        None => None,
    }
}

/// Reads the identifier and the address, where it has one, of a line of text.
pub fn parse_lan1(raw: &str) -> (r: (String, Option<Ip4>))
    ensures
        r.0@ == line_parts(raw@).0,
        octets_of(r.1) == line_parts(raw@).1,
{
    let all = text::chars_of(raw);
    let prefix = text::chars_of("LAN1.");
    let rest = if text::starts_with(all.as_slice(), prefix.as_slice()) {
        text::tail(all.as_slice(), prefix.len())
    } else {
        all.as_slice()
    };
    let k: usize = text::find_char(rest, '.');
    let id = text::text_of(text::head(rest, k));
    if k == rest.len() {
        return (id, None);
    }
    let more = text::tail(rest, k + 1);
    let field = text::head(more, text::find_char(more, '.'));
    if field.len() != 8 {
        return (id, None);
    }
    let n = if field[0] == '+' {
        let digits = text::tail(field, 1);
        assert(digits@ =~= field@.drop_first());
        read_hex(digits)
    } else {
        read_hex(field)
    };
    match n {
        Some(n) => (id, Some(ip_of(n))),
        None => (id, None),
    }
}

/// The line of text of a record, with `fallback` where it has no address that can be reached.
/// There is none where it would be too long.
pub fn serialize_desc(d: &Descriptor, fallback: Ip4) -> (r: Option<String>)
    requires
        d@.wf(),
    ensures
        r is Some <==> vstd::utf8::encode_utf8(d@.line(fallback)).len() < SERIALIZED_MAX,
        r is Some ==> r->0@ == d@.line(fallback),
{
    let ip = match d.advert_ip() {
        Some(ip) => ip,
        None => fallback,
    };
    let mut octets: Vec<u8> = Vec::new();
    octets.push(ip.a);
    octets.push(ip.b);
    octets.push(ip.c);
    octets.push(ip.d);
    assert(octets@ =~= ip.octets());
    let mut r = String::new();
    r.append("LAN1.");
    r.append(d.id_str().as_str());
    r.append(".");
    r.append(bytes::hex_text(octets.as_slice()).as_str());
    assert(r@ =~= d@.line(fallback));
    if r.as_str().as_bytes().len() >= SERIALIZED_MAX {
        return None;
    }
    Some(r)
}

/// The record of a line of text.
pub open spec fn read_line(raw: Seq<char>) -> DescriptorView {
    let d = descriptor_of(line_parts(raw).0);
    match line_parts(raw).1 {
        Some(o) => d.with_ip(Ip4 { a: o[0], b: o[1], c: o[2], d: o[3] }),
        None => d,
    }
}

/// Reads a record from a line of text. Where the line is none, the record is cleared, so that no
/// stale one is taken for it.
pub fn deserialize_desc(raw: &str) -> (r: (bool, Descriptor))
    ensures
        r.0 == text::begins(raw@, "LAN1."@),
        r.1@ == (if r.0 { read_line(raw@) } else { cleared() }),
        r.1@.wf(),
{
    let all = text::chars_of(raw);
    if !text::starts_with(all.as_slice(), text::chars_of("LAN1.").as_slice()) {
        return (false, Descriptor::clear());
    }
    let (id, ip) = parse_lan1(raw);
    let mut d = Descriptor::new(id.as_str());
    if let Some(ip) = ip {
        d.set_advert_ip(ip);
    }
    (true, d)
}

/// A new identifier: from a count and the nanoseconds of the clock, in the shape of a random one.
pub open spec fn ident_of(n: u64, nanos: u128) -> Seq<char> {
    text::hex(nanos as nat / 0x1_0000_0000, 8) + "-"@ + text::hex(nanos as nat / 0x1_0000, 4)
        + "-4"@ + text::hex(nanos as nat, 3) + "-8"@ + text::hex(n as nat, 3) + "-"@ + text::hex(
        n as nat * 0x9e37,
        12,
    )
}

pub open spec fn power16(width: nat) -> nat
    decreases width,
{
    if width == 0 { 1 } else { 16 * power16((width - 1) as nat) }
}

/// The last digits of a number are those of what it leaves modulo their range.
proof fn lemma_hex_low(n: nat, m: nat, width: nat)
    requires
        n % power16(width) == m % power16(width),
    ensures
        text::hex(n, width) == text::hex(m, width),
    decreases width,
{
    if width > 0 {
        let w = power16((width - 1) as nat);
        lemma_power16_positive((width - 1) as nat);
        vstd::arithmetic::div_mod::lemma_mod_mod(n as int, 16, w as int);
        vstd::arithmetic::div_mod::lemma_mod_mod(m as int, 16, w as int);
        vstd::arithmetic::div_mod::lemma_mod_breakdown(n as int, 16, w as int);
        vstd::arithmetic::div_mod::lemma_mod_breakdown(m as int, 16, w as int);
        assert((n / 16) % w == (m / 16) % w && n % 16 == m % 16) by {
            let a = 16 * ((n / 16) % w) + n % 16;
            let b = 16 * ((m / 16) % w) + m % 16;
            assert(a == b);
        }
        lemma_hex_low(n / 16, m / 16, (width - 1) as nat);
    }
}

proof fn lemma_power16_positive(width: nat)
    ensures
        power16(width) > 0,
    decreases width,
{
    if width > 0 {
        lemma_power16_positive((width - 1) as nat);
    }
}

proof fn lemma_power16()
    ensures
        power16(3) == 0x1000,
        power16(4) == 0x1_0000,
        power16(8) == 0x1_0000_0000,
        power16(12) == 0x1_0000_0000_0000,
{
    reveal_with_fuel(power16, 13);
}

/// Makes a new identifier.
pub fn uuid_ident(n: u64, nanos: u128) -> (r: String)
    ensures
        r@ == ident_of(n, nanos),
{
    let high: u64 = ((nanos / 0x1_0000_0000) % 0x1_0000_0000) as u64;
    let middle: u64 = ((nanos / 0x1_0000) % 0x1_0000) as u64;
    let low: u64 = (nanos % 0x1000) as u64;
    let mixed: u64 = n.wrapping_mul(0x9e37);
    proof {
        lemma_power16();
        lemma_hex_low(nanos as nat / 0x1_0000_0000, high as nat, 8);
        lemma_hex_low(nanos as nat / 0x1_0000, middle as nat, 4);
        lemma_hex_low(nanos as nat, low as nat, 3);
        vstd::arithmetic::div_mod::lemma_mod_mod(
            n as int * 0x9e37,
            0x1_0000_0000_0000,
            0x1_0000,
        );
        lemma_hex_low(n as nat * 0x9e37, mixed as nat, 12);
    }
    let mut r = String::new();
    text::push_hex(&mut r, high, 8);
    r.append("-");
    text::push_hex(&mut r, middle, 4);
    r.append("-4");
    text::push_hex(&mut r, low, 3);
    r.append("-8");
    text::push_hex(&mut r, n, 3);
    r.append("-");
    text::push_hex(&mut r, mixed, 12);
    assert(r@ =~= ident_of(n, nanos));
    r
}

/// Two digits stand for the byte that they were written for.
proof fn lemma_hex_pair(t: Seq<char>, b: u8)
    requires
        hex_number(t) is Some,
    ensures
        hex_number(t + text::hex(b as nat, 2)) == Some(256 * hex_number(t)->0 + b as nat),
        text::hex(b as nat, 2).len() == 2,
        forall|i: int| 0 <= i < 2 ==> hex_value(#[trigger] text::hex(b as nat, 2)[i]) is Some,
{
    reveal_with_fuel(text::hex, 3);
    let h = text::digit_char((b / 16) as nat % 16);
    let l = text::digit_char(b as nat % 16);
    let d = text::hex(b as nat, 2);
    assert(d =~= seq![h, l]);
    assert(hex_value(h) == Some((b / 16) as nat));
    assert(hex_value(l) == Some(b as nat % 16));
    let s = t + d;
    assert(s.drop_last() =~= t.push(h));
    assert(t.push(h).drop_last() =~= t);
    assert(hex_number(t.push(h)) == Some(16 * hex_number(t)->0 + (b / 16) as nat));
}

/// The digits of bytes stand for the number of those bytes.
proof fn lemma_hex_reads_back(s: Seq<u8>)
    ensures
        hex_number(bytes::hex_of(s)) == Some(bytes::from_be(s)),
        bytes::hex_of(s).len() == 2 * s.len(),
        forall|i: int|
            0 <= i < bytes::hex_of(s).len() ==> hex_value(#[trigger] bytes::hex_of(s)[i]) is Some,
    decreases s.len(),
{
    if s.len() > 0 {
        let t = bytes::hex_of(s.drop_last());
        lemma_hex_reads_back(s.drop_last());
        lemma_hex_pair(t, s.last());
        let d = text::hex(s.last() as nat, 2);
        assert forall|i: int| 0 <= i < bytes::hex_of(s).len() implies hex_value(
            #[trigger] bytes::hex_of(s)[i],
        ) is Some by {
            if i < t.len() {
                assert(hex_value(t[i]) is Some);
            } else {
                assert(hex_value(d[i - t.len()]) is Some);
            }
        }
    }
}

/// Bytes are read back from the number that they denote.
proof fn lemma_be_of_from_be(s: Seq<u8>)
    ensures
        bytes::be(bytes::from_be(s), s.len()) == s,
    decreases s.len(),
{
    if s.len() > 0 {
        lemma_be_of_from_be(s.drop_last());
        let n = bytes::from_be(s);
        assert(n / 256 == bytes::from_be(s.drop_last()));
        assert(n % 256 == s.last());
        assert(bytes::be(n, s.len()) =~= s);
    }
}

proof fn lemma_before_zero_is_nonzero(s: Seq<u8>)
    ensures
        wire::before_zero(s).len() <= s.len(),
        forall|i: int| 0 <= i < wire::before_zero(s).len() ==> wire::before_zero(s)[i] != 0,
    decreases s.len(),
{
    if s.len() > 0 && s[0] != 0 {
        lemma_before_zero_is_nonzero(s.drop_first());
    }
}

/// A network is found again from its line of text: the record that is read from the line of a
/// record has the same identifier, and the address that the line tells.
pub proof fn line_reads_back(d: DescriptorView, fallback: Ip4)
    requires
        d.wf(),
        vstd::utf8::valid_utf8(wire::before_zero(d.identifier.take(IDENT_LEN - 1))),
        !d.id().contains('.'),
    ensures
        text::begins(d.line(fallback), "LAN1."@),
        read_line(d.line(fallback)).id() == d.id(),
        read_line(d.line(fallback)).stored_ip() == (match d.advert_ip() {
            Some(ip) => ip,
            None => fallback,
        }),
{
    let b = wire::before_zero(d.identifier.take(IDENT_LEN - 1));
    let id = d.id();
    vstd::utf8::decode_utf8_encode_utf8(b);
    lemma_before_zero_is_nonzero(d.identifier.take(IDENT_LEN - 1));
    let ip = match d.advert_ip() {
        Some(ip) => ip,
        None => fallback,
    };
    let digits = bytes::hex_of(ip.octets());
    lemma_hex_reads_back(ip.octets());
    lemma_be_of_from_be(ip.octets());
    reveal_strlit("LAN1.");
    reveal_strlit(".");
    let line = d.line(fallback);
    assert(line.take("LAN1."@.len() as int) =~= "LAN1."@);
    let rest = line.skip("LAN1."@.len() as int);
    assert(rest =~= id + "."@ + digits);
    assert forall|i: int| 0 <= i < id.len() implies rest[i] != '.' by {
        assert(id.contains(id[i]));
    }
    text::lemma_find(rest, '.', id.len() as int);
    assert(rest.take(id.len() as int) =~= id);
    let more = rest.skip(id.len() + 1int);
    assert(more =~= digits);
    assert forall|i: int| 0 <= i < more.len() implies more[i] != '.' by {
        assert(hex_value(digits[i]) is Some);
    }
    text::lemma_find(more, '.', 8);
    assert(more.take(8) =~= digits);
    assert(hex_value(digits[0]) is Some);
    assert(eight_digits(digits) == Some(bytes::from_be(ip.octets())));
    assert(line_parts(line).1 == Some(ip.octets()));
    let again = descriptor_of(id);
    assert(again.identifier.take(IDENT_LEN - 1).take(b.len() as int) =~= b);
    wire::lemma_before_zero(again.identifier.take(IDENT_LEN - 1), b.len() as int);
    assert(read_line(line).identifier == again.identifier);
}

}
