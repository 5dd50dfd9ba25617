//! IP addresses and CIDR ranges: classification, containment and masking.
//!
//! An address is held as its number; a range as its address and prefix
//! length. Ranges are parsed with the `ipnet` crate. Addresses are parsed
//! and printed by the standard library outside this crate, which hands the
//! parsed address (or the parser's message) to [`parse_ip_addr`].
use vstd::prelude::*;
use crate::text::{push_str, string_of};

verus! {

/// An IP address.
#[derive(Clone, Copy, Debug, PartialEq, Eq, Structural)]
pub enum KubeIP {
    V4(u32),
    V6(u128),
}

/// A CIDR range: an address and a prefix length.
#[derive(Clone, Copy, Debug, PartialEq, Eq, Structural)]
pub struct KubeCIDR {
    pub addr: KubeIP,
    pub prefix: u8,
}

/// `2^n`.
pub open spec fn two_to(n: nat) -> nat
    decreases n,
{
    if n == 0 {
        1
    } else {
        2 * two_to((n - 1) as nat)
    }
}

/// The number of bits of an address of this family.
pub open spec fn addr_bits(a: KubeIP) -> nat {
    match a {
        KubeIP::V4(_) => 32,
        KubeIP::V6(_) => 128,
    }
}

/// The address as a number.
pub open spec fn addr_value(a: KubeIP) -> nat {
    match a {
        KubeIP::V4(v) => v as nat,
        KubeIP::V6(v) => v as nat,
    }
}

/// Both addresses are of one family.
pub open spec fn same_family(a: KubeIP, b: KubeIP) -> bool {
    (a is V4 && b is V4) || (a is V6 && b is V6)
}

impl KubeCIDR {
    /// The prefix length fits the address family.
    pub open spec fn wf(self) -> bool {
        self.prefix <= addr_bits(self.addr)
    }

    /// The number of addresses in the range.
    pub open spec fn size(self) -> nat {
        two_to((addr_bits(self.addr) - self.prefix) as nat)
    }

    /// The first address of the range (its network address).
    pub open spec fn network(self) -> nat {
        (addr_value(self.addr) / self.size()) * self.size()
    }

    /// The last address of the range (its broadcast address).
    pub open spec fn broadcast(self) -> nat {
        (self.network() + self.size() - 1) as nat
    }
}

/// Whether `ip` lies in `net` (ipnet's `contains`: one family, between the
/// network and broadcast addresses).
pub open spec fn in_net(net: KubeCIDR, ip: KubeIP) -> bool {
    same_family(net.addr, ip) && net.network() <= addr_value(ip) <= net.broadcast()
}

/// The range with its address cut to the network address (ipnet's `trunc`).
pub open spec fn mask(n: KubeCIDR) -> KubeCIDR {
    KubeCIDR {
        addr: match n.addr {
            KubeIP::V4(_) => KubeIP::V4(n.network() as u32),
            KubeIP::V6(_) => KubeIP::V6(n.network() as u128),
        },
        prefix: n.prefix,
    }
}

/// The first octet of an IPv4 address, and so on.
pub open spec fn octet(v: u32, i: nat) -> nat {
    ((v as nat) / two_to((24 - 8 * i) as nat)) % 256
}

/// The first 16-bit segment of an IPv6 address.
pub open spec fn segment0(v: u128) -> u16 {
    ((v as nat) / two_to(112)) as u16
}

/// `std`'s `is_loopback`: `127.0.0.0/8`, or `::1`.
pub open spec fn loopback(a: KubeIP) -> bool {
    match a {
        KubeIP::V4(v) => octet(v, 0) == 127,
        KubeIP::V6(v) => v == 1,
    }
}

/// `std`'s `is_unspecified`: `0.0.0.0` or `::`.
pub open spec fn unspecified(a: KubeIP) -> bool {
    addr_value(a) == 0
}

/// `std`'s `is_multicast`: `224.0.0.0/4`, or `ff00::/8`.
pub open spec fn multicast(a: KubeIP) -> bool {
    match a {
        KubeIP::V4(v) => 224 <= octet(v, 0) <= 239,
        KubeIP::V6(v) => (v as nat) / two_to(120) == 0xff,
    }
}

/// `169.254.0.0/16` (IPv4) or `fe80::/10` (IPv6).
pub open spec fn link_local_unicast(a: KubeIP) -> bool {
    match a {
        KubeIP::V4(v) => octet(v, 0) == 169 && octet(v, 1) == 254,
        KubeIP::V6(v) => segment0(v) & 0xffc0 == 0xfe80,
    }
}

/// `224.0.0.0/24` (IPv4) or `ff02::/16` with any flags (IPv6).
pub open spec fn link_local_multicast(a: KubeIP) -> bool {
    match a {
        KubeIP::V4(v) => octet(v, 0) == 224 && octet(v, 1) == 0 && octet(v, 2) == 0,
        KubeIP::V6(v) => segment0(v) & 0xff0f == 0xff02,
    }
}

/// Neither loopback, unspecified, multicast, link-local nor (IPv4)
/// the broadcast address.
pub open spec fn global_unicast(a: KubeIP) -> bool {
    &&& !loopback(a)
    &&& !unspecified(a)
    &&& !multicast(a)
    &&& !link_local_unicast(a)
    &&& !(a matches KubeIP::V4(v) && v == 0xffff_ffff)
}

/// An IPv4-mapped IPv6 address (`::ffff:a.b.c.d`).
pub open spec fn ipv4_mapped(a: KubeIP) -> bool {
    match a {
        KubeIP::V4(_) => false,
        KubeIP::V6(v) => (v as nat) / two_to(32) == 0xffff,
    }
}

proof fn lemma_two_to_add(a: nat, b: nat)
    ensures
        two_to(a + b) == two_to(a) * two_to(b),
    decreases b,
{
    if b > 0 {
        let b1 = (b - 1) as nat;
        lemma_two_to_add(a, b1);
        assert(two_to(a + b) == 2 * two_to(a + b1));
        assert(two_to(b) == 2 * two_to(b1));
        assert(two_to(a) * (2 * two_to(b1)) == 2 * (two_to(a) * two_to(b1))) by (nonlinear_arith);
        assert(two_to(a) * two_to(b) == two_to(a) * (2 * two_to(b1)));
    } else {
        assert(two_to(0) == 1);
        assert(a + b == a);
    }
}

proof fn lemma_two_to_values()
    ensures
        two_to(0) == 1,
        two_to(8) == 0x100,
        two_to(16) == 0x1_0000,
        two_to(24) == 0x100_0000,
        two_to(32) == 0x1_0000_0000,
        two_to(112) == 0x1_0000_0000_0000_0000_0000_0000_0000,
        two_to(120) == 0x100_0000_0000_0000_0000_0000_0000_0000,
        two_to(127) == 0x8000_0000_0000_0000_0000_0000_0000_0000,
        two_to(128) == 0x1_0000_0000_0000_0000_0000_0000_0000_0000,
{
    reveal_with_fuel(two_to, 9);
    assert(two_to(8) == 0x100);
    lemma_two_to_add(8, 8);
    assert(two_to(16) == 0x1_0000);
    lemma_two_to_add(16, 8);
    assert(two_to(24) == 0x100_0000);
    lemma_two_to_add(16, 16);
    assert(two_to(32) == 0x1_0000_0000);
    lemma_two_to_add(32, 32);
    assert(two_to(64) == 0x1_0000_0000_0000_0000);
    lemma_two_to_add(64, 32);
    assert(two_to(96) == 0x1_0000_0000_0000_0000_0000_0000);
    lemma_two_to_add(96, 16);
    assert(two_to(112) == 0x1_0000_0000_0000_0000_0000_0000_0000);
    lemma_two_to_add(112, 8);
    assert(two_to(120) == 0x100_0000_0000_0000_0000_0000_0000_0000);
    lemma_two_to_add(64, 64);
    assert(two_to(128) == 0x1_0000_0000_0000_0000_0000_0000_0000_0000);
    assert(two_to(128) == 2 * two_to(127));
}

proof fn lemma_two_to_pos(n: nat)
    ensures
        two_to(n) >= 1,
    decreases n,
{
    if n > 0 {
        lemma_two_to_pos((n - 1) as nat);
    }
}

proof fn lemma_two_to_mono(a: nat, b: nat)
    requires
        a <= b,
    ensures
        two_to(a) <= two_to(b),
    decreases b,
{
    if a < b {
        lemma_two_to_mono(a, (b - 1) as nat);
        lemma_two_to_pos((b - 1) as nat);
    }
}

/// The block of `2^k` values holding `a` lies below `2^b`.
proof fn lemma_block(a: nat, k: nat, b: nat)
    requires
        k <= b,
        a < two_to(b),
    ensures
        two_to(k) >= 1,
        (a / two_to(k)) * two_to(k) <= a,
        (a / two_to(k)) * two_to(k) + two_to(k) <= two_to(b),
{
    lemma_two_to_pos(k);
    lemma_two_to_add(k, (b - k) as nat);
    let d = two_to(k);
    let m = two_to((b - k) as nat);
    let q = a / d;
    assert(q * d <= a) by (nonlinear_arith)
        requires
            d >= 1,
            q == a / d,
    ;
    assert(q < m) by (nonlinear_arith)
        requires
            q * d <= a,
            a < d * m,
            d >= 1,
            q >= 0,
    ;
    assert(q * d + d <= d * m) by (nonlinear_arith)
        requires
            q + 1 <= m,
            d >= 1,
    ;
    assert(two_to(b) == d * m);
}

/// An address lies below `2^bits` of its family.
proof fn lemma_addr_bound(a: KubeIP)
    ensures
        addr_value(a) < two_to(addr_bits(a)),
{
    lemma_two_to_values();
}

/// `2^n` for `n < 128`.
fn two_to_exec(n: u8) -> (r: u128)
    requires
        n < 128,
    ensures
        r == two_to(n as nat),
{
    let mut r: u128 = 1;
    let mut i: u8 = 0;
    while i < n
        invariant
            i <= n < 128,
            r == two_to(i as nat),
        decreases n - i,
    {
        proof {
            lemma_two_to_mono((i + 1) as nat, 127);
            lemma_two_to_values();
            assert(two_to((i + 1) as nat) == 2 * two_to(i as nat));
        }
        r = r * 2;
        i = i + 1;
    }
    r
}

impl KubeIP {
    /// `family()`: 4 or 6.
    pub fn family(&self) -> (r: i64)
        ensures
            r == (if self is V4 { 4int } else { 6int }),
    {
        match self {
            KubeIP::V4(_) => 4,
            KubeIP::V6(_) => 6,
        }
    }

    fn first_octet(v: u32) -> (o: u32)
        ensures
            o == octet(v, 0),
            o < 256,
    {
        proof {
            lemma_two_to_values();
        }
        v / 0x100_0000
    }

    fn second_octet(v: u32) -> (o: u32)
        ensures
            o == octet(v, 1),
    {
        proof {
            lemma_two_to_values();
        }
        (v / 0x1_0000) % 256
    }

    fn third_octet(v: u32) -> (o: u32)
        ensures
            o == octet(v, 2),
    {
        proof {
            lemma_two_to_values();
        }
        (v / 0x100) % 256
    }

    fn first_segment(v: u128) -> (s: u16)
        ensures
            s == segment0(v),
    {
        proof {
            lemma_two_to_values();
        }
        (v / 0x1_0000_0000_0000_0000_0000_0000_0000) as u16
    }

    /// `isLoopback()`.
    pub fn is_loopback(&self) -> (b: bool)
        ensures
            b == loopback(*self),
    {
        match self {
            KubeIP::V4(v) => Self::first_octet(*v) == 127,
            KubeIP::V6(v) => *v == 1,
        }
    }

    /// `isUnspecified()`.
    pub fn is_unspecified(&self) -> (b: bool)
        ensures
            b == unspecified(*self),
    {
        match self {
            KubeIP::V4(v) => *v == 0,
            KubeIP::V6(v) => *v == 0,
        }
    }

    fn is_multicast(&self) -> (b: bool)
        ensures
            b == multicast(*self),
    {
        proof {
            lemma_two_to_values();
        }
        match self {
            KubeIP::V4(v) => {
                let o = Self::first_octet(*v);
                224 <= o && o <= 239
            },
            KubeIP::V6(v) => *v / 0x100_0000_0000_0000_0000_0000_0000_0000 == 0xff,
        }
    }

    /// `isLinkLocalMulticast()`.
    pub fn is_link_local_multicast(&self) -> (b: bool)
        ensures
            b == link_local_multicast(*self),
    {
        match self {
            KubeIP::V4(v) => Self::first_octet(*v) == 224 && Self::second_octet(*v) == 0 && Self::third_octet(*v)
                == 0,
            KubeIP::V6(v) => Self::first_segment(*v) & 0xff0f == 0xff02,
        }
    }

    /// `isLinkLocalUnicast()`.
    pub fn is_link_local_unicast(&self) -> (b: bool)
        ensures
            b == link_local_unicast(*self),
    {
        match self {
            KubeIP::V4(v) => Self::first_octet(*v) == 169 && Self::second_octet(*v) == 254,
            KubeIP::V6(v) => Self::first_segment(*v) & 0xffc0 == 0xfe80,
        }
    }

    /// `isGlobalUnicast()`.
    pub fn is_global_unicast(&self) -> (b: bool)
        ensures
            b == global_unicast(*self),
    {
        let broadcast = match self {
            KubeIP::V4(v) => *v == 0xffff_ffff,
            KubeIP::V6(_) => false,
        };
        !self.is_loopback() && !self.is_unspecified() && !self.is_multicast() && !self.is_link_local_unicast()
            && !broadcast
    }

    /// Whether this is an IPv4-mapped IPv6 address.
    pub fn is_ipv4_mapped(&self) -> (b: bool)
        ensures
            b == ipv4_mapped(*self),
    {
        proof {
            lemma_two_to_values();
        }
        match self {
            KubeIP::V4(_) => false,
            KubeIP::V6(v) => *v / 0x1_0000_0000 == 0xffff,
        }
    }
}

/// What [`parse_ip_addr`] gives for `s`, given what the standard library's
/// parser made of it.
pub open spec fn ip_addr_result(s: Seq<char>, parsed: Result<KubeIP, Seq<char>>) -> Result<KubeIP, Seq<char>> {
    if s.contains('%') {
        Err("IP address with zone is not allowed"@)
    } else {
        match parsed {
            Err(e) => Err("invalid IP address: "@ + e),
            Ok(a) => if ipv4_mapped(a) {
                Err("IPv4-mapped IPv6 addresses are not allowed"@)
            } else {
                Ok(a)
            },
        }
    }
}

/// The string view of a parse result.
pub open spec fn parsed_view(p: Result<KubeIP, String>) -> Result<KubeIP, Seq<char>> {
    match p {
        Ok(a) => Ok(a),
        Err(e) => Err(e@),
    }
}

fn contains_char(s: &str, c: char) -> (b: bool)
    ensures
        b == s@.contains(c),
{
    let v = crate::text::chars_of(s);
    let mut i: usize = 0;
    while i < v.len()
        invariant
            v@ == s@,
            i <= v@.len(),
            forall|j: int| 0 <= j < i ==> v@[j] != c,
        decreases v@.len() - i,
    {
        if v[i] == c {
            return true;
        }
        i = i + 1;
    }
    false
}

/// An IP address from `s`: one with a zone (`%`) or an IPv4-mapped IPv6
/// address is refused. `parsed` is what the standard library's address
/// parser made of `s`: the address, or its message.
pub fn parse_ip_addr(s: &str, parsed: Result<KubeIP, String>) -> (r: Result<KubeIP, String>)
    ensures
        match r {
            Ok(a) => ip_addr_result(s@, parsed_view(parsed)) == Ok::<KubeIP, Seq<char>>(a),
            Err(e) => ip_addr_result(s@, parsed_view(parsed)) == Err::<KubeIP, Seq<char>>(e@),
        },
{
    if contains_char(s, '%') {
        return Err(string_of("IP address with zone is not allowed"));
    }
    match parsed {
        Err(e) => {
            let mut m = string_of("invalid IP address: ");
            push_str(&mut m, e.as_str());
            Err(m)
        },
        Ok(a) => if a.is_ipv4_mapped() {
            Err(string_of("IPv4-mapped IPv6 addresses are not allowed"))
        } else {
            Ok(a)
        },
    }
}

/// `isIP(<string>)`.
pub fn is_ip(s: &str, parsed: Result<KubeIP, String>) -> (b: bool)
    ensures
        b == ip_addr_result(s@, parsed_view(parsed)) is Ok,
{
    parse_ip_addr(s, parsed).is_ok()
}

/// `isIPv4(<string>)`.
pub fn is_ipv4(s: &str, parsed: Result<KubeIP, String>) -> (b: bool)
    ensures
        b == (ip_addr_result(s@, parsed_view(parsed)) matches Ok(a) && a is V4),
{
    match parse_ip_addr(s, parsed) {
        Ok(KubeIP::V4(_)) => true,
        _ => false,
    }
}

/// `isIPv6(<string>)`.
pub fn is_ipv6(s: &str, parsed: Result<KubeIP, String>) -> (b: bool)
    ensures
        b == (ip_addr_result(s@, parsed_view(parsed)) matches Ok(a) && a is V6),
{
    match parse_ip_addr(s, parsed) {
        Ok(KubeIP::V6(_)) => true,
        _ => false,
    }
}

/// `ip.isCanonical(<string>)`: `s` is an address and reads as the standard
/// library prints it (`canonical`, the printed form of the parsed address).
pub fn ip_is_canonical(s: &str, parsed: Result<KubeIP, String>, canonical: &str) -> (b: bool)
    ensures
        b == (ip_addr_result(s@, parsed_view(parsed)) is Ok && canonical@ == s@),
{
    match parse_ip_addr(s, parsed) {
        Ok(_) => crate::text::str_eq(canonical, s),
        Err(_) => false,
    }
}

// ---------------------------------------------------------------------------
// CIDR ranges
// ---------------------------------------------------------------------------

#[verifier::external_type_specification]
#[verifier::external_body]
pub struct ExAddrParseError(ipnet::AddrParseError);

/// What `ipnet::IpNet::from_str` gives for `text`: whether the address is
/// IPv6, the address as a number and the prefix length; `None` where it
/// reports an error.
pub uninterp spec fn ipnet_parse(text: Seq<char>) -> Option<(bool, nat, nat)>;

/// The range a parse result stands for.
pub open spec fn net_of(p: (bool, nat, nat)) -> KubeCIDR {
    KubeCIDR {
        addr: if p.0 {
            KubeIP::V6(p.1 as u128)
        } else {
            KubeIP::V4(p.1 as u32)
        },
        prefix: p.2 as u8,
    }
}

/// Parses `s` with `ipnet::IpNet::from_str`.
///
/// The contract claims the result [`ipnet_parse`] names, and what the
/// parser's source shows of it: an IPv4 range has a 32-bit address and a
/// prefix of at most 32, an IPv6 range a prefix of at most 128.
#[verifier::external_body]
fn parse_ip_net(s: &str) -> (r: Result<KubeCIDR, ipnet::AddrParseError>)
    ensures
        match r {
            Ok(n) => ipnet_parse(s@) matches Some(p) && n == net_of(p) && n.wf() && (p.0 ==> p.1
                < 0x1_0000_0000_0000_0000_0000_0000_0000_0000) && (!p.0 ==> p.1 < 0x1_0000_0000),
            Err(_) => ipnet_parse(s@) is None,
        },
{
    match <ipnet::IpNet as std::str::FromStr>::from_str(s) {
        Ok(ipnet::IpNet::V4(n)) => Ok(KubeCIDR { addr: KubeIP::V4(u32::from(n.addr())), prefix: n.prefix_len() }),
        Ok(ipnet::IpNet::V6(n)) => Ok(KubeCIDR { addr: KubeIP::V6(u128::from(n.addr())), prefix: n.prefix_len() }),
        Err(e) => Err(e),
    }
}

/// The message of an `ipnet::AddrParseError` (its `Display`), which the
/// crate's source writes as one fixed sentence.
#[verifier::external_body]
fn ipnet_error_message(e: &ipnet::AddrParseError) -> (m: String)
    ensures
        m@ == "invalid IP address syntax"@,
{
    e.to_string()
}

/// What [`parse_cidr_net`] gives for `s`.
pub open spec fn cidr_result(s: Seq<char>) -> Result<KubeCIDR, Seq<char>> {
    match ipnet_parse(s) {
        None => Err("invalid CIDR: invalid IP address syntax"@),
        Some(p) => if ipv4_mapped(net_of(p).addr) {
            Err("IPv4-mapped IPv6 in CIDR is not allowed"@)
        } else {
            Ok(net_of(p))
        },
    }
}

/// A CIDR range from `s`; an IPv4-mapped IPv6 range is refused.
pub fn parse_cidr_net(s: &str) -> (r: Result<KubeCIDR, String>)
    ensures
        match r {
            Ok(n) => cidr_result(s@) == Ok::<KubeCIDR, Seq<char>>(n) && n.wf(),
            Err(e) => cidr_result(s@) == Err::<KubeCIDR, Seq<char>>(e@),
        },
{
    match parse_ip_net(s) {
        Err(e) => {
            let mut m = string_of("invalid CIDR: ");
            let detail = ipnet_error_message(&e);
            push_str(&mut m, detail.as_str());
            proof {
                assert(m@ =~= "invalid CIDR: invalid IP address syntax"@) by {
                    reveal_strlit("invalid CIDR: ");
                    reveal_strlit("invalid IP address syntax");
                    reveal_strlit("invalid CIDR: invalid IP address syntax");
                }
            }
            Err(m)
        },
        Ok(n) => if n.addr.is_ipv4_mapped() {
            Err(string_of("IPv4-mapped IPv6 in CIDR is not allowed"))
        } else {
            Ok(n)
        },
    }
}

/// `isCIDR(<string>)`.
pub fn is_cidr(s: &str) -> (b: bool)
    ensures
        b == cidr_result(s@) is Ok,
{
    parse_cidr_net(s).is_ok()
}

/// `isCIDRv4(<string>)`.
pub fn is_cidr_v4(s: &str) -> (b: bool)
    ensures
        b == (cidr_result(s@) matches Ok(n) && n.addr is V4),
{
    match parse_cidr_net(s) {
        Ok(n) => matches!(n.addr, KubeIP::V4(_)),
        Err(_) => false,
    }
}

/// `isCIDRv6(<string>)`.
pub fn is_cidr_v6(s: &str) -> (b: bool)
    ensures
        b == (cidr_result(s@) matches Ok(n) && n.addr is V6),
{
    match parse_cidr_net(s) {
        Ok(n) => matches!(n.addr, KubeIP::V6(_)),
        Err(_) => false,
    }
}

impl KubeCIDR {
    /// The network and broadcast addresses of a range narrower than its
    /// whole family.
    fn bounds(&self) -> (r: (u128, u128))
        requires
            self.wf(),
            self.prefix > 0,
        ensures
            r.0 == self.network(),
            r.1 == self.broadcast(),
    {
        let bits: u8 = match self.addr {
            KubeIP::V4(_) => 32,
            KubeIP::V6(_) => 128,
        };
        let k: u8 = bits - self.prefix;
        let d = two_to_exec(k);
        let a: u128 = match self.addr {
            KubeIP::V4(v) => v as u128,
            KubeIP::V6(v) => v,
        };
        proof {
            lemma_addr_bound(self.addr);
            lemma_block(a as nat, k as nat, addr_bits(self.addr));
            lemma_two_to_values();
            lemma_two_to_mono(addr_bits(self.addr), 128);
        }
        let net = a / d * d;
        (net, net + (d - 1))
    }

    /// `containsIP(<IP>)`.
    pub fn contains_ip(&self, ip: &KubeIP) -> (b: bool)
        requires
            self.wf(),
        ensures
            b == in_net(*self, *ip),
    {
        let same = match (self.addr, *ip) {
            (KubeIP::V4(_), KubeIP::V4(_)) => true,
            (KubeIP::V6(_), KubeIP::V6(_)) => true,
            _ => false,
        };
        if !same {
            return false;
        }
        let v: u128 = match ip {
            KubeIP::V4(x) => *x as u128,
            KubeIP::V6(x) => *x,
        };
        if self.prefix == 0 {
            proof {
                lemma_addr_bound(self.addr);
                lemma_addr_bound(*ip);
                lemma_block(addr_value(self.addr), addr_bits(self.addr), addr_bits(self.addr));
            }
            return true;
        }
        let (lo, hi) = self.bounds();
        lo <= v && v <= hi
    }

    /// `containsCIDR(<CIDR>)`: `other`'s address lies in this range, and
    /// this range's prefix is no longer than `other`'s.
    pub fn contains_cidr(&self, other: &KubeCIDR) -> (b: bool)
        requires
            self.wf(),
        ensures
            b == (in_net(*self, other.addr) && self.prefix <= other.prefix),
    {
        self.contains_ip(&other.addr) && self.prefix <= other.prefix
    }

    /// `prefixLength()`.
    pub fn prefix_length(&self) -> (r: i64)
        ensures
            r == self.prefix,
    {
        self.prefix as i64
    }

    /// `ip()`: the address the range was written with.
    pub fn ip(&self) -> (r: KubeIP)
        ensures
            r == self.addr,
    {
        self.addr
    }

    /// `masked()`: the range with its address cut to the network address.
    pub fn masked(&self) -> (r: KubeCIDR)
        requires
            self.wf(),
        ensures
            r == mask(*self),
            r.wf(),
            addr_value(r.addr) == self.network(),
    {
        if self.prefix == 0 {
            proof {
                lemma_addr_bound(self.addr);
                lemma_block(addr_value(self.addr), addr_bits(self.addr), addr_bits(self.addr));
            }
            return match self.addr {
                KubeIP::V4(_) => KubeCIDR { addr: KubeIP::V4(0), prefix: 0 },
                KubeIP::V6(_) => KubeCIDR { addr: KubeIP::V6(0), prefix: 0 },
            };
        }
        let (lo, _) = self.bounds();
        match self.addr {
            KubeIP::V4(v) => {
                proof {
                    lemma_addr_bound(self.addr);
                    lemma_block(v as nat, (32 - self.prefix) as nat, 32);
                }
                KubeCIDR { addr: KubeIP::V4(lo as u32), prefix: self.prefix }
            },
            KubeIP::V6(_) => KubeCIDR { addr: KubeIP::V6(lo), prefix: self.prefix },
        }
    }
}

/// The network address of a range lies below `2^bits` and is a multiple of
/// the range's size.
proof fn lemma_network(n: KubeCIDR)
    requires
        n.wf(),
    ensures
        n.size() >= 1,
        n.network() <= addr_value(n.addr) <= n.broadcast(),
        n.network() + n.size() <= two_to(addr_bits(n.addr)),
        n.network() / n.size() == addr_value(n.addr) / n.size(),
{
    let a = addr_value(n.addr);
    let k = (addr_bits(n.addr) - n.prefix) as nat;
    lemma_addr_bound(n.addr);
    lemma_block(a, k, addr_bits(n.addr));
    let d = n.size();
    let q = a / d;
    vstd::arithmetic::div_mod::lemma_fundamental_div_mod(a as int, d as int);
    vstd::arithmetic::div_mod::lemma_mod_bound(a as int, d as int);
    let r = a % d;
    assert(a == d * q + r);
    assert(r < d);
    assert(a < q * d + d) by (nonlinear_arith)
        requires
            a == d * q + r,
            r < d,
    ;
    vstd::arithmetic::div_mod::lemma_div_by_multiple(q as int, d as int);
}

/// A range holds the address it was written with.
pub proof fn law_cidr_contains_own_address(n: KubeCIDR)
    requires
        n.wf(),
    ensures
        in_net(n, n.addr),
{
    lemma_network(n);
}

/// Masking keeps a range's members, and masking twice is masking once.
pub proof fn law_masked_same_members(n: KubeCIDR, ip: KubeIP)
    requires
        n.wf(),
    ensures
        mask(n).wf(),
        in_net(mask(n), ip) == in_net(n, ip),
        mask(mask(n)) == mask(n),
{
    lemma_network(n);
    lemma_two_to_values();
    let m = mask(n);
    assert(addr_value(m.addr) == n.network());
    assert(m.size() == n.size());
    assert(m.network() == n.network());
}

/// Lying in a range means having the same quotient as its address when
/// divided by the range's size.
proof fn lemma_in_net_div(n: KubeCIDR, ip: KubeIP)
    requires
        n.wf(),
        same_family(n.addr, ip),
    ensures
        in_net(n, ip) <==> addr_value(ip) / n.size() == addr_value(n.addr) / n.size(),
{
    lemma_network(n);
    let sz = n.size() as int;
    let v = addr_value(ip) as int;
    let q = addr_value(n.addr) as int / sz;
    assert(n.network() == q * sz);
    if in_net(n, ip) {
        vstd::arithmetic::div_mod::lemma_fundamental_div_mod_converse(v, sz, q, v - q * sz);
    }
    if v / sz == q {
        vstd::arithmetic::div_mod::lemma_fundamental_div_mod(v, sz);
        vstd::arithmetic::div_mod::lemma_mod_bound(v, sz);
        assert(q * sz == sz * q) by (nonlinear_arith);
    }
}

/// The numbers that lie in range `o` as addresses of its family.
proof fn lemma_ends_in_range(o: KubeCIDR)
    requires
        o.wf(),
    ensures
        o.broadcast() < two_to(addr_bits(o.addr)),
        o.broadcast() == o.network() + o.size() - 1,
{
    lemma_network(o);
}

/// The address of `o`'s family with number `v` (below `2^bits`).
pub open spec fn addr_of(o: KubeCIDR, v: nat) -> KubeIP {
    match o.addr {
        KubeIP::V4(_) => KubeIP::V4(v as u32),
        KubeIP::V6(_) => KubeIP::V6(v as u128),
    }
}

/// `containsCIDR` is containment: `n` contains `o` exactly when every
/// address of `o` lies in `n`.
pub proof fn law_contains_cidr_is_containment(n: KubeCIDR, o: KubeCIDR)
    requires
        n.wf(),
        o.wf(),
    ensures
        (in_net(n, o.addr) && n.prefix <= o.prefix) <==> (forall|ip: KubeIP| #[trigger] in_net(o, ip) ==> in_net(n, ip)),
{
    lemma_network(n);
    lemma_network(o);
    law_cidr_contains_own_address(o);
    lemma_two_to_values();
    if in_net(n, o.addr) && n.prefix <= o.prefix {
        let bits = addr_bits(n.addr);
        let kn = (bits - n.prefix) as nat;
        let ko = (bits - o.prefix) as nat;
        let g = (kn - ko) as nat;
        lemma_two_to_add(ko, g);
        assert(ko + g == kn);
        let so = o.size() as int;
        let sg = two_to(g) as int;
        lemma_two_to_pos(g);
        assert(n.size() as int == so * sg);
        lemma_in_net_div(n, o.addr);
        assert forall|ip: KubeIP| #[trigger] in_net(o, ip) implies in_net(n, ip) by {
            lemma_in_net_div(o, ip);
            lemma_in_net_div(n, ip);
            vstd::arithmetic::div_mod::lemma_div_denominator(addr_value(ip) as int, so, sg);
            vstd::arithmetic::div_mod::lemma_div_denominator(addr_value(o.addr) as int, so, sg);
        }
    }
    if forall|ip: KubeIP| #[trigger] in_net(o, ip) ==> in_net(n, ip) {
        assert(in_net(o, o.addr));
        assert(in_net(n, o.addr));
        if n.prefix > o.prefix {
            let bits = addr_bits(n.addr);
            let kn = (bits - n.prefix) as nat;
            let ko = (bits - o.prefix) as nat;
            let g = (ko - kn) as nat;
            lemma_two_to_add(kn, g);
            assert(kn + g == ko);
            assert(g >= 1);
            lemma_two_to_mono(1, g);
            assert(two_to(1) == 2) by {
                reveal_with_fuel(two_to, 2);
            }
            lemma_two_to_pos(kn);
            let sn = n.size() as int;
            assert(o.size() as int >= 2 * sn) by (nonlinear_arith)
                requires
                    o.size() as int == sn * (two_to(g) as int),
                    two_to(g) >= 2,
                    sn >= 1,
            ;
            lemma_ends_in_range(o);
            let lo = addr_of(o, o.network());
            let hi = addr_of(o, o.broadcast());
            assert(addr_value(lo) == o.network());
            assert(addr_value(hi) == o.broadcast());
            assert(in_net(o, lo));
            assert(in_net(o, hi));
            assert(in_net(n, lo));
            assert(in_net(n, hi));
            assert(o.broadcast() - o.network() >= sn);
            assert(false);
        }
    }
}

} // verus!
