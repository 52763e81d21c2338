use vstd::prelude::*;
use vstd::string::*;
use crate::common::endian::{be32, be32_bytes, u32_from_be};
use crate::common::status::{AegisError, AegisResult, ErrorView};
use crate::common::text::{
    CharSet, all_digits, chars_of, dec, digits_value, find_char, find_in, lemma_find_char,
    parse_u8, parse_unsigned, push_chars, push_dec, split_set, split_slice, trim, trim_ws,
    all_ascii_digits, is_digit, is_ws, lemma_dec_digits, lemma_dec_len, lemma_split_append,
    lemma_split_no_sep, trim_end_set, trim_start_set,
};

verus! {

/// An IPv4 address, held as its 32-bit big-endian value.
#[derive(Debug, Clone, Copy, PartialEq, Eq, Structural, Hash, PartialOrd, Ord)]
pub struct Ipv4AddrExt(pub u32);

/// The netmask with `prefix` leading one bits (all ones from 32 on).
pub open spec fn spec_prefix_to_mask(prefix: u8) -> u32 {
    if prefix == 0 {
        0
    } else if prefix >= 32 {
        0xffff_ffff
    } else {
        0xffff_ffffu32 << ((32 - prefix) as u32)
    }
}

/// Octet `i` (0 is the most significant) of `x`.
pub open spec fn octet(x: u32, i: int) -> u8 {
    be32_bytes(x)[i]
}

pub open spec fn spec_is_private(x: u32) -> bool {
    let a = octet(x, 0);
    let b = octet(x, 1);
    a == 10 || (a == 172 && 16 <= b <= 31) || (a == 192 && b == 168)
}

pub open spec fn spec_is_loopback(x: u32) -> bool {
    octet(x, 0) == 127
}

pub open spec fn spec_is_link_local(x: u32) -> bool {
    octet(x, 0) == 169 && octet(x, 1) == 254
}

pub open spec fn spec_is_multicast(x: u32) -> bool {
    224 <= octet(x, 0) <= 239
}

pub open spec fn spec_is_global_unicast(x: u32) -> bool {
    !(spec_is_private(x) || spec_is_loopback(x) || spec_is_link_local(x) || spec_is_multicast(x)
        || x == 0 || x == 0xffff_ffff)
}

/// Dotted-quad text of an address.
pub open spec fn ip_text(x: u32) -> Seq<char> {
    dec(octet(x, 0) as nat) + "."@ + dec(octet(x, 1) as nat) + "."@ + dec(octet(x, 2) as nat)
        + "."@ + dec(octet(x, 3) as nat)
}

/// The fields of a dotted-quad address.
pub open spec fn ipv4_fields(input: Seq<char>) -> Seq<Seq<char>> {
    split_set(trim(input), CharSet::One('.'))
}

pub open spec fn octet_shape_ok(p: Seq<char>) -> bool {
    0 < p.len() <= 3 && all_digits(p)
}

pub open spec fn octet_ok(p: Seq<char>) -> bool {
    octet_shape_ok(p) && digits_value(p) <= 255
}

/// The first field from `i` on that is not a valid octet, or the number of fields.
pub open spec fn first_bad_octet(parts: Seq<Seq<char>>, i: nat) -> nat
    decreases parts.len() - i,
{
    if i >= parts.len() {
        i
    } else if !octet_ok(parts[i as int]) {
        i
    } else {
        first_bad_octet(parts, i + 1)
    }
}

pub open spec fn ipv4_value(parts: Seq<Seq<char>>) -> u32 {
    be32(
        digits_value(parts[0]) as u8,
        digits_value(parts[1]) as u8,
        digits_value(parts[2]) as u8,
        digits_value(parts[3]) as u8,
    ) as u32
}

/// What parsing a dotted-quad address gives: the address, or the error message.
pub open spec fn spec_parse_ipv4(input: Seq<char>) -> Result<u32, Seq<char>> {
    let parts = ipv4_fields(input);
    if parts.len() != 4 {
        Err("invalid IPv4 address: "@ + input)
    } else {
        let k = first_bad_octet(parts, 0);
        if k < 4 {
            if !octet_shape_ok(parts[k as int]) {
                Err("invalid IPv4 address: "@ + input)
            } else {
                Err("invalid IPv4 octet in "@ + input)
            }
        } else {
            Ok(ipv4_value(parts))
        }
    }
}

/// The error is `InvalidFormat` with message `m`.
pub open spec fn is_format_error(e: AegisError, m: Seq<char>) -> bool {
    e@ == ErrorView::InvalidFormat(m)
}

pub fn format_error(prefix: &str, detail: &[char]) -> (e: AegisError)
    ensures
        is_format_error(e, prefix@ + detail@),
{
    let mut m = String::from_str(prefix);
    push_chars(&mut m, detail);
    AegisError::InvalidFormat(m)
}

impl Ipv4AddrExt {
    pub fn new(a: u8, b: u8, c: u8, d: u8) -> (r: Self)
        ensures
            r.0 == be32(a, b, c, d),
    {
        Ipv4AddrExt(u32_from_be(a, b, c, d))
    }

    pub fn octets(self) -> (r: [u8; 4])
        ensures
            r@ == be32_bytes(self.0),
    {
        let x = self.0;
        let r = [(x / 16777216) as u8, (x / 65536 % 256) as u8, (x / 256 % 256) as u8, (x % 256) as u8];
        assert(r@ =~= be32_bytes(x));
        r
    }

    /// In 10/8, 172.16/12 or 192.168/16.
    pub fn is_private(self) -> (r: bool)
        ensures
            r == spec_is_private(self.0),
    {
        let o = self.octets();
        let a = o[0];
        let b = o[1];
        a == 10 || (a == 172 && 16 <= b && b <= 31) || (a == 192 && b == 168)
    }

    pub fn is_loopback(self) -> (r: bool)
        ensures
            r == spec_is_loopback(self.0),
    {
        self.octets()[0] == 127
    }

    pub fn is_link_local(self) -> (r: bool)
        ensures
            r == spec_is_link_local(self.0),
    {
        let o = self.octets();
        o[0] == 169 && o[1] == 254
    }

    pub fn is_multicast(self) -> (r: bool)
        ensures
            r == spec_is_multicast(self.0),
    {
        let a = self.octets()[0];
        224 <= a && a <= 239
    }

    pub fn is_global_unicast(self) -> (r: bool)
        ensures
            r == spec_is_global_unicast(self.0),
    {
        !(self.is_private() || self.is_loopback() || self.is_link_local() || self.is_multicast()
            || self.0 == 0 || self.0 == 0xffff_ffff)
    }

    /// The address with all but the first `prefix` bits cleared.
    pub fn network(self, prefix: u8) -> (r: Self)
        ensures
            r.0 == self.0 & spec_prefix_to_mask(prefix),
    {
        Ipv4AddrExt(self.0 & prefix_to_mask(prefix))
    }

    /// Dotted-quad text (`Display`).
    pub fn to_string(&self) -> (r: String)
        ensures
            r@ == ip_text(self.0),
    {
        let o = self.octets();
        let mut s = String::new();
        push_dec(&mut s, o[0] as u64);
        s.append(".");
        push_dec(&mut s, o[1] as u64);
        s.append(".");
        push_dec(&mut s, o[2] as u64);
        s.append(".");
        push_dec(&mut s, o[3] as u64);
        s
    }

    /// Parses a dotted-quad address (`FromStr`): four fields of one to three digits, each
    /// at most 255, after trimming whitespace.
    pub fn parse(input: &str) -> (r: AegisResult<Self>)
        ensures
            match spec_parse_ipv4(input@) {
                Ok(x) => r == Ok::<Self, AegisError>(Ipv4AddrExt(x)),
                Err(m) => r matches Err(e) && is_format_error(e, m),
            },
    {
        let all = chars_of(input);
        let t = trim_ws(all.as_slice());
        let parts = split_slice(t, CharSet::One('.'));
        let ghost ps = parts.deep_view();
        if parts.len() != 4 {
            return Err(format_error("invalid IPv4 address: ", all.as_slice()));
        }
        let mut octets: [u8; 4] = [0u8; 4];
        let mut idx: usize = 0;
        while idx < 4
            invariant
                parts@.len() == 4,
                ps == parts.deep_view(),
                ps == ipv4_fields(input@),
                all@ == input@,
                idx <= 4,
                first_bad_octet(ps, 0) == first_bad_octet(ps, idx as nat),
                forall|j: int| 0 <= j < idx ==> octets@[j] == digits_value(ps[j]) && octet_ok(ps[j]),
            decreases 4 - idx,
        {
            let part = parts[idx].as_slice();
            assert(part@ == ps[idx as int]);
            if part.len() == 0 || part.len() > 3 || !all_ascii_digits(part) {
                return Err(format_error("invalid IPv4 address: ", all.as_slice()));
            }
            match parse_u8(part) {
                Some(v) => {
                    octets[idx] = v;
                },
                None => {
                    return Err(format_error("invalid IPv4 octet in ", all.as_slice()));
                },
            }
            idx = idx + 1;
        }
        assert(first_bad_octet(ps, 4) == 4);
        Ok(Ipv4AddrExt::new(octets[0], octets[1], octets[2], octets[3]))
    }
}

impl std::str::FromStr for Ipv4AddrExt {
    type Err = AegisError;

    fn from_str(input: &str) -> (r: Result<Self, AegisError>)
        ensures
            match spec_parse_ipv4(input@) {
                Ok(x) => r == Ok::<Self, AegisError>(Ipv4AddrExt(x)),
                Err(m) => r matches Err(e) && is_format_error(e, m),
            },
    {
        Ipv4AddrExt::parse(input)
    }
}

/// The netmask with `prefix` leading one bits.
pub fn prefix_to_mask(prefix: u8) -> (r: u32)
    ensures
        r == spec_prefix_to_mask(prefix),
{
    if prefix == 0 {
        0
    } else if prefix >= 32 {
        0xffff_ffff
    } else {
        0xffff_ffffu32 << ((32 - prefix) as u32)
    }
}

/// A class name for an address: private, loopback, link-local, multicast, global or special.
pub open spec fn spec_classify_ipv4(x: u32) -> Seq<char> {
    if spec_is_private(x) {
        "private"@
    } else if spec_is_loopback(x) {
        "loopback"@
    } else if spec_is_link_local(x) {
        "link-local"@
    } else if spec_is_multicast(x) {
        "multicast"@
    } else if spec_is_global_unicast(x) {
        "global"@
    } else {
        "special"@
    }
}

pub fn classify_ipv4(address: Ipv4AddrExt) -> (r: &'static str)
    ensures
        r@ == spec_classify_ipv4(address.0),
{
    if address.is_private() {
        "private"
    } else if address.is_loopback() {
        "loopback"
    } else if address.is_link_local() {
        "link-local"
    } else if address.is_multicast() {
        "multicast"
    } else if address.is_global_unicast() {
        "global"
    } else {
        "special"
    }
}

/// An IPv4 network: a masked address and a prefix length.
#[derive(Debug, Clone, Copy, PartialEq, Eq, Structural, Hash)]
pub struct CidrBlock {
    pub network: Ipv4AddrExt,
    pub prefix: u8,
}

/// What parsing `address/prefix` gives: the masked network and prefix, or the error
/// message.
pub open spec fn spec_parse_cidr(input: Seq<char>) -> Result<(u32, u8), Seq<char>> {
    let t = trim(input);
    match find_char(t, '/') {
        None => Err("invalid CIDR block: "@ + input),
        Some(i) => match spec_parse_ipv4(t.take(i)) {
            Err(m) => Err(m),
            Ok(a) => match parse_unsigned(t.skip(i + 1), 255) {
                None => Err("invalid CIDR prefix in "@ + input),
                Some(p) => if p > 32 {
                    Err("invalid CIDR prefix "@ + dec(p))
                } else {
                    Ok((a & spec_prefix_to_mask(p as u8), p as u8))
                },
            },
        },
    }
}

impl CidrBlock {
    /// The block of `prefix` bits around `address`; a prefix above 32 is refused.
    pub fn new(address: Ipv4AddrExt, prefix: u8) -> (r: AegisResult<Self>)
        ensures
            prefix <= 32 ==> r == Ok::<Self, AegisError>(
                CidrBlock {
                    network: Ipv4AddrExt(address.0 & spec_prefix_to_mask(prefix)),
                    prefix,
                },
            ),
            prefix > 32 ==> (r matches Err(e) && is_format_error(e, "invalid CIDR prefix "@ + dec(prefix as nat))),
    {
        if prefix > 32 {
            let mut m = String::from_str("invalid CIDR prefix ");
            push_dec(&mut m, prefix as u64);
            return Err(AegisError::InvalidFormat(m));
        }
        Ok(CidrBlock { network: address.network(prefix), prefix })
    }

    pub open spec fn spec_contains(self, address: u32) -> bool {
        address & spec_prefix_to_mask(self.prefix) == self.network.0
    }

    pub fn contains(self, address: Ipv4AddrExt) -> (r: bool)
        ensures
            r == self.spec_contains(address.0),
    {
        address.network(self.prefix) == self.network
    }

    /// The number of addresses in the block.
    pub fn size(self) -> (r: u64)
        requires
            self.prefix <= 32,
        ensures
            r as nat == vstd::arithmetic::power2::pow2((32 - self.prefix) as nat),
    {
        if self.prefix == 32 {
            proof {
                vstd::arithmetic::power2::lemma2_to64();
            }
            1
        } else {
            let shift = (32 - self.prefix) as u64;
            proof {
                vstd::arithmetic::power2::lemma2_to64();
                vstd::arithmetic::power2::lemma_pow2_strictly_increases(shift as nat, 33);
                vstd::bits::lemma_u64_shl_is_mul(1, shift);
            }
            1u64 << shift
        }
    }

    /// `network/prefix` text (`Display`).
    pub fn to_string(&self) -> (r: String)
        ensures
            r@ == ip_text(self.network.0) + "/"@ + dec(self.prefix as nat),
    {
        let mut s = self.network.to_string();
        s.append("/");
        push_dec(&mut s, self.prefix as u64);
        s
    }

    /// Parses `address/prefix` (`FromStr`).
    pub fn parse(input: &str) -> (r: AegisResult<Self>)
        ensures
            match spec_parse_cidr(input@) {
                Ok((n, p)) => r == Ok::<Self, AegisError>(
                    CidrBlock { network: Ipv4AddrExt(n), prefix: p },
                ),
                Err(m) => r matches Err(e) && is_format_error(e, m),
            },
    {
        let all = chars_of(input);
        let t = trim_ws(all.as_slice());
        let pos = match find_in(t, '/') {
            Some(i) => i,
            None => {
                return Err(format_error("invalid CIDR block: ", all.as_slice()));
            },
        };
        proof {
            lemma_find_char(t@, '/');
        }
        let tl = t.len();
        assert(pos < tl);
        let addr_chars = &t[0..pos];
        let pre = &t[pos + 1..tl];
        assert(addr_chars@ == t@.take(pos as int));
        assert(pre@ == t@.skip(pos + 1));
        let addr_text = crate::common::text::string_of(addr_chars);
        let address = match Ipv4AddrExt::parse(addr_text.as_str()) {
            Ok(a) => a,
            Err(e) => {
                return Err(e);
            },
        };
        let prefix = match parse_u8(pre) {
            Some(p) => p,
            None => {
                return Err(format_error("invalid CIDR prefix in ", all.as_slice()));
            },
        };
        CidrBlock::new(address, prefix)
    }
}

impl std::str::FromStr for CidrBlock {
    type Err = AegisError;

    fn from_str(input: &str) -> (r: Result<Self, AegisError>)
        ensures
            match spec_parse_cidr(input@) {
                Ok((n, p)) => r == Ok::<Self, AegisError>(
                    CidrBlock { network: Ipv4AddrExt(n), prefix: p },
                ),
                Err(m) => r matches Err(e) && is_format_error(e, m),
            },
    {
        CidrBlock::parse(input)
    }
}

/// Masking twice with the same prefix changes nothing more.
pub proof fn law_network_idempotent(x: u32, prefix: u8)
    ensures
        (x & spec_prefix_to_mask(prefix)) & spec_prefix_to_mask(prefix) == x
            & spec_prefix_to_mask(prefix),
{
    let m = spec_prefix_to_mask(prefix);
    assert((x & m) & m == x & m) by (bit_vector);
}

/// A block built from an address contains that address, and its own network address.
pub proof fn law_block_contains_its_address(address: u32, prefix: u8)
    requires
        prefix <= 32,
    ensures
        ({
            let b = CidrBlock {
                network: Ipv4AddrExt(address & spec_prefix_to_mask(prefix)),
                prefix,
            };
            b.spec_contains(address) && b.spec_contains(b.network.0)
        }),
{
    law_network_idempotent(address, prefix);
}

/// The octets of an address built from four bytes are those bytes, and an address built
/// from its own octets is the same address.
pub proof fn law_octets_roundtrip(a: u8, b: u8, c: u8, d: u8, x: u32)
    ensures
        be32_bytes(be32(a, b, c, d) as u32) == seq![a, b, c, d],
        be32(octet(x, 0), octet(x, 1), octet(x, 2), octet(x, 3)) == x,
{
    let v = be32(a, b, c, d);
    assert(v == a as nat * 16777216 + b as nat * 65536 + c as nat * 256 + d as nat);
    assert(v < 0x1_0000_0000);
    let vi = v as int;
    assert(vi / 16777216 == a as int && vi / 65536 % 256 == b as int && vi / 256 % 256 == c as int
        && vi % 256 == d as int) by (nonlinear_arith)
        requires
            vi == a as int * 16777216 + b as int * 65536 + c as int * 256 + d as int,
            0 <= a < 256,
            0 <= b < 256,
            0 <= c < 256,
            0 <= d < 256,
    ;
    assert(be32_bytes(v as u32) =~= seq![a, b, c, d]);
    crate::common::endian::law_u32_roundtrip(x, Seq::empty());
    assert(Seq::<u8>::empty() + be32_bytes(x) =~= be32_bytes(x));
}

proof fn lemma_octet_text(o: u8)
    ensures
        octet_ok(dec(o as nat)),
        digits_value(dec(o as nat)) == o,
        !dec(o as nat).contains('.'),
        !dec(o as nat).contains('/'),
        !is_ws(dec(o as nat)[0]),
        !is_ws(dec(o as nat).last()),
{
    let n = o as nat;
    lemma_dec_digits(n);
    lemma_dec_len(n);
    if n >= 10 {
        lemma_dec_len(n / 10);
    }
    assert(dec(n).len() <= 3);
    assert(!is_ws(dec(n)[dec(n).len() - 1]));
}

proof fn lemma_ip_text_shape(x: u32)
    ensures
        ipv4_fields(ip_text(x)) == seq![
            dec(octet(x, 0) as nat),
            dec(octet(x, 1) as nat),
            dec(octet(x, 2) as nat),
            dec(octet(x, 3) as nat),
        ],
        !ip_text(x).contains('/'),
        ip_text(x).len() > 0,
        !is_ws(ip_text(x)[0]),
        !is_ws(ip_text(x).last()),
{
    let d0 = dec(octet(x, 0) as nat);
    let d1 = dec(octet(x, 1) as nat);
    let d2 = dec(octet(x, 2) as nat);
    let d3 = dec(octet(x, 3) as nat);
    lemma_octet_text(octet(x, 0));
    lemma_octet_text(octet(x, 1));
    lemma_octet_text(octet(x, 2));
    lemma_octet_text(octet(x, 3));
    reveal_strlit(".");
    let t = ip_text(x);
    let a = d0 + seq!['.'] + d1;
    let b = a + seq!['.'] + d2;
    assert(t =~= b + seq!['.'] + d3);
    assert(t[0] == d0[0]);
    assert(t.last() == d3.last());
    assert(trim_start_set(t, CharSet::Whitespace) == t);
    assert(trim_end_set(t, CharSet::Whitespace) == t);
    lemma_split_no_sep(d0, '.');
    lemma_split_append(d0, d1, '.');
    lemma_split_append(a, d2, '.');
    lemma_split_append(b, d3, '.');
    assert(split_set(t, CharSet::One('.')) =~= seq![d0, d1, d2, d3]);
    assert(!t.contains('/')) by {
        if t.contains('/') {
            let k = choose|k: int| 0 <= k < t.len() && t[k] == '/';
            if k < d0.len() {
                assert(d0[k] == '/');
            } else if k == d0.len() {
            } else if k < a.len() {
                assert(d1[k - d0.len() - 1] == '/');
            } else if k == a.len() {
            } else if k < b.len() {
                assert(d2[k - a.len() - 1] == '/');
            } else if k == b.len() {
            } else {
                assert(d3[k - b.len() - 1] == '/');
            }
        }
    }
}

/// Reading back an address's dotted-quad text gives the address.
pub proof fn law_ipv4_text_roundtrip(x: u32)
    ensures
        spec_parse_ipv4(ip_text(x)) == Ok::<u32, Seq<char>>(x),
{
    lemma_ip_text_shape(x);
    lemma_octet_text(octet(x, 0));
    lemma_octet_text(octet(x, 1));
    lemma_octet_text(octet(x, 2));
    lemma_octet_text(octet(x, 3));
    let parts = ipv4_fields(ip_text(x));
    assert(first_bad_octet(parts, 0) == 4) by {
        reveal_with_fuel(first_bad_octet, 5);
    }
    law_octets_roundtrip(0, 0, 0, 0, x);
}

proof fn lemma_find_after(s: Seq<char>, t: Seq<char>, c: char)
    requires
        !s.contains(c),
    ensures
        find_char(s + seq![c] + t, c) == Some(s.len() as int),
    decreases s.len(),
{
    let w = s + seq![c] + t;
    if s.len() == 0 {
        assert(w[0] == c);
    } else {
        let u = s.drop_first();
        assert(!u.contains(c)) by {
            if u.contains(c) {
                let k = choose|k: int| 0 <= k < u.len() && u[k] == c;
                assert(s[k + 1] == c);
            }
        }
        lemma_find_after(u, t, c);
        assert(w.drop_first() =~= u + seq![c] + t);
        assert(w[0] == s[0]);
        assert(s[0] != c) by {
            if s[0] == c {
                assert(s.contains(c));
            }
        }
    }
}

/// Reading back a block's `network/prefix` text gives the block, its address masked to the
/// prefix, wherever the prefix is at most 32 (no block holds a longer one).
pub proof fn law_cidr_text_roundtrip(network: u32, prefix: u8)
    requires
        prefix <= 32,
    ensures
        spec_parse_cidr(ip_text(network) + "/"@ + dec(prefix as nat)) == Ok::<(u32, u8), Seq<char>>(
            (network & spec_prefix_to_mask(prefix), prefix),
        ),
{
    reveal_strlit("/");
    let it = ip_text(network);
    let dp = dec(prefix as nat);
    let t = it + seq!['/'] + dp;
    assert(it + "/"@ + dp =~= t);
    lemma_ip_text_shape(network);
    lemma_octet_text(prefix);
    law_ipv4_text_roundtrip(network);
    assert(t[0] == it[0]);
    assert(t.last() == dp.last());
    assert(trim_start_set(t, CharSet::Whitespace) == t);
    assert(trim_end_set(t, CharSet::Whitespace) == t);
    lemma_find_after(it, dp, '/');
    assert(t.take(it.len() as int) =~= it);
    assert(t.skip(it.len() as int + 1) =~= dp);
    assert(dp[0] != '+') by {
        lemma_dec_digits(prefix as nat);
        assert(is_digit(dp[0]));
    }
}

/// The netmask of a prefix has exactly its top `prefix` bits set: bit `i` (counted from the
/// least significant) is one exactly when `i + prefix >= 32`.
pub proof fn law_prefix_mask_bits(prefix: u8, i: u32)
    requires
        i < 32,
    ensures
        ((spec_prefix_to_mask(prefix) >> i) & 1 == 1) <==> (i + prefix >= 32),
{
    let m = spec_prefix_to_mask(prefix);
    if prefix == 0 {
        assert(((0u32 >> i) & 1 == 1) == false) by (bit_vector);
    } else if prefix >= 32 {
        assert((0xffff_ffffu32 >> i) & 1 == 1) by (bit_vector)
            requires
                i < 32,
        ;
    } else {
        let s = (32 - prefix) as u32;
        assert(((0xffff_ffffu32 << s) >> i) & 1 == 1 <==> i >= s) by (bit_vector)
            requires
                i < 32,
                0 < s < 32,
        ;
    }
}

/// A block of prefix `p` (1 to 32) whose network address is masked contains an address
/// exactly when the address agrees with the network in its top `p` bits.
pub proof fn law_block_contains_top_bits(network: u32, prefix: u8, address: u32)
    requires
        1 <= prefix <= 32,
        network & spec_prefix_to_mask(prefix) == network,
    ensures
        (CidrBlock { network: Ipv4AddrExt(network), prefix }).spec_contains(address) <==> (address
            >> ((32 - prefix) as u32)) == (network >> ((32 - prefix) as u32)),
{
    let s = (32 - prefix) as u32;
    if prefix == 32 {
        assert(s == 0);
        assert((address & 0xffff_ffffu32 == network) <==> (address >> 0u32) == (network >> 0u32))
            by (bit_vector);
    } else {
        assert(spec_prefix_to_mask(prefix) == 0xffff_ffffu32 << s);
        assert(((address & (0xffff_ffffu32 << s)) == network) <==> ((address >> s) == (network
            >> s))) by (bit_vector)
            requires
                0 < s < 32,
                network & (0xffff_ffffu32 << s) == network,
        ;
    }
}

} // verus!
