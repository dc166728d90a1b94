use vstd::prelude::*;
use vstd::arithmetic::power2::*;

use crate::error::ConfError;
use crate::text::{
    chars_eq_str, chars_to_string, dec_str, dec_val, is_dec, split_from, split_on_from,
    string_chars, read_dec, subvec, u64_to_dec, views_of,
};

verus! {

/// What an address stands for; fresh values start as `Unset`.
#[derive(Copy, Clone, Debug, PartialEq, Eq, Structural)]
pub enum IPType {
    Network,
    SubnetMask,
    SubnetAddr,
    Public,
    Broadcast,
    DHCP,
    Empty,
    Unset,
}

#[derive(Copy, Clone, Debug, PartialEq, Eq, Structural)]
pub enum IPClass {
    A,
    B,
    C,
    Unknown,
}

/// The one recoverable, caller-inspectable error: a mask whose set bits
/// do not form a contiguous high-order run.
#[derive(Copy, Clone, Debug, PartialEq, Eq, Structural)]
pub enum IPError {
    BadMask(u32),
}

/// An IPv4 address with its network mask, the mask of the parent network
/// it was carved out of (zero when none), and a type tag.
#[derive(Copy, Clone, Debug, PartialEq, Eq, Structural)]
pub struct IPv4 {
    pub ip: u32,
    pub mask: u32,
    pub super_mask: u32,
    pub ip_type: IPType,
}

// ---------------------------------------------------------------------------
// Mask arithmetic, in specification form
// ---------------------------------------------------------------------------

/// The mask whose `n` highest bits are set.
pub open spec fn mask_for(n: int) -> u32 {
    if 1 <= n <= 32 {
        (0xFFFF_FFFFu32 << ((32 - n) as u32)) as u32
    } else {
        0u32
    }
}

/// Bit `i` of `m`.
pub open spec fn bit(m: u32, i: int) -> bool {
    (m >> (i as u32)) & 1u32 == 1u32
}

/// How many of the lowest `i` bits of `m` are set.
pub open spec fn ones(m: u32, i: int) -> int
    decreases i,
{
    if i <= 0 {
        0
    } else {
        ones(m, i - 1) + if bit(m, i - 1) { 1int } else { 0int }
    }
}

/// The number of set bits of `m`; for a high-order run, its prefix length.
pub open spec fn ones32(m: u32) -> int {
    ones(m, 32)
}

pub proof fn lemma_ones_bound(m: u32, i: int)
    ensures
        0 <= ones(m, i) <= if i >= 0 { i } else { 0 },
    decreases i,
{
    if i > 0 {
        lemma_ones_bound(m, i - 1);
    }
}

/// The set bits form one high-order run and the lowest bit is clear.
pub open spec fn spec_mask_valid(m: u32) -> bool {
    (forall|i: int, j: int| 0 <= i < j < 32 && bit(m, i) ==> bit(m, j)) && !bit(m, 0)
}

/// Some prefix length fits `m` exactly.
pub open spec fn is_plen(m: u32, p: int) -> bool {
    0 <= p <= 32 && m == mask_for(p)
}

pub open spec fn has_plen(m: u32) -> bool {
    exists|p: int| is_plen(m, p)
}

/// The smallest `k` at or after `from` with `pow2(k) >= n`, capped at 32.
pub open spec fn least_bits_from(n: u32, from: int) -> int
    decreases 32 - from,
{
    if from >= 32 {
        32
    } else if pow2(from as nat) >= n {
        from
    } else {
        least_bits_from(n, from + 1)
    }
}

/// The smallest `k` with `pow2(k) >= n`.
pub open spec fn least_bits(n: u32) -> int {
    least_bits_from(n, 0)
}

pub proof fn lemma_least_bits_step(n: u32, from: int, k: int)
    requires
        0 <= from <= k <= 32,
        forall|j: int| from <= j < k ==> #[trigger] pow2(j as nat) < n,
        k == 32 || pow2(k as nat) >= n,
    ensures
        least_bits_from(n, from) == k,
    decreases k - from,
{
    if from < k {
        lemma_least_bits_step(n, from + 1, k);
    }
}

// ---------------------------------------------------------------------------
// Parsing and rendering, in specification form
// ---------------------------------------------------------------------------

pub open spec fn oct_ok(s: Seq<char>) -> bool {
    is_dec(s) && dec_val(s) <= 255
}

pub open spec fn quad_val(a: int, b: int, c: int, d: int) -> u32 {
    (a * 0x100_0000 + b * 0x1_0000 + c * 0x100 + d) as u32
}

/// The grammar of `parse`: the word "dhcp", or exactly four dot-separated
/// octets, a slash, and a prefix length up to 32.
pub open spec fn spec_ipv4_parse(s: Seq<char>) -> Option<IPv4> {
    if s == "dhcp"@ {
        Some(IPv4 { ip: 0, mask: 0, super_mask: 0, ip_type: IPType::DHCP })
    } else {
        let parts = split_from(s, 0, '/');
        if parts.len() != 2 {
            None
        } else {
            let dots = split_from(parts[0], 0, '.');
            if dots.len() != 4 {
                None
            } else if !(oct_ok(dots[0]) && oct_ok(dots[1]) && oct_ok(dots[2]) && oct_ok(dots[3])) {
                None
            } else if !(is_dec(parts[1]) && dec_val(parts[1]) <= 32) {
                None
            } else {
                let a = quad_val(dec_val(dots[0]), dec_val(dots[1]), dec_val(dots[2]), dec_val(dots[3]));
                let m = mask_for(dec_val(parts[1]));
                Some(IPv4 {
                    ip: a,
                    mask: m,
                    super_mask: 0,
                    ip_type: if a & m == 0 { IPType::Network } else { IPType::Public },
                })
            }
        }
    }
}

pub open spec fn oct_str(x: u32, sh: u32) -> Seq<char> {
    dec_str(((x >> sh) & 0xFF) as int)
}

/// Dotted-quad rendering of `x`.
pub open spec fn quad_str(x: u32) -> Seq<char> {
    oct_str(x, 24) + seq!['.'] + oct_str(x, 16) + seq!['.'] + oct_str(x, 8) + seq!['.'] + oct_str(x, 0)
}

/// Text of an address: "dhcp", nothing for `Empty`, the dotted quad in the
/// alternate form (and for masks), else the dotted quad with "/" and the
/// prefix length.
pub open spec fn spec_ipv4_fmt(v: IPv4, alternate: bool) -> Seq<char> {
    if v.ip_type == IPType::DHCP {
        "dhcp"@
    } else if v.ip_type == IPType::Empty {
        Seq::empty()
    } else if alternate || v.ip_type == IPType::SubnetMask {
        quad_str(v.ip)
    } else {
        quad_str(v.ip) + seq!['/'] + dec_str(ones32(v.mask))
    }
}

/// Bits of one octet of `x`, highest bit first.
pub open spec fn oct_bin_str(x: u32, sh: u32) -> Seq<char> {
    Seq::new(8, |i: int| if bit((x >> sh) & 0xFF, 7 - i) { '1' } else { '0' })
}

/// Binary rendering: each octet as eight bits, otherwise mirroring the
/// two textual forms.
pub open spec fn spec_ipv4_bin(v: IPv4, alternate: bool) -> Seq<char> {
    let quad = oct_bin_str(v.ip, 24) + seq!['.'] + oct_bin_str(v.ip, 16) + seq!['.']
        + oct_bin_str(v.ip, 8) + seq!['.'] + oct_bin_str(v.ip, 0);
    if alternate || v.ip_type == IPType::SubnetMask {
        quad
    } else {
        quad + seq!['/'] + dec_str(ones32(v.mask))
    }
}

impl Default for IPv4 {
    /// A fresh, unset address.
    fn default() -> (r: Self)
        ensures
            r == (IPv4 { ip: 0, mask: 0, super_mask: 0, ip_type: IPType::Unset }),
    {
        IPv4 { ip: 0, mask: 0, super_mask: 0, ip_type: IPType::Unset }
    }
}

impl IPv4 {
    /// Parses "dhcp" or "a.b.c.d/n"; anything else is a `ParseError`.
    pub fn parse(ip: &str) -> (r: Result<IPv4, ConfError>)
        ensures
            match r {
                Ok(v) => spec_ipv4_parse(ip@) == Some(v),
                Err(e) => spec_ipv4_parse(ip@) is None && e == ConfError::ParseError,
            },
    {
        let cs = string_chars(ip);
        Self::parse_chars(&cs)
    }

    /// `parse`, on an already exploded character vector.
    pub fn parse_chars(cs: &Vec<char>) -> (r: Result<IPv4, ConfError>)
        ensures
            match r {
                Ok(v) => spec_ipv4_parse(cs@) == Some(v),
                Err(e) => spec_ipv4_parse(cs@) is None && e == ConfError::ParseError,
            },
    {
        if chars_eq_str(cs, "dhcp") {
            return Ok(IPv4 { ip: 0, mask: 0, super_mask: 0, ip_type: IPType::DHCP });
        }
        let parts = split_on_from(cs, 0, '/');
        proof {
            assert(views_of(parts@).len() == parts@.len());
        }
        if parts.len() != 2 {
            return Err(ConfError::ParseError);
        }
        proof {
            assert(views_of(parts@)[0] == parts@[0]@);
            assert(views_of(parts@)[1] == parts@[1]@);
        }
        let dots = split_on_from(&parts[0], 0, '.');
        proof {
            assert(views_of(dots@).len() == dots@.len());
        }
        if dots.len() != 4 {
            return Err(ConfError::ParseError);
        }
        proof {
            assert(forall|j: int| 0 <= j < 4 ==> views_of(dots@)[j] == dots@[j]@);
        }
        let o0 = match Self::read_octet(&dots[0]) {
            Some(v) => v,
            None => { return Err(ConfError::ParseError); },
        };
        let o1 = match Self::read_octet(&dots[1]) {
            Some(v) => v,
            None => { return Err(ConfError::ParseError); },
        };
        let o2 = match Self::read_octet(&dots[2]) {
            Some(v) => v,
            None => { return Err(ConfError::ParseError); },
        };
        let o3 = match Self::read_octet(&dots[3]) {
            Some(v) => v,
            None => { return Err(ConfError::ParseError); },
        };
        let pfx = match read_dec(&parts[1], 0, parts[1].len()) {
            Some(v) => v,
            None => {
                proof {
                    assert(parts@[1]@.subrange(0, parts@[1]@.len() as int) =~= parts@[1]@);
                }
                return Err(ConfError::ParseError);
            },
        };
        proof {
            assert(parts@[1]@.subrange(0, parts@[1]@.len() as int) =~= parts@[1]@);
        }
        if pfx > 32 {
            return Err(ConfError::ParseError);
        }
        let p = pfx as u32;
        let a: u32 = o0 * 0x100_0000 + o1 * 0x1_0000 + o2 * 0x100 + o3;
        let m: u32 = if p == 0 { 0 } else { 0xFFFF_FFFFu32 << (32 - p) };
        let t = if a & m == 0 { IPType::Network } else { IPType::Public };
        Ok(IPv4 { ip: a, mask: m, super_mask: 0, ip_type: t })
    }

    /// Reads one octet: a decimal run worth at most 255.
    fn read_octet(cs: &Vec<char>) -> (r: Option<u32>)
        ensures
            match r {
                Some(v) => oct_ok(cs@) && v == dec_val(cs@),
                None => !oct_ok(cs@),
            },
    {
        proof {
            assert(cs@.subrange(0, cs@.len() as int) =~= cs@);
        }
        match read_dec(cs, 0, cs.len()) {
            Some(v) => {
                if v <= 255 {
                    Some(v as u32)
                } else {
                    None
                }
            },
            None => None,
        }
    }

    /// The number of set bits of the mask.
    pub fn mask_num(&self) -> (r: u32)
        ensures
            r == ones32(self.mask),
            r <= 32,
    {
        let m = self.mask;
        let mut ret: u32 = 0;
        let mut i: u32 = 0;
        while i < 32
            invariant
                i <= 32,
                ret == ones(m, i as int),
                ret <= i,
            decreases 32 - i,
        {
            proof {
                lemma_ones_bound(m, i as int);
                assert((m & (1u32 << i) != 0) == ((m >> i) & 1u32 == 1u32)) by (bit_vector)
                    requires i < 32;
            }
            if m & (1u32 << i) != 0 {
                ret = ret + 1;
            }
            i = i + 1;
        }
        proof {
            lemma_ones_bound(m, 32);
        }
        ret
    }

    /// Splits `network` into equal subnets: the smallest power of two
    /// count that holds `num_net`, each one recording the parent's mask.
    pub fn build_net(network: Self, num_net: u32) -> (r: Vec<Self>)
        requires
            has_plen(network.mask),
            num_net >= 1,
            num_net <= pow2((32 - ones32(network.mask)) as nat),
        ensures
            ({
                let p = ones32(network.mask);
                let k = least_bits(num_net);
                &&& r@.len() == pow2(k as nat)
                &&& forall|i: int| 0 <= i < r@.len() ==> {
                    &&& (#[trigger] r@[i]).mask == mask_for(p + k)
                    &&& r@[i].super_mask == network.mask
                    &&& r@[i].ip_type == IPType::Network
                    &&& r@[i].ip == (network.ip | ((i * pow2((32 - p - k) as nat)) as u32))
                }
            }),
    {
        let p = network.mask_num();
        proof {
            let q = choose|q: int| is_plen(network.mask, q);
            lemma_ones_mask_for(q);
            assert(p as int == q);
        }
        // smallest k with 2^k >= num_net
        let mut k: u32 = 0;
        let mut pw: u64 = pow2_u64(0);
        while pw < num_net as u64
            invariant
                k <= 32,
                pw == pow2(k as nat),
                forall|j: int| 0 <= j < k ==> #[trigger] pow2(j as nat) < num_net,
            decreases 32 - k,
        {
            proof {
                if k == 32 {
                    lemma2_to64();
                    assert(false);
                }
                lemma_pow2_strictly_increases(k as nat, 32);
                lemma2_to64();
                assert(pow2(k as nat + 1) == 2 * pow2(k as nat)) by {
                    lemma_pow2_adds(k as nat, 1);
                    lemma2_to64();
                };
            }
            k = k + 1;
            pw = pw * 2;
        }
        proof {
            lemma_least_bits_step(num_net, 0, k as int);
            // k stays within the parent's free bits
            if k > 32 - p {
                assert(pow2((32 - p) as nat) < num_net);
                assert(false);
            }
        }
        let total_bits = p + k;
        let new_mask: u32 = if total_bits == 0 { 0 } else { 0xFFFF_FFFFu32 << (32 - total_bits) };
        proof {
            assert(new_mask == mask_for(p as int + k as int));
        }
        let sh: u32 = 32 - total_bits;
        let count: u64 = pw;
        let step: u64 = pow2_u64(sh);
        let mut ret: Vec<IPv4> = Vec::new();
        let mut i: u64 = 0;
        while i < count
            invariant
                i <= count,
                count == pow2(k as nat),
                step == pow2(sh as nat),
                k <= 32,
                sh == 32 - (p + k),
                p + k <= 32,
                new_mask == mask_for(p as int + k as int),
                ret@.len() == i,
                forall|j: int| 0 <= j < i ==> {
                    &&& (#[trigger] ret@[j]).mask == mask_for(p as int + k as int)
                    &&& ret@[j].super_mask == network.mask
                    &&& ret@[j].ip_type == IPType::Network
                    &&& ret@[j].ip == (network.ip | ((j * pow2((32 - p - k) as nat)) as u32))
                },
            decreases count - i,
        {
            proof {
                // i * 2^sh stays strictly below 2^32
                lemma_pow2_adds(k as nat, sh as nat);
                lemma2_to64();
                vstd::arithmetic::mul::lemma_mul_strict_inequality(
                    i as int,
                    pow2(k as nat) as int,
                    pow2(sh as nat) as int,
                );
                lemma_pow2_pos(sh as nat);
            }
            let off: u64 = i * step;
            let off32: u32 = off as u32;
            let addr: u32 = network.ip | off32;
            ret.push(IPv4 {
                ip: addr,
                mask: new_mask,
                super_mask: network.mask,
                ip_type: IPType::Network,
            });
            i = i + 1;
        }
        ret
    }

    pub fn next(&self) -> (r: Option<Self>)
        ensures
            match r {
                Some(v) => {
                    &&& self.ip < 0xFFFF_FFFFu32
                    &&& ((self.ip + 1) as u32) & self.mask == self.ip & self.mask
                    &&& v == (IPv4 { ip: (self.ip + 1) as u32, ..*self })
                },
                None => self.ip == 0xFFFF_FFFFu32 || ((self.ip + 1) as u32) & self.mask
                    != self.ip & self.mask,
            },
    {
        if self.ip == 0xFFFF_FFFFu32 {
            return None;
        }
        if self.ip & self.mask != (self.ip + 1) & self.mask {
            None
        } else {
            Some(IPv4 {
                ip: self.ip + 1,
                mask: self.mask,
                super_mask: self.super_mask,
                ip_type: self.ip_type,
            })
        }
    }

    /// The first host address: the network address plus one.
    pub fn first(&self) -> (r: Self)
        requires
            self.ip & self.mask < 0xFFFF_FFFFu32,
        ensures
            r == (IPv4 { ip: ((self.ip & self.mask) + 1) as u32, ..*self }),
    {
        IPv4 {
            ip: (self.ip & self.mask) + 1,
            mask: self.mask,
            super_mask: self.super_mask,
            ip_type: self.ip_type,
        }
    }

    /// The last host address: the broadcast address minus one.
    pub fn last(&self) -> (r: Self)
        requires
            (self.ip & self.mask) as int + (!self.mask) as int >= 1,
        ensures
            r.ip as int == ((self.ip & self.mask) | !self.mask) as int - 1,
            r.mask == self.mask,
            r.super_mask == self.super_mask,
            r.ip_type == self.ip_type,
    {
        proof {
            lemma_network_or_inverse(self.ip, self.mask);
        }
        IPv4 {
            ip: (self.ip & self.mask) + (0xFFFF_FFFFu32 & !self.mask) - 1,
            mask: self.mask,
            super_mask: self.super_mask,
            ip_type: self.ip_type,
        }
    }

    pub fn ip_type(&self) -> (r: IPType)
        ensures
            r == self.ip_type,
    {
        self.ip_type
    }

    /// The network address: address masked down.
    pub fn network(&self) -> (r: Self)
        ensures
            r.ip == self.ip & self.mask,
            r.mask == self.mask,
            r.super_mask == self.super_mask,
            r.ip_type == IPType::Network,
    {
        IPv4 {
            ip: self.ip & self.mask,
            mask: self.mask,
            super_mask: self.super_mask,
            ip_type: IPType::Network,
        }
    }

    /// The mask itself as an address; empty for DHCP.
    pub fn subnet_mask(&self) -> (r: Self)
        ensures
            r == spec_subnet_mask(*self),
    {
        if self.ip_type == IPType::DHCP {
            IPv4 { ip: 0, mask: 0, super_mask: 0, ip_type: IPType::Empty }
        } else {
            IPv4 { ip: self.mask, mask: 0, super_mask: 0, ip_type: IPType::SubnetMask }
        }
    }

    /// The host part of the address.
    pub fn subnet_addr(&self) -> (r: Self)
        ensures
            r.ip == self.ip & !self.mask,
            r.mask == self.mask,
            r.super_mask == self.super_mask,
            r.ip_type == IPType::SubnetAddr,
    {
        IPv4 {
            ip: self.ip & (!self.mask),
            mask: self.mask,
            super_mask: self.super_mask,
            ip_type: IPType::SubnetAddr,
        }
    }

    /// The subnet-number bits: between the parent's mask and this one.
    pub fn subnet_net(&self) -> (r: Self)
        ensures
            r.ip == self.ip & (self.mask ^ self.super_mask),
            r.mask == self.mask,
            r.super_mask == self.super_mask,
            r.ip_type == IPType::SubnetAddr,
    {
        IPv4 {
            ip: self.ip & (self.mask ^ self.super_mask),
            mask: self.mask,
            super_mask: self.super_mask,
            ip_type: IPType::SubnetAddr,
        }
    }

    /// The subnet number, shifted down to a plain count.
    pub fn subnet_net_num(&self) -> (r: Self)
        requires
            ones32(self.mask) >= 1,
        ensures
            r.ip == (self.ip & (self.mask ^ self.super_mask)) >> ((32 - ones32(self.mask)) as u32),
            r.mask == self.mask,
            r.super_mask == self.super_mask,
            r.ip_type == IPType::SubnetAddr,
    {
        let n = self.mask_num();
        IPv4 {
            ip: (self.ip & (self.mask ^ self.super_mask)) >> (32 - n),
            mask: self.mask,
            super_mask: self.super_mask,
            ip_type: IPType::SubnetAddr,
        }
    }

    /// The broadcast address: network bits up, host bits all set.
    pub fn broadcast(&self) -> (r: Self)
        ensures
            r.ip == (self.ip & self.mask) | !self.mask,
            r.mask == self.mask,
            r.super_mask == self.super_mask,
            r.ip_type == IPType::Broadcast,
    {
        proof {
            lemma_network_or_inverse(self.ip, self.mask);
        }
        IPv4 {
            ip: (self.ip & self.mask) + (0xFFFF_FFFFu32 & !self.mask),
            mask: self.mask,
            super_mask: self.super_mask,
            ip_type: IPType::Broadcast,
        }
    }

    /// A for a leading octet up to 127, B up to 191, C up to 223.
    pub fn class(&self) -> (r: IPClass)
        ensures
            r == spec_class(self.ip),
    {
        let lead = (self.ip >> 24) & 0xFF;
        if lead <= 127 {
            IPClass::A
        } else if lead <= 191 {
            IPClass::B
        } else if lead <= 223 {
            IPClass::C
        } else {
            IPClass::Unknown
        }
    }

    /// Checks that the mask is one contiguous high-order run whose lowest
    /// bit is clear; reports the offending mask otherwise.
    pub fn is_valid(&self) -> (r: Result<(), IPError>)
        ensures
            r is Ok <==> spec_mask_valid(self.mask),
            r is Err ==> r == Err::<(), IPError>(IPError::BadMask(self.mask)),
    {
        let m = self.mask;
        let mut end = false;
        let ghost mut wit: int = 0;
        let mut i: u32 = 32;
        while i > 0
            invariant
                m == self.mask,
                i <= 32,
                end ==> i <= wit < 32 && !bit(m, wit),
                !end ==> forall|j: int| i <= j < 32 ==> bit(m, j),
                forall|a: int, b: int| i <= a < b < 32 && bit(m, a) ==> bit(m, b),
            decreases i,
        {
            i = i - 1;
            proof {
                assert((m & (1u32 << i) != 0) == ((m >> i) & 1u32 == 1u32)) by (bit_vector)
                    requires i < 32;
            }
            if m & (1u32 << i) == 0 {
                end = true;
                proof {
                    wit = i as int;
                }
            } else if end {
                proof {
                    assert(bit(m, i as int) && !bit(m, wit) && i < wit < 32);
                    if spec_mask_valid(m) {
                        assert(forall|a: int, b: int| 0 <= a < b < 32 && bit(m, a) ==> bit(m, b));
                        assert(bit(m, wit));
                        assert(false);
                    }
                    assert(!spec_mask_valid(m));
                }
                return Err(IPError::BadMask(m));
            }
        }
        proof {
            assert((m & 1u32 == 1u32) == ((m >> 0u32) & 1u32 == 1u32)) by (bit_vector);
        }
        if m & 1 == 1 {
            proof {
                assert(bit(m, 0));
            }
            return Err(IPError::BadMask(m));
        }
        Ok(())
    }

    /// Hosts between the first and the last address.
    pub fn num_hosts(&self) -> (r: u32)
        requires
            !self.mask >= 2,
        ensures
            r as int == (!self.mask) as int - 2,
    {
        proof {
            lemma_and_le(self.ip, self.mask);
            lemma_inverse_low(self.mask);
        }
        let f = self.first();
        let l = self.last();
        proof {
            lemma_network_or_inverse(self.ip, self.mask);
        }
        l.ip - f.ip
    }

    /// The default textual form; `alternate` drops the prefix length.
    pub fn fmt(&self, alternate: bool) -> (r: String)
        ensures
            r@ == spec_ipv4_fmt(*self, alternate),
    {
        let v = self.fmt_chars(alternate);
        chars_to_string(&v)
    }

    /// `fmt`, as a character vector.
    pub fn fmt_chars(&self, alternate: bool) -> (r: Vec<char>)
        ensures
            r@ == spec_ipv4_fmt(*self, alternate),
    {
        if self.ip_type == IPType::DHCP {
            return string_chars("dhcp");
        }
        if self.ip_type == IPType::Empty {
            let v: Vec<char> = Vec::new();
            proof {
                assert(v@ =~= spec_ipv4_fmt(*self, alternate));
            }
            return v;
        }
        let mut out = self.quad_chars();
        if alternate || self.ip_type == IPType::SubnetMask {
            proof {
                assert(out@ =~= spec_ipv4_fmt(*self, alternate));
            }
            out
        } else {
            out.push('/');
            let n = self.mask_num();
            let mut digits = u64_to_dec(n as u64);
            out.append(&mut digits);
            proof {
                assert(out@ =~= spec_ipv4_fmt(*self, alternate));
            }
            out
        }
    }

    /// The binary textual form, mirroring `fmt`.
    pub fn fmt_binary(&self, alternate: bool) -> (r: String)
        ensures
            r@ == spec_ipv4_bin(*self, alternate),
    {
        let mut out = Self::oct_bin_chars(self.ip, 24);
        out.push('.');
        let mut p = Self::oct_bin_chars(self.ip, 16);
        out.append(&mut p);
        out.push('.');
        let mut p = Self::oct_bin_chars(self.ip, 8);
        out.append(&mut p);
        out.push('.');
        let mut p = Self::oct_bin_chars(self.ip, 0);
        out.append(&mut p);
        if alternate || self.ip_type == IPType::SubnetMask {
            proof {
                assert(out@ =~= spec_ipv4_bin(*self, alternate));
            }
            chars_to_string(&out)
        } else {
            out.push('/');
            let n = self.mask_num();
            let mut digits = u64_to_dec(n as u64);
            out.append(&mut digits);
            proof {
                assert(out@ =~= spec_ipv4_bin(*self, alternate));
            }
            chars_to_string(&out)
        }
    }

    /// The dotted quad of the address, as characters.
    fn quad_chars(&self) -> (r: Vec<char>)
        ensures
            r@ == quad_str(self.ip),
    {
        let x = self.ip;
        let mut out = u64_to_dec(((x >> 24) & 0xFF) as u64);
        out.push('.');
        let mut p = u64_to_dec(((x >> 16) & 0xFF) as u64);
        out.append(&mut p);
        out.push('.');
        let mut p = u64_to_dec(((x >> 8) & 0xFF) as u64);
        out.append(&mut p);
        out.push('.');
        let mut p = u64_to_dec((x & 0xFF) as u64);
        out.append(&mut p);
        proof {
            assert((x >> 0) & 0xFF == x & 0xFF) by (bit_vector);
            assert(out@ =~= quad_str(x));
        }
        out
    }

    /// One octet of `x` as eight bits, highest first.
    fn oct_bin_chars(x: u32, sh: u32) -> (r: Vec<char>)
        requires
            sh == 0 || sh == 8 || sh == 16 || sh == 24,
        ensures
            r@ == oct_bin_str(x, sh),
    {
        let o = (x >> sh) & 0xFF;
        let mut r: Vec<char> = Vec::new();
        let mut i: u32 = 0;
        while i < 8
            invariant
                i <= 8,
                o == (x >> sh) & 0xFF,
                r@.len() == i,
                forall|j: int| 0 <= j < i ==> r@[j] == (if bit(o, 7 - j) { '1' } else { '0' }),
            decreases 8 - i,
        {
            let b = 7 - i;
            proof {
                assert((o & (1u32 << b) != 0) == ((o >> b) & 1u32 == 1u32)) by (bit_vector)
                    requires b < 32;
            }
            if o & (1u32 << b) != 0 {
                r.push('1');
            } else {
                r.push('0');
            }
            i = i + 1;
        }
        proof {
            assert(r@ =~= oct_bin_str(x, sh));
        }
        r
    }
}

/// What `subnet_mask` returns: the mask as an address, empty for DHCP.
pub open spec fn spec_subnet_mask(v: IPv4) -> IPv4 {
    if v.ip_type == IPType::DHCP {
        IPv4 { ip: 0, mask: 0, super_mask: 0, ip_type: IPType::Empty }
    } else {
        IPv4 { ip: v.mask, mask: 0, super_mask: 0, ip_type: IPType::SubnetMask }
    }
}

pub open spec fn spec_class(x: u32) -> IPClass {
    let lead = (x >> 24) & 0xFF;
    if lead <= 127 {
        IPClass::A
    } else if lead <= 191 {
        IPClass::B
    } else if lead <= 223 {
        IPClass::C
    } else {
        IPClass::Unknown
    }
}

// ---------------------------------------------------------------------------
// Bit-level facts
// ---------------------------------------------------------------------------

proof fn lemma_and_le(x: u32, m: u32)
    ensures
        x & m <= m,
{
    assert(x & m <= m) by (bit_vector);
}

/// A mask with at least two clear low bits sits below the top address.
proof fn lemma_inverse_low(m: u32)
    requires
        !m >= 2,
    ensures
        m <= 0xFFFF_FFFDu32,
{
    assert(!m >= 2 ==> m <= 0xFFFF_FFFDu32) by (bit_vector);
}

/// `pow2`, executably, up to `2^32`.
fn pow2_u64(e: u32) -> (r: u64)
    requires
        e <= 32,
    ensures
        r == pow2(e as nat),
{
    let mut r: u64 = 1;
    let mut j: u32 = 0;
    proof {
        lemma2_to64();
    }
    while j < e
        invariant
            j <= e <= 32,
            r == pow2(j as nat),
        decreases e - j,
    {
        proof {
            lemma_pow2_strictly_increases(j as nat, 32);
            lemma2_to64();
            assert(pow2(j as nat + 1) == 2 * pow2(j as nat)) by {
                lemma_pow2_adds(j as nat, 1);
                lemma2_to64();
            };
        }
        r = r * 2;
        j = j + 1;
    }
    r
}

/// The network part and the inverted mask occupy disjoint bits, so their
/// sum is their union and stays in range.
proof fn lemma_network_or_inverse(x: u32, m: u32)
    ensures
        (x & m) as int + (0xFFFF_FFFFu32 & !m) as int == ((x & m) | !m) as int,
        0xFFFF_FFFFu32 & !m == !m,
{
    assert(0xFFFF_FFFFu32 & !m == !m) by (bit_vector);
    assert((x & m) as u64 + (!m) as u64 == ((x & m) | !m) as u64) by (bit_vector);
}

/// The prefix-length of the canonical mask is that prefix length.
pub proof fn lemma_ones_mask_for(p: int)
    requires
        0 <= p <= 32,
    ensures
        ones32(mask_for(p)) == p,
{
    lemma_ones_mask_for_rec(p, 32);
}

proof fn lemma_ones_mask_for_rec(p: int, i: int)
    requires
        0 <= p <= 32,
        0 <= i <= 32,
    ensures
        ones(mask_for(p), i) == if i > 32 - p { i - (32 - p) } else { 0 },
    decreases i,
{
    if i > 0 {
        lemma_ones_mask_for_rec(p, i - 1);
        let m = mask_for(p);
        let pp = p as u32;
        let ii = (i - 1) as u32;
        if p == 0 {
            assert((0u32 >> ii) & 1u32 == 0u32) by (bit_vector);
        } else {
            assert(((0xFFFF_FFFFu32 << ((32 - pp) as u32)) >> ii) & 1u32 == (if ii >= 32 - pp {
                1u32
            } else {
                0u32
            })) by (bit_vector)
                requires 1 <= pp <= 32 && ii < 32;
        }
    }
}

} // verus!
