//! IP address text as the detection rules read it: dotted IPv4, IPv6 with
//! an optional `::` and an optional trailing dotted IPv4, and which of those
//! addresses are private to the host or its network.
use vstd::prelude::*;
use crate::text::{chars_of, digits_value, parse_unsigned, split_ranges, split_seq};

verus! {

/// One decimal octet: one to three digits, no leading zero, at most 255.
pub open spec fn dec_octet(p: Seq<char>) -> Option<u8> {
    if 1 <= p.len() <= 3 && (p.len() == 1 || p[0] != '0') {
        match digits_value(p, 10) {
            Some(v) => if v <= 255 {
                Some(v as u8)
            } else {
                None
            },
            None => None,
        }
    } else {
        None
    }
}

/// Dotted IPv4 text: exactly four octets.
pub open spec fn ipv4_spec(s: Seq<char>) -> Option<Seq<u8>> {
    let parts = split_seq(s, '.');
    if parts.len() == 4 && dec_octet(parts[0]) is Some && dec_octet(parts[1]) is Some && dec_octet(
        parts[2],
    ) is Some && dec_octet(parts[3]) is Some {
        Some(
            seq![
                dec_octet(parts[0]).unwrap(),
                dec_octet(parts[1]).unwrap(),
                dec_octet(parts[2]).unwrap(),
                dec_octet(parts[3]).unwrap(),
            ],
        )
    } else {
        None
    }
}

/// One IPv6 group: one to four hex digits.
pub open spec fn hex_group(p: Seq<char>) -> Option<u16> {
    if 1 <= p.len() <= 4 {
        match digits_value(p, 16) {
            Some(v) => if v <= 0xffff {
                Some(v as u16)
            } else {
                None
            },
            None => None,
        }
    } else {
        None
    }
}

/// The values of pieces that are all hex groups.
pub open spec fn hex_groups(p: Seq<Seq<char>>) -> Option<Seq<u16>>
    decreases p.len(),
{
    if p.len() == 0 {
        Some(Seq::empty())
    } else {
        match (hex_groups(p.drop_last()), hex_group(p.last())) {
            (Some(g), Some(h)) => Some(g.push(h)),
            _ => None,
        }
    }
}

/// The groups of one side of `::`: hex groups separated by `:`; where
/// `allow_v4` holds, the last piece may be dotted IPv4, which counts as two
/// groups.
pub open spec fn part_groups(s: Seq<char>, allow_v4: bool) -> Option<Seq<u16>> {
    if s.len() == 0 {
        Some(Seq::empty())
    } else {
        let pieces = split_seq(s, ':');
        match hex_groups(pieces) {
            Some(g) => Some(g),
            None => if allow_v4 {
                match (hex_groups(pieces.drop_last()), ipv4_spec(pieces.last())) {
                    (Some(g), Some(o)) => Some(
                        g + seq![(o[0] as int * 256 + o[1] as int) as u16, (o[2] as int * 256 + o[3] as int) as u16],
                    ),
                    _ => None,
                }
            } else {
                None
            },
        }
    }
}

/// The first position of `::`.
pub open spec fn first_double_colon(s: Seq<char>) -> Option<int>
    decreases s.len(),
{
    if s.len() < 2 {
        None
    } else {
        match first_double_colon(s.drop_last()) {
            Some(i) => Some(i),
            None => if s[s.len() - 2] == ':' && s.last() == ':' {
                Some(s.len() - 2)
            } else {
                None
            },
        }
    }
}

/// IPv6 text as its eight groups: without `::`, eight groups (the last two
/// possibly as dotted IPv4); with `::`, the groups before and after it,
/// at most seven together, and zero groups between.
pub open spec fn ipv6_spec(s: Seq<char>) -> Option<Seq<u16>> {
    match first_double_colon(s) {
        None => match part_groups(s, true) {
            Some(g) => if g.len() == 8 {
                Some(g)
            } else {
                None
            },
            None => None,
        },
        Some(k) => match (part_groups(s.take(k), false), part_groups(s.skip(k + 2), true)) {
            (Some(h), Some(t)) => if h.len() + t.len() <= 7 {
                Some(h + Seq::new((8 - h.len() - t.len()) as nat, |i: int| 0u16) + t)
            } else {
                None
            },
            _ => None,
        },
    }
}

/// An IP address: IPv4 octets or IPv6 groups.
pub enum IpAddress {
    V4(u8, u8, u8, u8),
    V6(Vec<u16>),
}

/// IP address text (`IpAddr::from_str`): IPv4 when it reads as IPv4, else
/// IPv6.
pub open spec fn ip_spec(s: Seq<char>) -> Option<(bool, Seq<int>)> {
    match ipv4_spec(s) {
        Some(o) => Some((true, o.map_values(|b: u8| b as int))),
        None => match ipv6_spec(s) {
            Some(g) => Some((false, g.map_values(|x: u16| x as int))),
            None => None,
        },
    }
}

pub open spec fn ip_view(a: IpAddress) -> (bool, Seq<int>) {
    match a {
        IpAddress::V4(a, b, c, d) => (true, seq![a as int, b as int, c as int, d as int]),
        IpAddress::V6(g) => (false, g@.map_values(|x: u16| x as int)),
    }
}

fn dec_octet_at(v: &Vec<char>, lo: usize, hi: usize) -> (r: Option<u8>)
    requires
        lo <= hi <= v@.len(),
    ensures
        r == dec_octet(v@.subrange(lo as int, hi as int)),
{
    let ghost p = v@.subrange(lo as int, hi as int);
    let n = hi - lo;
    if n < 1 || n > 3 || (n > 1 && v[lo] == '0') || v[lo] == '+' {
        proof {
            if 1 <= n <= 3 && v@[lo as int] == '+' {
                assert(p.take(1).drop_last() =~= Seq::<char>::empty());
                lemma_digits_prefix_none(p, 1, 10);
            }
        }
        return None;
    }
    assert(p[0] != '+');
    match parse_unsigned(v, lo, hi, 10, 255) {
        Some(x) => Some(x as u8),
        None => None,
    }
}

/// A sequence whose first `k` characters hold a non-digit has no value.
proof fn lemma_digits_prefix_none(s: Seq<char>, k: int, radix: nat)
    requires
        1 <= k <= s.len(),
        digits_value(s.take(k), radix) is None,
    ensures
        digits_value(s, radix) is None,
    decreases s.len(),
{
    if k < s.len() {
        assert(s.drop_last().take(k) =~= s.take(k));
        lemma_digits_prefix_none(s.drop_last(), k, radix);
    } else {
        assert(s.take(k) =~= s);
    }
}

fn hex_group_at(v: &Vec<char>, lo: usize, hi: usize) -> (r: Option<u16>)
    requires
        lo <= hi <= v@.len(),
    ensures
        r == hex_group(v@.subrange(lo as int, hi as int)),
{
    let ghost p = v@.subrange(lo as int, hi as int);
    let n = hi - lo;
    if n < 1 || n > 4 || v[lo] == '+' {
        proof {
            if 1 <= n <= 4 && v@[lo as int] == '+' {
                assert(p.take(1).drop_last() =~= Seq::<char>::empty());
                lemma_digits_prefix_none(p, 1, 16);
            }
        }
        return None;
    }
    match parse_unsigned(v, lo, hi, 16, 0xffff) {
        Some(x) => Some(x as u16),
        None => None,
    }
}

fn ipv4_at(v: &Vec<char>, lo: usize, hi: usize) -> (r: Option<(u8, u8, u8, u8)>)
    requires
        lo <= hi <= v@.len(),
    ensures
        match ipv4_spec(v@.subrange(lo as int, hi as int)) {
            Some(o) => r matches Some(x) && o == seq![x.0, x.1, x.2, x.3],
            None => r is None,
        },
{
    let parts = split_ranges(v, lo, hi, '.');
    if parts.len() != 4 {
        return None;
    }
    let a = dec_octet_at(v, parts[0].0, parts[0].1);
    let b = dec_octet_at(v, parts[1].0, parts[1].1);
    let c = dec_octet_at(v, parts[2].0, parts[2].1);
    let d = dec_octet_at(v, parts[3].0, parts[3].1);
    match (a, b, c, d) {
        (Some(a), Some(b), Some(c), Some(d)) => Some((a, b, c, d)),
        _ => None,
    }
}

/// The groups of `v[lo..hi]` as one side of `::`.
fn part_groups_at(v: &Vec<char>, lo: usize, hi: usize, allow_v4: bool) -> (r: Option<Vec<u16>>)
    requires
        lo <= hi <= v@.len(),
    ensures
        match part_groups(v@.subrange(lo as int, hi as int), allow_v4) {
            Some(g) => r matches Some(x) && x@ == g,
            None => r is None,
        },
{
    let ghost s = v@.subrange(lo as int, hi as int);
    if lo == hi {
        return Some(Vec::new());
    }
    let pieces = split_ranges(v, lo, hi, ':');
    let ghost ps = split_seq(s, ':');
    let mut groups: Vec<u16> = Vec::new();
    let mut i: usize = 0;
    assert(ps.take(0) =~= Seq::<Seq<char>>::empty());
    while i < pieces.len()
        invariant
            i <= pieces@.len(),
            pieces@.len() == ps.len(),
            lo < hi <= v@.len(),
            s == v@.subrange(lo as int, hi as int),
            ps == split_seq(s, ':'),
            forall|k: int|
                0 <= k < pieces@.len() ==> lo <= (#[trigger] pieces@[k]).0 <= pieces@[k].1 <= hi
                    && v@.subrange(pieces@[k].0 as int, pieces@[k].1 as int) == ps[k],
            hex_groups(ps.take(i as int)) == Some(groups@),
        decreases pieces.len() - i,
    {
        assert(ps.take(i + 1).drop_last() =~= ps.take(i as int));
        assert(ps.take(i + 1).last() == ps[i as int]);
        match hex_group_at(v, pieces[i].0, pieces[i].1) {
            Some(g) => {
                groups.push(g);
            },
            None => {
                assert(hex_groups(ps.take(i + 1)) is None);
                proof {
                    lemma_hex_groups_prefix_none(ps, i + 1);
                }
                let last = pieces.len() - 1;
                if allow_v4 && i == last {
                    assert(ps.drop_last() =~= ps.take(i as int));
                    assert(ps.last() == ps[i as int]);
                    match ipv4_at(v, pieces[i].0, pieces[i].1) {
                        Some((a, b, c, d)) => {
                            let ghost before = groups@;
                            let hi16 = (a as u16) * 256 + (b as u16);
                            let lo16 = (c as u16) * 256 + (d as u16);
                            assert(hi16 == (a as int * 256 + b as int) as u16);
                            assert(lo16 == (c as int * 256 + d as int) as u16);
                            groups.push(hi16);
                            groups.push(lo16);
                            assert(groups@ =~= before + seq![hi16, lo16]);
                            return Some(groups);
                        },
                        None => {
                            return None;
                        },
                    }
                }
                proof {
                    if allow_v4 {
                        assert(i + 1 <= ps.len() - 1);
                        assert(ps.drop_last().take(i + 1) =~= ps.take(i + 1));
                        lemma_hex_groups_prefix_none(ps.drop_last(), i + 1);
                    }
                }
                return None;
            },
        }
        i += 1;
    }
    assert(ps.take(i as int) =~= ps);
    Some(groups)
}

proof fn lemma_hex_groups_prefix_none(p: Seq<Seq<char>>, k: int)
    requires
        0 <= k <= p.len(),
        hex_groups(p.take(k)) is None,
    ensures
        hex_groups(p) is None,
    decreases p.len(),
{
    if k < p.len() {
        assert(p.drop_last().take(k) =~= p.take(k));
        lemma_hex_groups_prefix_none(p.drop_last(), k);
    } else {
        assert(p.take(k) =~= p);
    }
}

proof fn lemma_double_colon_bounds(s: Seq<char>)
    ensures
        first_double_colon(s) matches Some(k) ==> 0 <= k && k + 2 <= s.len(),
    decreases s.len(),
{
    if s.len() >= 2 {
        lemma_double_colon_bounds(s.drop_last());
    }
}

/// Every IPv6 reading has eight groups.
pub proof fn lemma_ipv6_len(s: Seq<char>)
    ensures
        ipv6_spec(s) matches Some(g) ==> g.len() == 8,
{
}

proof fn lemma_double_colon_step(s: Seq<char>, i: int)
    requires
        1 <= i < s.len(),
        first_double_colon(s.take(i)) is None,
    ensures
        first_double_colon(s.take(i + 1)) == (if s[i - 1] == ':' && s[i] == ':' {
            Some(i - 1)
        } else {
            None::<int>
        }),
{
    assert(s.take(i + 1).drop_last() =~= s.take(i));
}

proof fn lemma_double_colon_extend(s: Seq<char>, i: int, k: int)
    requires
        0 <= i <= s.len(),
        first_double_colon(s.take(i)) == Some(k),
    ensures
        first_double_colon(s) == Some(k),
    decreases s.len() - i,
{
    if i < s.len() {
        assert(s.take(i + 1).drop_last() =~= s.take(i));
        lemma_double_colon_extend(s, i + 1, k);
    } else {
        assert(s.take(i) =~= s);
    }
}

/// Where `::` first occurs in `v[lo..hi]`, counted from `lo`.
fn find_double_colon(v: &Vec<char>, lo: usize, hi: usize) -> (r: Option<usize>)
    requires
        lo <= hi <= v@.len(),
    ensures
        match first_double_colon(v@.subrange(lo as int, hi as int)) {
            Some(k) => r == Some(k as usize),
            None => r is None,
        },
{
    let ghost s = v@.subrange(lo as int, hi as int);
    if hi - lo < 2 {
        return None;
    }
    let mut i: usize = 1;
    assert(s.take(1).len() < 2);
    while i < hi - lo
        invariant
            1 <= i <= hi - lo,
            lo <= hi <= v@.len(),
            s == v@.subrange(lo as int, hi as int),
            first_double_colon(s.take(i as int)) is None,
        decreases hi - lo - i,
    {
        proof {
            lemma_double_colon_step(s, i as int);
        }
        if v[lo + i - 1] == ':' && v[lo + i] == ':' {
            proof {
                lemma_double_colon_extend(s, i + 1, i - 1);
            }
            return Some(i - 1);
        }
        i += 1;
    }
    assert(s.take(i as int) =~= s);
    None
}

fn ipv6_at(v: &Vec<char>, lo: usize, hi: usize) -> (r: Option<Vec<u16>>)
    requires
        lo <= hi <= v@.len(),
    ensures
        match ipv6_spec(v@.subrange(lo as int, hi as int)) {
            Some(g) => r matches Some(x) && x@ == g,
            None => r is None,
        },
{
    let ghost s = v@.subrange(lo as int, hi as int);
    match find_double_colon(v, lo, hi) {
        None => match part_groups_at(v, lo, hi, true) {
            Some(g) => if g.len() == 8 {
                Some(g)
            } else {
                None
            },
            None => None,
        },
        Some(k) => {
            proof {
                lemma_double_colon_bounds(s);
            }
            assert(s.take(k as int) =~= v@.subrange(lo as int, lo + k));
            assert(s.skip(k + 2) =~= v@.subrange(lo + k + 2, hi as int));
            let head = part_groups_at(v, lo, lo + k, false);
            let tail = part_groups_at(v, lo + k + 2, hi, true);
            match (head, tail) {
                (Some(h), Some(t)) => {
                    if h.len() > 7 || t.len() > 7 - h.len() {
                        return None;
                    }
                    let zeros = 8 - h.len() - t.len();
                    let mut out = h;
                    let ghost hv = out@;
                    let mut j: usize = 0;
                    while j < zeros
                        invariant
                            j <= zeros,
                            out@ == hv + Seq::new(j as nat, |i: int| 0u16),
                        decreases zeros - j,
                    {
                        out.push(0);
                        assert(out@ =~= hv + Seq::new((j + 1) as nat, |i: int| 0u16));
                        j += 1;
                    }
                    let mut m: usize = 0;
                    let ghost mid = out@;
                    while m < t.len()
                        invariant
                            m <= t@.len(),
                            out@ == mid + t@.take(m as int),
                        decreases t.len() - m,
                    {
                        out.push(t[m]);
                        assert(out@ =~= mid + t@.take(m + 1));
                        m += 1;
                    }
                    assert(t@.take(m as int) =~= t@);
                    Some(out)
                },
                _ => None,
            }
        },
    }
}

/// Reads IP address text.
pub fn parse_ip(text: &str) -> (r: Option<IpAddress>)
    ensures
        match ip_spec(text@) {
            Some(a) => r matches Some(x) && ip_view(x) == a,
            None => r is None,
        },
{
    let v = chars_of(text);
    assert(v@.subrange(0, v@.len() as int) =~= text@);
    match ipv4_at(&v, 0, v.len()) {
        Some((a, b, c, d)) => {
            let r = IpAddress::V4(a, b, c, d);
            assert(ip_view(r).1 =~= ipv4_spec(text@).unwrap().map_values(|b: u8| b as int));
            Some(r)
        },
        None => match ipv6_at(&v, 0, v.len()) {
            Some(g) => Some(IpAddress::V6(g)),
            None => None,
        },
    }
}

/// Private, loopback, link-local, unspecified and broadcast IPv4 addresses,
/// with the shared address space (100.64.0.0/10) and 198.18.0.0/16.
pub open spec fn private_v4(o: Seq<int>) -> bool {
    ||| o[0] == 10
    ||| o[0] == 172 && 16 <= o[1] < 32
    ||| o[0] == 192 && o[1] == 168
    ||| o[0] == 127
    ||| o[0] == 169 && o[1] == 254
    ||| o[0] == 0 && o[1] == 0 && o[2] == 0 && o[3] == 0
    ||| o[0] == 255 && o[1] == 255 && o[2] == 255 && o[3] == 255
    ||| o[0] == 100 && 64 <= o[1] < 128
    ||| o[0] == 198 && o[1] == 18
}

/// Loopback, unspecified, unique-local (fc00::/7) and link-local
/// (fe80::/10) IPv6 addresses.
pub open spec fn private_v6(g: Seq<int>) -> bool {
    let zero_head = forall|i: int| 0 <= i < 7 ==> g[i] == 0;
    ||| zero_head && (g[7] == 0 || g[7] == 1)
    ||| 0xfc00 <= g[0] < 0xfe00
    ||| 0xfe80 <= g[0] < 0xfec0
}

/// Whether text names a private address; text that is no address is not.
pub open spec fn private_address(s: Seq<char>) -> bool {
    match ip_spec(s) {
        Some((true, o)) => private_v4(o),
        Some((false, g)) => private_v6(g),
        None => false,
    }
}

pub fn is_private_address(address: &str) -> (r: bool)
    ensures
        r == private_address(address@),
{
    match parse_ip(address) {
        Some(IpAddress::V4(a, b, c, d)) => {
            a == 10 || (a == 172 && 16 <= b && b < 32) || (a == 192 && b == 168) || a == 127 || (a
                == 169 && b == 254) || (a == 0 && b == 0 && c == 0 && d == 0) || (a == 255 && b
                == 255 && c == 255 && d == 255) || (a == 100 && 64 <= b && b < 128) || (a == 198
                && b == 18)
        },
        Some(IpAddress::V6(g)) => {
            let ghost gv = g@.map_values(|x: u16| x as int);
            proof {
                lemma_ipv6_len(address@);
                assert(gv.len() == 8);
            }
            let mut zero_head = true;
            let mut i: usize = 0;
            while i < 7
                invariant
                    i <= 7,
                    g@.len() == 8,
                    gv == g@.map_values(|x: u16| x as int),
                    zero_head == (forall|j: int| 0 <= j < i ==> gv[j] == 0),
                decreases 7 - i,
            {
                assert(gv[i as int] == g@[i as int] as int);
                if g[i] != 0 {
                    zero_head = false;
                }
                i += 1;
            }
            (zero_head && (g[7] == 0 || g[7] == 1)) || (0xfc00 <= g[0] && g[0] < 0xfe00) || (0xfe80
                <= g[0] && g[0] < 0xfec0)
        },
        None => false,
    }
}

/// Whether text names an address outside the host and its networks.
pub fn is_external_address(address: &str) -> (r: bool)
    ensures
        r == !private_address(address@),
{
    !is_private_address(address)
}

} // verus!
