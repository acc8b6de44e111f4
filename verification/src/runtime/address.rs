//! Text forms of IPv4 and IPv6 addresses.
use vstd::prelude::*;
use crate::text::{decimal, push_char, push_decimal, push_str};

verus! {

/// `a.b.c.d`.
pub open spec fn ipv4_text(a: Seq<u8>) -> Seq<char> {
    decimal(a[0] as nat) + "."@ + decimal(a[1] as nat) + "."@ + decimal(a[2] as nat) + "."@ + decimal(
        a[3] as nat,
    )
}

pub fn push_ipv4(s: &mut String, a: &[u8])
    requires
        a@.len() >= 4,
    ensures
        final(s)@ == old(s)@ + ipv4_text(a@),
{
    push_decimal(s, a[0] as u64);
    push_str(s, ".");
    push_decimal(s, a[1] as u64);
    push_str(s, ".");
    push_decimal(s, a[2] as u64);
    push_str(s, ".");
    push_decimal(s, a[3] as u64);
}

pub open spec fn hex_char(d: nat) -> char {
    if d < 10 {
        (('0' as u32) + d) as char
    } else {
        (('a' as u32) + d - 10) as char
    }
}

/// Lower-case hexadecimal without leading zeros.
pub open spec fn hex(n: nat) -> Seq<char>
    decreases n,
{
    if n < 16 {
        seq![hex_char(n)]
    } else {
        hex(n / 16).push(hex_char(n % 16))
    }
}

fn hex_digit(d: u64) -> (c: char)
    requires
        d < 16,
    ensures
        c == hex_char(d as nat),
{
    if d < 10 {
        ((('0' as u32) + (d as u32)) as u8) as char
    } else {
        ((('a' as u32) + (d as u32) - 10) as u8) as char
    }
}

pub fn push_hex(s: &mut String, n: u64)
    ensures
        final(s)@ == old(s)@ + hex(n as nat),
    decreases n,
{
    if n >= 16 {
        push_hex(s, n / 16);
    }
    push_char(s, hex_digit(n % 16));
    proof {
        if n >= 16 {
            assert(old(s)@ + hex(n as nat) =~= old(s)@ + hex((n / 16) as nat) + seq![hex_char((n % 16) as nat)]);
        }
    }
}

/// The eight 16-bit groups of an IPv6 address, most significant byte first.
pub open spec fn group(a: Seq<u8>, i: int) -> nat {
    (a[2 * i] as nat) * 256 + (a[2 * i + 1] as nat)
}

/// The number of zero groups starting at group `i`.
pub open spec fn zero_run(a: Seq<u8>, i: int) -> nat
    decreases 8 - i,
{
    if i < 0 || i >= 8 || group(a, i) != 0 {
        0
    } else {
        1 + zero_run(a, i + 1)
    }
}

/// The longest run of zero groups starting at or after group `i`, and where
/// the first such run starts.
pub open spec fn longest_from(a: Seq<u8>, i: int) -> (nat, int)
    decreases 8 - i,
{
    if i < 0 || i >= 8 {
        (0, 8)
    } else {
        let rest = longest_from(a, i + 1);
        if zero_run(a, i) >= rest.0 && zero_run(a, i) > 0 {
            (zero_run(a, i), i)
        } else {
            rest
        }
    }
}

/// Groups `from..to`, hexadecimal, joined by `:`.
pub open spec fn groups_text(a: Seq<u8>, from: int, to: int) -> Seq<char>
    decreases to - from,
{
    if to <= from {
        Seq::empty()
    } else if to == from + 1 {
        hex(group(a, from))
    } else {
        groups_text(a, from, to - 1) + ":"@ + hex(group(a, to - 1))
    }
}

/// The IPv6 text form: an IPv4-mapped address as `::ffff:a.b.c.d`;
/// otherwise groups in hexadecimal with the first longest run of two or
/// more zero groups written `::`.
pub open spec fn ipv6_text(a: Seq<u8>) -> Seq<char> {
    if forall|i: int| 0 <= i < 10 ==> a[i] == 0 {
        if a[10] == 255 && a[11] == 255 {
            "::ffff:"@ + ipv4_text(a.subrange(12, 16))
        } else {
            ipv6_groups(a)
        }
    } else {
        ipv6_groups(a)
    }
}

pub open spec fn ipv6_groups(a: Seq<u8>) -> Seq<char> {
    let (len, start) = longest_from(a, 0);
    if len > 1 {
        groups_text(a, 0, start) + "::"@ + groups_text(a, start + len, 8)
    } else {
        groups_text(a, 0, 8)
    }
}

proof fn lemma_zero_run(a: Seq<u8>, i: int)
    ensures
        zero_run(a, i) <= 8,
        0 <= i < 8 ==> zero_run(a, i) <= 8 - i,
    decreases 8 - i,
{
    if 0 <= i < 8 && group(a, i) == 0 {
        lemma_zero_run(a, i + 1);
    }
}

proof fn lemma_longest(a: Seq<u8>, i: int)
    requires
        0 <= i <= 8,
    ensures
        longest_from(a, i).0 > 0 ==> i <= longest_from(a, i).1 < 8 && longest_from(a, i).1
            + longest_from(a, i).0 <= 8,
    decreases 8 - i,
{
    if i < 8 {
        lemma_longest(a, i + 1);
        lemma_zero_run(a, i);
    }
}

fn group_at(a: &[u8], i: usize) -> (r: u64)
    requires
        a@.len() >= 16,
        i < 8,
    ensures
        r == group(a@, i as int),
{
    (a[2 * i] as u64) * 256 + (a[2 * i + 1] as u64)
}

fn push_groups(s: &mut String, a: &[u8], from: usize, to: usize)
    requires
        a@.len() >= 16,
        from <= to <= 8,
    ensures
        final(s)@ == old(s)@ + groups_text(a@, from as int, to as int),
{
    let mut i = from;
    while i < to
        invariant
            a@.len() >= 16,
            from <= i <= to <= 8,
            s@ == old(s)@ + groups_text(a@, from as int, i as int),
        decreases to - i,
    {
        if i > from {
            push_str(s, ":");
        }
        push_hex(s, group_at(a, i));
        proof {
            if i == from {
                assert(groups_text(a@, from as int, i as int) =~= Seq::<char>::empty());
            }
        }
        i += 1;
    }
}

/// The text form of the 16-byte IPv6 address `a`.
pub fn push_ipv6(s: &mut String, a: &[u8])
    requires
        a@.len() == 16,
    ensures
        final(s)@ == old(s)@ + ipv6_text(a@),
{
    let mut k: usize = 0;
    while k < 10 && a[k] == 0
        invariant
            k <= 10,
            a@.len() == 16,
            forall|j: int| 0 <= j < k ==> a@[j] == 0,
        decreases 10 - k,
    {
        k += 1;
    }
    if k == 10 && a[10] == 255 && a[11] == 255 {
        push_str(s, "::ffff:");
        push_ipv4(s, vstd::slice::slice_subrange(a, 12, 16));
        return;
    }
    proof {
        if k < 10 {
            assert(a@[k as int] != 0);
        }
    }
    // The longest run of zero groups, the first one among equals.
    let mut best_len: u64 = 0;
    let mut best_start: usize = 8;
    let mut i: usize = 8;
    while i > 0
        invariant
            i <= 8,
            a@.len() == 16,
            (best_len as nat, best_start as int) == longest_from(a@, i as int),
        decreases i,
    {
        i -= 1;
        let mut run: u64 = 0;
        let mut j = i;
        while j < 8 && group_at(a, j) == 0
            invariant
                i <= j <= 8,
                a@.len() == 16,
                run == j - i,
                zero_run(a@, i as int) == run + zero_run(a@, j as int),
            decreases 8 - j,
        {
            run += 1;
            j += 1;
        }
        if run >= best_len && run > 0 {
            best_len = run;
            best_start = i;
        }
    }
    proof {
        lemma_longest(a@, 0);
    }
    if best_len > 1 {
        push_groups(s, a, 0, best_start);
        push_str(s, "::");
        push_groups(s, a, best_start + best_len as usize, 8);
    } else {
        push_groups(s, a, 0, 8);
    }
}

} // verus!
