//! DNS messages as the kernel probe captures them: names with compression
//! pointers, questions, and A/AAAA answers.
use vstd::prelude::*;
use vstd::slice::slice_subrange;
use crate::capture::strings_view;
use crate::events::{lossy_utf8, utf8_lossy};
use crate::text::push_str;
use super::address::{ipv4_text, ipv6_text, push_ipv4, push_ipv6};

verus! {

/// Big-endian 16-bit field.
pub open spec fn be16(d: Seq<u8>, at: int) -> nat {
    (d[at] as nat) * 256 + (d[at + 1] as nat)
}

/// Big-endian 32-bit field.
pub open spec fn be32(d: Seq<u8>, at: int) -> nat {
    (d[at] as nat) * 16777216 + (d[at + 1] as nat) * 65536 + (d[at + 2] as nat) * 256 + (d[at + 3] as nat)
}

pub fn read_u16(data: &[u8], offset: usize) -> (r: Option<u16>)
    ensures
        match r {
            Some(v) => offset + 2 <= data@.len() && v == be16(data@, offset as int),
            None => offset + 2 > data@.len(),
        },
{
    if offset >= data.len() || data.len() - offset < 2 {
        return None;
    }
    Some((data[offset] as u16) * 256 + (data[offset + 1] as u16))
}

pub fn read_u32(data: &[u8], offset: usize) -> (r: Option<u32>)
    ensures
        match r {
            Some(v) => offset + 4 <= data@.len() && v == be32(data@, offset as int),
            None => offset + 4 > data@.len(),
        },
{
    if offset >= data.len() || data.len() - offset < 4 {
        return None;
    }
    Some((data[offset] as u32) * 16777216 + (data[offset + 1] as u32) * 65536 + (data[offset + 2] as u32)
        * 256 + (data[offset + 3] as u32))
}

/// Labels joined by dots.
pub open spec fn join_dots(labels: Seq<Seq<char>>) -> Seq<char>
    decreases labels.len(),
{
    if labels.len() == 0 {
        Seq::empty()
    } else if labels.len() == 1 {
        labels[0]
    } else {
        join_dots(labels.drop_last()) + "."@ + labels.last()
    }
}

/// Following a name from `cursor` for at most `fuel` steps: the labels read,
/// and where the record continues (after the name, or after its first
/// compression pointer).
pub open spec fn name_walk(
    d: Seq<u8>,
    cursor: int,
    next: int,
    jumped: bool,
    labels: Seq<Seq<char>>,
    fuel: nat,
) -> Option<(Seq<Seq<char>>, int)>
    decreases fuel,
{
    if fuel == 0 || cursor < 0 || cursor >= d.len() {
        None
    } else {
        let length = d[cursor];
        if length == 0 {
            Some(
                (
                    labels,
                    if jumped {
                        next
                    } else {
                        cursor + 1
                    },
                ),
            )
        } else if length & 0xc0 == 0xc0 {
            if cursor + 1 >= d.len() {
                None
            } else {
                name_walk(
                    d,
                    ((length & 0x3f) as int) * 256 + (d[cursor + 1] as int),
                    if jumped {
                        next
                    } else {
                        cursor + 2
                    },
                    true,
                    labels,
                    (fuel - 1) as nat,
                )
            }
        } else {
            let end = cursor + 1 + length as int;
            if end > d.len() {
                None
            } else {
                name_walk(
                    d,
                    end,
                    next,
                    jumped,
                    labels.push(lossy_utf8(d.subrange(cursor + 1, end))),
                    (fuel - 1) as nat,
                )
            }
        }
    }
}

/// The name at `offset` and where the record continues after it.
pub open spec fn dns_name(d: Seq<u8>, offset: int) -> Option<(Seq<char>, int)> {
    match name_walk(d, offset, offset, false, Seq::empty(), 128) {
        Some((labels, next)) => Some((join_dots(labels), next)),
        None => None,
    }
}

fn join_with_dots(labels: &Vec<String>) -> (r: String)
    ensures
        r@ == join_dots(strings_view(labels@)),
{
    let mut s = String::new();
    let mut i: usize = 0;
    while i < labels.len()
        invariant
            i <= labels@.len(),
            s@ == join_dots(strings_view(labels@.take(i as int))),
        decreases labels.len() - i,
    {
        let ghost before = strings_view(labels@.take(i as int));
        if i > 0 {
            push_str(&mut s, ".");
        }
        push_str(&mut s, labels[i].as_str());
        proof {
            let after = strings_view(labels@.take(i + 1));
            assert(after.drop_last() =~= before);
            assert(after.last() == labels@[i as int]@);
            if i == 0 {
                assert(before =~= Seq::<Seq<char>>::empty());
                assert(s@ =~= after[0]);
            }
        }
        i += 1;
    }
    assert(labels@.take(labels@.len() as int) =~= labels@);
    s
}

/// The name at `offset`, and where the record continues after it.
pub fn read_dns_name(data: &[u8], offset: usize) -> (r: Option<(String, usize)>)
    ensures
        match dns_name(data@, offset as int) {
            Some((name, next)) => r matches Some(x) && x.0@ == name && x.1 == next,
            None => r is None,
        },
{
    let mut cursor = offset;
    let mut next_offset = offset;
    let mut jumped = false;
    let mut labels: Vec<String> = Vec::new();
    let mut step: usize = 0;
    assert(strings_view(labels@) =~= Seq::<Seq<char>>::empty());
    while step < 128
        invariant
            step <= 128,
            name_walk(data@, offset as int, offset as int, false, Seq::empty(), 128) == name_walk(
                data@,
                cursor as int,
                next_offset as int,
                jumped,
                strings_view(labels@),
                (128 - step) as nat,
            ),
            !jumped ==> next_offset == offset,
            jumped ==> next_offset <= data@.len() + 1,
        decreases 128 - step,
    {
        if cursor >= data.len() {
            return None;
        }
        let length = data[cursor];
        if length == 0 {
            let next = if jumped {
                next_offset
            } else {
                cursor + 1
            };
            return Some((join_with_dots(&labels), next));
        }
        if length & 0xc0 == 0xc0 {
            if cursor + 1 >= data.len() {
                return None;
            }
            let pointer = ((length & 0x3f) as usize) * 256 + (data[cursor + 1] as usize);
            if !jumped {
                next_offset = cursor + 2;
                jumped = true;
            }
            cursor = pointer;
        } else {
            let label_start = cursor + 1;
            if data.len() - label_start < length as usize {
                return None;
            }
            let label_end = label_start + length as usize;
            let ghost before = labels@;
            let label = utf8_lossy(slice_subrange(data, label_start, label_end));
            labels.push(label);
            assert(strings_view(labels@) =~= strings_view(before).push(label@));
            cursor = label_end;
        }
        step += 1;
    }
    None
}

/// Skipping `count` more questions from `offset`: where the answers start.
pub open spec fn skip_questions(d: Seq<u8>, offset: int, count: nat) -> Option<int>
    decreases count,
{
    if count == 0 {
        Some(offset)
    } else {
        match dns_name(d, offset) {
            None => None,
            Some((_, next)) => if next + 4 > d.len() {
                None
            } else {
                skip_questions(d, next + 4, (count - 1) as nat)
            },
        }
    }
}

pub open spec fn min32(a: u32, b: nat) -> u32 {
    if (a as nat) <= b {
        a
    } else {
        b as u32
    }
}

/// Reading `count` answers from `offset`: the A and AAAA addresses in
/// order, and the smallest of their TTLs (starting from `ttl`).
pub open spec fn read_answers(
    d: Seq<u8>,
    offset: int,
    count: nat,
    addrs: Seq<Seq<char>>,
    ttl: u32,
) -> Option<(Seq<Seq<char>>, u32)>
    decreases count,
{
    if count == 0 {
        Some((addrs, ttl))
    } else {
        match dns_name(d, offset) {
            None => None,
            Some((_, o)) => if o + 10 > d.len() {
                None
            } else {
                let rtype = be16(d, o);
                let class = be16(d, o + 2);
                let rttl = be32(d, o + 4);
                let len = be16(d, o + 8);
                let start = o + 10;
                let end = start + len;
                if end > d.len() {
                    None
                } else if class == 1 && rtype == 1 && len == 4 {
                    read_answers(
                        d,
                        end,
                        (count - 1) as nat,
                        addrs.push(ipv4_text(d.subrange(start, end))),
                        min32(ttl, rttl),
                    )
                } else if class == 1 && rtype == 28 && len == 16 {
                    read_answers(
                        d,
                        end,
                        (count - 1) as nat,
                        addrs.push(ipv6_text(d.subrange(start, end))),
                        min32(ttl, rttl),
                    )
                } else {
                    read_answers(d, end, (count - 1) as nat, addrs, ttl)
                }
            },
        }
    }
}

/// The answers read from `offset` on, with the smallest TTL (0 when no
/// address was found).
pub open spec fn dns_answers(d: Seq<u8>, offset: int) -> Option<(Seq<Seq<char>>, u32)> {
    match read_answers(d, offset, be16(d, 6), Seq::empty(), u32::MAX) {
        None => None,
        Some((addrs, ttl)) => Some(
            (
                addrs,
                if ttl == u32::MAX {
                    0
                } else {
                    ttl
                },
            ),
        ),
    }
}

/// A parsed DNS message: the first question's name, the answers' addresses
/// and their smallest TTL (0 when there is none).
pub open spec fn parse_dns_spec(d: Seq<u8>, is_response: bool) -> Option<(Seq<char>, Seq<Seq<char>>, u32)> {
    if d.len() < 12 {
        None
    } else if (be16(d, 2) >= 0x8000) != is_response {
        None
    } else if be16(d, 4) == 0 {
        None
    } else {
        match dns_name(d, 12) {
            None => None,
            Some((domain, next)) => if next + 4 > d.len() {
                None
            } else if !is_response {
                Some((domain, Seq::empty(), 0))
            } else {
                match skip_questions(d, next + 4, (be16(d, 4) - 1) as nat) {
                    None => None,
                    Some(o) => match dns_answers(d, o) {
                        None => None,
                        Some((addrs, ttl)) => Some((domain, addrs, ttl)),
                    },
                }
            },
        }
    }
}

#[derive(Debug, Clone, PartialEq, Eq)]
pub struct ParsedDns {
    pub domain: String,
    pub addresses: Vec<String>,
    pub ttl_secs: u32,
}

proof fn lemma_walk_next(d: Seq<u8>, cursor: int, next: int, jumped: bool, labels: Seq<Seq<char>>, fuel: nat)
    requires
        0 <= cursor,
        jumped ==> 0 <= next <= d.len() + 1,
    ensures
        name_walk(d, cursor, next, jumped, labels, fuel) matches Some((_, n)) ==> 0 <= n <= d.len() + 1,
    decreases fuel,
{
    if fuel > 0 && cursor < d.len() {
        let length = d[cursor];
        if length != 0 {
            if length & 0xc0 == 0xc0 {
                if cursor + 1 < d.len() {
                    lemma_walk_next(
                        d,
                        ((length & 0x3f) as int) * 256 + (d[cursor + 1] as int),
                        if jumped {
                            next
                        } else {
                            cursor + 2
                        },
                        true,
                        labels,
                        (fuel - 1) as nat,
                    );
                }
            } else {
                let end = cursor + 1 + length as int;
                if end <= d.len() {
                    lemma_walk_next(
                        d,
                        end,
                        next,
                        jumped,
                        labels.push(lossy_utf8(d.subrange(cursor + 1, end))),
                        (fuel - 1) as nat,
                    );
                }
            }
        }
    }
}

pub proof fn lemma_name_next(d: Seq<u8>, offset: int)
    requires
        0 <= offset,
    ensures
        dns_name(d, offset) matches Some((_, n)) ==> 0 <= n <= d.len() + 1,
{
    lemma_walk_next(d, offset, offset, false, Seq::empty(), 128);
}

/// Parses the DNS message of a captured query or response.
pub fn parse_dns_message(data: &[u8], is_response: bool) -> (r: Option<ParsedDns>)
    ensures
        match parse_dns_spec(data@, is_response) {
            Some((domain, addrs, ttl)) => r matches Some(p) && p.domain@ == domain && strings_view(
                p.addresses@,
            ) == addrs && p.ttl_secs == ttl,
            None => r is None,
        },
{
    if data.len() < 12 {
        return None;
    }
    let flags = match read_u16(data, 2) {
        Some(f) => f,
        None => {
            return None;
        },
    };
    if (flags >= 0x8000) != is_response {
        return None;
    }
    let question_count = match read_u16(data, 4) {
        Some(q) => q,
        None => {
            return None;
        },
    };
    if question_count == 0 {
        return None;
    }
    proof {
        lemma_name_next(data@, 12);
    }
    let (domain, next) = match read_dns_name(data, 12) {
        Some(x) => x,
        None => {
            return None;
        },
    };
    if next > data.len() || data.len() - next < 4 {
        return None;
    }
    let mut offset = next + 4;
    if !is_response {
        let r = ParsedDns { domain, addresses: Vec::new(), ttl_secs: 0 };
        assert(strings_view(r.addresses@) =~= Seq::<Seq<char>>::empty());
        return Some(r);
    }
    let ghost d = data@;
    let mut q: u16 = 1;
    while q < question_count
        invariant
            1 <= q <= question_count,
            offset <= d.len(),
            d == data@,
            parse_dns_spec(d, is_response) == match skip_questions(
                d,
                offset as int,
                (question_count - q) as nat,
            ) {
                None => None,
                Some(o) => match dns_answers(d, o) {
                    None => None,
                    Some((addrs, ttl)) => Some((domain@, addrs, ttl)),
                },
            },
        decreases question_count - q,
    {
        proof {
            lemma_name_next(d, offset as int);
        }
        let (_, after) = match read_dns_name(data, offset) {
            Some(x) => x,
            None => {
                return None;
            },
        };
        if after > data.len() || data.len() - after < 4 {
            return None;
        }
        offset = after + 4;
        q += 1;
    }
    let answer_count = match read_u16(data, 6) {
        Some(a) => a,
        None => {
            return None;
        },
    };
    let mut addresses: Vec<String> = Vec::new();
    let mut ttl_secs: u32 = u32::MAX;
    let mut a: u16 = 0;
    assert(strings_view(addresses@) =~= Seq::<Seq<char>>::empty());
    while a < answer_count
        invariant
            a <= answer_count,
            offset <= d.len(),
            d == data@,
            parse_dns_spec(d, is_response) == match read_answers(
                d,
                offset as int,
                (answer_count - a) as nat,
                strings_view(addresses@),
                ttl_secs,
            ) {
                None => None,
                Some((addrs, ttl)) => Some(
                    (
                        domain@,
                        addrs,
                        if ttl == u32::MAX {
                            0
                        } else {
                            ttl
                        },
                    ),
                ),
            },
        decreases answer_count - a,
    {
        proof {
            lemma_name_next(d, offset as int);
        }
        let (_, o) = match read_dns_name(data, offset) {
            Some(x) => x,
            None => {
                return None;
            },
        };
        if o > data.len() || data.len() - o < 10 {
            return None;
        }
        let (record_type, record_class, record_ttl, record_length) = match (
            read_u16(data, o),
            read_u16(data, o + 2),
            read_u32(data, o + 4),
            read_u16(data, o + 8),
        ) {
            (Some(t), Some(c), Some(l), Some(n)) => (t, c, l, n as usize),
            _ => {
                return None;
            },
        };
        let record_data = o + 10;
        if data.len() - record_data < record_length {
            return None;
        }
        let record_end = record_data + record_length;
        let ghost before = addresses@;
        if record_class == 1 && record_type == 1 && record_length == 4 {
            if record_ttl < ttl_secs {
                ttl_secs = record_ttl;
            }
            let mut text = String::new();
            push_ipv4(&mut text, slice_subrange(data, record_data, record_end));
            assert(d.subrange(record_data as int, record_end as int).subrange(0, 4) =~= d.subrange(
                record_data as int,
                record_end as int,
            ));
            addresses.push(text);
            assert(strings_view(addresses@) =~= strings_view(before).push(text@));
        } else if record_class == 1 && record_type == 28 && record_length == 16 {
            if record_ttl < ttl_secs {
                ttl_secs = record_ttl;
            }
            let mut text = String::new();
            push_ipv6(&mut text, slice_subrange(data, record_data, record_end));
            addresses.push(text);
            assert(strings_view(addresses@) =~= strings_view(before).push(text@));
        }
        offset = record_end;
        a += 1;
    }
    let ttl = if ttl_secs == u32::MAX {
        0
    } else {
        ttl_secs
    };
    Some(ParsedDns { domain, addresses, ttl_secs: ttl })
}


proof fn lemma_answers_extend(d: Seq<u8>, offset: int, count: nat, addrs: Seq<Seq<char>>, ttl: u32)
    ensures
        read_answers(d, offset, count, addrs, ttl) matches Some((out, _)) ==> out.len() >= addrs.len()
            && out.subrange(0, addrs.len() as int) == addrs,
    decreases count,
{
    if count > 0 {
        if let Some((_, o)) = dns_name(d, offset) {
            if o + 10 <= d.len() {
                let rtype = be16(d, o);
                let class = be16(d, o + 2);
                let rttl = be32(d, o + 4);
                let len = be16(d, o + 8);
                let start = o + 10;
                let end = start + len;
                if end <= d.len() {
                    if class == 1 && rtype == 1 && len == 4 {
                        let next = addrs.push(ipv4_text(d.subrange(start, end)));
                        lemma_answers_extend(d, end, (count - 1) as nat, next, min32(ttl, rttl));
                        if let Some((out, _)) = read_answers(d, offset, count, addrs, ttl) {
                            assert(out.subrange(0, addrs.len() as int) =~= next.subrange(0, addrs.len() as int));
                            assert(next.subrange(0, addrs.len() as int) =~= addrs);
                        }
                    } else if class == 1 && rtype == 28 && len == 16 {
                        let next = addrs.push(ipv6_text(d.subrange(start, end)));
                        lemma_answers_extend(d, end, (count - 1) as nat, next, min32(ttl, rttl));
                        if let Some((out, _)) = read_answers(d, offset, count, addrs, ttl) {
                            assert(out.subrange(0, addrs.len() as int) =~= next.subrange(0, addrs.len() as int));
                            assert(next.subrange(0, addrs.len() as int) =~= addrs);
                        }
                    } else {
                        lemma_answers_extend(d, end, (count - 1) as nat, addrs, ttl);
                    }
                }
            }
        }
    } else {
        assert(addrs.subrange(0, addrs.len() as int) =~= addrs);
    }
}

proof fn lemma_success_independent(
    d: Seq<u8>,
    offset: int,
    count: nat,
    a1: Seq<Seq<char>>,
    t1: u32,
    a2: Seq<Seq<char>>,
    t2: u32,
)
    ensures
        read_answers(d, offset, count, a1, t1) is Some <==> read_answers(d, offset, count, a2, t2) is Some,
    decreases count,
{
    if count > 0 {
        if let Some((_, o)) = dns_name(d, offset) {
            if o + 10 <= d.len() {
                let rtype = be16(d, o);
                let class = be16(d, o + 2);
                let rttl = be32(d, o + 4);
                let len = be16(d, o + 8);
                let end = o + 10 + len;
                if end <= d.len() {
                    if class == 1 && rtype == 1 && len == 4 {
                        lemma_success_independent(
                            d,
                            end,
                            (count - 1) as nat,
                            a1.push(ipv4_text(d.subrange(o + 10, end))),
                            min32(t1, rttl),
                            a2.push(ipv4_text(d.subrange(o + 10, end))),
                            min32(t2, rttl),
                        );
                    } else if class == 1 && rtype == 28 && len == 16 {
                        lemma_success_independent(
                            d,
                            end,
                            (count - 1) as nat,
                            a1.push(ipv6_text(d.subrange(o + 10, end))),
                            min32(t1, rttl),
                            a2.push(ipv6_text(d.subrange(o + 10, end))),
                            min32(t2, rttl),
                        );
                    } else {
                        lemma_success_independent(d, end, (count - 1) as nat, a1, t1, a2, t2);
                    }
                }
            }
        }
    }
}

/// An answer record of class IN that is an A record with 4 bytes of data,
/// or an AAAA record with 16, adds the address text of that data right
/// after the addresses read before it, keeping those in answer order; a
/// read that succeeds keeps every address found before.
pub proof fn law_address_records_are_read_in_order(
    d: Seq<u8>,
    offset: int,
    count: nat,
    addrs: Seq<Seq<char>>,
    ttl: u32,
    name_end: int,
)
    requires
        count >= 1,
        dns_name(d, offset) matches Some((_, o)) && o == name_end,
        name_end + 10 <= d.len(),
        be16(d, name_end + 2) == 1,
        (be16(d, name_end) == 1 && be16(d, name_end + 8) == 4) || (be16(d, name_end) == 28 && be16(d, name_end + 8)
            == 16),
        name_end + 10 + be16(d, name_end + 8) <= d.len(),
    ensures
        read_answers(d, offset, count, addrs, ttl) is Some <==> read_answers(
            d,
            name_end + 10 + be16(d, name_end + 8),
            (count - 1) as nat,
            addrs,
            ttl,
        ) is Some,
        read_answers(d, offset, count, addrs, ttl) matches Some((out, _)) ==> {
            let data = d.subrange(name_end + 10, name_end + 10 + be16(d, name_end + 8));
            &&& out.len() > addrs.len()
            &&& out.subrange(0, addrs.len() as int) == addrs
            &&& out[addrs.len() as int] == if be16(d, name_end) == 1 {
                ipv4_text(data)
            } else {
                ipv6_text(data)
            }
        },
{
    let o = name_end;
    let len = be16(d, o + 8);
    let end = o + 10 + len;
    let rttl = be32(d, o + 4);
    let x = if be16(d, o) == 1 {
        ipv4_text(d.subrange(o + 10, end))
    } else {
        ipv6_text(d.subrange(o + 10, end))
    };
    let next = addrs.push(x);
    lemma_answers_extend(d, end, (count - 1) as nat, next, min32(ttl, rttl));
    lemma_success_independent(d, end, (count - 1) as nat, next, min32(ttl, rttl), addrs, ttl);
    if let Some((out, _)) = read_answers(d, offset, count, addrs, ttl) {
        assert(read_answers(d, offset, count, addrs, ttl) == read_answers(d, end, (count - 1) as nat, next, min32(ttl, rttl)));
        assert(out.subrange(0, next.len() as int) == next);
        assert(out[addrs.len() as int] == out.subrange(0, next.len() as int)[addrs.len() as int]);
        assert(out.subrange(0, addrs.len() as int) =~= next.subrange(0, addrs.len() as int));
        assert(next.subrange(0, addrs.len() as int) =~= addrs);
    }
}
} // verus!
