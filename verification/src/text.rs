//! Character and byte helpers shared by the parsers and formatters.
use vstd::prelude::*;
use vstd::utf8::*;

verus! {

/// Appends one character to a string (`String::push`).
#[verifier::external_body]
pub(crate) fn push_char(s: &mut String, c: char)
    ensures
        final(s)@ == old(s)@.push(c),
{
    s.push(c);
}

/// Appends a string slice.
pub(crate) fn push_str(s: &mut String, t: &str)
    ensures
        final(s)@ == old(s)@ + t@,
{
    s.append(t);
}

/// Decodes bytes as UTF-8 (`std::str::from_utf8`): the result is present
/// exactly when the bytes are valid UTF-8, and then holds the decoded text.
#[verifier::external_body]
pub(crate) fn utf8_to_string(bytes: &[u8]) -> (r: Option<String>)
    ensures
        r is Some <==> valid_utf8(bytes@),
        r matches Some(s) ==> s@ == decode_utf8(bytes@),
{
    match std::str::from_utf8(bytes) {
        Ok(text) => Some(text.to_owned()),
        Err(_) => None,
    }
}

/// The characters of a string slice, in order (`str::chars`).
#[verifier::external_body]
pub(crate) fn chars_of(s: &str) -> (r: Vec<char>)
    ensures
        r@ == s@,
{
    s.chars().collect()
}

pub open spec fn digit_char(d: nat) -> char
    recommends
        d < 10,
{
    (('0' as u32) + d) as char
}

/// Decimal rendering of a natural number, most significant digit first.
pub open spec fn decimal(n: nat) -> Seq<char>
    decreases n,
{
    if n < 10 {
        seq![digit_char(n)]
    } else {
        decimal(n / 10).push(digit_char(n % 10))
    }
}

fn digit(d: u64) -> (c: char)
    requires
        d < 10,
    ensures
        c == digit_char(d as nat),
{
    if d == 0 { '0' } else if d == 1 { '1' } else if d == 2 { '2' } else if d == 3 { '3' }
    else if d == 4 { '4' } else if d == 5 { '5' } else if d == 6 { '6' } else if d == 7 { '7' }
    else if d == 8 { '8' } else { '9' }
}

/// Appends the decimal rendering of `n`.
pub fn push_decimal(s: &mut String, n: u64)
    ensures
        final(s)@ == old(s)@ + decimal(n as nat),
    decreases n,
{
    if n >= 10 {
        push_decimal(s, n / 10);
    }
    push_char(s, digit(n % 10));
    proof {
        if n >= 10 {
            assert(old(s)@ + decimal(n as nat) =~= old(s)@ + decimal((n / 10) as nat) + seq![digit_char((n % 10) as nat)]);
        }
    }
}


/// Unicode `White_Space` characters (`char::is_whitespace`).
pub open spec fn is_white(c: char) -> bool {
    let u = c as u32;
    (0x9 <= u && u <= 0xd) || u == 0x20 || u == 0x85 || u == 0xa0 || u == 0x1680 || (0x2000 <= u
        && u <= 0x200a) || u == 0x2028 || u == 0x2029 || u == 0x202f || u == 0x205f || u == 0x3000
}

pub fn is_white_char(c: char) -> (r: bool)
    ensures
        r == is_white(c),
{
    let u = c as u32;
    (0x9 <= u && u <= 0xd) || u == 0x20 || u == 0x85 || u == 0xa0 || u == 0x1680 || (0x2000 <= u
        && u <= 0x200a) || u == 0x2028 || u == 0x2029 || u == 0x202f || u == 0x205f || u == 0x3000
}

pub open spec fn trim_start_seq(s: Seq<char>) -> Seq<char>
    decreases s.len(),
{
    if s.len() > 0 && is_white(s[0]) {
        trim_start_seq(s.drop_first())
    } else {
        s
    }
}

pub open spec fn trim_end_seq(s: Seq<char>) -> Seq<char>
    decreases s.len(),
{
    if s.len() > 0 && is_white(s.last()) {
        trim_end_seq(s.drop_last())
    } else {
        s
    }
}

/// `str::trim`: leading and trailing Unicode whitespace removed.
pub open spec fn trim_seq(s: Seq<char>) -> Seq<char> {
    trim_end_seq(trim_start_seq(s))
}

/// The bounds, inside `[lo, hi)`, of the trimmed text `v[lo..hi]`.
pub fn trim_range(v: &Vec<char>, lo: usize, hi: usize) -> (r: (usize, usize))
    requires
        lo <= hi <= v@.len(),
    ensures
        lo <= r.0 <= r.1 <= hi,
        v@.subrange(r.0 as int, r.1 as int) == trim_seq(v@.subrange(lo as int, hi as int)),
{
    let mut i = lo;
    while i < hi && is_white_char(v[i])
        invariant
            lo <= i <= hi <= v@.len(),
            trim_start_seq(v@.subrange(lo as int, hi as int)) == trim_start_seq(
                v@.subrange(i as int, hi as int),
            ),
        decreases hi - i,
    {
        assert(v@.subrange(i as int, hi as int).drop_first() =~= v@.subrange(i + 1, hi as int));
        i += 1;
    }
    assert(trim_start_seq(v@.subrange(i as int, hi as int)) == v@.subrange(i as int, hi as int));
    let mut j = hi;
    while j > i && is_white_char(v[j - 1])
        invariant
            lo <= i <= j <= hi <= v@.len(),
            trim_end_seq(v@.subrange(i as int, hi as int)) == trim_end_seq(
                v@.subrange(i as int, j as int),
            ),
        decreases j - i,
    {
        assert(v@.subrange(i as int, j as int).drop_last() =~= v@.subrange(i as int, j - 1));
        j -= 1;
    }
    (i, j)
}

pub open spec fn lower_char(c: char) -> char {
    if 'A' <= c && c <= 'Z' {
        ((c as u32) + 32) as char
    } else {
        c
    }
}

pub open spec fn lower_seq(s: Seq<char>) -> Seq<char> {
    s.map_values(|c: char| lower_char(c))
}

/// `eq_ignore_ascii_case`.
pub open spec fn eq_ignore_case(a: Seq<char>, b: Seq<char>) -> bool {
    lower_seq(a) == lower_seq(b)
}

pub fn lower(c: char) -> (r: char)
    ensures
        r == lower_char(c),
{
    if 'A' <= c && c <= 'Z' {
        ((c as u32) + 32) as u8 as char
    } else {
        c
    }
}

/// Whether `v[lo..hi]` equals `word` when ASCII case is ignored.
pub fn range_eq_ignore_case(v: &Vec<char>, lo: usize, hi: usize, word: &str) -> (r: bool)
    requires
        lo <= hi <= v@.len(),
    ensures
        r == eq_ignore_case(v@.subrange(lo as int, hi as int), word@),
{
    let w = chars_of(word);
    if hi - lo != w.len() {
        assert(lower_seq(v@.subrange(lo as int, hi as int)).len() != lower_seq(word@).len());
        return false;
    }
    let mut k: usize = 0;
    while k < w.len()
        invariant
            hi - lo == w@.len(),
            lo <= hi <= v@.len(),
            w@ == word@,
            k <= w@.len(),
            forall|t: int| 0 <= t < k ==> lower_char(#[trigger] v@[lo + t]) == lower_char(w@[t]),
        decreases w.len() - k,
    {
        if lower(v[lo + k]) != lower(w[k]) {
            assert(lower_seq(v@.subrange(lo as int, hi as int))[k as int] != lower_seq(w@)[k as int]);
            return false;
        }
        k += 1;
    }
    assert forall|t: int| 0 <= t < w@.len() implies lower_seq(v@.subrange(lo as int, hi as int))[t]
        == lower_seq(w@)[t] by {
        assert(lower_char(v@[lo + t]) == lower_char(w@[t]));
    }
    assert(lower_seq(v@.subrange(lo as int, hi as int)) =~= lower_seq(w@));
    true
}

/// The value of one digit character in the given radix (up to 16).
pub open spec fn digit_value(c: char, radix: nat) -> Option<nat> {
    let d: int = if '0' <= c && c <= '9' {
        (c as u32 - '0' as u32) as int
    } else if 'a' <= c && c <= 'z' {
        (c as u32 - 'a' as u32) as int + 10
    } else if 'A' <= c && c <= 'Z' {
        (c as u32 - 'A' as u32) as int + 10
    } else {
        -1
    };
    if 0 <= d < radix {
        Some(d as nat)
    } else {
        None
    }
}

pub open spec fn digits_value(s: Seq<char>, radix: nat) -> Option<nat>
    decreases s.len(),
{
    if s.len() == 0 {
        Some(0)
    } else {
        match (digits_value(s.drop_last(), radix), digit_value(s.last(), radix)) {
            (Some(v), Some(d)) => Some(v * radix + d),
            _ => None,
        }
    }
}

/// Unsigned integer text as `str::parse`/`from_str_radix` read it: an
/// optional `+`, then at least one digit.
pub open spec fn parse_unsigned_spec(s: Seq<char>, radix: nat) -> Option<nat> {
    let body = if s.len() > 0 && s[0] == '+' {
        s.drop_first()
    } else {
        s
    };
    if body.len() == 0 {
        None
    } else {
        digits_value(body, radix)
    }
}

/// The parsed value when it is at most `max`.
pub open spec fn parse_bounded(s: Seq<char>, radix: nat, max: nat) -> Option<nat> {
    match parse_unsigned_spec(s, radix) {
        Some(v) => if v <= max {
            Some(v)
        } else {
            None
        },
        None => None,
    }
}

/// Decimal text reads back as the number it renders.
pub proof fn lemma_decimal_parses(n: nat)
    ensures
        digits_value(decimal(n), 10) == Some(n),
        decimal(n).len() > 0,
        '0' <= decimal(n)[0] <= '9',
    decreases n,
{
    let d = n % 10;
    assert(digit_value(digit_char(d), 10) == Some(d)) by {
        assert(('0' as u32) + d < 0x7f);
        assert(digit_char(d) as u32 == ('0' as u32) + d);
    }
    if n >= 10 {
        lemma_decimal_parses(n / 10);
        let s = decimal(n);
        assert(s.drop_last() =~= decimal(n / 10));
        assert(s[0] == decimal(n / 10)[0]);
    } else {
        assert(seq![digit_char(n)].drop_last() =~= Seq::<char>::empty());
    }
}

proof fn lemma_digits_prefix(s: Seq<char>, k: int, radix: nat)
    requires
        0 <= k <= s.len(),
        radix >= 1,
        digits_value(s, radix) is Some,
    ensures
        digits_value(s.take(k), radix) matches Some(w) && w <= digits_value(s, radix).unwrap(),
    decreases s.len(),
{
    if k == s.len() {
        assert(s.take(k) =~= s);
    } else {
        lemma_digits_prefix(s.drop_last(), k, radix);
        assert(s.drop_last().take(k) =~= s.take(k));
        let v = digits_value(s.drop_last(), radix).unwrap();
        assert(v * radix >= v) by (nonlinear_arith)
            requires
                radix >= 1,
        ;
    }
}

fn char_digit(c: char, radix: u64) -> (r: Option<u64>)
    requires
        2 <= radix <= 16,
    ensures
        match digit_value(c, radix as nat) {
            Some(d) => r == Some(d as u64),
            None => r is None,
        },
{
    let d: u64 = if '0' <= c && c <= '9' {
        (c as u32 - '0' as u32) as u64
    } else if 'a' <= c && c <= 'z' {
        (c as u32 - 'a' as u32) as u64 + 10
    } else if 'A' <= c && c <= 'Z' {
        (c as u32 - 'A' as u32) as u64 + 10
    } else {
        return None;
    };
    if d < radix {
        Some(d)
    } else {
        None
    }
}

/// Reads `v[lo..hi]` as an unsigned integer of at most `max`.
pub fn parse_unsigned(v: &Vec<char>, lo: usize, hi: usize, radix: u64, max: u64) -> (r: Option<u64>)
    requires
        lo <= hi <= v@.len(),
        2 <= radix <= 16,
    ensures
        match parse_bounded(v@.subrange(lo as int, hi as int), radix as nat, max as nat) {
            Some(n) => r == Some(n as u64),
            None => r is None,
        },
{
    let ghost s = v@.subrange(lo as int, hi as int);
    let mut start = lo;
    if lo < hi && v[lo] == '+' {
        start = lo + 1;
    }
    let ghost body = v@.subrange(start as int, hi as int);
    assert(body =~= (if s.len() > 0 && s[0] == '+' { s.drop_first() } else { s }));
    if start == hi {
        return None;
    }
    let mut value: u64 = 0;
    let mut i = start;
    while i < hi
        invariant
            lo <= start <= i <= hi <= v@.len(),
            2 <= radix <= 16,
            body == v@.subrange(start as int, hi as int),
            parse_unsigned_spec(v@.subrange(lo as int, hi as int), radix as nat) == digits_value(
                body,
                radix as nat,
            ),
            digits_value(v@.subrange(start as int, i as int), radix as nat) == Some(value as nat),
            value <= max,
        decreases hi - i,
    {
        assert(v@.subrange(start as int, i + 1).drop_last() =~= v@.subrange(start as int, i as int));
        let d = match char_digit(v[i], radix) {
            Some(d) => d,
            None => {
                proof {
                    assert(body.take(i - start + 1) =~= v@.subrange(start as int, i + 1));
                    if digits_value(body, radix as nat) is Some {
                        lemma_digits_prefix(body, i - start + 1, radix as nat);
                    }
                }
                return None;
            },
        };
        if d > max || value > (max - d) / radix {
            proof {
                if d <= max {
                    let q = (max - d) as int / (radix as int);
                    assert(value * radix + d > max) by (nonlinear_arith)
                        requires
                            value > q,
                            q == (max - d) / (radix as int),
                            radix >= 2,
                            d <= max,
                    ;
                }
                assert(body.take(i - start + 1) =~= v@.subrange(start as int, i + 1));
                if digits_value(body, radix as nat) is Some {
                    lemma_digits_prefix(body, i - start + 1, radix as nat);
                }
            }
            return None;
        }
        proof {
            let q = (max - d) as int / (radix as int);
            assert(value * radix + d <= max) by (nonlinear_arith)
                requires
                    value <= q,
                    q == (max - d) / (radix as int),
                    radix >= 2,
                    d <= max,
            ;
        }
        value = value * radix + d;
        i += 1;
    }
    Some(value)
}

/// `str::split` on one separator character: `n` separators give `n + 1` pieces.
pub open spec fn split_seq(s: Seq<char>, sep: char) -> Seq<Seq<char>>
    decreases s.len(),
{
    if s.len() == 0 {
        seq![Seq::empty()]
    } else {
        let init = split_seq(s.drop_last(), sep);
        if s.last() == sep {
            init.push(Seq::empty())
        } else {
            init.update(init.len() - 1, init.last().push(s.last()))
        }
    }
}

pub proof fn lemma_split_nonempty(s: Seq<char>, sep: char)
    ensures
        split_seq(s, sep).len() >= 1,
    decreases s.len(),
{
    if s.len() > 0 {
        lemma_split_nonempty(s.drop_last(), sep);
    }
}

/// The first position of `c` in `s`.
pub open spec fn first_index(s: Seq<char>, c: char) -> Option<int>
    decreases s.len(),
{
    if s.len() == 0 {
        None
    } else {
        match first_index(s.drop_last(), c) {
            Some(i) => Some(i),
            None => if s.last() == c {
                Some(s.len() - 1)
            } else {
                None
            },
        }
    }
}

pub proof fn lemma_first_index(s: Seq<char>, c: char)
    ensures
        match first_index(s, c) {
            Some(i) => 0 <= i < s.len() && s[i] == c && forall|j: int| 0 <= j < i ==> s[j] != c,
            None => forall|j: int| 0 <= j < s.len() ==> s[j] != c,
        },
    decreases s.len(),
{
    if s.len() > 0 {
        lemma_first_index(s.drop_last(), c);
        assert forall|j: int| 0 <= j < s.len() - 1 implies s.drop_last()[j] == s[j] by {}
    }
}

/// The pieces of `v[lo..hi]` between occurrences of `sep`, as index ranges.
pub fn split_ranges(v: &Vec<char>, lo: usize, hi: usize, sep: char) -> (r: Vec<(usize, usize)>)
    requires
        lo <= hi <= v@.len(),
    ensures
        r@.len() == split_seq(v@.subrange(lo as int, hi as int), sep).len(),
        forall|k: int|
            0 <= k < r@.len() ==> lo <= (#[trigger] r@[k]).0 <= r@[k].1 <= hi && v@.subrange(
                r@[k].0 as int,
                r@[k].1 as int,
            ) == split_seq(v@.subrange(lo as int, hi as int), sep)[k],
{
    let mut r: Vec<(usize, usize)> = Vec::new();
    let mut start = lo;
    let mut i = lo;
    proof {
        assert(v@.subrange(lo as int, lo as int) =~= Seq::<char>::empty());
    }
    while i < hi
        invariant
            lo <= start <= i <= hi <= v@.len(),
            r@.len() + 1 == split_seq(v@.subrange(lo as int, i as int), sep).len(),
            v@.subrange(start as int, i as int) == split_seq(
                v@.subrange(lo as int, i as int),
                sep,
            ).last(),
            forall|k: int|
                0 <= k < r@.len() ==> lo <= (#[trigger] r@[k]).0 <= r@[k].1 <= i && v@.subrange(
                    r@[k].0 as int,
                    r@[k].1 as int,
                ) == split_seq(v@.subrange(lo as int, i as int), sep)[k],
        decreases hi - i,
    {
        let ghost before = split_seq(v@.subrange(lo as int, i as int), sep);
        assert(v@.subrange(lo as int, i + 1).drop_last() =~= v@.subrange(lo as int, i as int));
        assert(v@.subrange(lo as int, i + 1).last() == v@[i as int]);
        proof {
            lemma_split_nonempty(v@.subrange(lo as int, i as int), sep);
        }
        if v[i] == sep {
            r.push((start, i));
            start = i + 1;
            assert(v@.subrange(start as int, i + 1) =~= Seq::<char>::empty());
        } else {
            assert(v@.subrange(start as int, i + 1) =~= v@.subrange(start as int, i as int).push(
                v@[i as int],
            ));
        }
        i += 1;
    }
    r.push((start, hi));
    r
}

/// The position of the first `c` in `v[lo..hi]`, counted from `lo`.
pub fn find_char(v: &Vec<char>, lo: usize, hi: usize, c: char) -> (r: Option<usize>)
    requires
        lo <= hi <= v@.len(),
    ensures
        match first_index(v@.subrange(lo as int, hi as int), c) {
            Some(i) => r == Some((lo + i) as usize),
            None => r is None,
        },
{
    let mut i = lo;
    while i < hi
        invariant
            lo <= i <= hi <= v@.len(),
            first_index(v@.subrange(lo as int, i as int), c) is None,
            forall|j: int| lo <= j < i ==> v@[j] != c,
        decreases hi - i,
    {
        assert(v@.subrange(lo as int, i + 1).drop_last() =~= v@.subrange(lo as int, i as int));
        if v[i] == c {
            proof {
                lemma_first_index(v@.subrange(lo as int, hi as int), c);
                lemma_first_index(v@.subrange(lo as int, i + 1), c);
            }
            assert(first_index(v@.subrange(lo as int, i + 1), c) == Some(i - lo));
            proof {
                lemma_first_index(v@.subrange(lo as int, hi as int), c);
            }
            return Some(i);
        }
        i += 1;
    }
    proof {
        lemma_first_index(v@.subrange(lo as int, hi as int), c);
        assert(v@.subrange(lo as int, hi as int) =~= v@.subrange(lo as int, i as int));
    }
    None
}

/// A `String` holding `v[lo..hi]`.
pub fn string_of(v: &Vec<char>, lo: usize, hi: usize) -> (s: String)
    requires
        lo <= hi <= v@.len(),
    ensures
        s@ == v@.subrange(lo as int, hi as int),
{
    let mut s = String::new();
    let mut i = lo;
    while i < hi
        invariant
            lo <= i <= hi <= v@.len(),
            s@ == v@.subrange(lo as int, i as int),
        decreases hi - i,
    {
        push_char(&mut s, v[i]);
        assert(v@.subrange(lo as int, i + 1) =~= v@.subrange(lo as int, i as int).push(v@[i as int]));
        i += 1;
    }
    s
}

/// Whether `v[lo..hi]` equals `word` exactly.
pub fn range_eq(v: &Vec<char>, lo: usize, hi: usize, word: &str) -> (r: bool)
    requires
        lo <= hi <= v@.len(),
    ensures
        r == (v@.subrange(lo as int, hi as int) == word@),
{
    let w = chars_of(word);
    if hi - lo != w.len() {
        return false;
    }
    let mut k: usize = 0;
    while k < w.len()
        invariant
            hi - lo == w@.len(),
            lo <= hi <= v@.len(),
            w@ == word@,
            k <= w@.len(),
            forall|t: int| 0 <= t < k ==> #[trigger] v@[lo + t] == w@[t],
        decreases w.len() - k,
    {
        if v[lo + k] != w[k] {
            assert(v@.subrange(lo as int, hi as int)[k as int] != w@[k as int]);
            return false;
        }
        k += 1;
    }
    assert forall|t: int| 0 <= t < w@.len() implies v@.subrange(lo as int, hi as int)[t] == w@[t] by {
        assert(v@[lo + t] == w@[t]);
    }
    assert(v@.subrange(lo as int, hi as int) =~= w@);
    true
}

/// Whether `v[lo..hi]` begins with `word`.
pub fn range_starts_with(v: &Vec<char>, lo: usize, hi: usize, word: &str) -> (r: bool)
    requires
        lo <= hi <= v@.len(),
    ensures
        r == word@.is_prefix_of(v@.subrange(lo as int, hi as int)),
{
    let n = chars_of(word).len();
    if hi - lo < n {
        return false;
    }
    let r = range_eq(v, lo, lo + n, word);
    assert(v@.subrange(lo as int, hi as int).subrange(0, n as int) =~= v@.subrange(lo as int, lo + n));
    r
}

/// Whether `v[lo..hi]` ends with `word`.
pub fn range_ends_with(v: &Vec<char>, lo: usize, hi: usize, word: &str) -> (r: bool)
    requires
        lo <= hi <= v@.len(),
    ensures
        r == word@.is_suffix_of(v@.subrange(lo as int, hi as int)),
{
    let n = chars_of(word).len();
    if hi - lo < n {
        return false;
    }
    let r = range_eq(v, hi - n, hi, word);
    let ghost s = v@.subrange(lo as int, hi as int);
    assert(s.subrange(s.len() - n, s.len() as int) =~= v@.subrange(hi - n, hi as int));
    r
}


/// Whether `t` occurs in `s` (`str::contains`).
pub open spec fn has_substring(s: Seq<char>, t: Seq<char>) -> bool {
    exists|i: int| 0 <= i && i + t.len() <= s.len() && #[trigger] s.subrange(i, i + t.len()) == t
}

/// Whether `word` occurs in `v[lo..hi]`.
pub fn range_contains(v: &Vec<char>, lo: usize, hi: usize, word: &str) -> (r: bool)
    requires
        lo <= hi <= v@.len(),
    ensures
        r == has_substring(v@.subrange(lo as int, hi as int), word@),
{
    let n = chars_of(word).len();
    let ghost s = v@.subrange(lo as int, hi as int);
    if hi - lo < n {
        return false;
    }
    if n == 0 {
        assert(s.subrange(0, 0 + word@.len() as int) =~= word@);
        return true;
    }
    let mut i = lo;
    while n <= hi - i
        invariant
            lo <= i,
            i <= hi,
            n == word@.len(),
            n > 0,
            hi <= v@.len(),
            s == v@.subrange(lo as int, hi as int),
            forall|j: int| 0 <= j < i - lo ==> #[trigger] s.subrange(j, j + n) != word@,
        decreases hi - i,
    {
        if range_eq(v, i, i + n, word) {
            assert(s.subrange(i - lo, i - lo + n) =~= v@.subrange(i as int, i + n));
            return true;
        }
        assert(s.subrange(i - lo, i - lo + n) =~= v@.subrange(i as int, i + n));
        i += 1;
    }
    assert forall|j: int| 0 <= j && j + word@.len() <= s.len() implies #[trigger] s.subrange(j, j + word@.len()) != word@ by {
        assert(j < i - lo);
    }
    false
}


/// `str::split_whitespace`: the runs of non-whitespace characters.
pub open spec fn white_fields(s: Seq<char>) -> Seq<Seq<char>>
    decreases s.len(),
{
    if s.len() == 0 {
        Seq::empty()
    } else {
        let f = white_fields(s.drop_last());
        if is_white(s.last()) {
            f
        } else if s.len() >= 2 && !is_white(s[s.len() - 2]) && f.len() > 0 {
            f.update(f.len() - 1, f.last().push(s.last()))
        } else {
            f.push(seq![s.last()])
        }
    }
}

/// The runs of non-whitespace characters of `v[lo..hi]`, as index ranges.
pub fn field_ranges(v: &Vec<char>, lo: usize, hi: usize) -> (r: Vec<(usize, usize)>)
    requires
        lo <= hi <= v@.len(),
    ensures
        r@.len() == white_fields(v@.subrange(lo as int, hi as int)).len(),
        forall|k: int|
            0 <= k < r@.len() ==> lo <= (#[trigger] r@[k]).0 <= r@[k].1 <= hi && v@.subrange(
                r@[k].0 as int,
                r@[k].1 as int,
            ) == white_fields(v@.subrange(lo as int, hi as int))[k],
{
    let mut r: Vec<(usize, usize)> = Vec::new();
    let mut start = lo;
    let mut in_run = false;
    let mut i = lo;
    assert(v@.subrange(lo as int, lo as int) =~= Seq::<char>::empty());
    while i < hi
        invariant
            lo <= start <= i <= hi <= v@.len(),
            in_run == (i > lo && !is_white(v@[i - 1])),
            in_run ==> r@.len() + 1 == white_fields(v@.subrange(lo as int, i as int)).len()
                && v@.subrange(start as int, i as int) == white_fields(v@.subrange(lo as int, i as int)).last(),
            !in_run ==> r@.len() == white_fields(v@.subrange(lo as int, i as int)).len(),
            forall|k: int|
                0 <= k < r@.len() ==> lo <= (#[trigger] r@[k]).0 <= r@[k].1 <= i && v@.subrange(
                    r@[k].0 as int,
                    r@[k].1 as int,
                ) == white_fields(v@.subrange(lo as int, i as int))[k],
        decreases hi - i,
    {
        let ghost p = v@.subrange(lo as int, i + 1);
        assert(p.drop_last() =~= v@.subrange(lo as int, i as int));
        assert(p.last() == v@[i as int]);
        if is_white_char(v[i]) {
            if in_run {
                r.push((start, i));
            }
            in_run = false;
        } else {
            if in_run {
                assert(p[p.len() - 2] == v@[i - 1]);
                assert(v@.subrange(start as int, i + 1) =~= v@.subrange(start as int, i as int).push(v@[i as int]));
            } else {
                start = i;
                assert(v@.subrange(start as int, i + 1) =~= seq![v@[i as int]]);
                if i > lo {
                    assert(p[p.len() - 2] == v@[i - 1]);
                }
            }
            in_run = true;
        }
        i += 1;
    }
    if in_run {
        r.push((start, hi));
    }
    r
}

} // verus!
