//! What the core reads out of the files and tools it inspects: a library's
//! GNU build id, the symbols `nm -D` lists, and what `bpftime --version` and
//! `bpftime --help` print.
use vstd::prelude::*;
use crate::capture::strings_view;
use crate::runtime::wire::{le32, read_le32};
use crate::text::{
    chars_of, field_ranges, find_char, first_index, is_white, lemma_first_index, push_char, split_ranges,
    split_seq, string_of, trim_range, trim_seq, white_fields,
};

verus! {

/// Whether a GNU build-id note starts at `o`: name size 4, type 3, a
/// descriptor of 4 to 64 bytes that fits, and the name `GNU\0`.
pub open spec fn note_at(b: Seq<u8>, o: int) -> bool {
    &&& 0 <= o
    &&& o + 16 < b.len()
    &&& le32(b, o) == 4
    &&& le32(b, o + 8) == 3
    &&& 4 <= le32(b, o + 4) <= 64
    &&& b.subrange(o + 12, o + 16) == seq![71u8, 78u8, 85u8, 0u8]
    &&& o + 16 + le32(b, o + 4) <= b.len()
}

/// The first note at or after `o`.
pub open spec fn first_note(b: Seq<u8>, o: int) -> Option<int>
    decreases b.len() - o,
{
    if o < 0 || o + 16 >= b.len() {
        None
    } else if note_at(b, o) {
        Some(o)
    } else {
        first_note(b, o + 1)
    }
}

pub open spec fn hex_digit(n: u8) -> char {
    if n < 10 {
        (48 + n) as char
    } else {
        (87 + n) as char
    }
}

/// Bytes as lower-case hexadecimal, two digits each.
pub open spec fn hex_text(b: Seq<u8>) -> Seq<char>
    decreases b.len(),
{
    if b.len() == 0 {
        Seq::empty()
    } else {
        hex_text(b.drop_last()) + seq![hex_digit(b.last() / 16), hex_digit(b.last() % 16)]
    }
}

/// The GNU build id of an ELF file's bytes, in hexadecimal: the descriptor
/// of the first build-id note found.
pub open spec fn build_id_spec(b: Seq<u8>) -> Option<Seq<char>> {
    match first_note(b, 0) {
        Some(o) => Some(hex_text(b.subrange(o + 16, o + 16 + le32(b, o + 4)))),
        None => None,
    }
}

fn hex_char(n: u8) -> (c: char)
    requires
        n < 16,
    ensures
        c == hex_digit(n),
{
    if n < 10 {
        (48u8 + n) as char
    } else {
        (87u8 + n) as char
    }
}

pub fn build_id_of(bytes: &[u8]) -> (r: Option<String>)
    ensures
        match build_id_spec(bytes@) {
            Some(h) => r matches Some(s) && s@ == h,
            None => r is None,
        },
{
    let n = bytes.len();
    if n <= 16 {
        return None;
    }
    let mut o: usize = 0;
    while o + 16 < n
        invariant
            n == bytes@.len(),
            o + 16 <= n,
            first_note(bytes@, 0) == first_note(bytes@, o as int),
        decreases n - o,
    {
        let namesz = read_le32(bytes, o);
        let descsz = read_le32(bytes, o + 4);
        let kind = read_le32(bytes, o + 8);
        if namesz == 4 && kind == 3 && 4 <= descsz && descsz <= 64 && bytes[o + 12] == 71 && bytes[o + 13] == 78
            && bytes[o + 14] == 85 && bytes[o + 15] == 0 && (descsz as usize) <= n - o - 16 {
            assert(bytes@.subrange(o + 12, o + 16) =~= seq![71u8, 78u8, 85u8, 0u8]);
            let end = o + 16 + descsz as usize;
            let mut text = String::new();
            let mut k = o + 16;
            assert(bytes@.subrange(o + 16, o + 16) =~= Seq::<u8>::empty());
            while k < end
                invariant
                    o + 16 <= k <= end <= n,
                    n == bytes@.len(),
                    text@ == hex_text(bytes@.subrange(o + 16, k as int)),
                decreases end - k,
            {
                let byte = bytes[k];
                push_char(&mut text, hex_char(byte / 16));
                push_char(&mut text, hex_char(byte % 16));
                assert(bytes@.subrange(o + 16, k + 1).drop_last() =~= bytes@.subrange(o + 16, k as int));
                k += 1;
            }
            return Some(text);
        }
        proof {
            if bytes@.subrange(o + 12, o + 16) == seq![71u8, 78u8, 85u8, 0u8] {
                assert(bytes@[o + 12] == bytes@.subrange(o + 12, o + 16)[0]);
                assert(bytes@[o + 13] == bytes@.subrange(o + 12, o + 16)[1]);
                assert(bytes@[o + 14] == bytes@.subrange(o + 12, o + 16)[2]);
                assert(bytes@[o + 15] == bytes@.subrange(o + 12, o + 16)[3]);
            }
        }
        o += 1;
    }
    None
}

/// The text before the first `@` (the symbol without its version).
pub open spec fn before_at(s: Seq<char>) -> Seq<char> {
    match first_index(s, '@') {
        Some(i) => s.take(i),
        None => s,
    }
}

/// The symbol a line of `nm` output names: its last word, unversioned.
pub open spec fn line_symbol(line: Seq<char>) -> Option<Seq<char>> {
    let words = white_fields(line);
    if words.len() == 0 {
        None
    } else {
        Some(before_at(words.last()))
    }
}

/// The symbols the lines name, each once, in the order first named.
pub open spec fn symbols_of(lines: Seq<Seq<char>>) -> Seq<Seq<char>>
    decreases lines.len(),
{
    if lines.len() == 0 {
        Seq::empty()
    } else {
        let p = symbols_of(lines.drop_last());
        match line_symbol(lines.last()) {
            Some(s) => if p.contains(s) {
                p
            } else {
                p.push(s)
            },
            None => p,
        }
    }
}

fn has_symbol(v: &Vec<String>, t: &String) -> (r: bool)
    ensures
        r == strings_view(v@).contains(t@),
{
    let mut i: usize = 0;
    while i < v.len()
        invariant
            i <= v@.len(),
            forall|j: int| 0 <= j < i ==> v@[j]@ != t@,
        decreases v.len() - i,
    {
        if v[i] == *t {
            assert(strings_view(v@)[i as int] == t@);
            return true;
        }
        i += 1;
    }
    proof {
        if strings_view(v@).contains(t@) {
            let j = choose|j: int| 0 <= j < v@.len() && #[trigger] strings_view(v@)[j] == t@;
            assert(v@[j]@ == t@);
        }
    }
    false
}

/// The defined dynamic symbols in `nm -D --defined-only` output.
pub fn nm_symbols(output: &str) -> (r: Vec<String>)
    ensures
        strings_view(r@) == symbols_of(split_seq(output@, '\n')),
{
    let chars = chars_of(output);
    assert(chars@.subrange(0, chars@.len() as int) =~= output@);
    let lines = split_ranges(&chars, 0, chars.len(), '\n');
    let ghost all = split_seq(output@, '\n');
    let mut symbols: Vec<String> = Vec::new();
    let mut i: usize = 0;
    assert(all.take(0) =~= Seq::<Seq<char>>::empty());
    assert(strings_view(symbols@) =~= Seq::<Seq<char>>::empty());
    while i < lines.len()
        invariant
            i <= lines@.len(),
            lines@.len() == all.len(),
            forall|k: int|
                0 <= k < lines@.len() ==> (#[trigger] lines@[k]).0 <= lines@[k].1 <= chars@.len()
                    && chars@.subrange(lines@[k].0 as int, lines@[k].1 as int) == all[k],
            strings_view(symbols@) == symbols_of(all.take(i as int)),
        decreases lines.len() - i,
    {
        let (lo, hi) = lines[i];
        let ghost line = chars@.subrange(lo as int, hi as int);
        assert(all.take(i + 1).drop_last() =~= all.take(i as int));
        assert(all.take(i + 1).last() == line);
        let words = field_ranges(&chars, lo, hi);
        if words.len() > 0 {
            let (a, b) = words[words.len() - 1];
            let ghost word = chars@.subrange(a as int, b as int);
            let cut = match find_char(&chars, a, b, '@') {
                Some(at) => at,
                None => b,
            };
            proof {
                lemma_first_index(word, '@');
                assert(word.subrange(0, word.len() as int) =~= word);
                assert(chars@.subrange(a as int, cut as int) =~= before_at(word));
            }
            let symbol = string_of(&chars, a, cut);
            let ghost before = strings_view(symbols@);
            if !has_symbol(&symbols, &symbol) {
                symbols.push(symbol);
                assert(strings_view(symbols@) =~= before.push(before_at(word)));
            }
        }
        i += 1;
    }
    assert(all.take(i as int) =~= all);
    symbols
}

/// The first non-blank line, trimmed.
pub open spec fn first_nonblank(lines: Seq<Seq<char>>) -> Option<Seq<char>>
    decreases lines.len(),
{
    if lines.len() == 0 {
        None
    } else if trim_seq(lines[0]).len() > 0 {
        Some(trim_seq(lines[0]))
    } else {
        first_nonblank(lines.drop_first())
    }
}

/// The version `bpftime --version` reports: the first non-blank line of its
/// output (standard output first), trimmed; `bpftime` when it prints none.
pub open spec fn version_spec(stdout: Seq<char>, stderr: Seq<char>) -> Seq<char> {
    match first_nonblank(split_seq(stdout, '\n') + split_seq(stderr, '\n')) {
        Some(l) => l,
        None => "bpftime"@,
    }
}

fn first_nonblank_in(text: &str) -> (r: Option<String>)
    ensures
        match first_nonblank(split_seq(text@, '\n')) {
            Some(l) => r matches Some(s) && s@ == l,
            None => r is None,
        },
{
    let chars = chars_of(text);
    assert(chars@.subrange(0, chars@.len() as int) =~= text@);
    let lines = split_ranges(&chars, 0, chars.len(), '\n');
    let ghost all = split_seq(text@, '\n');
    let mut i: usize = 0;
    assert(all.skip(0) =~= all);
    while i < lines.len()
        invariant
            i <= lines@.len(),
            all == split_seq(text@, '\n'),
            lines@.len() == all.len(),
            forall|k: int|
                0 <= k < lines@.len() ==> (#[trigger] lines@[k]).0 <= lines@[k].1 <= chars@.len()
                    && chars@.subrange(lines@[k].0 as int, lines@[k].1 as int) == all[k],
            first_nonblank(all.skip(i as int)) == first_nonblank(all),
        decreases lines.len() - i,
    {
        let (lo, hi) = lines[i];
        assert(all.skip(i as int)[0] == all[i as int]);
        assert(all.skip(i as int).drop_first() =~= all.skip(i + 1));
        let (a, b) = trim_range(&chars, lo, hi);
        if a < b {
            assert(trim_seq(all[i as int]).len() > 0);
            assert(first_nonblank(all.skip(i as int)) == Some(trim_seq(all[i as int])));
            return Some(string_of(&chars, a, b));
        }
        assert(trim_seq(all[i as int]).len() == 0);
        i += 1;
    }
    None
}

proof fn lemma_first_nonblank_concat(a: Seq<Seq<char>>, b: Seq<Seq<char>>)
    ensures
        first_nonblank(a + b) == match first_nonblank(a) {
            Some(l) => Some(l),
            None => first_nonblank(b),
        },
    decreases a.len(),
{
    if a.len() > 0 {
        assert((a + b).drop_first() =~= a.drop_first() + b);
        assert((a + b)[0] == a[0]);
        lemma_first_nonblank_concat(a.drop_first(), b);
    } else {
        assert(a + b =~= b);
    }
}

pub fn version_line(stdout: &str, stderr: &str) -> (r: String)
    ensures
        r@ == version_spec(stdout@, stderr@),
{
    proof {
        lemma_first_nonblank_concat(split_seq(stdout@, '\n'), split_seq(stderr@, '\n'));
    }
    match first_nonblank_in(stdout) {
        Some(l) => l,
        None => match first_nonblank_in(stderr) {
            Some(l) => l,
            None => "bpftime".to_owned(),
        },
    }
}

/// Whether help text offers the `trace` command: the word appears on its own.
pub fn offers_trace(help: &str) -> (r: bool)
    ensures
        r == white_fields(help@).contains("trace"@),
{
    let chars = chars_of(help);
    assert(chars@.subrange(0, chars@.len() as int) =~= help@);
    let words = field_ranges(&chars, 0, chars.len());
    let ghost all = white_fields(help@);
    let mut i: usize = 0;
    while i < words.len()
        invariant
            i <= words@.len(),
            all == white_fields(help@),
            words@.len() == all.len(),
            forall|k: int|
                0 <= k < words@.len() ==> (#[trigger] words@[k]).0 <= words@[k].1 <= chars@.len()
                    && chars@.subrange(words@[k].0 as int, words@[k].1 as int) == all[k],
            forall|k: int| 0 <= k < i ==> all[k] != "trace"@,
        decreases words.len() - i,
    {
        let (a, b) = words[i];
        if crate::text::range_eq(&chars, a, b, "trace") {
            assert(all[i as int] == "trace"@);
            assert(all.contains("trace"@));
            return true;
        }
        i += 1;
    }
    false
}

} // verus!
