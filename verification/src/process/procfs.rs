//! A process identity read from what `/proc/<pid>` holds: its `comm`, its
//! `cmdline` and its `status`.
use vstd::prelude::*;
use crate::events::{lossy_utf8, utf8_lossy, ProcessRef};
use crate::text::{
    chars_of, parse_bounded, parse_unsigned, push_str, range_starts_with, split_ranges, split_seq, string_of,
    trim_range, trim_seq,
};

verus! {

/// The executable name in a `comm` file: its text trimmed, if any is left.
pub open spec fn comm_spec(text: Seq<char>) -> Option<Seq<char>> {
    if trim_seq(text).len() > 0 {
        Some(trim_seq(text))
    } else {
        None
    }
}

pub fn comm_name(text: &str) -> (r: Option<String>)
    ensures
        match comm_spec(text@) {
            Some(n) => r matches Some(s) && s@ == n,
            None => r is None,
        },
{
    let chars = chars_of(text);
    assert(chars@.subrange(0, chars@.len() as int) =~= text@);
    let (a, b) = trim_range(&chars, 0, chars.len());
    if a < b {
        Some(string_of(&chars, a, b))
    } else {
        None
    }
}

/// The non-empty runs of a byte sequence between NUL bytes.
pub open spec fn nul_parts(b: Seq<u8>) -> Seq<Seq<u8>>
    decreases b.len(),
{
    if b.len() == 0 {
        Seq::empty()
    } else {
        let p = nul_parts(b.drop_last());
        let ends_run = b.len() >= 2 && b[b.len() - 2] != 0;
        if b.last() == 0 {
            p
        } else if ends_run && p.len() > 0 {
            p.update(p.len() - 1, p.last().push(b.last()))
        } else {
            p.push(seq![b.last()])
        }
    }
}

/// Texts joined with single spaces.
pub open spec fn spaced(parts: Seq<Seq<char>>) -> Seq<char>
    decreases parts.len(),
{
    if parts.len() == 0 {
        Seq::empty()
    } else if parts.len() == 1 {
        parts[0]
    } else {
        spaced(parts.drop_last()) + " "@ + parts.last()
    }
}

/// A command line from `cmdline`: its arguments (the non-empty runs between
/// NUL bytes, each decoded as UTF-8 with replacement) joined by spaces, if
/// that is not empty.
pub open spec fn command_line_spec(b: Seq<u8>) -> Option<Seq<char>> {
    let text = spaced(nul_parts(b).map_values(|p: Seq<u8>| lossy_utf8(p)));
    if text.len() > 0 {
        Some(text)
    } else {
        None
    }
}

proof fn lemma_spaced_push(parts: Seq<Seq<char>>, x: Seq<char>)
    ensures
        spaced(parts.push(x)) == if parts.len() == 0 {
            x
        } else {
            spaced(parts) + " "@ + x
        },
{
    assert(parts.push(x).drop_last() =~= parts);
}

pub fn command_line_of(bytes: &[u8]) -> (r: Option<String>)
    ensures
        match command_line_spec(bytes@) {
            Some(t) => r matches Some(s) && s@ == t,
            None => r is None,
        },
{
    let n = bytes.len();
    let ghost parts_all = nul_parts(bytes@);
    let mut text = String::new();
    let mut count: usize = 0;
    let mut run: Vec<u8> = Vec::new();
    let mut i: usize = 0;
    let ghost mut done: Seq<Seq<u8>> = Seq::empty();
    assert(bytes@.take(0) =~= Seq::<u8>::empty());
    while i < n
        invariant
            n == bytes@.len(),
            i <= n,
            // the finished runs so far, and the run still open
            nul_parts(bytes@.take(i as int)) == if run@.len() > 0 {
                done.push(run@)
            } else {
                done
            },
            run@.len() > 0 ==> i > 0 && bytes@[i - 1] != 0,
            run@.len() == 0 && i > 0 ==> bytes@[i - 1] == 0,
            count == done.len(),
            count + (if run@.len() > 0 { 1int } else { 0int }) <= i,
            text@ == spaced(done.map_values(|p: Seq<u8>| lossy_utf8(p))),
        decreases n - i,
    {
        let ghost prefix = bytes@.take(i + 1);
        assert(prefix.drop_last() =~= bytes@.take(i as int));
        assert(prefix.last() == bytes@[i as int]);
        let byte = bytes[i];
        if byte == 0 {
            if run.len() > 0 {
                let piece = utf8_lossy(run.as_slice());
                proof {
                    lemma_spaced_push(done.map_values(|p: Seq<u8>| lossy_utf8(p)), lossy_utf8(run@));
                    assert(done.push(run@).map_values(|p: Seq<u8>| lossy_utf8(p)) =~= done.map_values(
                        |p: Seq<u8>| lossy_utf8(p),
                    ).push(lossy_utf8(run@)));
                    done = done.push(run@);
                }
                if count > 0 {
                    push_str(&mut text, " ");
                }
                push_str(&mut text, piece.as_str());
                count = count + 1;
                run = Vec::new();
            }
        } else {
            proof {
                if run@.len() > 0 {
                    assert(prefix[prefix.len() - 2] == bytes@[i - 1]);
                    assert(run@.push(byte) =~= run@.push(byte));
                } else if i > 0 {
                    assert(prefix[prefix.len() - 2] == bytes@[i - 1]);
                }
            }
            run.push(byte);
            proof {
                if run@.len() > 1 {
                    assert(done.push(run@.drop_last()).update(done.len() as int, run@) =~= done.push(run@));
                } else {
                    assert(run@ =~= seq![byte]);
                }
            }
        }
        i += 1;
    }
    if run.len() > 0 {
        let piece = utf8_lossy(run.as_slice());
        proof {
            lemma_spaced_push(done.map_values(|p: Seq<u8>| lossy_utf8(p)), lossy_utf8(run@));
            assert(done.push(run@).map_values(|p: Seq<u8>| lossy_utf8(p)) =~= done.map_values(
                |p: Seq<u8>| lossy_utf8(p),
            ).push(lossy_utf8(run@)));
            done = done.push(run@);
        }
        if count > 0 {
            push_str(&mut text, " ");
        }
        push_str(&mut text, piece.as_str());
    }
    assert(bytes@.take(n as int) =~= bytes@);
    if !text.as_str().is_empty() {
        Some(text)
    } else {
        None
    }
}

/// The parent process id in a `status` file: from the first `PPid:` line
/// whose trimmed rest is a number.
pub open spec fn ppid_in(lines: Seq<Seq<char>>) -> Option<u32>
    decreases lines.len(),
{
    if lines.len() == 0 {
        None
    } else {
        let l = lines[0];
        let parsed = if "PPid:"@.is_prefix_of(l) {
            parse_bounded(trim_seq(l.skip(5)), 10, u32::MAX as nat)
        } else {
            None
        };
        match parsed {
            Some(v) => Some(v as u32),
            None => ppid_in(lines.drop_first()),
        }
    }
}

pub fn parent_pid_of(status: &str) -> (r: Option<u32>)
    ensures
        r == ppid_in(split_seq(status@, '\n')),
{
    let chars = chars_of(status);
    assert(chars@.subrange(0, chars@.len() as int) =~= status@);
    let lines = split_ranges(&chars, 0, chars.len(), '\n');
    let ghost all = split_seq(status@, '\n');
    let mut i: usize = 0;
    assert(all.skip(0) =~= all);
    while i < lines.len()
        invariant
            i <= lines@.len(),
            all == split_seq(status@, '\n'),
            lines@.len() == all.len(),
            forall|k: int|
                0 <= k < lines@.len() ==> (#[trigger] lines@[k]).0 <= lines@[k].1 <= chars@.len()
                    && chars@.subrange(lines@[k].0 as int, lines@[k].1 as int) == all[k],
            ppid_in(all.skip(i as int)) == ppid_in(all),
        decreases lines.len() - i,
    {
        let (lo, hi) = lines[i];
        let ghost line = all[i as int];
        assert(all.skip(i as int)[0] == line);
        assert(all.skip(i as int).drop_first() =~= all.skip(i + 1));
        if range_starts_with(&chars, lo, hi, "PPid:") {
            proof {
                reveal_strlit("PPid:");
            }
            assert(line.skip(5) =~= chars@.subrange(lo + 5, hi as int));
            let (a, b) = trim_range(&chars, lo + 5, hi);
            match parse_unsigned(&chars, a, b, 10, 0xffff_ffff) {
                Some(v) => {
                    return Some(v as u32);
                },
                None => {},
            }
        }
        i += 1;
    }
    None
}

/// The identity of a running process, from its `comm` text, `cmdline`
/// bytes and `status` text as far as they could be read: none when neither
/// a name nor a command line is known.
pub fn process_ref_from(
    pid: u32,
    comm: Option<&str>,
    cmdline: Option<&[u8]>,
    status: Option<&str>,
    timestamp_ns: u64,
) -> (r: Option<ProcessRef>)
    ensures
        ({
            let name = match comm {
                Some(c) => comm_spec(c@),
                None => None,
            };
            let line = match cmdline {
                Some(b) => command_line_spec(b@),
                None => None,
            };
            if name is None && line is None {
                r is None
            } else {
                r matches Some(p) && p.pid == pid && p.start_time_ns == Some(timestamp_ns) && p.ppid == match status {
                    Some(s) => ppid_in(split_seq(s@, '\n')),
                    None => None,
                } && (match p.executable {
                    Some(e) => Some(e@),
                    None => None,
                }) == name && (match p.command_line {
                    Some(c) => Some(c@),
                    None => None,
                }) == line
            }
        }),
{
    let executable = match comm {
        Some(c) => comm_name(c),
        None => None,
    };
    let command_line = match cmdline {
        Some(b) => command_line_of(b),
        None => None,
    };
    if executable.is_none() && command_line.is_none() {
        return None;
    }
    let ppid = match status {
        Some(s) => parent_pid_of(s),
        None => None,
    };
    Some(ProcessRef { pid, ppid, executable, command_line, start_time_ns: Some(timestamp_ns) })
}

} // verus!
