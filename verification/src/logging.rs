//! The run log: where it lives, how it is capped, and reading back the last
//! record of a command.

use vstd::prelude::*;
use crate::paths::{join, join_path};
use crate::text::{chars_of, contains, contains_chars, string_from_range};

verus! {

/// Hard cap per log file: 5 MiB. When a log exceeds this, its oldest entries
/// are dropped in place; no archive is kept.
pub const MAX_LOG_BYTES: u64 = 5242880;

/// The run log, `tmtidy/tmtidy.log` under the state dir `state_home`.
pub fn logfile_path(state_home: &str) -> (p: String)
    ensures
        p@ == join(state_home@, "tmtidy/tmtidy.log"@),
{
    join_path(state_home, "tmtidy/tmtidy.log")
}

/// The directory that holds the logs, `tmtidy` under `state_home`.
pub fn state_dir(state_home: &str) -> (p: String)
    ensures
        p@ == join(state_home@, "tmtidy"@),
{
    join_path(state_home, "tmtidy")
}

/// The state dir and the log file never drift apart: the log is
/// `tmtidy.log` inside the state dir.
pub proof fn lemma_log_lives_in_state_dir(state_home: Seq<char>)
    ensures
        join(join(state_home, "tmtidy"@), "tmtidy.log"@) == join(state_home, "tmtidy/tmtidy.log"@),
{
    reveal_strlit("tmtidy");
    reveal_strlit("tmtidy.log");
    reveal_strlit("tmtidy/tmtidy.log");
    let d = join(state_home, "tmtidy"@);
    assert(d.len() > 0 && d.last() != '/');
    assert("tmtidy"@.push('/') + "tmtidy.log"@ =~= "tmtidy/tmtidy.log"@);
    if state_home.len() == 0 || state_home.last() == '/' {
        assert(d.push('/') + "tmtidy.log"@ =~= state_home + "tmtidy/tmtidy.log"@);
    } else {
        assert(d.push('/') + "tmtidy.log"@ =~= state_home.push('/') + "tmtidy/tmtidy.log"@);
    }
}

/// The index of the first newline at or after `i` in `data`, or its length
/// when there is none.
pub open spec fn next_newline(data: Seq<u8>, i: int) -> int
    decreases data.len() - i,
{
    if i >= data.len() {
        data.len() as int
    } else if data[i] == 10 {
        i
    } else {
        next_newline(data, i + 1)
    }
}

/// Where the capped log starts: the most recent whole lines that fit in
/// `max` bytes. The last `max` bytes are kept when they start a line;
/// otherwise the partial line they start with is dropped up to and with the
/// next newline. Without a newline there, no whole line fits and nothing is
/// kept.
pub open spec fn cap_start(data: Seq<u8>, max: nat) -> int {
    let start = data.len() - max;
    let nl = next_newline(data, start);
    if start == 0 || data[start - 1] == 10 {
        start
    } else if nl < data.len() {
        nl + 1
    } else {
        data.len() as int
    }
}

proof fn lemma_next_newline(data: Seq<u8>, i: int)
    requires
        0 <= i <= data.len(),
    ensures
        i <= next_newline(data, i) <= data.len(),
        next_newline(data, i) < data.len() ==> data[next_newline(data, i)] == 10,
        forall|j: int| i <= j < next_newline(data, i) ==> data[j] != 10,
    decreases data.len() - i,
{
    if i < data.len() && data[i] != 10 {
        lemma_next_newline(data, i + 1);
    }
}

/// Where to cut a log of contents `data` so that it holds at most
/// `max_bytes`: `None` when it is already within the cap (nothing to do),
/// else the offset of the first byte to keep.
pub fn cap_offset(data: &[u8], max_bytes: u64) -> (r: Option<usize>)
    ensures
        match r {
            None => data@.len() <= max_bytes,
            Some(k) => data@.len() > max_bytes && k == cap_start(data@, max_bytes as nat),
        },
{
    if (data.len() as u64) <= max_bytes {
        return None;
    }
    let start = data.len() - (max_bytes as usize);
    if start == 0 || data[start - 1] == 10 {
        return Some(start);
    }
    let mut i = start;
    while i < data.len() && data[i] != 10
        invariant
            start <= i <= data.len(),
            start == data@.len() - max_bytes,
            next_newline(data@, start as int) == next_newline(data@, i as int),
        decreases data.len() - i,
    {
        i = i + 1;
    }
    if i < data.len() {
        Some(i + 1)
    } else {
        Some(data.len())
    }
}

/// Whether offset `k` of `data` begins a line: the start of the log or just
/// after a newline.
pub open spec fn line_start(data: Seq<u8>, k: int) -> bool {
    k == 0 || data[k - 1] == 10
}

/// What capping keeps: the most recent whole lines that fit in `max`
/// bytes. The cut is the least offset that leaves at most `max` bytes and
/// falls at a line start (the log's start, just after a newline, or its
/// end), so the oldest entries are dropped and no partial line is kept.
pub proof fn lemma_cap_keeps_recent_whole_lines(data: Seq<u8>, max: nat)
    requires
        data.len() > max,
    ensures
        data.len() - max <= cap_start(data, max) <= data.len(),
        data.len() - cap_start(data, max) <= max,
        cap_start(data, max) == data.len() || line_start(data, cap_start(data, max)),
        forall|k: int|
            data.len() - max <= k < cap_start(data, max) ==> !#[trigger] line_start(data, k),
{
    lemma_next_newline(data, data.len() - max);
}

/// The lines of `s` (`str::lines`): split at `\n`, with a `\r` just before
/// it dropped too; a final line without a newline is kept as it is, and a
/// string that ends with a newline has no empty last line.
pub open spec fn lines(s: Seq<char>) -> Seq<Seq<char>>
    decreases s.len(),
{
    if s.len() == 0 {
        Seq::<Seq<char>>::empty()
    } else {
        let k = first_newline(s, 0);
        proof {
            lemma_first_newline(s, 0);
        }
        if k >= s.len() {
            seq![s]
        } else {
            seq![strip_cr(s.take(k))] + lines(s.skip(k + 1))
        }
    }
}

/// `line` without one trailing `\r`.
pub open spec fn strip_cr(line: Seq<char>) -> Seq<char> {
    if line.len() > 0 && line.last() == '\r' {
        line.drop_last()
    } else {
        line
    }
}

/// The index of the first `\n` at or after `i` in `s`, or its length.
pub open spec fn first_newline(s: Seq<char>, i: int) -> int
    decreases s.len() - i,
{
    if i >= s.len() {
        s.len() as int
    } else if s[i] == '\n' {
        i
    } else {
        first_newline(s, i + 1)
    }
}

/// The last of `ls` that contains `needle`.
pub open spec fn last_containing(ls: Seq<Seq<char>>, needle: Seq<char>) -> Option<Seq<char>>
    decreases ls.len(),
{
    if ls.len() == 0 {
        None
    } else if contains(ls.last(), needle) {
        Some(ls.last())
    } else {
        last_containing(ls.drop_last(), needle)
    }
}

/// Where the next newline lies.
pub proof fn lemma_first_newline(s: Seq<char>, i: int)
    requires
        0 <= i <= s.len(),
    ensures
        i <= first_newline(s, i) <= s.len(),
        first_newline(s, i) < s.len() ==> s[first_newline(s, i)] == '\n',
        forall|j: int| i <= j < first_newline(s, i) ==> s[j] != '\n',
    decreases s.len() - i,
{
    if i < s.len() && s[i] != '\n' {
        lemma_first_newline(s, i + 1);
    }
}

proof fn lemma_first_newline_skip(s: Seq<char>, p: int, i: int)
    requires
        0 <= p <= i <= s.len(),
    ensures
        first_newline(s.skip(p), i - p) == first_newline(s, i) - p,
    decreases s.len() - i,
{
    if i < s.len() && s[i] != '\n' {
        lemma_first_newline_skip(s, p, i + 1);
    }
}

fn line_end(v: &Vec<char>, from: usize) -> (k: usize)
    requires
        from <= v.len(),
    ensures
        k == first_newline(v@, from as int),
{
    let mut k = from;
    while k < v.len() && v[k] != '\n'
        invariant
            from <= k <= v.len(),
            first_newline(v@, from as int) == first_newline(v@, k as int),
        decreases v.len() - k,
    {
        k = k + 1;
    }
    k
}

/// The last line of `content` that contains `needle`, if any.
pub fn last_line_containing(content: &str, needle: &str) -> (r: Option<String>)
    ensures
        match r {
            Some(line) => last_containing(lines(content@), needle@) == Some(line@),
            None => last_containing(lines(content@), needle@) is None,
        },
{
    let v = chars_of(content);
    let n = chars_of(needle);
    let mut found: Option<String> = None;
    let ghost mut seen: Seq<Seq<char>> = Seq::empty();
    let mut p: usize = 0;
    assert(v@.skip(0) =~= v@);
    while p < v.len()
        invariant
            0 <= p <= v.len(),
            v@ == content@,
            n@ == needle@,
            lines(v@) == seen + lines(v@.skip(p as int)),
            match found {
                Some(line) => last_containing(seen, n@) == Some(line@),
                None => last_containing(seen, n@) is None,
            },
        decreases v.len() - p,
    {
        let ghost rest = v@.skip(p as int);
        let k = line_end(&v, p);
        proof {
            lemma_first_newline(v@, p as int);
            lemma_first_newline_skip(v@, p as int, p as int);
            assert(rest.skip(0) =~= rest);
        }
        let mut end = k;
        if k < v.len() && end > p && v[end - 1] == '\r' {
            end = end - 1;
        }
        let line = string_from_range(&v, p, end);
        let line_chars = chars_of(line.as_str());
        let hit = contains_chars(&line_chars, &n);
        proof {
            if k < v.len() {
                assert(rest.take(k - p) =~= v@.subrange(p as int, k as int));
                assert(rest.skip(k - p + 1) =~= v@.skip(k + 1));
                assert(strip_cr(rest.take(k - p)) =~= v@.subrange(p as int, end as int));
                assert(lines(rest) == seq![line@] + lines(v@.skip(k + 1)));
            } else {
                assert(rest =~= v@.subrange(p as int, end as int));
                assert(lines(rest) == seq![line@]);
                assert(v@.skip(v.len() as int) =~= Seq::<char>::empty());
            }
            assert(seen.push(line@).drop_last() =~= seen);
        }
        if hit {
            found = Some(line);
        }
        proof {
            assert(seen + seq![line@] =~= seen.push(line@));
            seen = seen.push(line@);
        }
        if k < v.len() {
            p = k + 1;
        } else {
            p = v.len();
        }
    }
    proof {
        assert(v@.skip(v.len() as int) =~= Seq::<char>::empty());
        assert(lines(Seq::<char>::empty()) =~= Seq::<Seq<char>>::empty());
        assert(seen + Seq::<Seq<char>>::empty() =~= seen);
    }
    found
}

} // verus!
