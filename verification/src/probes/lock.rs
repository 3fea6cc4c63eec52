//! Lock-file holder probe.
//!
//! A process that serializes GPU work through an advisory lock keeps the lock
//! file open for as long as it holds the lock. `lsof` lists those processes
//! without opening the file, so the probe can never take, block, or perturb the
//! lock. Holder names come from `ps -o comm=`, which reflects a rename.
//!
//! "Held since" is when the exporter first saw the current holder set. For a
//! holder that already held the lock when the exporter started, that moment
//! says nothing, so the holder's process start time (from `ps -o etime=`)
//! stands in: lock-holding servers take the lock as they start, and it is never
//! later than the true acquisition.
use std::collections::HashMap;

use vstd::prelude::*;
use vstd::string::*;

use crate::order::{lemma_insert_at, sorted};
use crate::table::Table;
use crate::text::{
    chars_of, clip, copied, decimal, decimal_text, first_of, first_space, join, joined,
    line_ranges, lines, lossy, parse_unsigned, position_of, skip_spaces, space_position, split,
    split_ranges, text_of_bytes, texts, trim_range, trim_start, trimmed, unsigned, visible_range, visible_text,
    without_controls,
};

verus! {

/// Longest process name kept.
pub const MAX_NAME: usize = 64;

/// One process holding the lock file open.
#[derive(Clone, Debug, PartialEq, Eq)]
pub struct LockHolder {
    pub pid: u32,
    pub command: String,
}

impl View for LockHolder {
    type V = (u32, Seq<char>);

    open spec fn view(&self) -> (u32, Seq<char>) {
        (self.pid, self.command@)
    }
}

/// The holders of a list.
pub open spec fn holders_of(v: Seq<LockHolder>) -> Seq<(u32, Seq<char>)> {
    v.map_values(|h: LockHolder| h@)
}

/// The process ids of a list.
pub open spec fn pids_of(v: Seq<(u32, Seq<char>)>) -> Seq<u32> {
    v.map_values(|h: (u32, Seq<char>)| h.0)
}

/// The state of one watched lock file.
#[derive(Clone, Debug, PartialEq, Eq)]
pub struct LockSample {
    pub path: String,
    /// Processes with the file open, ordered by pid. Empty means free.
    pub holders: Vec<LockHolder>,
    /// Unix time at which the current holder set was first observed; `None`
    /// while the lock is free.
    pub since_unix: Option<u64>,
}

/// What a sample holds.
#[verifier::ext_equal]
pub struct LockModel {
    pub path: Seq<char>,
    pub holders: Seq<(u32, Seq<char>)>,
    pub since_unix: Option<u64>,
}

impl View for LockSample {
    type V = LockModel;

    open spec fn view(&self) -> LockModel {
        LockModel {
            path: self.path@,
            holders: holders_of(self.holders@),
            since_unix: self.since_unix,
        }
    }
}

/// The samples of a list.
pub open spec fn lock_samples(v: Seq<LockSample>) -> Seq<LockModel> {
    v.map_values(|s: LockSample| s@)
}

impl LockSample {
    pub fn is_held(&self) -> (r: bool)
        ensures
            r == (self@.holders.len() > 0),
    {
        !self.holders.is_empty()
    }
}

/// `s` without control characters, cut to the longest name kept.
pub open spec fn sanitized(s: Seq<char>) -> Seq<char> {
    clip(without_controls(s), MAX_NAME as nat)
}

/// Drop control characters so a hostile process name cannot inject terminal
/// escapes into the viewer, and cap the length.
pub fn sanitize(s: &str) -> (r: String)
    ensures
        r@ == sanitized(s@),
{
    visible_text(s, MAX_NAME)
}

/// Whether `h` lists the process `pid`.
pub open spec fn lists_pid(h: Seq<(u32, Seq<char>)>, pid: nat) -> bool {
    exists|i: int| 0 <= i < h.len() && (#[trigger] h[i]).0 == pid
}

/// The holders after one more line of `lsof -F pc` output.
pub open spec fn lsof_line(h: Seq<(u32, Seq<char>)>, line: Seq<char>) -> Seq<(u32, Seq<char>)> {
    if line.len() > 0 && line[0] == 'p' {
        match unsigned(trimmed(line.skip(1)), u32::MAX as nat) {
            Some(pid) => if lists_pid(h, pid) {
                h
            } else {
                h.push((pid as u32, seq![]))
            },
            None => h,
        }
    } else if line.len() > 0 && line[0] == 'c' && h.len() > 0 && h.last().1.len() == 0 {
        h.update(h.len() - 1, (h.last().0, sanitized(line.skip(1))))
    } else {
        h
    }
}

/// The holders after the first `n` lines.
pub open spec fn lsof_lines(ls: Seq<Seq<char>>, n: nat) -> Seq<(u32, Seq<char>)>
    decreases n,
{
    if n == 0 {
        seq![]
    } else {
        lsof_line(lsof_lines(ls, (n - 1) as nat), ls[n - 1])
    }
}

/// Order by process id.
pub open spec fn pid_before() -> spec_fn((u32, Seq<char>), (u32, Seq<char>)) -> bool {
    |a: (u32, Seq<char>), b: (u32, Seq<char>)| a.0 < b.0
}

/// The holders that `lsof -F pc` output lists, by process id.
pub open spec fn lsof_holders(text: Seq<char>) -> Seq<(u32, Seq<char>)> {
    sorted(lsof_lines(lines(text), lines(text).len()), pid_before())
}

/// Parse `lsof -F pc` output: a `p<pid>` line opens each process set and a
/// `c<command>` line names it. File-set lines (`f`, `n`) are ignored.
pub fn parse_lsof_fields(text: &str) -> (r: Vec<LockHolder>)
    ensures
        holders_of(r@) == lsof_holders(text@),
{
    let c: Vec<char> = chars_of(text);
    let ranges: Vec<(usize, usize)> = line_ranges(c.as_slice());
    let ghost ls = lines(text@);
    let mut holders: Vec<LockHolder> = Vec::new();
    let mut i: usize = 0;
    assert(holders_of(holders@) == Seq::<(u32, Seq<char>)>::empty());
    while i < ranges.len()
        invariant
            i <= ranges@.len(),
            c@ == text@,
            ls == lines(text@),
            ranges@.len() == ls.len(),
            forall|j: int|
                0 <= j < ranges@.len() ==> (#[trigger] ranges@[j]).0 <= ranges@[j].1
                    && ranges@[j].1 <= c@.len() && c@.subrange(
                    ranges@[j].0 as int,
                    ranges@[j].1 as int,
                ) == ls[j],
            holders_of(holders@) == lsof_lines(ls, i as nat),
        decreases ranges@.len() - i,
    {
        let (from, to) = ranges[i];
        assert(ranges@[i as int] == (from, to));
        add_lsof_line(&mut holders, c.as_slice(), from, to);
        i = i + 1;
    }
    sort_holders(&holders)
}

fn add_lsof_line(holders: &mut Vec<LockHolder>, c: &[char], from: usize, to: usize)
    requires
        from <= to <= c@.len(),
    ensures
        holders_of(final(holders)@) == lsof_line(
            holders_of(old(holders)@),
            c@.subrange(from as int, to as int),
        ),
{
    let ghost line = c@.subrange(from as int, to as int);
    let ghost before = holders_of(holders@);
    if from >= to {
        return ;
    }
    assert(line.skip(1) == c@.subrange(from + 1, to as int));
    if c[from] == 'p' {
        let (a, b) = trim_range(c, from + 1, to);
        match parse_unsigned(c, a, b, u32::MAX as u64) {
            Some(n) => {
                let pid: u32 = n as u32;
                if !has_pid(holders, pid) {
                    let h = LockHolder { pid, command: String::new() };
                    assert(h.command@ == Seq::<char>::empty());
                    holders.push(h);
                    assert(holders_of(holders@) == before.push((pid, Seq::<char>::empty())));
                }
            },
            None => {},
        }
    } else if c[from] == 'c' && holders.len() > 0 {
        let last: usize = holders.len() - 1;
        assert(before.last() == holders@[last as int]@);
        if holders[last].command.as_str().is_empty() {
            let pid: u32 = holders[last].pid;
            let h = LockHolder { pid, command: visible_range(c, from + 1, to, MAX_NAME) };
            holders.set(last, h);
            assert(holders_of(holders@) == before.update(last as int, h@));
        }
    }
}

/// Whether a list names the process `pid`.
pub fn has_pid(holders: &Vec<LockHolder>, pid: u32) -> (r: bool)
    ensures
        r == lists_pid(holders_of(holders@), pid as nat),
{
    let mut i: usize = 0;
    while i < holders.len()
        invariant
            i <= holders@.len(),
            forall|j: int| 0 <= j < i ==> (#[trigger] holders_of(holders@)[j]).0 != pid,
        decreases holders@.len() - i,
    {
        if holders[i].pid == pid {
            assert(holders_of(holders@)[i as int].0 == pid);
            return true;
        }
        i = i + 1;
    }
    false
}

/// The holders by process id.
pub fn sort_holders(v: &Vec<LockHolder>) -> (r: Vec<LockHolder>)
    ensures
        holders_of(r@) == sorted(holders_of(v@), pid_before()),
{
    let mut r: Vec<LockHolder> = Vec::new();
    let mut i: usize = 0;
    assert(holders_of(v@).take(0) == Seq::<(u32, Seq<char>)>::empty());
    assert(holders_of(r@) == Seq::<(u32, Seq<char>)>::empty());
    while i < v.len()
        invariant
            i <= v@.len(),
            holders_of(r@) == sorted(holders_of(v@).take(i as int), pid_before()),
        decreases v@.len() - i,
    {
        let x = LockHolder { pid: v[i].pid, command: copied(v[i].command.as_str()) };
        let ghost before = holders_of(r@);
        let mut at: usize = r.len();
        while at > 0 && x.pid < r[at - 1].pid
            invariant
                at <= r@.len(),
                before == holders_of(r@),
                forall|j: int| at <= j < r@.len() ==> x.pid < (#[trigger] r@[j]).pid,
            decreases at,
        {
            at = at - 1;
        }
        proof {
            assert forall|j: int| at <= j < before.len() implies #[trigger] pid_before()(
                x@,
                before[j],
            ) by {
                assert(before[j] == r@[j]@);
            }
            if at > 0 {
                assert(before[at - 1] == r@[at - 1]@);
            }
            lemma_insert_at(before, x@, pid_before(), at as int);
            let next = holders_of(v@).take(i + 1);
            assert(next.drop_last() == holders_of(v@).take(i as int));
            assert(next.last() == x@);
        }
        r.insert(at, x);
        assert(holders_of(r@) == before.insert(at as int, x@));
        i = i + 1;
    }
    assert(holders_of(v@).take(v@.len() as int) == holders_of(v@));
    r
}

/// Seconds in the parts of a clock time, most significant first; `None` where
/// a part is no number.
pub open spec fn clock_seconds(parts: Seq<Seq<char>>) -> Option<nat>
    decreases parts.len(),
{
    if parts.len() == 0 {
        Some(0)
    } else {
        match (clock_seconds(parts.drop_last()), unsigned(parts.last(), u64::MAX as nat)) {
            (Some(a), Some(b)) => Some(a * 60 + b),
            _ => None,
        }
    }
}

/// `ps` elapsed time, `[[dd-]hh:]mm:ss`, in seconds.
pub open spec fn etime_seconds(etime: Seq<char>) -> Option<nat> {
    let dash = first_of(etime, '-');
    let (days, clock) = if dash < etime.len() {
        (unsigned(etime.take(dash), u64::MAX as nat), etime.skip(dash + 1))
    } else {
        (Some(0nat), etime)
    };
    match (days, clock_seconds(split(clock, ':'))) {
        (Some(d), Some(s)) => if d * 86_400 + s <= u64::MAX {
            Some((d * 86_400 + s) as nat)
        } else {
            None
        },
        _ => None,
    }
}

proof fn clock_grows(parts: Seq<Seq<char>>, n: int)
    requires
        0 <= n <= parts.len(),
        clock_seconds(parts) is Some,
    ensures
        clock_seconds(parts.take(n)) is Some,
        clock_seconds(parts.take(n))->0 <= clock_seconds(parts)->0,
    decreases parts.len() - n,
{
    if n < parts.len() {
        clock_grows(parts, n + 1);
        assert(parts.take(n + 1).drop_last() == parts.take(n));
    } else {
        assert(parts.take(n) == parts);
    }
}

/// `ps` elapsed time, `[[dd-]hh:]mm:ss`, in seconds; `None` for anything else,
/// and for a time that does not fit.
pub fn parse_etime(etime: &str) -> (r: Option<u64>)
    ensures
        match r {
            Some(n) => etime_seconds(etime@) == Some(n as nat),
            None => etime_seconds(etime@) is None,
        },
{
    let c: Vec<char> = chars_of(etime);
    assert(c@.subrange(0, c@.len() as int) == etime@);
    parse_etime_range(c.as_slice(), 0, c.len())
}

fn parse_etime_range(c: &[char], from: usize, to: usize) -> (r: Option<u64>)
    requires
        from <= to <= c@.len(),
    ensures
        match r {
            Some(n) => etime_seconds(c@.subrange(from as int, to as int)) == Some(n as nat),
            None => etime_seconds(c@.subrange(from as int, to as int)) is None,
        },
{
    let ghost etime = c@.subrange(from as int, to as int);
    let dash: usize = position_of(c, from, to, '-');
    let mut days: u64 = 0;
    let mut start: usize = from;
    if dash < to {
        assert(etime.take(dash - from) == c@.subrange(from as int, dash as int));
        assert(etime.skip(dash - from + 1) == c@.subrange(dash + 1, to as int));
        match parse_unsigned(c, from, dash, u64::MAX) {
            Some(d) => {
                days = d;
            },
            None => {
                return None;
            },
        }
        start = dash + 1;
    }
    let clock: Vec<char> = slice_chars(c, start, to);
    let ghost parts = split(clock@, ':');
    let ranges: Vec<(usize, usize)> = split_ranges(clock.as_slice(), ':');
    let mut secs: u64 = 0;
    let mut i: usize = 0;
    assert(parts.take(0) == Seq::<Seq<char>>::empty());
    while i < ranges.len()
        invariant
            i <= ranges@.len(),
            parts == split(clock@, ':'),
            etime == c@.subrange(from as int, to as int),
            from <= start <= to <= c@.len(),
            clock@ == c@.subrange(start as int, to as int),
            ({
                let dash = first_of(etime, '-');
                if dash < etime.len() {
                    unsigned(etime.take(dash), u64::MAX as nat) == Some(days as nat)
                        && etime.skip(dash + 1) == clock@
                } else {
                    days == 0 && etime == clock@
                }
            }),
            ranges@.len() == parts.len(),
            forall|j: int|
                0 <= j < ranges@.len() ==> (#[trigger] ranges@[j]).0 <= ranges@[j].1
                    && ranges@[j].1 <= clock@.len() && clock@.subrange(
                    ranges@[j].0 as int,
                    ranges@[j].1 as int,
                ) == parts[j],
            clock_seconds(parts.take(i as int)) == Some(secs as nat),
        decreases ranges@.len() - i,
    {
        let (a, b) = ranges[i];
        assert(ranges@[i as int] == (a, b));
        proof {
            let next = parts.take(i + 1);
            assert(next.drop_last() == parts.take(i as int));
            assert(next.last() == parts[i as int]);
        }
        match parse_unsigned(clock.as_slice(), a, b, u64::MAX) {
            Some(n) => {
                let wide: u128 = secs as u128 * 60 + n as u128;
                assert(clock_seconds(parts.take(i + 1)) == Some(wide as nat));
                if wide > u64::MAX as u128 {
                    proof {
                        if clock_seconds(parts) is Some {
                            clock_grows(parts, i + 1);
                        }
                    }
                    return None;
                }
                secs = wide as u64;
            },
            None => {
                proof {
                    if clock_seconds(parts) is Some {
                        clock_grows(parts, i + 1);
                    }
                }
                return None;
            },
        }
        i = i + 1;
    }
    assert(parts.take(parts.len() as int) == parts);
    let total: u128 = days as u128 * 86_400 + secs as u128;
    if total > u64::MAX as u128 {
        None
    } else {
        Some(total as u64)
    }
}

fn slice_chars(c: &[char], from: usize, to: usize) -> (r: Vec<char>)
    requires
        from <= to <= c@.len(),
    ensures
        r@ == c@.subrange(from as int, to as int),
{
    let mut r: Vec<char> = Vec::new();
    let mut i: usize = from;
    while i < to
        invariant
            from <= i <= to <= c@.len(),
            r@ == c@.subrange(from as int, i as int),
        decreases to - i,
    {
        r.push(c[i]);
        assert(c@.subrange(from as int, i + 1) == c@.subrange(from as int, i as int).push(
            c@[i as int],
        ));
        i = i + 1;
    }
    r
}

/// The part of a path behind its last slash.
pub open spec fn base_name(s: Seq<char>) -> Seq<char>
    decreases s.len(),
{
    if s.len() == 0 || s.last() == '/' {
        seq![]
    } else {
        base_name(s.drop_last()).push(s.last())
    }
}

/// What one `ps` line says: process id, executable basename, and seconds since
/// the process started.
pub open spec fn ps_line(line: Seq<char>) -> Option<(u32, (Seq<char>, Option<u64>))> {
    let s = trim_start(line);
    let i = first_space(s);
    if i >= s.len() {
        None
    } else {
        let t = trim_start(s.skip(i + 1));
        let j = first_space(t);
        match unsigned(s.take(i), u32::MAX as nat) {
            None => None,
            Some(pid) => if j >= t.len() {
                None
            } else {
                let base = base_name(trimmed(t.skip(j + 1)));
                let elapsed = match etime_seconds(t.take(j)) {
                    Some(n) => Some(n as u64),
                    None => None,
                };
                if base.len() == 0 {
                    None
                } else {
                    Some((pid as u32, (sanitized(base), elapsed)))
                }
            },
        }
    }
}

/// What the first `n` lines of `ps` output say; of two lines on one process
/// the later counts.
pub open spec fn ps_lines(ls: Seq<Seq<char>>, n: nat) -> Map<u32, (Seq<char>, Option<u64>)>
    decreases n,
{
    if n == 0 {
        Map::empty()
    } else {
        let before = ps_lines(ls, (n - 1) as nat);
        match ps_line(ls[n - 1]) {
            Some((pid, info)) => before.insert(pid, info),
            None => before,
        }
    }
}

/// What a table of process facts says.
pub open spec fn process_facts(m: Map<u32, (String, Option<u64>)>) -> Map<
    u32,
    (Seq<char>, Option<u64>),
> {
    m.map_values(|v: (String, Option<u64>)| (v.0@, v.1))
}

/// Parse one line of `ps -o pid=,etime=,comm=` output.
fn parse_ps_line(c: &[char], from: usize, to: usize) -> (r: Option<(u32, (String, Option<u64>))>)
    requires
        from <= to <= c@.len(),
    ensures
        match r {
            Some((pid, (name, elapsed))) => ps_line(c@.subrange(from as int, to as int)) == Some(
                (pid, (name@, elapsed)),
            ),
            None => ps_line(c@.subrange(from as int, to as int)) is None,
        },
{
    let a: usize = skip_spaces(c, from, to);
    let ghost s = c@.subrange(a as int, to as int);
    let i: usize = space_position(c, a, to);
    if i >= to {
        return None;
    }
    assert(s.take(i - a) == c@.subrange(a as int, i as int));
    assert(s.skip(i - a + 1) == c@.subrange(i + 1, to as int));
    let pid: u32 = match parse_unsigned(c, a, i, u32::MAX as u64) {
        Some(n) => n as u32,
        None => {
            return None;
        },
    };
    let b: usize = skip_spaces(c, i + 1, to);
    let ghost t = c@.subrange(b as int, to as int);
    let j: usize = space_position(c, b, to);
    if j >= to {
        return None;
    }
    assert(t.take(j - b) == c@.subrange(b as int, j as int));
    assert(t.skip(j - b + 1) == c@.subrange(j + 1, to as int));
    let elapsed: Option<u64> = parse_etime_range(c, b, j);
    let (p, q) = trim_range(c, j + 1, to);
    let start: usize = base_start(c, p, q);
    if start >= q {
        return None;
    }
    Some((pid, (visible_range(c, start, q, MAX_NAME), elapsed)))
}

/// Where the part behind the last slash of `c[from..to]` begins.
fn base_start(c: &[char], from: usize, to: usize) -> (r: usize)
    requires
        from <= to <= c@.len(),
    ensures
        from <= r <= to,
        c@.subrange(r as int, to as int) == base_name(c@.subrange(from as int, to as int)),
{
    let mut i: usize = to;
    assert(base_name(c@.subrange(from as int, i as int)) + c@.subrange(i as int, to as int)
        == base_name(c@.subrange(from as int, to as int)));
    while i > from && c[i - 1] != '/'
        invariant
            from <= i <= to <= c@.len(),
            base_name(c@.subrange(from as int, i as int)) + c@.subrange(i as int, to as int)
                == base_name(c@.subrange(from as int, to as int)),
        decreases i,
    {
        let ghost here = c@.subrange(from as int, i as int);
        assert(here.drop_last() == c@.subrange(from as int, i - 1));
        assert(c@.subrange(i - 1, to as int) == seq![c@[i - 1]] + c@.subrange(i as int, to as int));
        assert(base_name(here.drop_last()).push(c@[i - 1]) + c@.subrange(i as int, to as int)
            == base_name(here.drop_last()) + c@.subrange(i - 1, to as int));
        i = i - 1;
    }
    assert(base_name(c@.subrange(from as int, i as int)) == Seq::<char>::empty());
    assert(Seq::<char>::empty() + c@.subrange(i as int, to as int) == c@.subrange(
        i as int,
        to as int,
    ));
    i
}

/// Parse `ps -o pid=,etime=,comm=` lines into pid → (executable basename,
/// seconds since the process started).
pub fn parse_ps(text: &str) -> (r: HashMap<u32, (String, Option<u64>)>)
    ensures
        process_facts(r@) == ps_lines(lines(text@), lines(text@).len()),
{
    broadcast use vstd::std_specs::hash::group_hash_axioms;

    let c: Vec<char> = chars_of(text);
    let ranges: Vec<(usize, usize)> = line_ranges(c.as_slice());
    let ghost ls = lines(text@);
    let mut r: HashMap<u32, (String, Option<u64>)> = HashMap::new();
    let mut i: usize = 0;
    assert(process_facts(r@) == Map::<u32, (Seq<char>, Option<u64>)>::empty());
    while i < ranges.len()
        invariant
            i <= ranges@.len(),
            c@ == text@,
            ls == lines(text@),
            ranges@.len() == ls.len(),
            forall|j: int|
                0 <= j < ranges@.len() ==> (#[trigger] ranges@[j]).0 <= ranges@[j].1
                    && ranges@[j].1 <= c@.len() && c@.subrange(
                    ranges@[j].0 as int,
                    ranges@[j].1 as int,
                ) == ls[j],
            process_facts(r@) == ps_lines(ls, i as nat),
        decreases ranges@.len() - i,
    {
        let (from, to) = ranges[i];
        assert(ranges@[i as int] == (from, to));
        let ghost before = process_facts(r@);
        if let Some((pid, (name, elapsed))) = parse_ps_line(c.as_slice(), from, to) {
            r.insert(pid, (name, elapsed));
            assert(process_facts(r@) == before.insert(pid, (name@, elapsed)));
        }
        i = i + 1;
    }
    r
}

/// The process ids of `holders` as one argument for `ps -p`.
pub fn pid_list(holders: &Vec<LockHolder>) -> (r: String)
    ensures
        r@ == joined(
            pids_of(holders_of(holders@)).map_values(|pid: u32| decimal(pid as nat)),
            ","@,
        ),
{
    let mut parts: Vec<String> = Vec::new();
    let mut i: usize = 0;
    let ghost wanted = pids_of(holders_of(holders@)).map_values(|pid: u32| decimal(pid as nat));
    while i < holders.len()
        invariant
            i <= holders@.len(),
            wanted == pids_of(holders_of(holders@)).map_values(|pid: u32| decimal(pid as nat)),
            texts(parts@) == wanted.take(i as int),
        decreases holders@.len() - i,
    {
        let ghost before = texts(parts@);
        let t: String = decimal_text(holders[i].pid as u128);
        parts.push(t);
        assert(texts(parts@) == before.push(t@));
        assert(wanted[i as int] == t@);
        assert(wanted.take(i + 1) == wanted.take(i as int).push(t@));
        i = i + 1;
    }
    assert(wanted.take(wanted.len() as int) == wanted);
    join(&parts, ",")
}

/// The later of two optional ages; an absent one is the earliest.
pub open spec fn older(a: Option<u64>, b: Option<u64>) -> Option<u64> {
    match (a, b) {
        (Some(x), Some(y)) => if x >= y {
            a
        } else {
            b
        },
        (None, _) => b,
        (_, None) => a,
    }
}

/// The holders with the names that `facts` gives them.
pub open spec fn renamed(
    holders: Seq<(u32, Seq<char>)>,
    facts: Map<u32, (Seq<char>, Option<u64>)>,
) -> Seq<(u32, Seq<char>)> {
    holders.map_values(
        |h: (u32, Seq<char>)|
            if facts.contains_key(h.0) {
                (h.0, facts[h.0].0)
            } else {
                h
            },
    )
}

/// The age of the longest-running of the first `n` holders.
pub open spec fn oldest_age(
    holders: Seq<(u32, Seq<char>)>,
    facts: Map<u32, (Seq<char>, Option<u64>)>,
    n: nat,
) -> Option<u64>
    decreases n,
{
    if n == 0 {
        None
    } else {
        let before = oldest_age(holders, facts, (n - 1) as nat);
        let pid = holders[n - 1].0;
        if facts.contains_key(pid) {
            older(before, facts[pid].1)
        } else {
            before
        }
    }
}

/// Replace lsof's truncated command names with the ones `ps` gave, which show
/// a process's own title, and return the longest-running holder's age in
/// seconds.
pub fn resolve_process_info(
    holders: &Vec<LockHolder>,
    info: &HashMap<u32, (String, Option<u64>)>,
) -> (r: (Vec<LockHolder>, Option<u64>))
    ensures
        holders_of(r.0@) == renamed(holders_of(holders@), process_facts(info@)),
        r.1 == oldest_age(holders_of(holders@), process_facts(info@), holders@.len()),
{
    broadcast use vstd::std_specs::hash::group_hash_axioms;

    let mut out: Vec<LockHolder> = Vec::new();
    let mut oldest: Option<u64> = None;
    let mut i: usize = 0;
    let ghost facts = process_facts(info@);
    let ghost wanted = renamed(holders_of(holders@), facts);
    while i < holders.len()
        invariant
            i <= holders@.len(),
            facts == process_facts(info@),
            wanted == renamed(holders_of(holders@), facts),
            holders_of(out@) == wanted.take(i as int),
            oldest == oldest_age(holders_of(holders@), facts, i as nat),
        decreases holders@.len() - i,
    {
        let pid: u32 = holders[i].pid;
        let ghost before = holders_of(out@);
        assert(holders_of(holders@)[i as int] == holders@[i as int]@);
        let row: LockHolder = match info.get(&pid) {
            Some(fact) => {
                let later: bool = match (oldest, fact.1) {
                    (Some(x), Some(y)) => x < y,
                    (None, _) => true,
                    (_, None) => false,
                };
                if later {
                    oldest = fact.1;
                }
                LockHolder { pid, command: copied(fact.0.as_str()) }
            },
            None => LockHolder { pid, command: copied(holders[i].command.as_str()) },
        };
        out.push(row);
        assert(holders_of(out@) == before.push(row@));
        assert(wanted[i as int] == row@);
        assert(wanted.take(i + 1) == wanted.take(i as int).push(row@));
        i = i + 1;
    }
    assert(wanted.take(wanted.len() as int) == wanted);
    (out, oldest)
}

/// What one probe of a path found: its holders, and the age in seconds of the
/// longest-running one where `ps` told.
pub struct LockObservation {
    pub holders: Vec<LockHolder>,
    pub oldest_elapsed: Option<u64>,
}

/// The remembered holder sets, each with the time it first appeared.
pub type SeenModel = Map<Seq<char>, (Seq<u32>, u64)>;

/// What a table of holder sets remembers.
pub open spec fn seen_of(m: Map<Seq<char>, (Vec<u32>, u64)>) -> SeenModel {
    m.map_values(|v: (Vec<u32>, u64)| (v.0@, v.1))
}

/// When a holder set is first seen: at the first sample, as early as its
/// oldest process started; later, now.
pub open spec fn first_seen_at(primed: bool, elapsed: Option<u64>, now: u64) -> u64 {
    match elapsed {
        Some(e) => if primed {
            now
        } else if now >= e {
            (now - e) as u64
        } else {
            0
        },
        None => now,
    }
}

/// What is remembered of `path`, and the time its holders date from, once it
/// was found with `pids`.
pub open spec fn lock_seen(
    seen: SeenModel,
    path: Seq<char>,
    pids: Seq<u32>,
    elapsed: Option<u64>,
    primed: bool,
    now: u64,
) -> (SeenModel, Option<u64>) {
    if pids.len() == 0 {
        (seen.remove(path), None)
    } else if !seen.contains_key(path) {
        let at = first_seen_at(primed, elapsed, now);
        (seen.insert(path, (pids, at)), Some(at))
    } else if seen[path].0 != pids {
        (seen.insert(path, (pids, now)), Some(now))
    } else {
        (seen, Some(seen[path].1))
    }
}

/// What is remembered and reported after the first `n` paths; a path whose
/// probe failed is left out.
pub open spec fn lock_pass(
    paths: Seq<Seq<char>>,
    found: Seq<Option<(Seq<(u32, Seq<char>)>, Option<u64>)>>,
    primed: bool,
    now: u64,
    before: SeenModel,
    n: nat,
) -> (SeenModel, Seq<LockModel>)
    decreases n,
{
    if n == 0 {
        (before, seq![])
    } else {
        let (seen, out) = lock_pass(paths, found, primed, now, before, (n - 1) as nat);
        match found[n - 1] {
            None => (seen, out),
            Some((holders, elapsed)) => {
                let (next, since) = lock_seen(
                    seen,
                    paths[n - 1],
                    pids_of(holders),
                    elapsed,
                    primed,
                    now,
                );
                (next, out.push(LockModel { path: paths[n - 1], holders, since_unix: since }))
            },
        }
    }
}

/// What the observations say.
pub open spec fn observations(v: Seq<Option<LockObservation>>) -> Seq<
    Option<(Seq<(u32, Seq<char>)>, Option<u64>)>,
> {
    v.map_values(
        |o: Option<LockObservation>|
            match o {
                Some(x) => Some((holders_of(x.holders@), x.oldest_elapsed)),
                None => None,
            },
    )
}

pub struct LockWatcher {
    pub paths: Vec<String>,
    /// Per path: the holder pids last seen and when that set first appeared.
    pub first_seen: Table<(Vec<u32>, u64)>,
    /// False until the first sample, whose holders predate the exporter.
    pub primed: bool,
}

impl LockWatcher {
    pub fn new(paths: Vec<String>) -> (r: LockWatcher)
        ensures
            r.paths == paths,
            seen_of(r.first_seen@) == SeenModel::empty(),
            !r.primed,
    {
        let r = LockWatcher { paths, first_seen: Table::new(), primed: false };
        assert(seen_of(r.first_seen@) == SeenModel::empty());
        r
    }

    /// Report every watched path from one probe of each, in order, made at Unix
    /// time `now`. A path whose probe failed (no `lsof`, timeout) is left out
    /// so the exporter omits it instead of claiming the lock is free.
    pub fn sample(&mut self, found: &[Option<LockObservation>], now: u64) -> (r: Vec<LockSample>)
        requires
            found@.len() == old(self).paths@.len(),
        ensures
            final(self).paths == old(self).paths,
            final(self).primed,
            (seen_of(final(self).first_seen@), lock_samples(r@)) == lock_pass(
                texts(old(self).paths@),
                observations(found@),
                old(self).primed,
                now,
                seen_of(old(self).first_seen@),
                found@.len(),
            ),
    {
        let mut out: Vec<LockSample> = Vec::new();
        let mut i: usize = 0;
        let ghost names = texts(self.paths@);
        let ghost facts = observations(found@);
        assert(lock_samples(out@) == Seq::<LockModel>::empty());
        while i < self.paths.len()
            invariant
                i <= self.paths@.len(),
                found@.len() == self.paths@.len(),
                self.paths == old(self).paths,
                self.primed == old(self).primed,
                names == texts(self.paths@),
                facts == observations(found@),
                (seen_of(self.first_seen@), lock_samples(out@)) == lock_pass(
                    names,
                    facts,
                    old(self).primed,
                    now,
                    seen_of(old(self).first_seen@),
                    i as nat,
                ),
            decreases self.paths@.len() - i,
        {
            let path: String = copied(self.paths[i].as_str());
            assert(names[i as int] == path@);
            match &found[i] {
                None => {
                    assert(facts[i as int] is None);
                },
                Some(observed) => {
                    assert(facts[i as int] == Some(
                        (holders_of(observed.holders@), observed.oldest_elapsed),
                    ));
                    let since: Option<u64> = self.date_holders(
                        path.as_str(),
                        &observed.holders,
                        observed.oldest_elapsed,
                        now,
                    );
                    let row = LockSample {
                        path,
                        holders: copy_holders(&observed.holders),
                        since_unix: since,
                    };
                    let ghost before = lock_samples(out@);
                    out.push(row);
                    assert(lock_samples(out@) == before.push(row@));
                },
            }
            i = i + 1;
        }
        self.primed = true;
        out
    }

    /// Remembers the holder set of `path` and returns when it first appeared.
    fn date_holders(
        &mut self,
        path: &str,
        holders: &Vec<LockHolder>,
        elapsed: Option<u64>,
        now: u64,
    ) -> (r: Option<u64>)
        ensures
            final(self).paths == old(self).paths,
            final(self).primed == old(self).primed,
            (seen_of(final(self).first_seen@), r) == lock_seen(
                seen_of(old(self).first_seen@),
                path@,
                pids_of(holders_of(holders@)),
                elapsed,
                old(self).primed,
                now,
            ),
    {
        let ghost seen = seen_of(self.first_seen@);
        let pids: Vec<u32> = pids_in(holders);
        if pids.is_empty() {
            self.first_seen.remove(path);
            assert(seen_of(self.first_seen@) == seen.remove(path@));
            return None;
        }
        let (known, kept): (bool, Option<u64>) = match self.first_seen.get(path) {
            Some(entry) => {
                assert(seen[path@] == (entry.0@, entry.1));
                if same_pids(&entry.0, &pids) {
                    (true, Some(entry.1))
                } else {
                    (true, None)
                }
            },
            None => (false, None),
        };
        match kept {
            Some(at) => Some(at),
            None => {
                let at: u64 = if known {
                    now
                } else {
                    match elapsed {
                        Some(e) => if self.primed {
                            now
                        } else {
                            now.saturating_sub(e)
                        },
                        None => now,
                    }
                };
                self.first_seen.insert(copied(path), (pids, at));
                assert(seen_of(self.first_seen@) == seen.insert(path@, (pids@, at)));
                Some(at)
            },
        }
    }
}

fn pids_in(holders: &Vec<LockHolder>) -> (r: Vec<u32>)
    ensures
        r@ == pids_of(holders_of(holders@)),
{
    let mut r: Vec<u32> = Vec::new();
    let mut i: usize = 0;
    let ghost wanted = pids_of(holders_of(holders@));
    while i < holders.len()
        invariant
            i <= holders@.len(),
            wanted == pids_of(holders_of(holders@)),
            r@ == wanted.take(i as int),
        decreases holders@.len() - i,
    {
        r.push(holders[i].pid);
        assert(wanted.take(i + 1) == wanted.take(i as int).push(wanted[i as int]));
        i = i + 1;
    }
    assert(wanted.take(wanted.len() as int) == wanted);
    r
}

fn same_pids(a: &Vec<u32>, b: &Vec<u32>) -> (r: bool)
    ensures
        r == (a@ == b@),
{
    if a.len() != b.len() {
        return false;
    }
    let mut i: usize = 0;
    while i < a.len()
        invariant
            i <= a@.len(),
            a@.len() == b@.len(),
            forall|j: int| 0 <= j < i ==> a@[j] == b@[j],
        decreases a@.len() - i,
    {
        if a[i] != b[i] {
            return false;
        }
        i = i + 1;
    }
    assert(a@ == b@);
    true
}

/// A copy of `v`.
pub fn copy_holders(v: &Vec<LockHolder>) -> (r: Vec<LockHolder>)
    ensures
        holders_of(r@) == holders_of(v@),
{
    let mut r: Vec<LockHolder> = Vec::new();
    let mut i: usize = 0;
    while i < v.len()
        invariant
            i <= v@.len(),
            holders_of(r@) == holders_of(v@).take(i as int),
        decreases v@.len() - i,
    {
        let ghost before = holders_of(r@);
        let h = LockHolder { pid: v[i].pid, command: copied(v[i].command.as_str()) };
        r.push(h);
        assert(holders_of(r@) == before.push(h@));
        assert(holders_of(v@).take(i + 1) == holders_of(v@).take(i as int).push(h@));
        i = i + 1;
    }
    assert(holders_of(v@).take(v@.len() as int) == holders_of(v@));
    r
}

/// What `lsof` answered for a path: its holders, or `None` when it could not
/// tell. `succeeded` is its exit status; it fails without output when nothing
/// has the file open.
pub fn lsof_answer(stdout: &str, succeeded: bool) -> (r: Option<Vec<LockHolder>>)
    ensures
        match r {
            Some(v) => (succeeded || trimmed(stdout@).len() == 0) && holders_of(v@)
                == lsof_holders(stdout@),
            None => !succeeded && trimmed(stdout@).len() > 0,
        },
{
    let c: Vec<char> = chars_of(stdout);
    let (a, b) = trim_range(c.as_slice(), 0, c.len());
    assert(c@.subrange(0, c@.len() as int) == stdout@);
    if !succeeded && a < b {
        return None;
    }
    Some(parse_lsof_fields(stdout))
}

/// What the output of `lsof` says of a path: its holders, or `None` when it
/// could not tell.
pub fn read_lsof(stdout: &[u8], succeeded: bool) -> (r: Option<Vec<LockHolder>>)
    ensures
        match r {
            Some(v) => (succeeded || trimmed(lossy(stdout@)).len() == 0) && holders_of(v@)
                == lsof_holders(lossy(stdout@)),
            None => !succeeded && trimmed(lossy(stdout@)).len() > 0,
        },
{
    let text: String = text_of_bytes(stdout);
    lsof_answer(text.as_str(), succeeded)
}

/// The holders under the names that the output of `ps` shows, and the age of the
/// oldest.
pub fn read_ps(holders: &Vec<LockHolder>, stdout: &[u8]) -> (r: (Vec<LockHolder>, Option<u64>))
    ensures
        ({
            let shown = lines(lossy(stdout@));
            let facts = ps_lines(shown, shown.len());
            &&& holders_of(r.0@) == renamed(holders_of(holders@), facts)
            &&& r.1 == oldest_age(holders_of(holders@), facts, holders@.len())
        }),
{
    let text: String = text_of_bytes(stdout);
    resolve_process_info(holders, &parse_ps(text.as_str()))
}

/// A lock has a since time exactly while it is held.
pub proof fn held_locks_have_a_since_time(
    paths: Seq<Seq<char>>,
    found: Seq<Option<(Seq<(u32, Seq<char>)>, Option<u64>)>>,
    primed: bool,
    now: u64,
    before: SeenModel,
    n: nat,
    i: int,
)
    requires
        n <= paths.len(),
        n <= found.len(),
        0 <= i < lock_pass(paths, found, primed, now, before, n).1.len(),
    ensures
        ({
            let s = lock_pass(paths, found, primed, now, before, n).1[i];
            (s.holders.len() > 0) == (s.since_unix is Some)
        }),
    decreases n,
{
    let out = lock_pass(paths, found, primed, now, before, (n - 1) as nat).1;
    if i < out.len() {
        held_locks_have_a_since_time(paths, found, primed, now, before, (n - 1) as nat, i);
    }
}

/// While the same processes hold a lock, the time they are dated from stays:
/// found again with the same pids, whatever the clock says, the since time is
/// the one reported before.
pub proof fn an_unchanged_holder_set_keeps_its_time(
    seen: SeenModel,
    path: Seq<char>,
    pids: Seq<u32>,
    elapsed: Option<u64>,
    primed: bool,
    now: u64,
    later_elapsed: Option<u64>,
    later: u64,
)
    ensures
        ({
            let (next, since) = lock_seen(seen, path, pids, elapsed, primed, now);
            lock_seen(next, path, pids, later_elapsed, true, later).1 == since
        }),
{
}

/// No holder set is dated later than the sample that first shows it.
pub proof fn holders_are_never_dated_later_than_seen(
    seen: SeenModel,
    path: Seq<char>,
    pids: Seq<u32>,
    elapsed: Option<u64>,
    primed: bool,
    now: u64,
)
    requires
        seen.contains_key(path) ==> seen[path].1 <= now,
    ensures
        lock_seen(seen, path, pids, elapsed, primed, now).1 matches Some(at) ==> at <= now,
{
}

} // verus!
