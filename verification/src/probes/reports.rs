//! What the reports of the probes say of what was read.
use vstd::prelude::*;
use vstd::string::*;

use crate::common::span::{no_time_is_no_seconds, time_that_passed_is_positive, Span};
use crate::common::url_parts::{url_parse, UrlModel};
use crate::order::{orders, sorting_orders};
use crate::probes::{sampled_json, sampled_locks, sampled_net, ProbeReadings};
use crate::probes::json::{
    answers_of, ends_header, fields_of, header_end, history_of, json_pass, judged_spec, parsed_spec,
    probe_names, request_for, status_in, with_inner, Fields, HistoryModel, JsonProber, JsonScalar,
    MemberModel,
};
use crate::probes::lock::{
    base_name, clock_seconds, etime_seconds, lock_pass, lsof_holders, lsof_line, lsof_lines,
    observations, oldest_age, pid_before, pids_of, ps_line, ps_lines, renamed, sanitized, seen_of,
    LockWatcher, SeenModel,
};
use crate::probes::net::{present, rates_follow_their_own_counters, NetSampler};
use crate::reading::Reading;
use crate::text::{
    all_digits, first_of, first_of_bounds, first_space, is_alphanumeric, is_space, lines, number,
    split, texts, trim_start, trimmed, unsigned, words,
};

verus! {

/// What an endpoint that answered is reported with: for every field that was
/// there before and did not decrease, its change per second, where time passed.
pub open spec fn rate_of(
    earlier: Map<Seq<char>, Reading>,
    then: u64,
    values: Map<Seq<char>, Reading>,
    now: u64,
    key: Seq<char>,
) -> Option<Reading> {
    if now > then && earlier.contains_key(key) && values.contains_key(key)
        && !earlier[key].is_undefined() && !values[key].is_undefined() && values[key].rank()
        >= earlier[key].rank() {
        Some(
            values[key].difference(earlier[key]).quotient(Span::spanning(then, now).in_seconds()),
        )
    } else {
        None
    }
}

proof fn other_probes_stay(
    names: Seq<Seq<char>>,
    answers: Seq<Option<(bool, Map<Seq<char>, Reading>, u64)>>,
    before: HistoryModel,
    n: nat,
    name: Seq<char>,
)
    requires
        n <= names.len(),
        forall|j: int| 0 <= j < n ==> names[j] != name,
    ensures
        ({
            let (kept, out) = json_pass(names, answers, before, n);
            &&& out.len() == n
            &&& kept.contains_key(name) == before.contains_key(name)
            &&& kept.contains_key(name) ==> kept[name] == before[name]
        }),
    decreases n,
{
    if n > 0 {
        assert(names[n - 1] != name);
        other_probes_stay(names, answers, before, (n - 1) as nat, name);
    }
}

proof fn every_probe_is_reported(
    names: Seq<Seq<char>>,
    answers: Seq<Option<(bool, Map<Seq<char>, Reading>, u64)>>,
    before: HistoryModel,
    n: nat,
)
    ensures
        json_pass(names, answers, before, n).1.len() == n,
    decreases n,
{
    if n > 0 {
        every_probe_is_reported(names, answers, before, (n - 1) as nat);
    }
}

/// Every probe is reported in its place with its own answer, and remembered with
/// it: the fields it answered with, and the rate of each of them. One that did
/// not answer is down, without fields, and forgotten.
pub proof fn endpoints_report_their_own_answer(
    names: Seq<Seq<char>>,
    answers: Seq<Option<(bool, Map<Seq<char>, Reading>, u64)>>,
    before: HistoryModel,
    n: nat,
    i: int,
    key: Seq<char>,
)
    requires
        n <= names.len(),
        0 <= i < n,
        forall|j: int| 0 <= j < n && j != i ==> names[j] != names[i],
    ensures
        ({
            let (kept, out) = json_pass(names, answers, before, n);
            let row = out[i];
            &&& out.len() == n
            &&& row.name == names[i]
            &&& answers[i] is None ==> {
                &&& !row.up
                &&& !row.values.contains_key(key) && !row.rates.contains_key(key)
                &&& !kept.contains_key(names[i])
            }
            &&& answers[i] is Some ==> {
                let (up, values, now) = answers[i]->0;
                let rate = if before.contains_key(names[i]) {
                    rate_of(before[names[i]].1, before[names[i]].0, values, now, key)
                } else {
                    None
                };
                &&& row.up == up && row.values == values
                &&& kept.contains_key(names[i]) && kept[names[i]] == (now, values)
                &&& row.rates.contains_key(key) == (rate is Some)
                &&& rate is Some ==> row.rates[key] == rate->0
            }
        }),
    decreases n,
{
    every_probe_is_reported(names, answers, before, n);
    every_probe_is_reported(names, answers, before, (n - 1) as nat);
    if i < n - 1 {
        endpoints_report_their_own_answer(names, answers, before, (n - 1) as nat, i, key);
        assert(names[n - 1] != names[i]);
    } else {
        other_probes_stay(names, answers, before, (n - 1) as nat, names[i]);
        if answers[i] is Some && before.contains_key(names[i]) {
            let (_, _, now) = answers[i]->0;
            let then = before[names[i]].0;
            if now > then {
                time_that_passed_is_positive(then, now);
            } else {
                no_time_is_no_seconds(then, now);
            }
        }
    }
}

proof fn members_agree(
    a: Seq<(Seq<char>, MemberModel)>,
    b: Seq<(Seq<char>, MemberModel)>,
    n: nat,
)
    requires
        n <= a.len() <= b.len(),
        forall|i: int| 0 <= i < a.len() ==> #[trigger] a[i] == b[i],
    ensures
        fields_of(a, n) == fields_of(b, n),
    decreases n,
{
    if n > 0 {
        members_agree(a, b, (n - 1) as nat);
        assert(a[n - 1] == b[n - 1]);
    }
}

proof fn inner_members_agree(
    f: Fields,
    outer: Seq<char>,
    a: Seq<(Seq<char>, JsonScalar)>,
    b: Seq<(Seq<char>, JsonScalar)>,
    n: nat,
)
    requires
        n <= a.len() <= b.len(),
        forall|i: int| 0 <= i < a.len() ==> #[trigger] a[i] == b[i],
    ensures
        with_inner(f, outer, a, n) == with_inner(f, outer, b, n),
    decreases n,
{
    if n > 0 {
        inner_members_agree(f, outer, a, b, (n - 1) as nat);
        assert(a[n - 1] == b[n - 1]);
    }
}

/// Whether a field is kept, and as which number: one of at most 64 fields, with
/// a name of at most 64 letters, digits, `_`, `.` and `-`, and a finite number;
/// true counts as one, false as zero.
pub open spec fn kept_as(count: nat, key: Seq<char>, v: JsonScalar) -> Option<Reading> {
    let plain = key.len() <= 64 && forall|i: int|
        0 <= i < key.len() ==> is_alphanumeric(#[trigger] key[i]) || key[i] == '_' || key[i] == '.'
            || key[i] == '-';
    let n = match v {
        JsonScalar::Number(n) => n,
        JsonScalar::Bool(true) => Some(Reading::of_natural(1)),
        JsonScalar::Bool(false) => Some(Reading::of_natural(0)),
        JsonScalar::Other => None,
    };
    if count < 64 && plain && n is Some && n->0.finite() {
        n
    } else {
        None
    }
}

/// A field more is kept under its own name, one of an inner object under both
/// names with a dot between; no other field changes.
pub proof fn fields_are_kept_under_their_names(
    members: Seq<(Seq<char>, MemberModel)>,
    key: Seq<char>,
    v: JsonScalar,
    inner: Seq<(Seq<char>, JsonScalar)>,
    outer: Seq<char>,
)
    ensures
        ({
            let n = members.len();
            let before = fields_of(members, n);
            let after = fields_of(members.push((key, MemberModel::Scalar(v))), n + 1);
            after.values == match kept_as(before.count, key, v) {
                Some(x) => before.values.insert(key, x),
                None => before.values,
            }
        }),
        ({
            let n = members.len();
            let before = fields_of(members.push((outer, MemberModel::Object(inner))), n + 1);
            let after = fields_of(
                members.push((outer, MemberModel::Object(inner.push((key, v))))),
                n + 1,
            );
            after.values == match kept_as(before.count, outer + "."@ + key, v) {
                Some(x) => before.values.insert(outer + "."@ + key, x),
                None => before.values,
            }
        }),
        fields_of(Seq::empty(), 0).values == Map::<Seq<char>, Reading>::empty(),
{
    let n = members.len();
    let one = members.push((key, MemberModel::Scalar(v)));
    let nested = members.push((outer, MemberModel::Object(inner)));
    let more = inner.push((key, v));
    let deeper = members.push((outer, MemberModel::Object(more)));
    members_agree(members, one, n);
    members_agree(members, nested, n);
    members_agree(members, deeper, n);
    let f = fields_of(members, n);
    inner_members_agree(f, outer, inner, more, inner.len());
    assert(one[n as int] == (key, MemberModel::Scalar(v)));
    assert(nested[n as int] == (outer, MemberModel::Object(inner)));
    assert(deeper[n as int] == (outer, MemberModel::Object(more)));
    assert(more[inner.len() as int] == (key, v));
}

/// A probe is taken where its name has 1 to 32 letters, digits, `_` and `-`, and
/// its address is one of plain HTTP that names a host; it is asked for at the
/// address as it reads once parsed.
pub proof fn probes_are_judged_by_name_and_address(
    name: Seq<char>,
    url: Seq<char>,
    parsed: Result<UrlModel, Seq<char>>,
)
    ensures
        ({
            let named = 1 <= name.len() <= 32 && forall|i: int|
                0 <= i < name.len() ==> is_alphanumeric(#[trigger] name[i]) || name[i] == '_'
                    || name[i] == '-';
            let r = judged_spec(name, url, parsed);
            &&& r is Ok == (named && parsed is Ok && parsed->Ok_0.scheme == "http"@
                && parsed->Ok_0.host is Some)
            &&& r is Ok ==> r->Ok_0 == (name, parsed->Ok_0.text)
        }),
{
}

/// A pair is split at its first equals sign; without one it is refused.
pub proof fn pairs_split_at_the_first_equals_sign(name: Seq<char>, url: Seq<char>)
    requires
        !name.contains('='),
    ensures
        parsed_spec(name + seq!['='] + url) == judged_spec(
            trimmed(name),
            url,
            url_parse(trimmed(url)),
        ),
        parsed_spec(name) is Err,
{
    let s = name + seq!['='] + url;
    first_stands(name, url);
    absent_is_at_the_end(name);
    assert(s.take(name.len() as int) == name);
    assert(s.skip(name.len() as int + 1) == url);
}

proof fn first_stands(name: Seq<char>, url: Seq<char>)
    requires
        !name.contains('='),
    ensures
        first_of(name + seq!['='] + url, '=') == name.len(),
    decreases name.len(),
{
    let s = name + seq!['='] + url;
    if name.len() > 0 {
        let rest = name.drop_first();
        assert(name[0] != '=') by {
            assert(name.contains(name[0]));
        }
        assert forall|i: int| 0 <= i < rest.len() implies rest[i] != '=' by {
            assert(rest[i] == name[i + 1]);
            assert(name.contains(name[i + 1]));
        }
        first_stands(rest, url);
        assert(s.drop_first() == rest + seq!['='] + url);
    }
}

proof fn absent_is_at_the_end(name: Seq<char>)
    requires
        !name.contains('='),
    ensures
        first_of(name, '=') == name.len(),
    decreases name.len(),
{
    if name.len() > 0 {
        let rest = name.drop_first();
        assert(name.contains(name[0]));
        assert forall|i: int| 0 <= i < rest.len() implies rest[i] != '=' by {
            assert(rest[i] == name[i + 1]);
            assert(name.contains(name[i + 1]));
        }
        absent_is_at_the_end(rest);
    }
}

/// A request asks the host of the address, on its port or on 80, for its path and
/// query; there is none without a host.
pub proof fn requests_ask_for_their_address(u: UrlModel)
    ensures
        u.host is None ==> request_for(Ok(u)) is Err,
        u.host is Some ==> {
            let r = request_for(Ok(u))->Ok_0;
            let target = u.path + (if u.query is Some {
                "?"@ + u.query->0
            } else {
                Seq::<char>::empty()
            });
            &&& request_for(Ok(u)) is Ok
            &&& r.host == u.host->0
            &&& r.port == if u.known_port is Some {
                u.known_port->0
            } else {
                80
            }
            &&& r.text == "GET "@ + target + " HTTP/1.0\r\nHost: "@ + u.host->0
                + "\r\nAccept: application/json\r\nConnection: close\r\n\r\n"@
        },
{
    if u.query is Some {
        assert(u.path + "?"@ + u.query->0 == u.path + ("?"@ + u.query->0));
    } else {
        assert(u.path + Seq::<char>::empty() == u.path);
    }
}

/// How many of the first `n` paths were probed.
pub open spec fn probed(
    found: Seq<Option<(Seq<(u32, Seq<char>)>, Option<u64>)>>,
    n: nat,
) -> nat
    decreases n,
{
    if n == 0 {
        0
    } else if found[n - 1] is Some {
        probed(found, (n - 1) as nat) + 1
    } else {
        probed(found, (n - 1) as nat)
    }
}

proof fn probed_paths_are_reported(
    paths: Seq<Seq<char>>,
    found: Seq<Option<(Seq<(u32, Seq<char>)>, Option<u64>)>>,
    primed: bool,
    now: u64,
    before: SeenModel,
    n: nat,
)
    ensures
        lock_pass(paths, found, primed, now, before, n).1.len() == probed(found, n),
    decreases n,
{
    if n > 0 {
        probed_paths_are_reported(paths, found, primed, now, before, (n - 1) as nat);
    }
}

proof fn other_paths_stay(
    paths: Seq<Seq<char>>,
    found: Seq<Option<(Seq<(u32, Seq<char>)>, Option<u64>)>>,
    primed: bool,
    now: u64,
    before: SeenModel,
    n: nat,
    path: Seq<char>,
)
    requires
        n <= paths.len(),
        forall|j: int| 0 <= j < n ==> paths[j] != path,
    ensures
        ({
            let seen = lock_pass(paths, found, primed, now, before, n).0;
            &&& seen.contains_key(path) == before.contains_key(path)
            &&& seen.contains_key(path) ==> seen[path] == before[path]
        }),
    decreases n,
{
    if n > 0 {
        assert(paths[n - 1] != path);
        other_paths_stay(paths, found, primed, now, before, (n - 1) as nat, path);
    }
}

/// Every path that could be probed is reported in its place with its own
/// holders. They date from when the same processes were first seen; a new set
/// from now, except that what is found by the first sample may have held the lock
/// since its oldest process started. A free lock has no time, and is forgotten.
pub proof fn locks_are_dated_from_their_holders(
    paths: Seq<Seq<char>>,
    found: Seq<Option<(Seq<(u32, Seq<char>)>, Option<u64>)>>,
    primed: bool,
    now: u64,
    before: SeenModel,
    n: nat,
    i: int,
)
    requires
        n <= paths.len(),
        0 <= i < n,
        found[i] is Some,
        forall|j: int| 0 <= j < n && j != i ==> paths[j] != paths[i],
    ensures
        ({
            let (seen, out) = lock_pass(paths, found, primed, now, before, n);
            let (holders, age) = found[i]->0;
            let row = out[probed(found, i as nat) as int];
            let pids = holders.map_values(|h: (u32, Seq<char>)| h.0);
            let known = before.contains_key(paths[i]);
            let since: u64 = if known && before[paths[i]].0 == pids {
                before[paths[i]].1
            } else if known || primed || age is None {
                now
            } else if age->0 <= now {
                (now - age->0) as u64
            } else {
                0
            };
            &&& out.len() == probed(found, n)
            &&& probed(found, i as nat) < out.len()
            &&& row.path == paths[i] && row.holders == holders
            &&& holders.len() == 0 ==> row.since_unix is None && !seen.contains_key(paths[i])
            &&& holders.len() > 0 ==> row.since_unix == Some(since) && seen.contains_key(paths[i])
                && seen[paths[i]] == (pids, since)
        }),
    decreases n,
{
    let m = (n - 1) as nat;
    probed_paths_are_reported(paths, found, primed, now, before, n);
    probed_paths_are_reported(paths, found, primed, now, before, m);
    if i < n - 1 {
        locks_are_dated_from_their_holders(paths, found, primed, now, before, m, i);
        assert(paths[n - 1] != paths[i]);
    } else {
        other_paths_stay(paths, found, primed, now, before, m, paths[i]);
        let (holders, _) = found[i]->0;
        assert(pids_of(holders) == holders.map_values(|h: (u32, Seq<char>)| h.0));
    }
}

/// A process is listed once, by the name in the line behind its number; a line
/// of another kind says nothing.
pub proof fn holders_are_listed_by_number_and_name(
    h: Seq<(u32, Seq<char>)>,
    pid: u32,
    digits: Seq<char>,
    name: Seq<char>,
    other: Seq<char>,
)
    requires
        name.len() > 0,
        other.len() == 0 || (other[0] != 'p' && other[0] != 'c'),
        forall|i: int| 0 <= i < h.len() ==> (#[trigger] h[i]).0 != pid,
        unsigned(trimmed(digits), u32::MAX as nat) == Some(pid as nat),
    ensures
        lsof_line(
            lsof_line(h, seq!['p'] + digits),
            seq!['c'] + name,
        ) == h.push((pid, sanitized(name))),
        lsof_line(h, other) == h,
        lsof_line(h.push((pid, name)), seq!['p'] + digits) == h.push((pid, name)),
{
    let opened = seq!['p'] + digits;
    assert(opened.skip(1) == digits);
    let named = seq!['c'] + name;
    assert(named.skip(1) == name);
    let after = lsof_line(h, opened);
    assert(after == h.push((pid, seq![])));
    assert(after.update(after.len() - 1, (pid, sanitized(name))) == h.push(
        (pid, sanitized(name)),
    ));
    let known = h.push((pid, name));
    assert(known[h.len() as int].0 == pid);
}

/// Holders stand by the numbers of their processes, and none is lost.
pub proof fn holders_stand_by_number(text: Seq<char>, i: int, j: int)
    requires
        0 <= i < j < lsof_holders(text).len(),
    ensures
        lsof_holders(text)[i].0 <= lsof_holders(text)[j].0,
        lsof_holders(text).to_multiset() == lsof_lines(lines(text), lines(text).len()).to_multiset(),
{
    let before = pid_before();
    assert(orders(before));
    sorting_orders(lsof_lines(lines(text), lines(text).len()), before);
    assert(!before(lsof_holders(text)[j], lsof_holders(text)[i]));
}

/// The age of a lock's holders is that of the one that has run longest: one of
/// them has it, and none is older.
pub proof fn the_oldest_holder_gives_the_age(
    holders: Seq<(u32, Seq<char>)>,
    facts: Map<u32, (Seq<char>, Option<u64>)>,
    n: nat,
)
    requires
        n <= holders.len(),
    ensures
        ({
            let age = oldest_age(holders, facts, n);
            &&& forall|i: int|
                0 <= i < n && facts.contains_key((#[trigger] holders[i]).0) && facts[
                    holders[i].0
                ].1 is Some ==> age is Some && facts[holders[i].0].1->0 <= age->0
            &&& age is Some ==> exists|i: int|
                0 <= i < n && facts.contains_key((#[trigger] holders[i]).0) && facts[
                    holders[i].0
                ].1 == age
        }),
    decreases n,
{
    if n > 0 {
        the_oldest_holder_gives_the_age(holders, facts, (n - 1) as nat);
        let before = oldest_age(holders, facts, (n - 1) as nat);
        let age = oldest_age(holders, facts, n);
        if age is Some {
            if age == before && !(facts.contains_key(holders[n - 1].0) && facts[
                holders[n - 1].0
            ].1 == age) {
                let i = choose|i: int|
                    0 <= i < n - 1 && facts.contains_key((#[trigger] holders[i]).0) && facts[
                        holders[i].0
                    ].1 == before;
                assert(facts[holders[i].0].1 == age);
            } else {
                assert(facts[holders[n - 1].0].1 == age);
            }
        }
    }
}

/// A holder is shown by the name that its process gives itself, where it is
/// known; its number stays.
pub proof fn holders_take_their_own_names(
    holders: Seq<(u32, Seq<char>)>,
    facts: Map<u32, (Seq<char>, Option<u64>)>,
    i: int,
)
    requires
        0 <= i < holders.len(),
    ensures
        renamed(holders, facts).len() == holders.len(),
        renamed(holders, facts)[i].0 == holders[i].0,
        renamed(holders, facts)[i].1 == if facts.contains_key(holders[i].0) {
            facts[holders[i].0].0
        } else {
            holders[i].1
        },
{
}

/// An elapsed time of hours, minutes and seconds, perhaps behind days, is read in
/// seconds.
pub proof fn elapsed_times_are_read_in_seconds(
    days: Seq<char>,
    clock: Seq<char>,
    h: nat,
    m: nat,
    s: nat,
)
    requires
        all_digits(days) && days.len() > 0,
        number(days) * 86_400 + h * 3_600 + m * 60 + s <= u64::MAX,
        first_of(clock, '-') >= clock.len(),
        split(clock, ':').len() == 3,
        unsigned(split(clock, ':')[0], u64::MAX as nat) == Some(h),
        unsigned(split(clock, ':')[1], u64::MAX as nat) == Some(m),
        unsigned(split(clock, ':')[2], u64::MAX as nat) == Some(s),
    ensures
        etime_seconds(clock) == Some((h * 3_600 + m * 60 + s) as nat),
        etime_seconds(days + seq!['-'] + clock) == Some(
            (number(days) * 86_400 + h * 3_600 + m * 60 + s) as nat,
        ),
{
    let parts = split(clock, ':');
    let (a, b, c) = (parts.take(1), parts.take(2), parts);
    assert(a.drop_last() == Seq::<Seq<char>>::empty());
    assert(b.drop_last() == a);
    assert(c.drop_last() == b);
    assert(clock_seconds(a.drop_last()) == Some(0nat));
    assert(clock_seconds(a) == Some(h));
    assert(clock_seconds(b) == Some((h * 60 + m) as nat));
    assert(clock_seconds(c) == Some(((h * 60 + m) * 60 + s) as nat));
    let whole = days + seq!['-'] + clock;
    dash_behind_digits(days, clock);
    assert(whole.take(days.len() as int) == days);
    assert(whole.skip(days.len() as int + 1) == clock);
    assert(days[0] != '+');
}

proof fn dash_behind_digits(days: Seq<char>, rest: Seq<char>)
    requires
        all_digits(days),
    ensures
        first_of(days + seq!['-'] + rest, '-') == days.len(),
    decreases days.len(),
{
    let s = days + seq!['-'] + rest;
    if days.len() > 0 {
        let tail = days.drop_first();
        assert(s[0] == days[0]);
        assert forall|i: int| 0 <= i < tail.len() implies crate::text::is_digit(
            #[trigger] tail[i],
        ) by {
            assert(tail[i] == days[i + 1]);
        }
        dash_behind_digits(tail, rest);
        assert(s.drop_first() == tail + seq!['-'] + rest);
    }
}

/// The name of an executable is what stands behind the last slash of its path.
pub proof fn executables_lose_their_directory(dir: Seq<char>, name: Seq<char>)
    requires
        !name.contains('/'),
    ensures
        base_name(name) == name,
        base_name(dir + seq!['/'] + name) == name,
    decreases name.len(),
{
    let path = dir + seq!['/'] + name;
    if name.len() > 0 {
        let head = name.drop_last();
        assert(name.contains(name.last()));
        assert forall|i: int| 0 <= i < head.len() implies head[i] != '/' by {
            assert(name.contains(name[i]));
        }
        executables_lose_their_directory(dir, head);
        assert(path.drop_last() == dir + seq!['/'] + head);
        assert(path.last() == name.last());
        assert(head.push(name.last()) == name);
    } else {
        assert(path.last() == '/');
        assert(name == Seq::<char>::empty());
    }
}

/// Of two lines on one process the later counts, and a line says nothing of any
/// other.
pub proof fn later_lines_count(ls: Seq<Seq<char>>, n: nat, pid: u32)
    requires
        0 < n <= ls.len(),
    ensures
        ({
            let (before, after) = (ps_lines(ls, (n - 1) as nat), ps_lines(ls, n));
            let line = ps_line(ls[n - 1]);
            let named = match line {
                Some((p, _)) => p == pid,
                None => false,
            };
            if named {
                let (_, facts) = line->0;
                after.contains_key(pid) && after[pid] == facts
            } else {
                &&& after.contains_key(pid) == before.contains_key(pid)
                &&& after.contains_key(pid) ==> after[pid] == before[pid]
            }
        }),
{
}

proof fn every_endpoint_is_reported(
    names: Seq<Seq<char>>,
    answers: Seq<Option<(bool, Map<Seq<char>, Reading>, u64)>>,
    before: HistoryModel,
    n: nat,
    i: int,
)
    requires
        0 <= i < n <= answers.len(),
    ensures
        ({
            let out = json_pass(names, answers, before, n).1;
            &&& out.len() == n
            &&& out[i].name == names[i]
            &&& answers[i] is None ==> !out[i].up && out[i].values == Map::<
                Seq<char>,
                Reading,
            >::empty()
            &&& answers[i] matches Some((up, values, _)) ==> out[i].up == up && out[i].values
                == values
        }),
    decreases n,
{
    if i < n - 1 {
        every_endpoint_is_reported(names, answers, before, (n - 1) as nat, i);
    } else if n > 1 {
        every_endpoint_is_reported(names, answers, before, (n - 1) as nat, 0);
    } else {
        assert(json_pass(names, answers, before, 0).1.len() == 0);
    }
}

/// A host samples what its probes read: its interfaces, its locks and its
/// endpoints, each under its own name, and nothing where it has no such probe.
pub proof fn probes_sample_what_they_read(
    net: NetSampler,
    locks: LockWatcher,
    json: JsonProber,
    read: ProbeReadings,
    i: int,
)
    requires
        read.counters@.len() == net.interfaces@.len(),
        read.locks@.len() == locks.paths@.len(),
        read.answers@.len() == json.specs@.len(),
    ensures
        sampled_net(None, read).len() == 0,
        sampled_locks(None, read).len() == 0,
        sampled_json(None, read).len() == 0,
        0 <= i < read.counters@.len() && (forall|j: int|
            0 <= j < net.interfaces@.len() && j != i ==> net.interfaces@[j]@
                != net.interfaces@[i]@) ==> (read.counters@[i] matches Some((rx, tx)) ==> {
            let row = sampled_net(Some(net), read)[present(read.counters@, i as nat) as int];
            row.interface == net.interfaces@[i]@ && row.rx_bytes == rx && row.tx_bytes == tx
        }),
        0 <= i < read.locks@.len() && (forall|j: int|
            0 <= j < locks.paths@.len() && j != i ==> locks.paths@[j]@ != locks.paths@[i]@)
            ==> (read.locks@[i] matches Some(o) ==> {
            let row = sampled_locks(Some(locks), read)[probed(
                observations(read.locks@),
                i as nat,
            ) as int];
            row.path == locks.paths@[i]@ && row.holders.len() == o.holders@.len() && forall|k: int|
                0 <= k < o.holders@.len() ==> (#[trigger] row.holders[k]).0 == o.holders@[k].pid
                    && row.holders[k].1 == o.holders@[k].command@
        }),
        0 <= i < read.answers@.len() ==> {
            let row = sampled_json(Some(json), read)[i];
            &&& sampled_json(Some(json), read).len() == read.answers@.len()
            &&& row.name == json.specs@[i].name@
            &&& read.answers@[i] matches Some((f, _)) ==> row.up == f.up && row.values
                == f.values@
            &&& read.answers@[i] is None ==> !row.up
        },
{
    if 0 <= i < read.counters@.len() && read.counters@[i] is Some && (forall|j: int|
        0 <= j < net.interfaces@.len() && j != i ==> net.interfaces@[j]@ != net.interfaces@[i]@) {
        rates_follow_their_own_counters(
            texts(net.interfaces@),
            read.counters@,
            read.counted_at,
            net.previous@,
            read.counters@.len(),
            i,
        );
    }
    if 0 <= i < read.locks@.len() && read.locks@[i] is Some && (forall|j: int|
        0 <= j < locks.paths@.len() && j != i ==> locks.paths@[j]@ != locks.paths@[i]@) {
        locks_are_dated_from_their_holders(
            texts(locks.paths@),
            observations(read.locks@),
            locks.primed,
            read.unix_now,
            seen_of(locks.first_seen@),
            read.locks@.len(),
            i,
        );
    }
    if 0 <= i < read.answers@.len() {
        every_endpoint_is_reported(
            probe_names(json.specs@),
            answers_of(read.answers@),
            history_of(json.previous@),
            read.answers@.len(),
            i,
        );
    }
}

proof fn a_word_ends_at_a_space(a: Seq<char>, rest: Seq<char>)
    requires
        forall|k: int| 0 <= k < a.len() ==> !is_space(#[trigger] a[k]),
    ensures
        first_space(a + seq![' '] + rest) == a.len(),
    decreases a.len(),
{
    let s = a + seq![' '] + rest;
    if a.len() > 0 {
        assert(s[0] == a[0]);
        assert(s.drop_first() == a.drop_first() + seq![' '] + rest);
        assert forall|k: int| 0 <= k < a.drop_first().len() implies !is_space(
            #[trigger] a.drop_first()[k],
        ) by {
            assert(a.drop_first()[k] == a[k + 1]);
        }
        a_word_ends_at_a_space(a.drop_first(), rest);
    } else {
        assert(s[0] == ' ');
    }
}

/// A space ends a word: what stands before it is one, and the others follow.
pub proof fn spaces_part_words(a: Seq<char>, rest: Seq<char>)
    requires
        a.len() > 0,
        forall|k: int| 0 <= k < a.len() ==> !is_space(#[trigger] a[k]),
    ensures
        words(a + seq![' '] + rest) == seq![a] + words(rest),
{
    let s = a + seq![' '] + rest;
    assert(s[0] == a[0]);
    assert(trim_start(s) == s);
    a_word_ends_at_a_space(a, rest);
    assert(s.take(a.len() as int) == a);
    let behind = s.skip(a.len() as int);
    assert(behind == seq![' '] + rest);
    assert(behind.drop_first() == rest);
    assert(trim_start(behind) == trim_start(rest));
    assert(words(behind) == words(rest));
}

/// The status of a response is the number behind the version on its first line,
/// where that is at most 65535.
pub proof fn the_status_follows_the_version(
    version: Seq<char>,
    code: Seq<char>,
    reason: Seq<char>,
)
    requires
        version.len() > 0,
        code.len() > 0,
        forall|k: int| 0 <= k < version.len() ==> !is_space(#[trigger] version[k]),
        forall|k: int| 0 <= k < code.len() ==> !is_space(#[trigger] code[k]),
        !reason.contains('\n'),
    ensures
        status_in(version + seq![' '] + (code + seq![' '] + reason)) == unsigned(code, 65535),
{
    let tail = code + seq![' '] + reason;
    let head = version + seq![' '] + tail;
    spaces_part_words(version, tail);
    spaces_part_words(code, reason);
    assert forall|k: int| 0 <= k < head.len() implies head[k] != '\n' by {
        if k < version.len() {
            assert(head[k] == version[k]);
        } else if k > version.len() && k < version.len() + 1 + code.len() {
            assert(head[k] == code[k - version.len() - 1]);
        } else if k > version.len() + 1 + code.len() {
            assert(head[k] == reason[k - version.len() - 2 - code.len()]);
        }
    }
    first_of_bounds(head, '\n');
    assert(lines(head) == seq![head]);
    assert(words(head)[1] == code);
}

/// A response is parted at its first blank line.
pub proof fn responses_are_parted_at_the_first_blank_line(
    raw: Seq<u8>,
    head: Seq<u8>,
    body: Seq<u8>,
    i: int,
)
    requires
        raw == head + seq![13u8, 10, 13, 10] + body,
        forall|j: int| 0 <= j < head.len() ==> !ends_header(raw, j),
    ensures
        header_end(raw, i) <==> i == head.len(),
        raw.skip(head.len() as int + 4) == body,
{
    assert(ends_header(raw, head.len() as int));
}

/// A first line of one word has no status, and neither has an empty one.
pub proof fn a_status_needs_a_second_word(version: Seq<char>)
    requires
        forall|k: int| 0 <= k < version.len() ==> !is_space(#[trigger] version[k]),
    ensures
        status_in(version) is None,
{
    if version.len() > 0 {
        assert forall|k: int| 0 <= k < version.len() implies version[k] != '\n' by {
            assert(!is_space(version[k]));
        }
        first_of_bounds(version, '\n');
        assert(lines(version) == seq![version]);
        assert(!is_space(version[0]));
        assert(trim_start(version) == version);
        one_word_ends_nowhere(version);
        assert(version.skip(version.len() as int) == Seq::<char>::empty());
        assert(trim_start(Seq::<char>::empty()) == Seq::<char>::empty());
        assert(words(Seq::<char>::empty()).len() == 0);
        assert(words(version).len() == 1);
    }
}

proof fn one_word_ends_nowhere(s: Seq<char>)
    requires
        forall|k: int| 0 <= k < s.len() ==> !is_space(#[trigger] s[k]),
    ensures
        first_space(s) == s.len(),
    decreases s.len(),
{
    if s.len() > 0 {
        let rest = s.drop_first();
        assert forall|k: int| 0 <= k < rest.len() implies !is_space(#[trigger] rest[k]) by {
            assert(rest[k] == s[k + 1]);
        }
        one_word_ends_nowhere(rest);
    }
}

} // verus!
