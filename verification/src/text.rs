//! Text as sequences of characters: classification, trimming, splitting,
//! searching, and decimal numbers.
use vstd::prelude::*;
use vstd::string::*;

verus! {

/// `String::push` appends one character.
pub assume_specification[ String::push ](s: &mut String, c: char)
    ensures
        final(s)@ == old(s)@.push(c),
;

/// The characters of `s`.
pub fn chars_of(s: &str) -> (r: Vec<char>)
    ensures
        r@ == s@,
{
    let mut r: Vec<char> = Vec::new();
    for c in it: s.chars()
        invariant
            it.seq() == s@,
            r@ == s@.take(it.index() as int),
    {
        r.push(c);
        assert(s@.take(it.index() + 1) == s@.take(it.index() as int).push(c));
    }
    assert(s@.take(s@.len() as int) == s@);
    r
}

/// The string made of the characters `from..to` of `c`.
pub fn text_between(c: &[char], from: usize, to: usize) -> (r: String)
    requires
        from <= to <= c@.len(),
    ensures
        r@ == c@.subrange(from as int, to as int),
{
    let mut r: String = String::new();
    let mut i: usize = from;
    while i < to
        invariant
            from <= i <= to <= c@.len(),
            r@ == c@.subrange(from as int, i as int),
        decreases to - i,
    {
        r.push(c[i]);
        assert(c@.subrange(from as int, i + 1) == c@.subrange(from as int, i as int).push(
            c@[i as int],
        ));
        i = i + 1;
    }
    r
}

/// A copy of `s`.
pub fn copied(s: &str) -> (r: String)
    ensures
        r@ == s@,
{
    s.to_owned()
}

/// `a` followed by `b`.
pub fn concat2(a: &str, b: &str) -> (r: String)
    ensures
        r@ == a@ + b@,
{
    let mut r: String = a.to_owned();
    r.append(b);
    r
}

/// `a`, `b` and `c` in a row.
pub fn concat3(a: &str, b: &str, c: &str) -> (r: String)
    ensures
        r@ == a@ + b@ + c@,
{
    let mut r: String = concat2(a, b);
    r.append(c);
    r
}

/// `a`, `b`, `c` and `d` in a row.
pub fn concat4(a: &str, b: &str, c: &str, d: &str) -> (r: String)
    ensures
        r@ == a@ + b@ + c@ + d@,
{
    let mut r: String = concat3(a, b, c);
    r.append(d);
    r
}

/// `a`, `b`, `c`, `d` and `e` in a row.
pub fn concat5(a: &str, b: &str, c: &str, d: &str, e: &str) -> (r: String)
    ensures
        r@ == a@ + b@ + c@ + d@ + e@,
{
    let mut r: String = concat4(a, b, c, d);
    r.append(e);
    r
}

/// Whether `s` and `t` are the same text.
pub fn same(s: &str, t: &str) -> (r: bool)
    ensures
        r == (s@ == t@),
{
    let a: Vec<char> = chars_of(s);
    let b: Vec<char> = chars_of(t);
    same_chars(a.as_slice(), b.as_slice())
}

/// Whether `a` and `b` are the same characters.
pub fn same_chars(a: &[char], b: &[char]) -> (r: bool)
    ensures
        r == (a@ == b@),
{
    if a.len() != b.len() {
        return false;
    }
    let mut i: usize = 0;
    while i < a.len()
        invariant
            i <= a@.len(),
            a@.len() == b@.len(),
            forall|j: int| 0 <= j < i ==> a@[j] == b@[j],
        decreases a@.len() - i,
    {
        if a[i] != b[i] {
            return false;
        }
        i = i + 1;
    }
    assert(a@ == b@);
    true
}

/// Lexicographic order by character.
pub open spec fn precedes(a: Seq<char>, b: Seq<char>) -> bool
    decreases b.len(),
{
    if b.len() == 0 {
        false
    } else if a.len() == 0 {
        true
    } else if a[0] != b[0] {
        a[0] < b[0]
    } else {
        precedes(a.drop_first(), b.drop_first())
    }
}

/// Whether `s` comes before `t`.
pub fn comes_before(s: &str, t: &str) -> (r: bool)
    ensures
        r == precedes(s@, t@),
{
    let a: Vec<char> = chars_of(s);
    let b: Vec<char> = chars_of(t);
    let mut i: usize = 0;
    assert(a@.skip(0) == a@ && b@.skip(0) == b@);
    while i < a.len() && i < b.len()
        invariant
            i <= a@.len(),
            i <= b@.len(),
            a@ == s@,
            b@ == t@,
            precedes(s@, t@) == precedes(a@.skip(i as int), b@.skip(i as int)),
        decreases a@.len() - i,
    {
        if a[i] != b[i] {
            return a[i] < b[i];
        }
        assert(a@.skip(i as int).drop_first() == a@.skip(i + 1));
        assert(b@.skip(i as int).drop_first() == b@.skip(i + 1));
        i = i + 1;
    }
    i < b.len()
}

/// The order is total: two texts are equal or one precedes the other.
pub proof fn precedes_is_total(a: Seq<char>, b: Seq<char>)
    ensures
        a == b || precedes(a, b) || precedes(b, a),
    decreases b.len(),
{
    if b.len() > 0 && a.len() > 0 && a[0] == b[0] {
        precedes_is_total(a.drop_first(), b.drop_first());
        if a.drop_first() == b.drop_first() {
            assert(a == seq![a[0]] + a.drop_first());
            assert(b == seq![b[0]] + b.drop_first());
        }
    } else if a.len() == 0 && b.len() == 0 {
        assert(a == b);
    }
}

/// No text precedes itself, and of two texts at most one precedes the other.
pub proof fn precedes_is_strict(a: Seq<char>, b: Seq<char>)
    ensures
        !(precedes(a, b) && precedes(b, a)),
        a == b ==> !precedes(a, b),
    decreases b.len(),
{
    if b.len() > 0 && a.len() > 0 && a[0] == b[0] {
        precedes_is_strict(a.drop_first(), b.drop_first());
    }
}

/// The order is transitive.
pub proof fn precedes_is_transitive(a: Seq<char>, b: Seq<char>, c: Seq<char>)
    requires
        precedes(a, b),
        precedes(b, c),
    ensures
        precedes(a, c),
    decreases c.len(),
{
    if a.len() > 0 && a[0] == b[0] && b[0] == c[0] {
        precedes_is_transitive(a.drop_first(), b.drop_first(), c.drop_first());
    }
}

/// Whether texts stand in strictly rising order.
pub open spec fn rising(s: Seq<Seq<char>>) -> bool {
    forall|i: int, j: int| 0 <= i < j < s.len() ==> precedes(#[trigger] s[i], #[trigger] s[j])
}

/// White space as Unicode defines it.
pub open spec fn is_space(c: char) -> bool {
    let n = c as u32;
    (0x9 <= n <= 0xd) || n == 0x20 || n == 0x85 || n == 0xa0 || n == 0x1680 || (0x2000 <= n
        <= 0x200a) || n == 0x2028 || n == 0x2029 || n == 0x202f || n == 0x205f || n == 0x3000
}

pub fn space(c: char) -> (r: bool)
    ensures
        r == is_space(c),
{
    let n: u32 = c as u32;
    (0x9 <= n && n <= 0xd) || n == 0x20 || n == 0x85 || n == 0xa0 || n == 0x1680 || (0x2000 <= n
        && n <= 0x200a) || n == 0x2028 || n == 0x2029 || n == 0x202f || n == 0x205f || n == 0x3000
}

/// A control character: category Cc.
pub open spec fn is_control(c: char) -> bool {
    let n = c as u32;
    n <= 0x1f || (0x7f <= n <= 0x9f)
}

pub fn control(c: char) -> (r: bool)
    ensures
        r == is_control(c),
{
    let n: u32 = c as u32;
    n <= 0x1f || (0x7f <= n && n <= 0x9f)
}

pub open spec fn is_digit(c: char) -> bool {
    '0' <= c <= '9'
}

pub fn digit(c: char) -> (r: bool)
    ensures
        r == is_digit(c),
{
    '0' <= c && c <= '9'
}

/// An ASCII letter or digit.
pub open spec fn is_alphanumeric(c: char) -> bool {
    is_digit(c) || 'a' <= c <= 'z' || 'A' <= c <= 'Z'
}

pub fn alphanumeric(c: char) -> (r: bool)
    ensures
        r == is_alphanumeric(c),
{
    digit(c) || ('a' <= c && c <= 'z') || ('A' <= c && c <= 'Z')
}

/// `c` in ASCII lower case.
pub open spec fn lowered(c: char) -> char {
    if 'A' <= c <= 'Z' {
        (c as u32 + 32) as char
    } else {
        c
    }
}

pub open spec fn lowered_all(s: Seq<char>) -> Seq<char> {
    s.map_values(|c: char| lowered(c))
}

/// `s` without leading white space.
pub open spec fn trim_start(s: Seq<char>) -> Seq<char>
    decreases s.len(),
{
    if s.len() > 0 && is_space(s[0]) {
        trim_start(s.drop_first())
    } else {
        s
    }
}

/// `s` without trailing white space.
pub open spec fn trim_end(s: Seq<char>) -> Seq<char>
    decreases s.len(),
{
    if s.len() > 0 && is_space(s.last()) {
        trim_end(s.drop_last())
    } else {
        s
    }
}

/// `s` without white space at either end.
pub open spec fn trimmed(s: Seq<char>) -> Seq<char> {
    trim_end(trim_start(s))
}

proof fn trim_start_facts(s: Seq<char>)
    ensures
        trim_start(s).len() <= s.len(),
        trim_start(s).len() > 0 ==> !is_space(trim_start(s)[0]),
        forall|x: char| trim_start(s).contains(x) ==> #[trigger] s.contains(x),
    decreases s.len(),
{
    if s.len() > 0 && is_space(s[0]) {
        trim_start_facts(s.drop_first());
        assert forall|x: char| trim_start(s).contains(x) implies #[trigger] s.contains(x) by {
            assert(s.drop_first().contains(x));
            let k = choose|k: int| 0 <= k < s.drop_first().len() && s.drop_first()[k] == x;
            assert(s[k + 1] == x);
        }
    }
}

proof fn trim_end_facts(s: Seq<char>)
    ensures
        trim_end(s).len() <= s.len(),
        trim_end(s) == s.take(trim_end(s).len() as int),
        trim_end(s).len() > 0 ==> !is_space(trim_end(s).last()),
        trim_end(trim_end(s)) == trim_end(s),
    decreases s.len(),
{
    if s.len() > 0 && is_space(s.last()) {
        trim_end_facts(s.drop_last());
        assert(trim_end(s) == s.take(trim_end(s).len() as int));
    } else {
        assert(s.take(s.len() as int) == s);
    }
}

/// Trimming a trimmed text changes nothing.
pub proof fn trimming_twice(s: Seq<char>)
    ensures
        trimmed(trimmed(s)) == trimmed(s),
{
    let t = trim_start(s);
    trim_start_facts(s);
    trim_end_facts(t);
}

/// A trimmed text holds nothing that the text does not.
pub proof fn trimming_keeps(s: Seq<char>)
    ensures
        forall|x: char| trimmed(s).contains(x) ==> #[trigger] s.contains(x),
{
    let t = trim_start(s);
    trim_start_facts(s);
    trim_end_facts(t);
    assert forall|x: char| trimmed(s).contains(x) implies #[trigger] s.contains(x) by {
        let k = choose|k: int| 0 <= k < trimmed(s).len() && trimmed(s)[k] == x;
        assert(t[k] == x);
        assert(t.contains(x));
    }
}

/// Trims the range `from..to` of `c`.
pub fn trim_range(c: &[char], from: usize, to: usize) -> (r: (usize, usize))
    requires
        from <= to <= c@.len(),
    ensures
        from <= r.0 <= r.1 <= to,
        c@.subrange(r.0 as int, r.1 as int) == trimmed(c@.subrange(from as int, to as int)),
{
    let mut i: usize = from;
    while i < to && space(c[i])
        invariant
            from <= i <= to <= c@.len(),
            trim_start(c@.subrange(from as int, to as int)) == trim_start(
                c@.subrange(i as int, to as int),
            ),
        decreases to - i,
    {
        assert(c@.subrange(i as int, to as int).drop_first() == c@.subrange(i + 1, to as int));
        i = i + 1;
    }
    let ghost started = c@.subrange(i as int, to as int);
    assert(trim_start(c@.subrange(from as int, to as int)) == started);
    let mut j: usize = to;
    while j > i && space(c[j - 1])
        invariant
            from <= i <= j <= to <= c@.len(),
            trim_end(started) == trim_end(c@.subrange(i as int, j as int)),
        decreases j - i,
    {
        assert(c@.subrange(i as int, j as int).drop_last() == c@.subrange(i as int, j - 1));
        j = j - 1;
    }
    (i, j)
}

/// `s` without white space at either end.
pub fn trim(s: &str) -> (r: String)
    ensures
        r@ == trimmed(s@),
{
    let c: Vec<char> = chars_of(s);
    let (i, j) = trim_range(c.as_slice(), 0, c.len());
    assert(c@.subrange(0, c@.len() as int) == s@);
    text_between(c.as_slice(), i, j)
}

/// Where `p` begins in `s`, from position `from` on; the length of `s` if
/// nowhere.
pub open spec fn find_from(s: Seq<char>, p: Seq<char>, from: int) -> int
    decreases s.len() - from,
{
    if from < 0 || from >= s.len() || from + p.len() > s.len() {
        s.len() as int
    } else if s.subrange(from, from + p.len()) == p {
        from
    } else {
        find_from(s, p, from + 1)
    }
}

/// Whether `p` begins at `from` in `c`.
pub fn occurs_at(c: &[char], p: &[char], from: usize) -> (r: bool)
    requires
        from + p@.len() <= c@.len(),
    ensures
        r == (c@.subrange(from as int, from + p@.len()) == p@),
{
    let end: usize = c.len();
    let mut i: usize = 0;
    while i < p.len()
        invariant
            from + p@.len() <= c@.len() == end,
            i <= p@.len(),
            forall|j: int| 0 <= j < i ==> c@[from + j] == p@[j],
        decreases p@.len() - i,
    {
        if c[from + i] != p[i] {
            assert(c@.subrange(from as int, from + p@.len())[i as int] == c@[from + i]);
            return false;
        }
        i = i + 1;
    }
    assert(c@.subrange(from as int, from + p@.len()) == p@);
    true
}

/// The first place at or after `from` where `p` begins.
pub fn find(c: &[char], p: &[char], from: usize) -> (r: Option<usize>)
    requires
        from <= c@.len(),
        p@.len() > 0,
    ensures
        match r {
            Some(i) => from <= i && i + p@.len() <= c@.len() && i == find_from(
                c@,
                p@,
                from as int,
            ),
            None => find_from(c@, p@, from as int) == c@.len(),
        },
{
    let mut i: usize = from;
    while i < c.len() && p.len() <= c.len() - i
        invariant
            p@.len() > 0,
            from <= i <= c@.len(),
            find_from(c@, p@, from as int) == find_from(c@, p@, i as int),
        decreases c@.len() - i,
    {
        if occurs_at(c, p, i) {
            return Some(i);
        }
        i = i + 1;
    }
    None
}

/// Whether `p` occurs in `s`.
pub open spec fn occurs(s: Seq<char>, p: Seq<char>) -> bool {
    find_from(s, p, 0) < s.len()
}

/// Whether `p`, which is not empty, occurs in `s`.
pub fn holds_text(s: &str, p: &str) -> (r: bool)
    requires
        p@.len() > 0,
    ensures
        r == occurs(s@, p@),
{
    let c: Vec<char> = chars_of(s);
    let q: Vec<char> = chars_of(p);
    match find(c.as_slice(), q.as_slice(), 0) {
        Some(_) => true,
        None => false,
    }
}

/// Whether `s` begins with `p`.
pub open spec fn begins(s: Seq<char>, p: Seq<char>) -> bool {
    p.len() <= s.len() && s.take(p.len() as int) == p
}

/// Whether `s` ends with `p`.
pub open spec fn ends(s: Seq<char>, p: Seq<char>) -> bool {
    p.len() <= s.len() && s.skip(s.len() - p.len()) == p
}

/// Whether `c` begins with `p`.
pub fn begins_with(c: &[char], p: &str) -> (r: bool)
    ensures
        r == begins(c@, p@),
{
    let q: Vec<char> = chars_of(p);
    if q.len() <= c.len() {
        assert(c@.subrange(0, 0 + q@.len() as int) == c@.take(q@.len() as int));
        occurs_at(c, q.as_slice(), 0)
    } else {
        false
    }
}

/// Whether `c` ends with `p`.
pub fn ends_with(c: &[char], p: &str) -> (r: bool)
    ensures
        r == ends(c@, p@),
{
    let q: Vec<char> = chars_of(p);
    if q.len() <= c.len() {
        let at: usize = c.len() - q.len();
        assert(c@.subrange(at as int, at + q@.len()) == c@.skip(at as int));
        occurs_at(c, q.as_slice(), at)
    } else {
        false
    }
}

/// The first place of `c` in `s`; its length if there is none.
pub open spec fn first_of(s: Seq<char>, c: char) -> int
    decreases s.len(),
{
    if s.len() == 0 || s[0] == c {
        0
    } else {
        1 + first_of(s.drop_first(), c)
    }
}

/// The first place of `x` in `c`, from `from` on, before `to`; `to` if there
/// is none.
pub fn position_of(c: &[char], from: usize, to: usize, x: char) -> (r: usize)
    requires
        from <= to <= c@.len(),
    ensures
        from <= r <= to,
        r - from == first_of(c@.subrange(from as int, to as int), x),
        r < to ==> c@[r as int] == x,
        forall|j: int| from <= j < r ==> c@[j] != x,
{
    let mut i: usize = from;
    while i < to && c[i] != x
        invariant
            from <= i <= to <= c@.len(),
            first_of(c@.subrange(from as int, to as int), x) == (i - from) + first_of(
                c@.subrange(i as int, to as int),
                x,
            ),
            forall|j: int| from <= j < i ==> c@[j] != x,
        decreases to - i,
    {
        assert(c@.subrange(i as int, to as int).drop_first() == c@.subrange(i + 1, to as int));
        i = i + 1;
    }
    i
}

/// What lies before the first `c` (all of `s` if there is none).
pub open spec fn before_first(s: Seq<char>, c: char) -> Seq<char> {
    s.take(first_of(s, c))
}

pub proof fn first_of_bounds(s: Seq<char>, c: char)
    ensures
        0 <= first_of(s, c) <= s.len(),
        first_of(s, c) < s.len() ==> s[first_of(s, c)] == c,
        forall|j: int| 0 <= j < first_of(s, c) ==> s[j] != c,
    decreases s.len(),
{
    if s.len() > 0 && s[0] != c {
        first_of_bounds(s.drop_first(), c);
        assert forall|j: int| 0 <= j < first_of(s, c) implies s[j] != c by {
            if j > 0 {
                assert(s[j] == s.drop_first()[j - 1]);
            }
        }
    }
}

/// The pieces of `s` between the separators `c`.
pub open spec fn split(s: Seq<char>, c: char) -> Seq<Seq<char>>
    decreases s.len(),
    via split_decreases
{
    let i = first_of(s, c);
    if i >= s.len() {
        seq![s]
    } else {
        seq![s.take(i)] + split(s.skip(i + 1), c)
    }
}

#[via_fn]
proof fn split_decreases(s: Seq<char>, c: char) {
    first_of_bounds(s, c);
}

/// No piece holds the separator.
pub proof fn pieces_hold_no_separator(s: Seq<char>, c: char, i: int)
    requires
        0 <= i < split(s, c).len(),
    ensures
        !split(s, c)[i].contains(c),
    decreases s.len(),
{
    first_of_bounds(s, c);
    let at = first_of(s, c);
    if i > 0 {
        pieces_hold_no_separator(s.skip(at + 1), c, i - 1);
    }
}

/// A text without the separator is one piece.
pub proof fn unseparated_texts_are_one_piece(s: Seq<char>, c: char)
    requires
        !s.contains(c),
    ensures
        split(s, c) == seq![s],
{
    first_of_bounds(s, c);
    assert(s.take(s.len() as int) == s);
}

/// The ranges of `c` between the separators `x`.
pub fn split_ranges(c: &[char], x: char) -> (r: Vec<(usize, usize)>)
    ensures
        r@.len() == split(c@, x).len(),
        forall|i: int|
            0 <= i < r@.len() ==> (#[trigger] r@[i]).0 <= r@[i].1 && r@[i].1 <= c@.len()
                && c@.subrange(r@[i].0 as int, r@[i].1 as int) == split(c@, x)[i],
{
    let mut r: Vec<(usize, usize)> = Vec::new();
    let mut start: usize = 0;
    assert(c@.skip(0) == c@);
    loop
        invariant
            start <= c@.len(),
            split(c@, x).len() == r@.len() + split(c@.skip(start as int), x).len(),
            forall|i: int|
                0 <= i < r@.len() ==> (#[trigger] r@[i]).0 <= r@[i].1 && r@[i].1 <= c@.len()
                    && c@.subrange(r@[i].0 as int, r@[i].1 as int) == split(c@, x)[i],
            forall|i: int|
                0 <= i < split(c@.skip(start as int), x).len() ==> split(c@, x)[r@.len() + i]
                    == #[trigger] split(c@.skip(start as int), x)[i],
        decreases c@.len() - start,
    {
        let end: usize = position_of(c, start, c.len(), x);
        let ghost rest = c@.skip(start as int);
        assert(c@.subrange(start as int, c@.len() as int) == rest);
        assert(rest.take(end - start) == c@.subrange(start as int, end as int));
        let ghost before = r@.len();
        if end >= c.len() {
            assert(rest.take(end - start) == rest);
            assert(split(rest, x)[0] == rest);
            r.push((start, end));
            return r;
        }
        assert(rest.skip(end - start + 1) == c@.skip(end + 1));
        let ghost tail = split(c@.skip(end + 1), x);
        assert(split(rest, x) == seq![rest.take(end - start)] + tail);
        assert(split(rest, x)[0] == rest.take(end - start));
        r.push((start, end));
        assert forall|i: int| 0 <= i < tail.len() implies split(c@, x)[before + 1 + i]
            == #[trigger] tail[i] by {
            assert(split(rest, x)[i + 1] == tail[i]);
        }
        start = end + 1;
    }
}

/// The decimal digit for `d`.
pub open spec fn digit_char(d: nat) -> char {
    (48 + d) as char
}

/// `n` in decimal.
pub open spec fn decimal(n: nat) -> Seq<char>
    decreases n,
{
    if n < 10 {
        seq![digit_char(n)]
    } else {
        decimal(n / 10).push(digit_char(n % 10))
    }
}

/// The last `width` decimal digits of `n`, with leading zeros.
pub open spec fn padded(n: nat, width: nat) -> Seq<char>
    decreases width,
{
    if width == 0 {
        seq![]
    } else {
        padded(n / 10, (width - 1) as nat).push(digit_char(n % 10))
    }
}

fn char_of_digit(d: u8) -> (r: char)
    requires
        d < 10,
    ensures
        r == digit_char(d as nat),
{
    (48 + d) as char
}

/// The decimal digits of `n` in reverse.
fn reversed_digits(n: u128) -> (r: Vec<char>)
    ensures
        r@.reverse() == decimal(n as nat),
{
    let mut r: Vec<char> = Vec::new();
    let mut rest: u128 = n;
    assert(decimal(rest as nat) + r@.reverse() == decimal(n as nat));
    while rest >= 10
        invariant
            decimal(rest as nat) + r@.reverse() == decimal(n as nat),
        decreases rest,
    {
        let ghost before = r@;
        r.push(char_of_digit((rest % 10) as u8));
        assert(r@.reverse() == seq![digit_char(rest as nat % 10)] + before.reverse());
        assert(decimal(rest as nat) + before.reverse() == decimal(rest as nat / 10) + r@.reverse());
        rest = rest / 10;
    }
    let ghost before = r@;
    r.push(char_of_digit(rest as u8));
    assert(r@.reverse() == seq![digit_char(rest as nat)] + before.reverse());
    r
}

/// Appends the characters of `r` to `s`, last first.
fn append_reversed(s: &mut String, r: &[char])
    ensures
        final(s)@ == old(s)@ + r@.reverse(),
{
    let mut i: usize = r.len();
    assert(old(s)@ + r@.skip(i as int).reverse() == old(s)@);
    while i > 0
        invariant
            i <= r@.len(),
            s@ == old(s)@ + r@.skip(i as int).reverse(),
        decreases i,
    {
        i = i - 1;
        s.push(r[i]);
        assert(r@.skip(i as int).reverse() == r@.skip(i + 1).reverse().push(r@[i as int]));
    }
    assert(r@.skip(0) == r@);
}

/// `n` in decimal.
pub fn decimal_text(n: u128) -> (r: String)
    ensures
        r@ == decimal(n as nat),
{
    let digits: Vec<char> = reversed_digits(n);
    let mut r: String = String::new();
    append_reversed(&mut r, digits.as_slice());
    assert(r@ == decimal(n as nat));
    r
}

/// The last `width` decimal digits of `n`, with leading zeros.
pub fn padded_text(n: u64, width: usize) -> (r: String)
    ensures
        r@ == padded(n as nat, width as nat),
{
    let mut digits: Vec<char> = Vec::new();
    let mut rest: u64 = n;
    let mut i: usize = 0;
    assert(padded(n as nat, width as nat) + digits@.reverse() == padded(n as nat, width as nat));
    while i < width
        invariant
            i <= width,
            padded(rest as nat, (width - i) as nat) + digits@.reverse() == padded(
                n as nat,
                width as nat,
            ),
        decreases width - i,
    {
        let ghost before = digits@;
        digits.push(char_of_digit((rest % 10) as u8));
        assert(digits@.reverse() == seq![digit_char(rest as nat % 10)] + before.reverse());
        assert(padded(rest as nat, (width - i) as nat) + before.reverse() == padded(
            rest as nat / 10,
            (width - i - 1) as nat,
        ) + digits@.reverse());
        rest = rest / 10;
        i = i + 1;
    }
    let mut r: String = String::new();
    append_reversed(&mut r, digits.as_slice());
    assert(r@ == padded(n as nat, width as nat));
    r
}

/// The number that a run of digits denotes.
pub open spec fn number(s: Seq<char>) -> nat
    decreases s.len(),
{
    if s.len() == 0 {
        0
    } else {
        10 * number(s.drop_last()) + (s.last() as nat - 48) as nat
    }
}

/// Whether every character is a digit.
pub open spec fn all_digits(s: Seq<char>) -> bool {
    forall|i: int| 0 <= i < s.len() ==> is_digit(#[trigger] s[i])
}

/// The unsigned number that `s` denotes, where it denotes one at most `max`:
/// one or more digits, perhaps behind a plus sign.
pub open spec fn unsigned(s: Seq<char>, max: nat) -> Option<nat> {
    let digits = if s.len() > 0 && s[0] == '+' {
        s.drop_first()
    } else {
        s
    };
    if digits.len() > 0 && all_digits(digits) && number(digits) <= max {
        Some(number(digits))
    } else {
        None
    }
}

proof fn number_grows(s: Seq<char>, i: int)
    requires
        0 <= i <= s.len(),
        all_digits(s),
    ensures
        number(s.take(i)) <= number(s),
    decreases s.len() - i,
{
    if i < s.len() {
        number_grows(s, i + 1);
        assert(s.take(i + 1).drop_last() == s.take(i));
        assert(is_digit(s[i]));
    } else {
        assert(s.take(i) == s);
    }
}

/// Reads an unsigned number from the range `from..to` of `c`.
pub fn parse_unsigned(c: &[char], from: usize, to: usize, max: u64) -> (r: Option<u64>)
    requires
        from <= to <= c@.len(),
    ensures
        match r {
            Some(n) => unsigned(c@.subrange(from as int, to as int), max as nat) == Some(n as nat),
            None => unsigned(c@.subrange(from as int, to as int), max as nat) is None,
        },
{
    let ghost whole = c@.subrange(from as int, to as int);
    let mut i: usize = from;
    if from < to && c[from] == '+' {
        i = from + 1;
        assert(whole.drop_first() == c@.subrange(from + 1, to as int));
    }
    let ghost digits = c@.subrange(i as int, to as int);
    let start: usize = i;
    if i >= to {
        return None;
    }
    let mut n: u64 = 0;
    assert(digits.take(0) == Seq::<char>::empty());
    while i < to
        invariant
            from <= start <= i <= to <= c@.len(),
            digits == c@.subrange(start as int, to as int),
            whole == c@.subrange(from as int, to as int),
            digits == if whole.len() > 0 && whole[0] == '+' {
                whole.drop_first()
            } else {
                whole
            },
            n == number(digits.take(i - start)),
            n <= max,
            forall|j: int| 0 <= j < i - start ==> is_digit(#[trigger] digits[j]),
        decreases to - i,
    {
        let x: char = c[i];
        assert(digits[i - start] == x);
        if !digit(x) {
            return None;
        }
        let d: u64 = (x as u32 - 48) as u64;
        let wide: u128 = 10 * (n as u128) + d as u128;
        assert(digits.take(i - start + 1).drop_last() == digits.take(i - start));
        assert(wide == number(digits.take(i - start + 1)));
        if wide > max as u128 {
            proof {
                if all_digits(digits) {
                    number_grows(digits, i - start + 1);
                }
            }
            return None;
        }
        n = wide as u64;
        i = i + 1;
    }
    assert(digits.take(digits.len() as int) == digits);
    Some(n)
}

/// A decimal number reads back as itself.
pub proof fn decimal_reads_back(n: nat)
    ensures
        decimal(n).len() > 0,
        all_digits(decimal(n)),
        number(decimal(n)) == n,
    decreases n,
{
    if n < 10 {
        let s = decimal(n);
        assert(s.drop_last() == Seq::<char>::empty());
        assert(number(s.drop_last()) == 0);
        assert(s.last() as nat == 48 + n);
    } else {
        decimal_reads_back(n / 10);
        assert(decimal(n).drop_last() == decimal(n / 10));
        assert(decimal(n).last() as nat == 48 + n % 10);
    }
}

/// What is printed with `decimal` is read back by `unsigned`.
pub proof fn unsigned_reads_decimal(n: nat, max: nat)
    requires
        n <= max,
    ensures
        unsigned(decimal(n), max) == Some(n),
{
    decimal_reads_back(n);
    assert(is_digit(decimal(n)[0]));
}

/// `n` copies of `c`.
pub open spec fn run_of(c: char, n: nat) -> Seq<char> {
    Seq::new(n, |i: int| c)
}

/// `n` copies of `c`.
pub fn repeated(c: char, n: usize) -> (r: String)
    ensures
        r@ == run_of(c, n as nat),
{
    let mut r: String = String::new();
    let mut i: usize = 0;
    assert(r@ == run_of(c, 0));
    while i < n
        invariant
            i <= n,
            r@ == run_of(c, i as nat),
        decreases n - i,
    {
        r.push(c);
        assert(run_of(c, (i + 1) as nat) == run_of(c, i as nat).push(c));
        i = i + 1;
    }
    r
}

/// The columns that `s` takes on a terminal: one for each character.
pub fn display_width(s: &str) -> (r: usize)
    ensures
        r == s@.len(),
{
    s.unicode_len()
}

/// The first `width` characters of `s`.
pub open spec fn clip(s: Seq<char>, width: nat) -> Seq<char> {
    if s.len() <= width {
        s
    } else {
        s.take(width as int)
    }
}

/// `s` cut to at most `width` columns.
pub fn truncate_to_width(s: &str, width: usize) -> (r: String)
    ensures
        r@ == clip(s@, width as nat),
{
    if s.unicode_len() <= width {
        s.to_owned()
    } else {
        assert(s@.subrange(0, width as int) == s@.take(width as int));
        s.substring_char(0, width).to_owned()
    }
}

/// The last place at or before `i` where `p` begins in `s`; -1 if nowhere.
pub open spec fn rfind_from(s: Seq<char>, p: Seq<char>, i: int) -> int
    decreases i + 1,
{
    if i < 0 {
        -1
    } else if i + p.len() <= s.len() && s.subrange(i, i + p.len()) == p {
        i
    } else {
        rfind_from(s, p, i - 1)
    }
}

/// The last place where `p` begins in `s`; -1 if nowhere.
pub open spec fn rfind(s: Seq<char>, p: Seq<char>) -> int {
    rfind_from(s, p, s.len() as int)
}

/// The last place where `p` begins in `c`.
pub fn last_occurrence(c: &[char], p: &[char]) -> (r: Option<usize>)
    ensures
        match r {
            Some(i) => i + p@.len() <= c@.len() && i == rfind(c@, p@),
            None => rfind(c@, p@) == -1,
        },
{
    let mut i: usize = c.len();
    loop
        invariant
            i <= c@.len(),
            rfind(c@, p@) == rfind_from(c@, p@, i as int),
        decreases i,
    {
        if p.len() <= c.len() - i && occurs_at(c, p, i) {
            return Some(i);
        }
        if i == 0 {
            assert(rfind_from(c@, p@, -1) == -1);
            return None;
        }
        i = i - 1;
    }
}

/// `c` in ASCII lower case.
pub fn lower(c: char) -> (r: char)
    ensures
        r == lowered(c),
{
    if 'A' <= c && c <= 'Z' {
        (c as u8 + 32) as char
    } else {
        c
    }
}

/// The range `from..to` of `c` in ASCII lower case.
pub fn lower_text(c: &[char], from: usize, to: usize) -> (r: String)
    requires
        from <= to <= c@.len(),
    ensures
        r@ == lowered_all(c@.subrange(from as int, to as int)),
{
    let mut r: String = String::new();
    let mut i: usize = from;
    while i < to
        invariant
            from <= i <= to <= c@.len(),
            r@ == lowered_all(c@.subrange(from as int, i as int)),
        decreases to - i,
    {
        r.push(lower(c[i]));
        assert(c@.subrange(from as int, i + 1) == c@.subrange(from as int, i as int).push(
            c@[i as int],
        ));
        assert(lowered_all(c@.subrange(from as int, i + 1)) == lowered_all(
            c@.subrange(from as int, i as int),
        ).push(lowered(c@[i as int])));
        i = i + 1;
    }
    r
}

/// `s` without one carriage return at its end.
pub open spec fn without_return(s: Seq<char>) -> Seq<char> {
    if s.len() > 0 && s.last() == '\r' {
        s.drop_last()
    } else {
        s
    }
}

/// The lines of `s`: what stands before each line feed, without a carriage
/// return right before it, and what follows the last one unless that is empty.
pub open spec fn lines(s: Seq<char>) -> Seq<Seq<char>>
    decreases s.len(),
    via lines_decreases
{
    let i = first_of(s, '\n');
    if i >= s.len() {
        if s.len() == 0 {
            seq![]
        } else {
            seq![s]
        }
    } else {
        seq![without_return(s.take(i))] + lines(s.skip(i + 1))
    }
}

#[via_fn]
proof fn lines_decreases(s: Seq<char>) {
    first_of_bounds(s, '\n');
}

/// The ranges of the lines of `c`.
pub fn line_ranges(c: &[char]) -> (r: Vec<(usize, usize)>)
    ensures
        r@.len() == lines(c@).len(),
        forall|i: int|
            0 <= i < r@.len() ==> (#[trigger] r@[i]).0 <= r@[i].1 && r@[i].1 <= c@.len()
                && c@.subrange(r@[i].0 as int, r@[i].1 as int) == lines(c@)[i],
{
    let mut r: Vec<(usize, usize)> = Vec::new();
    let mut start: usize = 0;
    assert(c@.skip(0) == c@);
    loop
        invariant
            start <= c@.len(),
            lines(c@).len() == r@.len() + lines(c@.skip(start as int)).len(),
            forall|i: int|
                0 <= i < r@.len() ==> (#[trigger] r@[i]).0 <= r@[i].1 && r@[i].1 <= c@.len()
                    && c@.subrange(r@[i].0 as int, r@[i].1 as int) == lines(c@)[i],
            forall|i: int|
                0 <= i < lines(c@.skip(start as int)).len() ==> lines(c@)[r@.len() + i]
                    == #[trigger] lines(c@.skip(start as int))[i],
        decreases c@.len() - start,
    {
        let stop: usize = position_of(c, start, c.len(), '\n');
        let ghost rest = c@.skip(start as int);
        assert(c@.subrange(start as int, c@.len() as int) == rest);
        assert(rest.take(stop - start) == c@.subrange(start as int, stop as int));
        let ghost before = r@.len();
        if stop >= c.len() {
            if start < c.len() {
                assert(rest.take(stop - start) == rest);
                assert(lines(rest)[0] == rest);
                r.push((start, stop));
            }
            return r;
        }
        let end: usize = if stop > start && c[stop - 1] == '\r' {
            stop - 1
        } else {
            stop
        };
        let ghost line = rest.take(stop - start);
        assert(without_return(line) == c@.subrange(start as int, end as int));
        assert(rest.skip(stop - start + 1) == c@.skip(stop + 1));
        let ghost tail = lines(c@.skip(stop + 1));
        assert(lines(rest) == seq![without_return(line)] + tail);
        assert(lines(rest)[0] == without_return(line));
        r.push((start, end));
        assert forall|i: int| 0 <= i < tail.len() implies lines(c@)[before + 1 + i]
            == #[trigger] tail[i] by {
            assert(lines(rest)[i + 1] == tail[i]);
        }
        start = stop + 1;
    }
}

/// The first white space in `s`; its length if there is none.
pub open spec fn first_space(s: Seq<char>) -> int
    decreases s.len(),
{
    if s.len() == 0 || is_space(s[0]) {
        0
    } else {
        1 + first_space(s.drop_first())
    }
}

/// The first white space of `c` from `from` on, before `to`; `to` if there is
/// none.
pub fn space_position(c: &[char], from: usize, to: usize) -> (r: usize)
    requires
        from <= to <= c@.len(),
    ensures
        from <= r <= to,
        r - from == first_space(c@.subrange(from as int, to as int)),
        r < to ==> is_space(c@[r as int]),
        forall|j: int| from <= j < r ==> !is_space(#[trigger] c@[j]),
{
    let mut i: usize = from;
    while i < to && !space(c[i])
        invariant
            from <= i <= to <= c@.len(),
            first_space(c@.subrange(from as int, to as int)) == (i - from) + first_space(
                c@.subrange(i as int, to as int),
            ),
            forall|j: int| from <= j < i ==> !is_space(#[trigger] c@[j]),
        decreases to - i,
    {
        assert(c@.subrange(i as int, to as int).drop_first() == c@.subrange(i + 1, to as int));
        i = i + 1;
    }
    i
}

/// Where `c` goes on behind leading white space.
pub fn skip_spaces(c: &[char], from: usize, to: usize) -> (r: usize)
    requires
        from <= to <= c@.len(),
    ensures
        from <= r <= to,
        c@.subrange(r as int, to as int) == trim_start(c@.subrange(from as int, to as int)),
        r < to ==> !is_space(c@[r as int]),
{
    let mut i: usize = from;
    while i < to && space(c[i])
        invariant
            from <= i <= to <= c@.len(),
            trim_start(c@.subrange(from as int, to as int)) == trim_start(
                c@.subrange(i as int, to as int),
            ),
        decreases to - i,
    {
        assert(c@.subrange(i as int, to as int).drop_first() == c@.subrange(i + 1, to as int));
        i = i + 1;
    }
    i
}

pub proof fn trim_start_shrinks(s: Seq<char>)
    ensures
        trim_start(s).len() <= s.len(),
        trim_start(s).len() > 0 ==> !is_space(trim_start(s)[0]),
    decreases s.len(),
{
    if s.len() > 0 && is_space(s[0]) {
        trim_start_shrinks(s.drop_first());
    }
}

pub proof fn first_space_bounds(s: Seq<char>)
    ensures
        0 <= first_space(s) <= s.len(),
        s.len() > 0 && !is_space(s[0]) ==> first_space(s) > 0,
    decreases s.len(),
{
    if s.len() > 0 && !is_space(s[0]) {
        first_space_bounds(s.drop_first());
    }
}

/// The words of `s`: its runs of characters other than white space.
pub open spec fn words(s: Seq<char>) -> Seq<Seq<char>>
    decreases s.len(),
    via words_decreases
{
    let t = trim_start(s);
    if t.len() == 0 {
        seq![]
    } else {
        let i = first_space(t);
        seq![t.take(i)] + words(t.skip(i))
    }
}

#[via_fn]
proof fn words_decreases(s: Seq<char>) {
    trim_start_shrinks(s);
    first_space_bounds(trim_start(s));
}

/// The ranges of the words in the range `from..to` of `c`.
pub fn word_ranges(c: &[char], from: usize, to: usize) -> (r: Vec<(usize, usize)>)
    requires
        from <= to <= c@.len(),
    ensures
        r@.len() == words(c@.subrange(from as int, to as int)).len(),
        forall|i: int|
            0 <= i < r@.len() ==> from <= (#[trigger] r@[i]).0 && r@[i].0 <= r@[i].1 && r@[i].1
                <= to && c@.subrange(r@[i].0 as int, r@[i].1 as int) == words(
                c@.subrange(from as int, to as int),
            )[i],
{
    let ghost whole = words(c@.subrange(from as int, to as int));
    let mut r: Vec<(usize, usize)> = Vec::new();
    let mut start: usize = from;
    loop
        invariant
            from <= start <= to <= c@.len(),
            whole == words(c@.subrange(from as int, to as int)),
            whole.len() == r@.len() + words(c@.subrange(start as int, to as int)).len(),
            forall|i: int|
                0 <= i < r@.len() ==> from <= (#[trigger] r@[i]).0 && r@[i].0 <= r@[i].1
                    && r@[i].1 <= to && c@.subrange(r@[i].0 as int, r@[i].1 as int) == whole[i],
            forall|i: int|
                0 <= i < words(c@.subrange(start as int, to as int)).len() ==> whole[r@.len() + i]
                    == #[trigger] words(c@.subrange(start as int, to as int))[i],
        decreases to - start,
    {
        let ghost rest = c@.subrange(start as int, to as int);
        let begin: usize = skip_spaces(c, start, to);
        let ghost t = c@.subrange(begin as int, to as int);
        assert(t == trim_start(rest));
        if begin >= to {
            return r;
        }
        let stop: usize = space_position(c, begin, to);
        proof {
            first_space_bounds(t);
            assert(t.take(stop - begin) == c@.subrange(begin as int, stop as int));
            assert(t.skip(stop - begin) == c@.subrange(stop as int, to as int));
        }
        let ghost tail = words(c@.subrange(stop as int, to as int));
        let ghost before = r@.len();
        assert(words(rest) == seq![t.take(stop - begin)] + tail);
        assert(words(rest)[0] == t.take(stop - begin));
        r.push((begin, stop));
        assert forall|i: int| 0 <= i < tail.len() implies whole[before + 1 + i]
            == #[trigger] tail[i] by {
            assert(words(rest)[i + 1] == tail[i]);
        }
        start = stop;
    }
}

/// `s` without its control characters.
pub open spec fn without_controls(s: Seq<char>) -> Seq<char> {
    s.filter(|c: char| !is_control(c))
}

/// The first `max` characters of the range `from..to` of `c` that are no
/// control characters.
pub fn visible_range(c: &[char], from: usize, to: usize, max: usize) -> (r: String)
    requires
        from <= to <= c@.len(),
    ensures
        r@ == clip(without_controls(c@.subrange(from as int, to as int)), max as nat),
{
    let ghost whole = c@.subrange(from as int, to as int);
    let ghost shows = |x: char| !is_control(x);
    let mut r: String = String::new();
    let mut kept: usize = 0;
    let mut i: usize = from;
    proof {
        reveal(Seq::filter);
        assert(whole.take(0) == Seq::<char>::empty());
    }
    while i < to
        invariant
            from <= i <= to <= c@.len(),
            whole == c@.subrange(from as int, to as int),
            shows == (|x: char| !is_control(x)),
            kept == r@.len() <= max,
            r@ == clip(whole.take(i - from).filter(shows), max as nat),
        decreases to - i,
    {
        let x: char = c[i];
        proof {
            reveal(Seq::filter);
            let next = whole.take(i - from + 1);
            assert(next.drop_last() == whole.take(i - from));
            assert(next.last() == x);
        }
        let ghost shown = whole.take(i - from).filter(shows);
        if !control(x) {
            if kept < max {
                r.push(x);
                kept = kept + 1;
                assert(r@ == clip(shown.push(x), max as nat));
            } else {
                assert(clip(shown.push(x), max as nat) == clip(shown, max as nat));
            }
        }
        i = i + 1;
    }
    assert(whole.take(whole.len() as int) == whole);
    r
}

/// The first `max` characters of `s` that are no control characters.
pub fn visible_text(s: &str, max: usize) -> (r: String)
    ensures
        r@ == clip(without_controls(s@), max as nat),
{
    let c: Vec<char> = chars_of(s);
    assert(c@.subrange(0, c@.len() as int) == s@);
    visible_range(c.as_slice(), 0, c.len(), max)
}

/// What reaches the screen of a foreign text holds no control character, so
/// it can carry no terminal escape, and is no longer than asked.
pub proof fn visible_text_is_harmless(s: Seq<char>, max: nat)
    ensures
        clip(without_controls(s), max).len() <= max,
        forall|i: int|
            0 <= i < clip(without_controls(s), max).len() ==> !is_control(
                #[trigger] clip(without_controls(s), max)[i],
            ),
{
    let shows = |x: char| !is_control(x);
    s.filter_lemma(shows);
    assert forall|i: int| 0 <= i < clip(without_controls(s), max).len() implies !is_control(
        #[trigger] clip(without_controls(s), max)[i],
    ) by {
        assert(shows(s.filter(shows)[i]));
    }
}

/// The texts of a list.
pub open spec fn texts(v: Seq<String>) -> Seq<Seq<char>> {
    v.map_values(|s: String| s@)
}

/// The parts of `v` with `sep` between them.
pub open spec fn joined(v: Seq<Seq<char>>, sep: Seq<char>) -> Seq<char>
    decreases v.len(),
{
    if v.len() == 0 {
        seq![]
    } else if v.len() == 1 {
        v[0]
    } else {
        joined(v.drop_last(), sep) + sep + v.last()
    }
}

/// The parts of `v` with `sep` between them.
pub fn join(v: &Vec<String>, sep: &str) -> (r: String)
    ensures
        r@ == joined(texts(v@), sep@),
{
    let mut r: String = String::new();
    let mut i: usize = 0;
    assert(texts(v@).take(0) == Seq::<Seq<char>>::empty());
    while i < v.len()
        invariant
            i <= v@.len(),
            r@ == joined(texts(v@).take(i as int), sep@),
        decreases v@.len() - i,
    {
        if i > 0 {
            r.append(sep);
        }
        r.append(v[i].as_str());
        proof {
            let next = texts(v@).take(i + 1);
            assert(next.drop_last() == texts(v@).take(i as int));
            assert(next.last() == v@[i as int]@);
            if i == 0 {
                assert(r@ == v@[0]@);
            }
        }
        i = i + 1;
    }
    assert(texts(v@).take(v@.len() as int) == texts(v@));
    r
}

/// What `String::from_utf8_lossy` makes of a slice of bytes.
pub uninterp spec fn lossy(bytes: Seq<u8>) -> Seq<char>;

/// `String::from_utf8_lossy`: the text of `bytes`, each invalid sequence
/// replaced. Which replacements stand in for an invalid sequence is left to
/// the name; valid bytes come out as the text that they encode.
#[verifier::external_body]
pub(crate) fn text_of_bytes(bytes: &[u8]) -> (r: String)
    ensures
        r@ == lossy(bytes@),
        vstd::utf8::valid_utf8(bytes@) ==> r@ == vstd::utf8::decode_utf8(bytes@),
{
    String::from_utf8_lossy(bytes).into_owned()
}

/// How a text prints for debugging: quoted, with escapes.
pub uninterp spec fn quoted(s: Seq<char>) -> Seq<char>;

/// The `Debug` form of a text. Which characters are escaped, and how, is left
/// to the name.
#[verifier::external_body]
pub(crate) fn quote(s: &str) -> (r: String)
    ensures
        r@ == quoted(s@),
{
    format!("{s:?}")
}

/// What `str::to_lowercase` makes of a text.
pub uninterp spec fn unicode_lower(s: Seq<char>) -> Seq<char>;

/// Whether every character is ASCII.
pub open spec fn all_ascii(s: Seq<char>) -> bool {
    forall|i: int| 0 <= i < s.len() ==> (#[trigger] s[i] as u32) < 128
}

/// `str::to_lowercase`: the lower case that Unicode defines; of an ASCII text
/// it is the ASCII lower case.
#[verifier::external_body]
pub(crate) fn to_lowercase(s: &str) -> (r: String)
    ensures
        r@ == unicode_lower(s@),
        all_ascii(s@) ==> r@ == lowered_all(s@),
{
    s.to_lowercase()
}

} // verus!
