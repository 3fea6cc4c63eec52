//! JSON status-endpoint probe (`--json-probe NAME=URL`).
//!
//! Some services only publish their state on a loopback status endpoint. This
//! probe keeps the numeric and boolean fields of the JSON object it gets back
//! (top level and one level of nesting, as `outer.inner`), and reports each
//! field's per-second change since the previous cycle, so a remote viewer can
//! read counters as rates without reaching the endpoint itself.
use std::str::FromStr;

use vstd::prelude::*;
use vstd::string::*;

use serde_json::from_slice;
use serde_json::Value::{Array, Bool, Null, Number, Object, String as Text};

use crate::common::span::Span;
use crate::common::url_parts::{parse_url, parse_view, url_parse, UrlModel, UrlParts};
use crate::reading::Reading;
use crate::table::{find_entry, lemma_found, Table};
use crate::text::{
    alphanumeric, chars_of, concat2, concat3, concat4, copied, first_of, is_alphanumeric,
    line_ranges, lines, lossy, parse_unsigned, position_of, quote, quoted, same, text_between,
    text_of_bytes, trim, trim_range, trimmed, unsigned, word_ranges, words,
};

verus! {

/// Largest response accepted.
pub const MAX_BODY: usize = 262_144;

/// Fields kept per probe.
pub const MAX_FIELDS: usize = 64;

/// Longest field name kept.
pub const MAX_KEY_LEN: usize = 64;

/// Longest probe name.
pub const MAX_NAME_LEN: usize = 32;

/// One `NAME=URL` pair from the command line.
#[derive(Clone, Debug, PartialEq, Eq)]
pub struct JsonProbeSpec {
    pub name: String,
    pub url: String,
}

/// What a pair names: probe and URL.
pub open spec fn spec_view(r: Result<JsonProbeSpec, String>) -> Result<
    (Seq<char>, Seq<char>),
    Seq<char>,
> {
    match r {
        Ok(s) => Ok((s.name@, s.url@)),
        Err(e) => Err(e@),
    }
}

/// The characters of a probe name.
pub open spec fn is_name_char(c: char) -> bool {
    is_alphanumeric(c) || c == '_' || c == '-'
}

/// A usable probe name.
pub open spec fn is_probe_name(name: Seq<char>) -> bool {
    0 < name.len() <= MAX_NAME_LEN && forall|i: int|
        0 <= i < name.len() ==> is_name_char(#[trigger] name[i])
}

/// What comes of a probe name, a URL as written, and the outcome of parsing it.
pub open spec fn judged_spec(
    name: Seq<char>,
    url: Seq<char>,
    parsed: Result<UrlModel, Seq<char>>,
) -> Result<(Seq<char>, Seq<char>), Seq<char>> {
    if !is_probe_name(name) {
        Err("probe name "@ + quoted(name) + " must be 1-32 characters of [A-Za-z0-9_-]"@)
    } else {
        match parsed {
            Err(e) => Err("bad URL "@ + quoted(url) + ": "@ + e),
            Ok(u) => if u.scheme != "http"@ || u.host is None {
                Err(quoted(url) + ": only http://host[:port]/path URLs are supported"@)
            } else {
                Ok((name, u.text))
            },
        }
    }
}

/// What `NAME=URL` stands for.
pub open spec fn parsed_spec(s: Seq<char>) -> Result<(Seq<char>, Seq<char>), Seq<char>> {
    let at = first_of(s, '=');
    if at >= s.len() {
        Err("expected NAME=URL, got "@ + quoted(s))
    } else {
        let url = s.skip(at + 1);
        judged_spec(trimmed(s.take(at)), url, url_parse(trimmed(url)))
    }
}

fn probe_name(name: &str) -> (r: bool)
    ensures
        r == is_probe_name(name@),
{
    let c: Vec<char> = chars_of(name);
    if c.len() == 0 || c.len() > MAX_NAME_LEN {
        return false;
    }
    let mut i: usize = 0;
    while i < c.len()
        invariant
            i <= c@.len(),
            c@ == name@,
            forall|j: int| 0 <= j < i ==> is_name_char(#[trigger] name@[j]),
        decreases c@.len() - i,
    {
        let x: char = c[i];
        if !(alphanumeric(x) || x == '_' || x == '-') {
            assert(!is_name_char(name@[i as int]));
            return false;
        }
        i = i + 1;
    }
    true
}

impl JsonProbeSpec {
    /// Judges a probe name and URL, given the outcome of parsing the URL.
    pub fn judge(name: &str, url: &str, parsed: Result<UrlParts, String>) -> (r: Result<
        JsonProbeSpec,
        String,
    >)
        ensures
            spec_view(r) == judged_spec(name@, url@, parse_view(parsed)),
    {
        if !probe_name(name) {
            let q: String = quote(name);
            return Err(
                concat3(
                    "probe name ",
                    q.as_str(),
                    " must be 1-32 characters of [A-Za-z0-9_-]",
                ),
            );
        }
        match parsed {
            Err(e) => {
                let q: String = quote(url);
                Err(concat4("bad URL ", q.as_str(), ": ", e.as_str()))
            },
            Ok(u) => {
                if !same(u.scheme.as_str(), "http") || u.host.is_none() {
                    let q: String = quote(url);
                    return Err(
                        concat2(q.as_str(), ": only http://host[:port]/path URLs are supported"),
                    );
                }
                Ok(JsonProbeSpec { name: copied(name), url: u.text })
            },
        }
    }

    /// Reads `NAME=URL`.
    pub fn parse(s: &str) -> (r: Result<JsonProbeSpec, String>)
        ensures
            spec_view(r) == parsed_spec(s@),
    {
        let c: Vec<char> = chars_of(s);
        let at: usize = position_of(c.as_slice(), 0, c.len(), '=');
        assert(c@.subrange(0, c@.len() as int) == s@);
        if at >= c.len() {
            let q: String = quote(s);
            return Err(concat2("expected NAME=URL, got ", q.as_str()));
        }
        let (a, b) = trim_range(c.as_slice(), 0, at);
        assert(c@.subrange(0, at as int) == s@.take(at as int));
        let name: String = text_between(c.as_slice(), a, b);
        let url: String = text_between(c.as_slice(), at + 1, c.len());
        assert(c@.subrange(at + 1, c@.len() as int) == s@.skip(at + 1));
        let bare: String = trim(url.as_str());
        JsonProbeSpec::judge(name.as_str(), url.as_str(), parse_url(bare.as_str()))
    }
}

impl FromStr for JsonProbeSpec {
    type Err = String;

    fn from_str(s: &str) -> (r: Result<JsonProbeSpec, String>) {
        JsonProbeSpec::parse(s)
    }
}

/// A JSON value that is no object: a number (absent where it has no binary64
/// value), a boolean, or something else.
#[derive(Clone, Copy, Debug, PartialEq, Eq, Structural)]
pub enum JsonScalar {
    Number(Option<Reading>),
    Bool(bool),
    Other,
}

/// A member of a JSON object, one level of nesting kept.
#[derive(Clone, Debug, PartialEq, Eq)]
pub enum JsonMember {
    Scalar(JsonScalar),
    Object(Vec<(String, JsonScalar)>),
}

/// A JSON document as the probe reads it: the members of the object, in the
/// order in which the parser gives them, or nothing where it is no object.
#[derive(Clone, Debug, PartialEq, Eq)]
pub struct JsonDocument {
    pub members: Option<Vec<(String, JsonMember)>>,
}

/// What a member holds.
pub enum MemberModel {
    Scalar(JsonScalar),
    Object(Seq<(Seq<char>, JsonScalar)>),
}

/// The members of an inner object.
pub open spec fn inner_view(v: Seq<(String, JsonScalar)>) -> Seq<(Seq<char>, JsonScalar)> {
    v.map_values(|e: (String, JsonScalar)| (e.0@, e.1))
}

impl View for JsonMember {
    type V = MemberModel;

    open spec fn view(&self) -> MemberModel {
        match *self {
            JsonMember::Scalar(s) => MemberModel::Scalar(s),
            JsonMember::Object(v) => MemberModel::Object(inner_view(v@)),
        }
    }
}

/// The members of a document.
pub type DocumentModel = Option<Seq<(Seq<char>, MemberModel)>>;

impl View for JsonDocument {
    type V = DocumentModel;

    open spec fn view(&self) -> DocumentModel {
        match self.members {
            Some(v) => Some(v@.map_values(|e: (String, JsonMember)| (e.0@, e.1@))),
            None => None,
        }
    }
}

/// What `serde_json::from_slice` reads from `bytes`, as far as the probe looks;
/// `None` where it is no JSON.
pub uninterp spec fn json_document(bytes: Seq<u8>) -> Option<DocumentModel>;

/// `serde_json::from_slice` into a `Value`, each value by its variant, numbers
/// by `Number::as_f64`. What given bytes hold is left to the name.
#[verifier::external_body]
fn read_json(bytes: &[u8]) -> (r: Option<JsonDocument>)
    ensures
        match r {
            Some(d) => json_document(bytes@) == Some(d@),
            None => json_document(bytes@) is None,
        },
{
    let scalar = |v| match v {
        Number(n) => JsonScalar::Number(n.as_f64().map(|x| Reading { bits: x.to_bits() })),
        Bool(b) => JsonScalar::Bool(b),
        Null | Text(_) | Array(_) | Object(_) => JsonScalar::Other,
    };
    let member = |v| match v {
        Object(m) => JsonMember::Object(m.into_iter().map(|(k, v)| (k, scalar(v))).collect()),
        other => JsonMember::Scalar(scalar(other)),
    };
    Some(JsonDocument { members: match from_slice(bytes).ok()? {
        Object(m) => Some(m.into_iter().map(|(k, v)| (k, member(v))).collect()),
        _ => None,
    } })
}

/// The characters of a field name.
pub open spec fn is_key_char(c: char) -> bool {
    is_alphanumeric(c) || c == '_' || c == '.' || c == '-'
}

/// A field name that is kept.
pub open spec fn is_field_key(key: Seq<char>) -> bool {
    key.len() <= MAX_KEY_LEN && forall|i: int|
        0 <= i < key.len() ==> is_key_char(#[trigger] key[i])
}

/// The number that a scalar counts as.
pub open spec fn scalar_number(v: JsonScalar) -> Option<Reading> {
    match v {
        JsonScalar::Number(n) => n,
        JsonScalar::Bool(b) => Some(
            Reading::of_natural(
                if b {
                    1
                } else {
                    0
                },
            ),
        ),
        JsonScalar::Other => None,
    }
}

/// Kept fields, and how many they are.
#[verifier::ext_equal]
pub struct Fields {
    pub values: Map<Seq<char>, Reading>,
    pub count: nat,
}

/// The fields after one more: dropped where there are enough already, where
/// its name is no field name, and where it is no finite number.
pub open spec fn with_field(f: Fields, key: Seq<char>, value: JsonScalar) -> Fields {
    if f.count >= MAX_FIELDS || !is_field_key(key) {
        f
    } else {
        match scalar_number(value) {
            Some(n) => if n.finite() {
                Fields {
                    values: f.values.insert(key, n),
                    count: if f.values.contains_key(key) {
                        f.count
                    } else {
                        f.count + 1
                    },
                }
            } else {
                f
            },
            None => f,
        }
    }
}

/// The fields after the first `n` members of the inner object under `outer`.
pub open spec fn with_inner(
    f: Fields,
    outer: Seq<char>,
    inner: Seq<(Seq<char>, JsonScalar)>,
    n: nat,
) -> Fields
    decreases n,
{
    if n == 0 {
        f
    } else {
        with_field(
            with_inner(f, outer, inner, (n - 1) as nat),
            outer + "."@ + inner[n - 1].0,
            inner[n - 1].1,
        )
    }
}

/// The fields of the first `n` members of an object.
pub open spec fn fields_of(members: Seq<(Seq<char>, MemberModel)>, n: nat) -> Fields
    decreases n,
{
    if n == 0 {
        Fields { values: Map::empty(), count: 0 }
    } else {
        let before = fields_of(members, (n - 1) as nat);
        match members[n - 1].1 {
            MemberModel::Scalar(v) => with_field(before, members[n - 1].0, v),
            MemberModel::Object(inner) => with_inner(before, members[n - 1].0, inner, inner.len()),
        }
    }
}

/// The numeric and boolean fields of a document.
pub open spec fn flat_fields(d: DocumentModel) -> Fields {
    match d {
        Some(members) => fields_of(members, members.len()),
        None => Fields { values: Map::empty(), count: 0 },
    }
}

/// The fields of a table.
pub open spec fn fields_in(t: Table<Reading>) -> Fields {
    Fields { values: t@, count: t.entries@.len() }
}

/// Numeric and boolean fields of a JSON object, top level and one level down
/// (`cache.hits`), capped at `MAX_FIELDS`.
pub fn flatten(json: &JsonDocument) -> (r: Table<Reading>)
    ensures
        fields_in(r) == flat_fields(json@),
        r.ordered(),
{
    let mut out: Table<Reading> = Table::new();
    match &json.members {
        None => {},
        Some(members) => {
            let ghost all = json@->0;
            let mut i: usize = 0;
            while i < members.len()
                invariant
                    i <= members@.len(),
                    all == members@.map_values(|e: (String, JsonMember)| (e.0@, e.1@)),
                    fields_in(out) == fields_of(all, i as nat),
                    out.ordered(),
                decreases members@.len() - i,
            {
                assert(all[i as int] == (members@[i as int].0@, members@[i as int].1@));
                match &members[i].1 {
                    JsonMember::Scalar(v) => {
                        insert(&mut out, copied(members[i].0.as_str()), *v);
                    },
                    JsonMember::Object(inner) => {
                        insert_inner(&mut out, members[i].0.as_str(), inner);
                    },
                }
                i = i + 1;
            }
        },
    }
    out
}

fn insert_inner(out: &mut Table<Reading>, outer: &str, inner: &Vec<(String, JsonScalar)>)
    requires
        old(out).ordered(),
    ensures
        final(out).ordered(),
        fields_in(*final(out)) == with_inner(
            fields_in(*old(out)),
            outer@,
            inner_view(inner@),
            inner@.len(),
        ),
{
    let mut k: usize = 0;
    while k < inner.len()
        invariant
            k <= inner@.len(),
            out.ordered(),
            fields_in(*out) == with_inner(
                fields_in(*old(out)),
                outer@,
                inner_view(inner@),
                k as nat,
            ),
        decreases inner@.len() - k,
    {
        let key: String = concat3(outer, ".", inner[k].0.as_str());
        assert(inner_view(inner@)[k as int] == (inner@[k as int].0@, inner@[k as int].1));
        insert(out, key, inner[k].1);
        k = k + 1;
    }
}

fn field_key(key: &str) -> (r: bool)
    ensures
        r == is_field_key(key@),
{
    let c: Vec<char> = chars_of(key);
    if c.len() > MAX_KEY_LEN {
        return false;
    }
    let mut i: usize = 0;
    while i < c.len()
        invariant
            i <= c@.len(),
            c@ == key@,
            forall|j: int| 0 <= j < i ==> is_key_char(#[trigger] key@[j]),
        decreases c@.len() - i,
    {
        let x: char = c[i];
        if !(alphanumeric(x) || x == '_' || x == '.' || x == '-') {
            assert(!is_key_char(key@[i as int]));
            return false;
        }
        i = i + 1;
    }
    true
}

fn insert(out: &mut Table<Reading>, key: String, value: JsonScalar)
    requires
        old(out).ordered(),
    ensures
        final(out).ordered(),
        fields_in(*final(out)) == with_field(fields_in(*old(out)), key@, value),
{
    if out.len() >= MAX_FIELDS || !field_key(key.as_str()) {
        return ;
    }
    let number: Option<Reading> = match value {
        JsonScalar::Number(n) => n,
        JsonScalar::Bool(b) => Some(
            Reading::from_u64(
                if b {
                    1
                } else {
                    0
                },
            ),
        ),
        JsonScalar::Other => None,
    };
    if let Some(n) = number {
        if n.is_finite() {
            out.insert(key, n);
        }
    }
}

/// What one probe returned in one cycle.
#[derive(Clone, Debug, PartialEq, Eq)]
pub struct JsonProbeSample {
    pub name: String,
    /// The endpoint answered 2xx with a JSON object.
    pub up: bool,
    pub values: Table<Reading>,
    /// Per-second change since the previous cycle, for fields present in both
    /// cycles that did not decrease (a decrease means a restart).
    pub rates: Table<Reading>,
}

/// What a sample holds.
#[verifier::ext_equal]
pub struct JsonSampleModel {
    pub name: Seq<char>,
    pub up: bool,
    pub values: Map<Seq<char>, Reading>,
    pub rates: Map<Seq<char>, Reading>,
}

impl View for JsonProbeSample {
    type V = JsonSampleModel;

    open spec fn view(&self) -> JsonSampleModel {
        JsonSampleModel {
            name: self.name@,
            up: self.up,
            values: self.values@,
            rates: self.rates@,
        }
    }
}

/// The samples of a list.
pub open spec fn json_samples(v: Seq<JsonProbeSample>) -> Seq<JsonSampleModel> {
    v.map_values(|s: JsonProbeSample| s@)
}

/// Whether the fields of every sample stand in the order of their names, each
/// once: the rates always, the values where those of the answer do.
pub open spec fn in_name_order(
    v: Seq<JsonProbeSample>,
    answers: Seq<Option<(Fetched, u64)>>,
) -> bool {
    forall|i: int|
        0 <= i < v.len() ==> (#[trigger] v[i]).rates.ordered() && (match answers[i] {
            Some((f, _)) => f.values.ordered() ==> v[i].values.ordered(),
            None => v[i].values.ordered(),
        })
}

/// The value under `key`, if any.
pub open spec fn value_under(m: Map<Seq<char>, Reading>, key: Seq<char>) -> Option<Reading> {
    if m.contains_key(key) {
        Some(m[key])
    } else {
        None
    }
}

impl JsonProbeSample {
    pub fn value(&self, key: &str) -> (r: Option<Reading>)
        ensures
            r == value_under(self@.values, key@),
    {
        match self.values.get(key) {
            Some(v) => Some(*v),
            None => None,
        }
    }

    pub fn rate(&self, key: &str) -> (r: Option<Reading>)
        ensures
            r == value_under(self@.rates, key@),
    {
        match self.rates.get(key) {
            Some(v) => Some(*v),
            None => None,
        }
    }
}

/// One endpoint's answer: whether it was 2xx with a JSON object, and its fields.
pub struct Fetched {
    pub up: bool,
    pub values: Table<Reading>,
}

/// What an answer with `status` and `body` comes to; `None` where the body is
/// no JSON. JSON that is no object has no fields, and its endpoint is not up.
pub fn fetched(status: u16, body: &[u8]) -> (r: Option<Fetched>)
    ensures
        match r {
            Some(f) => {
                &&& json_document(body@) is Some
                &&& f.up == (200 <= status < 300 && json_document(body@)->0 is Some)
                &&& fields_in(f.values) == flat_fields(json_document(body@)->0)
                &&& f.values.ordered()
            },
            None => json_document(body@) is None,
        },
{
    match read_json(body) {
        Some(json) => {
            let up: bool = 200 <= status && status < 300 && json.members.is_some();
            Some(Fetched { up, values: flatten(&json) })
        },
        None => None,
    }
}

/// Whether a field has a rate: it was there before and did not decrease.
pub open spec fn has_rate(
    before: Map<Seq<char>, Reading>,
    values: Map<Seq<char>, Reading>,
    key: Seq<char>,
) -> bool {
    values.contains_key(key) && before.contains_key(key) && values[key].at_least(before[key])
}

/// Per-second changes between two sets of values.
pub open spec fn change_rates(
    before: Map<Seq<char>, Reading>,
    values: Map<Seq<char>, Reading>,
    dt: Reading,
) -> Map<Seq<char>, Reading> {
    if (Reading { bits: 0 }).at_least(dt) {
        Map::empty()
    } else {
        Map::new(
            |k: Seq<char>| has_rate(before, values, k),
            |k: Seq<char>| values[k].difference(before[k]).quotient(dt),
        )
    }
}

/// The fields seen last under each probe name, and when.
pub type HistoryModel = Map<Seq<char>, (u64, Map<Seq<char>, Reading>)>;

/// What a table of earlier answers remembers.
pub open spec fn history_of(m: Map<Seq<char>, (u64, Table<Reading>)>) -> HistoryModel {
    m.map_values(|v: (u64, Table<Reading>)| (v.0, v.1@))
}

/// What is remembered and reported after the first `n` probes. An endpoint
/// that did not answer is reported down and forgotten.
pub open spec fn json_pass(
    names: Seq<Seq<char>>,
    answers: Seq<Option<(bool, Map<Seq<char>, Reading>, u64)>>,
    before: HistoryModel,
    n: nat,
) -> (HistoryModel, Seq<JsonSampleModel>)
    decreases n,
{
    if n == 0 {
        (before, seq![])
    } else {
        let (kept, out) = json_pass(names, answers, before, (n - 1) as nat);
        let name = names[n - 1];
        match answers[n - 1] {
            None => (
                kept.remove(name),
                out.push(
                    JsonSampleModel { name, up: false, values: Map::empty(), rates: Map::empty() },
                ),
            ),
            Some((up, values, now)) => {
                let rates = if kept.contains_key(name) {
                    change_rates(
                        kept[name].1,
                        values,
                        Span::spanning(kept[name].0, now).in_seconds(),
                    )
                } else {
                    Map::empty()
                };
                (
                    kept.insert(name, (now, values)),
                    out.push(JsonSampleModel { name, up, values, rates }),
                )
            },
        }
    }
}

/// What the answers say.
pub open spec fn answers_of(v: Seq<Option<(Fetched, u64)>>) -> Seq<
    Option<(bool, Map<Seq<char>, Reading>, u64)>,
> {
    v.map_values(
        |a: Option<(Fetched, u64)>|
            match a {
                Some((f, at)) => Some((f.up, f.values@, at)),
                None => None,
            },
    )
}

/// The names of the probes.
pub open spec fn probe_names(v: Seq<JsonProbeSpec>) -> Seq<Seq<char>> {
    v.map_values(|s: JsonProbeSpec| s.name@)
}

proof fn lemma_same_entries<V>(a: Seq<(String, V)>, b: Seq<(String, V)>, key: Seq<char>)
    requires
        a.len() == b.len(),
        forall|i: int| 0 <= i < a.len() ==> (#[trigger] a[i]).0@ == b[i].0@ && a[i].1 == b[i].1,
    ensures
        find_entry(a, key) == find_entry(b, key),
    decreases a.len(),
{
    if a.len() > 0 {
        let (x, y) = (a.drop_first(), b.drop_first());
        assert(a[0].0@ == b[0].0@);
        assert forall|i: int| 0 <= i < x.len() implies (#[trigger] x[i]).0@ == y[i].0@ && x[i].1
            == y[i].1 by {
            assert(x[i] == a[i + 1] && y[i] == b[i + 1]);
        }
        lemma_same_entries(x, y, key);
    }
}

/// A copy of `t`.
pub fn copy_readings(t: &Table<Reading>) -> (r: Table<Reading>)
    ensures
        r@ == t@,
        r.entries@.len() == t.entries@.len(),
        t.ordered() ==> r.ordered(),
{
    let mut entries: Vec<(String, Reading)> = Vec::new();
    let mut i: usize = 0;
    while i < t.entries.len()
        invariant
            i <= t.entries@.len(),
            entries@.len() == i,
            forall|j: int|
                0 <= j < i ==> (#[trigger] entries@[j]).0@ == t.entries@[j].0@ && entries@[j].1
                    == t.entries@[j].1,
        decreases t.entries@.len() - i,
    {
        entries.push((copied(t.entries[i].0.as_str()), t.entries[i].1));
        i = i + 1;
    }
    let r: Table<Reading> = Table { entries };
    proof {
        assert forall|k: Seq<char>| #[trigger] find_entry(r.entries@, k) == find_entry(
            t.entries@,
            k,
        ) by {
            lemma_same_entries(r.entries@, t.entries@, k);
        }
        assert(r@ == t@);
        if t.ordered() {
            assert forall|a: int, b: int| 0 <= a < b < r.entries@.len() implies crate::text::precedes(
                (#[trigger] r.entries@[a]).0@,
                (#[trigger] r.entries@[b]).0@,
            ) by {
                assert(crate::text::precedes(t.entries@[a].0@, t.entries@[b].0@));
            }
        }
    }
    r
}

/// The rates of `values` against what was seen before.
fn rates_against(before: &Table<Reading>, values: &Table<Reading>, dt: Reading) -> (r: Table<
    Reading,
>)
    ensures
        r@ == change_rates(before@, values@, dt),
        r.ordered(),
{
    let mut out: Table<Reading> = Table::new();
    let zero: Reading = Reading { bits: 0 };
    if zero.ge(dt) {
        return out;
    }
    let ghost wanted = change_rates(before@, values@, dt);
    let mut i: usize = 0;
    while i < values.entries.len()
        invariant
            i <= values.entries@.len(),
            out.ordered(),
            wanted == change_rates(before@, values@, dt),
            !(Reading { bits: 0 }).at_least(dt),
            forall|k: Seq<char>| #[trigger]
                out@.contains_key(k) <==> wanted.contains_key(k) && listed(
                    values.entries@,
                    i as int,
                    k,
                ),
            forall|k: Seq<char>| #[trigger] out@.contains_key(k) ==> out@[k] == wanted[k],
        decreases values.entries@.len() - i,
    {
        let key: String = copied(values.entries[i].0.as_str());
        let ghost prior = out@;
        proof {
            assert forall|k: Seq<char>| #[trigger] listed(values.entries@, i + 1, k) <==> (
            listed(values.entries@, i as int, k) || k == key@) by {
                if k == key@ {
                    assert(values.entries@[i as int].0@ == k);
                }
            }
        }
        match (values.get(key.as_str()), before.get(key.as_str())) {
            (Some(v), Some(p)) => {
                if v.ge(*p) {
                    assert(wanted.contains_key(key@));
                    out.insert(key, v.minus(*p).over(dt));
                } else {
                    assert(!wanted.contains_key(key@));
                }
            },
            _ => {
                assert(!wanted.contains_key(key@));
            },
        }
        i = i + 1;
    }
    proof {
        assert forall|k: Seq<char>| wanted.contains_key(k) implies #[trigger] out@.contains_key(
            k,
        ) by {
            let j = lemma_found(values.entries@, k);
            assert(values.entries@[j].0@ == k);
            assert(listed(values.entries@, values.entries@.len() as int, k));
        }
        assert(out@ == wanted);
    }
    out
}

/// Whether `key` stands among the first `n` entries.
spec fn listed<V>(entries: Seq<(String, V)>, n: int, key: Seq<char>) -> bool {
    exists|j: int| 0 <= j < n && j < entries.len() && (#[trigger] entries[j]).0@ == key
}

/// Remembers the previous values of the configured endpoints.
pub struct JsonProber {
    pub specs: Vec<JsonProbeSpec>,
    pub previous: Table<(u64, Table<Reading>)>,
}

impl JsonProber {
    pub fn new(specs: Vec<JsonProbeSpec>) -> (r: JsonProber)
        ensures
            r.specs == specs,
            history_of(r.previous@) == HistoryModel::empty(),
            r.previous.ordered(),
    {
        let r = JsonProber { specs, previous: Table::new() };
        assert(history_of(r.previous@) == HistoryModel::empty());
        r
    }

    /// Report every endpoint from one answer of each, in order, with the time
    /// of the answer in nanoseconds; an endpoint without an answer is down.
    pub fn sample(&mut self, answers: &[Option<(Fetched, u64)>]) -> (r: Vec<JsonProbeSample>)
        requires
            answers@.len() == old(self).specs@.len(),
        ensures
            final(self).specs == old(self).specs,
            (history_of(final(self).previous@), json_samples(r@)) == json_pass(
                probe_names(old(self).specs@),
                answers_of(answers@),
                history_of(old(self).previous@),
                answers@.len(),
            ),
            in_name_order(r@, answers@),
            old(self).previous.ordered() ==> final(self).previous.ordered(),
    {
        let mut out: Vec<JsonProbeSample> = Vec::new();
        let mut i: usize = 0;
        let ghost names = probe_names(self.specs@);
        let ghost facts = answers_of(answers@);
        assert(json_samples(out@) == Seq::<JsonSampleModel>::empty());
        while i < self.specs.len()
            invariant
                i <= self.specs@.len(),
                answers@.len() == self.specs@.len(),
                self.specs == old(self).specs,
                names == probe_names(self.specs@),
                facts == answers_of(answers@),
                (history_of(self.previous@), json_samples(out@)) == json_pass(
                    names,
                    facts,
                    history_of(old(self).previous@),
                    i as nat,
                ),
                out@.len() == i,
                in_name_order(out@, answers@),
                old(self).previous.ordered() ==> self.previous.ordered(),
            decreases self.specs@.len() - i,
        {
            let name: String = copied(self.specs[i].name.as_str());
            assert(names[i as int] == name@);
            let ghost kept = history_of(self.previous@);
            let ghost before = json_samples(out@);
            let row: JsonProbeSample = match &answers[i] {
                Some((f, now)) => {
                    assert(facts[i as int] == Some((f.up, f.values@, *now)));
                    let rates: Table<Reading> = self.rates(name.as_str(), *now, &f.values);
                    let stored: Table<Reading> = copy_readings(&f.values);
                    let ghost stored_view = stored@;
                    self.previous.insert(copied(name.as_str()), (*now, stored));
                    assert(history_of(self.previous@) == kept.insert(name@, (*now, stored_view)));
                    JsonProbeSample { name, up: f.up, values: copy_readings(&f.values), rates }
                },
                None => {
                    assert(facts[i as int] is None);
                    self.previous.remove(name.as_str());
                    assert(history_of(self.previous@) == kept.remove(name@));
                    JsonProbeSample { name, up: false, values: Table::new(), rates: Table::new() }
                },
            };
            out.push(row);
            assert(json_samples(out@) == before.push(row@));
            i = i + 1;
        }
        out
    }

    /// The rates of `values` since the previous answer of the probe `name`.
    fn rates(&self, name: &str, now: u64, values: &Table<Reading>) -> (r: Table<Reading>)
        ensures
            r@ == (if history_of(self.previous@).contains_key(name@) {
                let (then, before) = history_of(self.previous@)[name@];
                change_rates(before, values@, Span::spanning(then, now).in_seconds())
            } else {
                Map::empty()
            }),
            r.ordered(),
    {
        match self.previous.get(name) {
            None => Table::new(),
            Some(entry) => {
                let dt: Reading = Span::between(entry.0, now).seconds();
                rates_against(&entry.1, values, dt)
            },
        }
    }
}

/// A request to send: where to, and its text.
#[derive(Clone, Debug, PartialEq, Eq)]
pub struct HttpRequest {
    pub host: String,
    pub port: u16,
    pub text: String,
}

/// What a request says.
#[verifier::ext_equal]
pub struct RequestModel {
    pub host: Seq<char>,
    pub port: u16,
    pub text: Seq<char>,
}

/// The path and query that a URL asks for.
pub open spec fn target_of(u: UrlModel) -> Seq<char> {
    match u.query {
        Some(q) => u.path + "?"@ + q,
        None => u.path,
    }
}

/// The request for the outcome of parsing a URL.
pub open spec fn request_for(parsed: Result<UrlModel, Seq<char>>) -> Result<
    RequestModel,
    Seq<char>,
> {
    match parsed {
        Err(e) => Err(e),
        Ok(u) => match u.host {
            None => Err("no host"@),
            Some(host) => Ok(
                RequestModel {
                    host,
                    port: match u.known_port {
                        Some(p) => p,
                        None => 80,
                    },
                    text: "GET "@ + target_of(u) + " HTTP/1.0\r\nHost: "@ + host
                        + "\r\nAccept: application/json\r\nConnection: close\r\n\r\n"@,
                },
            ),
        },
    }
}

/// What a request outcome says.
pub open spec fn request_view(r: Result<HttpRequest, String>) -> Result<RequestModel, Seq<char>> {
    match r {
        Ok(q) => Ok(RequestModel { host: q.host@, port: q.port, text: q.text@ }),
        Err(e) => Err(e@),
    }
}

/// The request for a parsed URL.
pub fn build_request(parsed: Result<UrlParts, String>) -> (r: Result<HttpRequest, String>)
    ensures
        request_view(r) == request_for(parse_view(parsed)),
{
    match parsed {
        Err(e) => Err(e),
        Ok(u) => {
            let target: String = match &u.query {
                Some(q) => concat3(u.path.as_str(), "?", q.as_str()),
                None => copied(u.path.as_str()),
            };
            match &u.host {
                None => Err(copied("no host")),
                Some(host) => {
                    let port: u16 = match u.known_port {
                        Some(p) => p,
                        None => 80,
                    };
                    let text: String = crate::text::concat5(
                        "GET ",
                        target.as_str(),
                        " HTTP/1.0\r\nHost: ",
                        host.as_str(),
                        "\r\nAccept: application/json\r\nConnection: close\r\n\r\n",
                    );
                    Ok(HttpRequest { host: copied(host.as_str()), port, text })
                },
            }
        },
    }
}

/// The minimal HTTP/1.0 `GET` for `url`: one request, `Connection: close`.
pub fn http_request(url: &str) -> (r: Result<HttpRequest, String>)
    ensures
        request_view(r) == request_for(url_parse(url@)),
{
    build_request(parse_url(url))
}

/// The end of a header: two line ends in a row.
pub open spec fn ends_header(raw: Seq<u8>, i: int) -> bool {
    0 <= i && i + 4 <= raw.len() && raw[i] == 13 && raw[i + 1] == 10 && raw[i + 2] == 13 && raw[i
        + 3] == 10
}

/// Whether the header of `raw` ends at `i` and not before.
pub open spec fn header_end(raw: Seq<u8>, i: int) -> bool {
    ends_header(raw, i) && forall|j: int| 0 <= j < i ==> !ends_header(raw, j)
}

/// The status code in a response header: the second word of its first line.
pub open spec fn status_in(head: Seq<char>) -> Option<nat> {
    if lines(head).len() == 0 || words(lines(head)[0]).len() < 2 {
        None
    } else {
        unsigned(words(lines(head)[0])[1], u16::MAX as nat)
    }
}

fn status_code(head: &str) -> (r: Option<u16>)
    ensures
        match r {
            Some(n) => status_in(head@) == Some(n as nat),
            None => status_in(head@) is None,
        },
{
    let c: Vec<char> = chars_of(head);
    let ranges: Vec<(usize, usize)> = line_ranges(c.as_slice());
    if ranges.len() == 0 {
        return None;
    }
    let (from, to) = ranges[0];
    assert(ranges@[0] == (from, to));
    let parts: Vec<(usize, usize)> = word_ranges(c.as_slice(), from, to);
    if parts.len() < 2 {
        return None;
    }
    let (a, b) = parts[1];
    assert(parts@[1] == (a, b));
    match parse_unsigned(c.as_slice(), a, b, u16::MAX as u64) {
        Some(n) => Some(n as u16),
        None => None,
    }
}

/// What is made of a raw response: its status and body, or why it is refused.
pub fn parse_response(raw: &[u8]) -> (r: Result<(u16, Vec<u8>), String>)
    ensures
        match r {
            Ok((status, body)) => exists|i: int| #[trigger]
                header_end(raw@, i) && status_in(lossy(raw@.take(i))) == Some(status as nat)
                    && body@ == raw@.skip(i + 4) && body@.len() <= MAX_BODY,
            Err(e) => {
                ||| e@ == "no header terminator"@ && forall|i: int| !ends_header(raw@, i)
                ||| e@ == "no status line"@ && exists|i: int| #[trigger]
                    header_end(raw@, i) && status_in(lossy(raw@.take(i))) is None
                ||| e@ == "response too large"@ && exists|i: int| #[trigger]
                    header_end(raw@, i) && status_in(lossy(raw@.take(i))) is Some && raw@.len() - (i
                        + 4) > MAX_BODY
            },
        },
{
    let mut i: usize = 0;
    let len: usize = raw.len();
    while len >= 4 && i <= len - 4 && !(raw[i] == 13 && raw[i + 1] == 10 && raw[i + 2] == 13
        && raw[i + 3] == 10)
        invariant
            len == raw@.len(),
            i <= len,
            len >= 4 ==> i <= len - 3,
            forall|j: int| 0 <= j < i ==> !ends_header(raw@, j),
        decreases len - i,
    {
        i = i + 1;
    }
    if len < 4 || i > len - 4 {
        return Err(copied("no header terminator"));
    }
    assert(header_end(raw@, i as int));
    let (first, rest) = raw.split_at(i);
    assert(first@ == raw@.take(i as int));
    let head: String = text_of_bytes(first);
    let status: u16 = match status_code(head.as_str()) {
        Some(s) => s,
        None => {
            return Err(copied("no status line"));
        },
    };
    if len - i - 4 > MAX_BODY {
        return Err(copied("response too large"));
    }
    let mut body: Vec<u8> = Vec::new();
    let mut k: usize = i + 4;
    while k < len
        invariant
            len == raw@.len(),
            i + 4 <= k <= len,
            body@ == raw@.subrange(i + 4, k as int),
        decreases len - k,
    {
        body.push(raw[k]);
        assert(raw@.subrange(i + 4, k + 1) == raw@.subrange(i + 4, k as int).push(raw@[k as int]));
        k = k + 1;
    }
    assert(raw@.subrange(i + 4, len as int) == raw@.skip(i + 4));
    Ok((status, body))
}

/// Never more fields than the cap.
pub proof fn fields_are_capped(members: Seq<(Seq<char>, MemberModel)>, n: nat)
    requires
        n <= members.len(),
    ensures
        fields_of(members, n).count <= MAX_FIELDS,
    decreases n,
{
    if n > 0 {
        fields_are_capped(members, (n - 1) as nat);
        if let MemberModel::Object(inner) = members[n - 1].1 {
            inner_fields_are_capped(
                fields_of(members, (n - 1) as nat),
                members[n - 1].0,
                inner,
                inner.len(),
            );
        }
    }
}

proof fn inner_fields_are_capped(
    f: Fields,
    outer: Seq<char>,
    inner: Seq<(Seq<char>, JsonScalar)>,
    n: nat,
)
    requires
        f.count <= MAX_FIELDS,
    ensures
        with_inner(f, outer, inner, n).count <= MAX_FIELDS,
    decreases n,
{
    if n > 0 {
        inner_fields_are_capped(f, outer, inner, (n - 1) as nat);
    }
}

/// A field that decreased, as after a restart of the service, has no rate.
pub proof fn a_restart_has_no_rate(
    before: Map<Seq<char>, Reading>,
    values: Map<Seq<char>, Reading>,
    dt: Reading,
    key: Seq<char>,
)
    requires
        values.contains_key(key),
        before.contains_key(key),
        before[key].above(values[key]),
    ensures
        !change_rates(before, values, dt).contains_key(key),
{
}

} // verus!
