//! Copilot quota snapshots, carried in `x-quota-snapshot-<category>` response
//! headers of the form
//! `ent=<int>&ov=<float>&ovPerm=<bool>&rem=<float>&rst=<url-encoded-date>`.
use vstd::prelude::*;

use crate::keyed::KeyedMap;
use crate::numbers::{is_float_literal, is_float_literal_chars, parse_i64, parse_i64_chars};
use crate::outside::{header_entries, header_pairs, url_decode, url_decoded};
use crate::std_calls::push_char;
use crate::text::{
    ascii_lowercase, chars_equal, chars_of, lemma_first_index, lemma_split_on_nonempty, lowercase_chars, split_on,
    split_once, split_once_chars, string_of, strip_prefix, strip_prefix_chars,
};

verus! {

broadcast use vstd::string::group_string_axioms;

/// One quota snapshot. The two fractional fields keep the decimal text they
/// were given in, which `f64::from_str` accepts (see `is_float_literal`).
#[derive(Debug)]
pub struct CopilotQuotaSnapshot {
    pub entitlement: i64,
    pub overage: String,
    pub overage_permitted: bool,
    pub percent_remaining: String,
    pub resets_at: String,
}

/// The abstract content of a `CopilotQuotaSnapshot`.
pub struct QuotaSnapshotModel {
    pub entitlement: i64,
    pub overage: Seq<char>,
    pub overage_permitted: bool,
    pub percent_remaining: Seq<char>,
    pub resets_at: Seq<char>,
}

impl View for CopilotQuotaSnapshot {
    type V = QuotaSnapshotModel;

    open spec fn view(&self) -> QuotaSnapshotModel {
        QuotaSnapshotModel {
            entitlement: self.entitlement,
            overage: self.overage@,
            overage_permitted: self.overage_permitted,
            percent_remaining: self.percent_remaining@,
            resets_at: self.resets_at@,
        }
    }
}

// ---------------------------------------------------------------------------
// The `key=value&...` parameter list
// ---------------------------------------------------------------------------

/// The `key=value` pairs among `segments`, each split at its first `=`;
/// segments without `=` are skipped.
pub open spec fn segment_pairs(segments: Seq<Seq<char>>) -> Seq<(Seq<char>, Seq<char>)>
    decreases segments.len(),
{
    if segments.len() == 0 {
        Seq::empty()
    } else {
        let prev = segment_pairs(segments.drop_last());
        match split_once(segments.last(), '=') {
            Some(pair) => prev.push(pair),
            None => prev,
        }
    }
}

/// The `key=value` pairs of a header value, in order.
pub open spec fn query_pairs(raw: Seq<char>) -> Seq<(Seq<char>, Seq<char>)> {
    segment_pairs(split_on(raw, '&'))
}

/// The value of the last pair with the given key: collecting the pairs into
/// a map keeps the last value of a repeated key.
pub open spec fn last_value(pairs: Seq<(Seq<char>, Seq<char>)>, key: Seq<char>) -> Option<
    Seq<char>,
>
    decreases pairs.len(),
{
    if pairs.len() == 0 {
        None
    } else if pairs.last().0 == key {
        Some(pairs.last().1)
    } else {
        last_value(pairs.drop_last(), key)
    }
}

/// The value that a header value gives to `key`.
pub open spec fn quota_param(raw: Seq<char>, key: Seq<char>) -> Option<Seq<char>> {
    last_value(query_pairs(raw), key)
}

/// The snapshot that a header value describes: every one of `ent`, `ov`,
/// `ovPerm`, `rem` and `rst` present; `ent` an `i64`; `ov` and `rem`
/// floating-point literals; `rst` percent-decodable; `ovPerm` true exactly
/// when it reads `true`.
pub open spec fn quota_snapshot_spec(raw: Seq<char>) -> Option<QuotaSnapshotModel> {
    match (
        quota_param(raw, "ent"@),
        quota_param(raw, "ov"@),
        quota_param(raw, "ovPerm"@),
        quota_param(raw, "rem"@),
        quota_param(raw, "rst"@),
    ) {
        (Some(ent), Some(ov), Some(perm), Some(rem), Some(rst)) => {
            match (parse_i64(ent), url_decoded(rst)) {
                (Some(entitlement), Some(resets_at)) => {
                    if is_float_literal(ov) && is_float_literal(rem) {
                        Some(
                            QuotaSnapshotModel {
                                entitlement,
                                overage: ov,
                                overage_permitted: perm == "true"@,
                                percent_remaining: rem,
                                resets_at,
                            },
                        )
                    } else {
                        None
                    }
                },
                _ => None,
            }
        },
        _ => None,
    }
}

pub open spec fn pairs_view(pairs: Seq<(Vec<char>, Vec<char>)>) -> Seq<(Seq<char>, Seq<char>)> {
    Seq::new(pairs.len(), |i: int| (pairs[i].0@, pairs[i].1@))
}

/// The `key=value` pairs of `raw`, in order.
pub fn query_pairs_of(raw: &[char]) -> (r: Vec<(Vec<char>, Vec<char>)>)
    ensures
        pairs_view(r@) == query_pairs(raw@),
{
    let n = raw.len();
    let mut pairs: Vec<(Vec<char>, Vec<char>)> = Vec::new();
    let mut current: Vec<char> = Vec::new();
    proof {
        assert(raw@.take(0) =~= Seq::<char>::empty());
        assert(pairs_view(pairs@) =~= Seq::<(Seq<char>, Seq<char>)>::empty());
        assert(split_on(raw@.take(0), '&').drop_last() =~= Seq::<Seq<char>>::empty());
    }
    for i in 0..n
        invariant
            n == raw@.len(),
            pairs_view(pairs@) == segment_pairs(split_on(raw@.take(i as int), '&').drop_last()),
            current@ == split_on(raw@.take(i as int), '&').last(),
    {
        let ghost prefix = raw@.take(i as int);
        let ghost segs = split_on(prefix, '&');
        proof {
            lemma_split_on_nonempty(prefix, '&');
            assert(raw@.take(i + 1).drop_last() == prefix);
            assert(raw@.take(i + 1).last() == raw@[i as int]);
        }
        let c = raw[i];
        if c == '&' {
            let ghost before = pairs_view(pairs@);
            proof {
                assert(segs.drop_last().push(segs.last()) == segs);
            }
            match split_once_chars(&current, '=') {
                Some(pair) => {
                    pairs.push(pair);
                    assert(pairs_view(pairs@) =~= before.push((pair.0@, pair.1@)));
                },
                None => {},
            }
            current = Vec::new();
            proof {
                assert(split_on(raw@.take(i + 1), '&') == segs.push(Seq::<char>::empty()));
                assert(split_on(raw@.take(i + 1), '&').drop_last() == segs);
                assert(current@ =~= Seq::<char>::empty());
            }
        } else {
            current.push(c);
            proof {
                let next = split_on(raw@.take(i + 1), '&');
                assert(next == segs.update(segs.len() - 1, segs.last().push(c)));
                assert(next.drop_last() =~= segs.drop_last());
            }
        }
    }
    let ghost segs = split_on(raw@.take(n as int), '&');
    proof {
        lemma_split_on_nonempty(raw@.take(n as int), '&');
        assert(raw@.take(n as int) == raw@);
        assert(segs.drop_last().push(segs.last()) == segs);
    }
    let ghost before = pairs_view(pairs@);
    match split_once_chars(&current, '=') {
        Some(pair) => {
            pairs.push(pair);
            assert(pairs_view(pairs@) =~= before.push((pair.0@, pair.1@)));
        },
        None => {},
    }
    pairs
}

/// The value of the last pair with key `key`.
pub fn last_value_of(pairs: &Vec<(Vec<char>, Vec<char>)>, key: &[char]) -> (r: Option<Vec<char>>)
    ensures
        match r {
            Some(v) => last_value(pairs_view(pairs@), key@) == Some(v@),
            None => last_value(pairs_view(pairs@), key@) is None,
        },
{
    let mut i = pairs.len();
    assert(pairs_view(pairs@).take(i as int) =~= pairs_view(pairs@));
    while i > 0
        invariant
            i <= pairs@.len(),
            last_value(pairs_view(pairs@), key@) == last_value(
                pairs_view(pairs@).take(i as int),
                key@,
            ),
        decreases i,
    {
        let ghost upto = pairs_view(pairs@).take(i as int);
        assert(upto.drop_last() == pairs_view(pairs@).take(i - 1));
        assert(upto.last() == (pairs@[i - 1].0@, pairs@[i - 1].1@));
        if chars_equal(&pairs[i - 1].0, key) {
            return Some(pairs[i - 1].1.clone());
        }
        i = i - 1;
    }
    None
}

/// Parses one quota snapshot header value. Returns `None` unless every one of
/// `ent`, `ov`, `ovPerm`, `rem` and `rst` is present and well-formed.
pub fn parse_quota_snapshot_header(raw: &str) -> (r: Option<CopilotQuotaSnapshot>)
    ensures
        match r {
            Some(q) => quota_snapshot_spec(raw@) == Some(q@),
            None => quota_snapshot_spec(raw@) is None,
        },
        r matches Some(q) ==> {
            &&& Some(q.entitlement) == parse_i64(quota_param(raw@, "ent"@)->0)
            &&& Some(q.overage@) == quota_param(raw@, "ov"@)
            &&& q.overage_permitted == (quota_param(raw@, "ovPerm"@) == Some("true"@))
            &&& Some(q.percent_remaining@) == quota_param(raw@, "rem"@)
            &&& Some(q.resets_at@) == url_decoded(quota_param(raw@, "rst"@)->0)
        },
{
    proof {
        lemma_snapshot_fields(raw@);
    }
    let chars = chars_of(raw);
    let pairs = query_pairs_of(&chars);
    let ent = match last_value_of(&pairs, &chars_of("ent")) {
        Some(v) => v,
        None => return None,
    };
    let ov = match last_value_of(&pairs, &chars_of("ov")) {
        Some(v) => v,
        None => return None,
    };
    let perm = match last_value_of(&pairs, &chars_of("ovPerm")) {
        Some(v) => v,
        None => return None,
    };
    let rem = match last_value_of(&pairs, &chars_of("rem")) {
        Some(v) => v,
        None => return None,
    };
    let rst = match last_value_of(&pairs, &chars_of("rst")) {
        Some(v) => v,
        None => return None,
    };
    let entitlement = match parse_i64_chars(&ent) {
        Some(e) => e,
        None => return None,
    };
    if !is_float_literal_chars(&ov) || !is_float_literal_chars(&rem) {
        return None;
    }
    let overage_permitted = chars_equal(&perm, &chars_of("true"));
    let rst_text = string_of(&rst);
    let resets_at = match url_decode(rst_text.as_str()) {
        Some(t) => t,
        None => return None,
    };
    Some(
        CopilotQuotaSnapshot {
            entitlement,
            overage: string_of(&ov),
            overage_permitted,
            percent_remaining: string_of(&rem),
            resets_at,
        },
    )
}

// ---------------------------------------------------------------------------
// Response headers
// ---------------------------------------------------------------------------

/// `HeaderValue::to_str` accepts visible ASCII and tab.
pub open spec fn is_visible_ascii(b: u8) -> bool {
    (32 <= b && b < 127) || b == 9
}

/// The text of a header value, when `HeaderValue::to_str` accepts it.
pub open spec fn header_value_text(v: Seq<u8>) -> Option<Seq<char>> {
    if forall|i: int| 0 <= i < v.len() ==> is_visible_ascii(#[trigger] v[i]) {
        Some(Seq::new(v.len(), |i: int| v[i] as char))
    } else {
        None
    }
}

/// The text of a header value, as `HeaderValue::to_str` reads it.
pub fn header_value_str(v: &[u8]) -> (r: Option<String>)
    ensures
        match r {
            Some(s) => header_value_text(v@) == Some(s@),
            None => header_value_text(v@) is None,
        },
        r is Some <==> forall|i: int|
            0 <= i < v@.len() ==> (32 <= #[trigger] v@[i] < 127 || v@[i] == 9),
        r matches Some(s) ==> s@.len() == v@.len(),
        r matches Some(s) ==> forall|i: int| 0 <= i < v@.len() ==> #[trigger] s@[i] == v@[i] as char,
{
    let n = v.len();
    let mut s = String::new();
    for i in 0..n
        invariant
            n == v@.len(),
            s@.len() == i,
            forall|k: int| 0 <= k < i ==> is_visible_ascii(#[trigger] v@[k]),
            forall|k: int| 0 <= k < i ==> #[trigger] s@[k] == v@[k] as char,
    {
        let b = v[i];
        if !((32 <= b && b < 127) || b == 9) {
            return None;
        }
        push_char(&mut s, b as char);
    }
    assert(s@ =~= Seq::new(v@.len(), |i: int| v@[i] as char));
    Some(s)
}

/// The category that a header name gives: what follows
/// `x-quota-snapshot-` in the lower-cased name.
pub open spec fn header_category(name: Seq<char>) -> Option<Seq<char>> {
    strip_prefix(ascii_lowercase(name), "x-quota-snapshot-"@)
}

/// The snapshot that a header value gives: its text, parsed.
pub open spec fn header_snapshot(value: Seq<u8>) -> Option<QuotaSnapshotModel> {
    match header_value_text(value) {
        Some(text) => quota_snapshot_spec(text),
        None => None,
    }
}

/// Whether a header pair carries a quota snapshot: its name has a category
/// and its value parses.
pub open spec fn carries_quota(entry: (Seq<char>, Seq<u8>)) -> bool {
    header_category(entry.0) is Some && header_snapshot(entry.1) is Some
}

/// The snapshots that a list of `(name, value)` header pairs carries, by
/// category: a pair counts when its name, lower-cased, starts with
/// `x-quota-snapshot-`, its value is text and that text parses; a later pair
/// for a category replaces an earlier one.
pub open spec fn quota_headers_spec(entries: Seq<(Seq<char>, Seq<u8>)>) -> Map<
    Seq<char>,
    QuotaSnapshotModel,
>
    decreases entries.len(),
{
    if entries.len() == 0 {
        Map::empty()
    } else {
        let prev = quota_headers_spec(entries.drop_last());
        match (header_category(entries.last().0), header_snapshot(entries.last().1)) {
            (Some(category), Some(q)) => prev.insert(category, q),
            _ => prev,
        }
    }
}

/// `quotas` holds, under the same keys, snapshots whose contents are `model`.
pub open spec fn snapshots_match(
    quotas: Map<Seq<char>, CopilotQuotaSnapshot>,
    model: Map<Seq<char>, QuotaSnapshotModel>,
) -> bool {
    &&& quotas.dom() == model.dom()
    &&& forall|k: Seq<char>| #[trigger] quotas.contains_key(k) ==> quotas[k]@ == model[k]
}

/// The quota snapshots that a response's headers carry, by category.
pub fn parse_copilot_quota_headers(headers: &http::HeaderMap) -> (r: KeyedMap<CopilotQuotaSnapshot>)
    ensures
        snapshots_match(r@, quota_headers_spec(header_entries(*headers))),
        r@.dom().len() <= header_entries(*headers).len(),
        forall|k: Seq<char>|
            #[trigger] r@.contains_key(k) ==> exists|i: int|
                0 <= i < header_entries(*headers).len() && carries_quota(
                    #[trigger] header_entries(*headers)[i],
                ) && header_category(header_entries(*headers)[i].0) == Some(k),
{
    let ghost entries = header_entries(*headers);
    let pairs = header_pairs(headers);
    let prefix = chars_of("x-quota-snapshot-");
    let mut quotas: KeyedMap<CopilotQuotaSnapshot> = KeyedMap::new();
    let n = pairs.len();
    proof {
        assert(entries.take(0) =~= Seq::<(Seq<char>, Seq<u8>)>::empty());
        assert(quotas@ =~= Map::<Seq<char>, CopilotQuotaSnapshot>::empty());
        assert(quota_headers_spec(entries.take(0)) =~= Map::<
            Seq<char>,
            QuotaSnapshotModel,
        >::empty());
    }
    for i in 0..n
        invariant
            n == pairs@.len(),
            n == entries.len(),
            forall|k: int| 0 <= k < n ==> (#[trigger] pairs@[k].0@, pairs@[k].1@) == entries[k],
            prefix@ == "x-quota-snapshot-"@,
            snapshots_match(quotas@, quota_headers_spec(entries.take(i as int))),
    {
        let ghost before = quotas@;
        proof {
            assert(entries.take(i + 1).drop_last() == entries.take(i as int));
            assert(entries.take(i + 1).last() == entries[i as int]);
            assert((pairs@[i as int].0@, pairs@[i as int].1@) == entries[i as int]);
        }
        let name = lowercase_chars(&chars_of(pairs[i].0.as_str()));
        match strip_prefix_chars(&name, &prefix) {
            Some(category) => match header_value_str(&pairs[i].1) {
                Some(text) => match parse_quota_snapshot_header(text.as_str()) {
                    Some(snapshot) => {
                        let key = string_of(&category);
                        quotas.insert(key, snapshot);
                        assert(snapshots_match(
                            quotas@,
                            quota_headers_spec(entries.take(i + 1)),
                        ));
                    },
                    None => {},
                },
                None => {},
            },
            None => {},
        }
    }
    proof {
        assert(entries.take(n as int) == entries);
        lemma_quota_headers_characterised(entries);
        assert forall|k: Seq<char>| #[trigger] quotas@.contains_key(k) implies exists|i: int|
            0 <= i < entries.len() && carries_quota(#[trigger] entries[i]) && header_category(
                entries[i].0,
            ) == Some(k) by {
            assert(quota_headers_spec(entries).contains_key(k));
        }
    }
    quotas
}

// ---------------------------------------------------------------------------
// Laws
// ---------------------------------------------------------------------------

/// Splitting `r & t`, where `t` holds no `&`, gives the pieces of `r` and
/// then `t`.
proof fn lemma_split_on_append(r: Seq<char>, t: Seq<char>)
    requires
        !t.contains('&'),
    ensures
        split_on(r + seq!['&'] + t, '&') == split_on(r, '&').push(t),
    decreases t.len(),
{
    let s = r + seq!['&'] + t;
    if t.len() == 0 {
        assert(s.drop_last() =~= r);
        assert(t =~= Seq::<char>::empty());
    } else {
        let u = t.drop_last();
        assert(!u.contains('&')) by {
            if u.contains('&') {
                let k = choose|k: int| 0 <= k < u.len() && u[k] == '&';
                assert(t[k] == '&');
            }
        }
        lemma_split_on_append(r, u);
        assert(s.drop_last() =~= r + seq!['&'] + u);
        assert(s.last() == t.last());
        assert(t.last() != '&') by {
            assert(t[t.len() - 1] == t.last());
        }
        let prev = split_on(r, '&').push(u);
        assert(u.push(t.last()) =~= t);
        assert(prev.update(prev.len() - 1, prev.last().push(s.last())) =~= split_on(r, '&').push(
            t,
        ));
    }
}

/// A parameter given again later in a header value overrides the earlier
/// one: after `&key=value` is appended, `key` reads `value`.
pub proof fn lemma_later_parameter_wins(raw: Seq<char>, key: Seq<char>, value: Seq<char>)
    requires
        !key.contains('&'),
        !key.contains('='),
        !value.contains('&'),
    ensures
        quota_param(raw + seq!['&'] + key + seq!['='] + value, key) == Some(value),
{
    let pair = key + seq!['='] + value;
    assert(!pair.contains('&')) by {
        if pair.contains('&') {
            let k = choose|k: int| 0 <= k < pair.len() && pair[k] == '&';
            if k < key.len() {
                assert(key[k] == '&');
            } else if k > key.len() {
                assert(value[k - key.len() - 1] == '&');
            }
        }
    }
    assert(raw + seq!['&'] + key + seq!['='] + value =~= raw + seq!['&'] + pair);
    lemma_split_on_append(raw, pair);
    let segs = split_on(raw, '&').push(pair);
    assert(segs.drop_last() == split_on(raw, '&'));
    assert forall|k: int| 0 <= k < key.len() implies pair[k] != '=' by {
        assert(pair[k] == key[k]);
        if key[k] == '=' {
            assert(key.contains('='));
        }
    }
    lemma_first_index(pair, '=', key.len() as int);
    assert(pair.take(key.len() as int) =~= key);
    assert(pair.skip(key.len() as int + 1) =~= value);
}

/// A quota header that parses sets its category to its snapshot, whatever
/// came before it for that category.
pub proof fn lemma_last_quota_header_wins(
    entries: Seq<(Seq<char>, Seq<u8>)>,
    name: Seq<char>,
    value: Seq<u8>,
    category: Seq<char>,
    snapshot: QuotaSnapshotModel,
)
    requires
        header_category(name) == Some(category),
        header_snapshot(value) == Some(snapshot),
    ensures
        quota_headers_spec(entries.push((name, value))) == quota_headers_spec(entries).insert(
            category,
            snapshot,
        ),
{
    assert(entries.push((name, value)).drop_last() == entries);
}

/// No header, no snapshot.
pub proof fn lemma_no_headers_no_quotas()
    ensures
        quota_headers_spec(Seq::empty()) == Map::<Seq<char>, QuotaSnapshotModel>::empty(),
{
}

/// A header that carries no quota (its lower-cased name does not start with
/// `x-quota-snapshot-`, or its value does not parse), wherever it stands
/// among the headers, changes nothing.
pub proof fn lemma_header_without_quota_ignored(
    entries: Seq<(Seq<char>, Seq<u8>)>,
    i: int,
    name: Seq<char>,
    value: Seq<u8>,
)
    requires
        0 <= i <= entries.len(),
        !carries_quota((name, value)),
    ensures
        quota_headers_spec(entries.insert(i, (name, value))) == quota_headers_spec(entries),
    decreases entries.len(),
{
    let more = entries.insert(i, (name, value));
    if i == entries.len() {
        assert(more.drop_last() =~= entries);
        assert(more.last() == (name, value));
    } else {
        lemma_header_without_quota_ignored(entries.drop_last(), i, name, value);
        assert(more.drop_last() =~= entries.drop_last().insert(i, (name, value)));
        assert(more.last() == entries.last());
    }
}

/// The quota map, described directly: its keys are the categories of the
/// headers that carry a quota, each maps to the snapshot of the last such
/// header of its category, and there are no more keys than headers.
pub proof fn lemma_quota_headers_characterised(entries: Seq<(Seq<char>, Seq<u8>)>)
    ensures
        forall|k: Seq<char>|
            #[trigger] quota_headers_spec(entries).contains_key(k) <==> exists|i: int|
                0 <= i < entries.len() && carries_quota(#[trigger] entries[i]) && header_category(
                    entries[i].0,
                ) == Some(k),
        forall|k: Seq<char>, i: int|
            0 <= i < entries.len() && carries_quota(#[trigger] entries[i]) && header_category(
                entries[i].0,
            ) == Some(k) && (forall|j: int|
                i < j < entries.len() ==> !(carries_quota(#[trigger] entries[j])
                    && header_category(entries[j].0) == Some(k))) ==> #[trigger] quota_headers_spec(
                entries,
            )[k] == header_snapshot(entries[i].1)->0,
        quota_headers_spec(entries).dom().finite(),
        quota_headers_spec(entries).dom().len() <= entries.len(),
    decreases entries.len(),
{
    if entries.len() > 0 {
        let prev_entries = entries.drop_last();
        lemma_quota_headers_characterised(prev_entries);
        let prev = quota_headers_spec(prev_entries);
        let n = entries.len() - 1;
        let last = entries.last();
        assert(entries[n] == last);
        assert forall|i: int| 0 <= i < n implies #[trigger] entries[i] == prev_entries[i] by {}
        assert forall|k: Seq<char>|
            #[trigger] quota_headers_spec(entries).contains_key(k) <==> exists|i: int|
                0 <= i < entries.len() && carries_quota(#[trigger] entries[i]) && header_category(
                    entries[i].0,
                ) == Some(k) by {
            if quota_headers_spec(entries).contains_key(k) {
                if carries_quota(last) && header_category(last.0) == Some(k) {
                    assert(carries_quota(entries[n]));
                } else {
                    assert(prev.contains_key(k));
                    let i = choose|i: int|
                        0 <= i < prev_entries.len() && carries_quota(#[trigger] prev_entries[i])
                            && header_category(prev_entries[i].0) == Some(k);
                    assert(entries[i] == prev_entries[i]);
                }
            }
            if exists|i: int|
                0 <= i < entries.len() && carries_quota(#[trigger] entries[i]) && header_category(
                    entries[i].0,
                ) == Some(k) {
                let i = choose|i: int|
                    0 <= i < entries.len() && carries_quota(#[trigger] entries[i])
                        && header_category(entries[i].0) == Some(k);
                if i < n {
                    assert(prev_entries[i] == entries[i]);
                    assert(prev.contains_key(k));
                }
            }
        }
        assert forall|k: Seq<char>, i: int|
            0 <= i < entries.len() && carries_quota(#[trigger] entries[i]) && header_category(
                entries[i].0,
            ) == Some(k) && (forall|j: int|
                i < j < entries.len() ==> !(carries_quota(#[trigger] entries[j])
                    && header_category(entries[j].0) == Some(k))) implies #[trigger] quota_headers_spec(
            entries,
        )[k] == header_snapshot(entries[i].1)->0 by {
            if i < n {
                assert(!(carries_quota(entries[n]) && header_category(entries[n].0) == Some(k)));
                assert(prev_entries[i] == entries[i]);
                assert forall|j: int| i < j < prev_entries.len() implies !(carries_quota(
                    #[trigger] prev_entries[j],
                ) && header_category(prev_entries[j].0) == Some(k)) by {
                    assert(prev_entries[j] == entries[j]);
                }
            }
        }
    }
}

/// A key that appears once among the pairs is read as its value.
proof fn lemma_last_value_unique(pairs: Seq<(Seq<char>, Seq<char>)>, key: Seq<char>)
    requires
        key_at_most_once(pairs, key),
    ensures
        forall|v: Seq<char>| #[trigger] pairs.contains((key, v)) <==> last_value(pairs, key) == Some(v),
    decreases pairs.len(),
{
    if pairs.len() > 0 {
        let prev = pairs.drop_last();
        let n = pairs.len() - 1;
        assert(key_at_most_once(prev, key)) by {
            assert forall|i: int, j: int|
                0 <= i < j < prev.len() && #[trigger] prev[i].0 == key implies #[trigger] prev[j].0
                != key by {
                assert(prev[i] == pairs[i] && prev[j] == pairs[j]);
            }
        }
        lemma_last_value_unique(prev, key);
        assert(pairs[n] == pairs.last());
        assert forall|v: Seq<char>| #[trigger] pairs.contains((key, v)) <==> last_value(pairs, key) == Some(v) by {
            if pairs.contains((key, v)) {
                let i = choose|i: int| 0 <= i < pairs.len() && pairs[i] == (key, v);
                if i < n {
                    assert(prev[i] == pairs[i]);
                    assert(prev.contains((key, v)));
                    if pairs.last().0 == key {
                        assert(pairs[i].0 == key);
                    }
                }
            }
            if last_value(pairs, key) == Some(v) {
                if pairs.last().0 == key {
                    assert(pairs[n] == (key, v));
                } else {
                    assert(prev.contains((key, v)));
                    let i = choose|i: int| 0 <= i < prev.len() && prev[i] == (key, v);
                    assert(pairs[i] == prev[i]);
                }
            }
        }
    }
}

/// `key` is the key of at most one pair.
pub open spec fn key_at_most_once(pairs: Seq<(Seq<char>, Seq<char>)>, key: Seq<char>) -> bool {
    forall|i: int, j: int|
        0 <= i < j < pairs.len() && #[trigger] pairs[i].0 == key ==> #[trigger] pairs[j].0 != key
}

/// Two header values agree on `key`: each gives it in at most one pair, and
/// they give it the same values.
pub open spec fn same_parameter(raw: Seq<char>, other: Seq<char>, key: Seq<char>) -> bool {
    &&& key_at_most_once(query_pairs(raw), key)
    &&& key_at_most_once(query_pairs(other), key)
    &&& forall|v: Seq<char>|
        #[trigger] query_pairs(raw).contains((key, v)) <==> query_pairs(other).contains((key, v))
}

/// The order of the parameters does not matter, nor do parameters with other
/// keys: two header values that give each of `ent`, `ov`, `ovPerm`, `rem` and
/// `rst` once, with the same values, describe the same snapshot.
pub proof fn lemma_parameter_order_and_extras_ignored(raw: Seq<char>, other: Seq<char>)
    requires
        same_parameter(raw, other, "ent"@),
        same_parameter(raw, other, "ov"@),
        same_parameter(raw, other, "ovPerm"@),
        same_parameter(raw, other, "rem"@),
        same_parameter(raw, other, "rst"@),
    ensures
        quota_snapshot_spec(raw) == quota_snapshot_spec(other),
{
    lemma_same_param(raw, other, "ent"@);
    lemma_same_param(raw, other, "ov"@);
    lemma_same_param(raw, other, "ovPerm"@);
    lemma_same_param(raw, other, "rem"@);
    lemma_same_param(raw, other, "rst"@);
}

proof fn lemma_same_param(raw: Seq<char>, other: Seq<char>, key: Seq<char>)
    requires
        same_parameter(raw, other, key),
    ensures
        quota_param(raw, key) == quota_param(other, key),
{
    lemma_last_value_unique(query_pairs(raw), key);
    lemma_last_value_unique(query_pairs(other), key);
    match quota_param(raw, key) {
        Some(v) => {
            assert(query_pairs(raw).contains((key, v)));
            assert(query_pairs(other).contains((key, v)));
        },
        None => {
            if quota_param(other, key) is Some {
                let v = quota_param(other, key)->0;
                assert(query_pairs(other).contains((key, v)));
                assert(query_pairs(raw).contains((key, v)));
            }
        },
    }
}

/// The pairs of a header value are its `&`-separated pieces that hold `=`,
/// each split at its first `=`; pieces without `=` give no pair.
pub proof fn lemma_query_pairs_from_pieces(raw: Seq<char>)
    ensures
        forall|p: (Seq<char>, Seq<char>)|
            #[trigger] query_pairs(raw).contains(p) <==> exists|i: int|
                0 <= i < split_on(raw, '&').len() && split_once(
                    #[trigger] split_on(raw, '&')[i],
                    '=',
                ) == Some(p),
{
    lemma_segment_pairs_contains(split_on(raw, '&'));
}

proof fn lemma_segment_pairs_contains(segments: Seq<Seq<char>>)
    ensures
        forall|p: (Seq<char>, Seq<char>)|
            #[trigger] segment_pairs(segments).contains(p) <==> exists|i: int|
                0 <= i < segments.len() && split_once(#[trigger] segments[i], '=') == Some(p),
    decreases segments.len(),
{
    if segments.len() > 0 {
        let prev = segments.drop_last();
        let n = segments.len() - 1;
        lemma_segment_pairs_contains(prev);
        assert(segments[n] == segments.last());
        assert forall|p: (Seq<char>, Seq<char>)|
            #[trigger] segment_pairs(segments).contains(p) <==> exists|i: int|
                0 <= i < segments.len() && split_once(#[trigger] segments[i], '=') == Some(p) by {
            let pp = segment_pairs(prev);
            if segment_pairs(segments).contains(p) {
                let k = choose|k: int| 0 <= k < segment_pairs(segments).len() && segment_pairs(segments)[k] == p;
                if k < pp.len() {
                    assert(pp[k] == p);
                    assert(pp.contains(p));
                    let i = choose|i: int| 0 <= i < prev.len() && split_once(#[trigger] prev[i], '=') == Some(p);
                    assert(segments[i] == prev[i]);
                } else {
                    assert(split_once(segments[n], '=') == Some(p));
                }
            }
            if exists|i: int| 0 <= i < segments.len() && split_once(#[trigger] segments[i], '=') == Some(p) {
                let i = choose|i: int| 0 <= i < segments.len() && split_once(#[trigger] segments[i], '=') == Some(p);
                if i < n {
                    assert(prev[i] == segments[i]);
                    assert(pp.contains(p));
                    let k = choose|k: int| 0 <= k < pp.len() && pp[k] == p;
                    assert(segment_pairs(segments)[k] == p);
                } else {
                    assert(segment_pairs(segments) == pp.push(p));
                    assert(segment_pairs(segments)[pp.len() as int] == p);
                }
            }
        }
    }
}

// ---------------------------------------------------------------------------
// Laws of reading one header value
// ---------------------------------------------------------------------------

/// A header value is text exactly when every byte is visible ASCII
/// (32 to 126) or a tab, and then the text is the whole value, one character
/// per byte, in order.
pub proof fn lemma_header_text_is_whole_value(v: Seq<u8>)
    ensures
        header_value_text(v) is Some <==> forall|i: int|
            0 <= i < v.len() ==> (32 <= #[trigger] v[i] < 127 || v[i] == 9),
        header_value_text(v) matches Some(s) ==> s.len() == v.len(),
        header_value_text(v) matches Some(s) ==> forall|i: int|
            0 <= i < v.len() ==> #[trigger] s[i] == v[i] as char,
{
}

/// What a parsed snapshot holds, field by field, in terms of the values the
/// header gives to its five keys: `entitlement` is the `i64` that `ent`
/// reads as, `overage` and `percent_remaining` are the texts of `ov` and
/// `rem`, `overage_permitted` holds exactly when `ovPerm` is the text
/// `true` (whatever the other parameters say), and `resets_at` is `rst`
/// percent-decoded. A snapshot is there exactly when all five keys are, `ent`
/// is an `i64`, `ov` and `rem` are float literals and `rst` decodes.
pub proof fn lemma_snapshot_fields(raw: Seq<char>)
    ensures
        quota_snapshot_spec(raw) is Some <==> {
            &&& quota_param(raw, "ent"@) matches Some(ent) && parse_i64(ent) is Some
            &&& quota_param(raw, "ov"@) matches Some(ov) && is_float_literal(ov)
            &&& quota_param(raw, "ovPerm"@) is Some
            &&& quota_param(raw, "rem"@) matches Some(rem) && is_float_literal(rem)
            &&& quota_param(raw, "rst"@) matches Some(rst) && url_decoded(rst) is Some
        },
        quota_snapshot_spec(raw) matches Some(q) ==> {
            &&& Some(q.entitlement) == parse_i64(quota_param(raw, "ent"@)->0)
            &&& Some(q.overage) == quota_param(raw, "ov"@)
            &&& q.overage_permitted == (quota_param(raw, "ovPerm"@) == Some("true"@))
            &&& Some(q.percent_remaining) == quota_param(raw, "rem"@)
            &&& Some(q.resets_at) == url_decoded(quota_param(raw, "rst"@)->0)
        },
{
}

/// `overage_permitted` depends on `ovPerm` alone: two header values that
/// both parse and give `ovPerm` the same value agree on it.
pub proof fn lemma_overage_permitted_reads_only_ov_perm(raw: Seq<char>, other: Seq<char>)
    requires
        quota_snapshot_spec(raw) is Some,
        quota_snapshot_spec(other) is Some,
        quota_param(raw, "ovPerm"@) == quota_param(other, "ovPerm"@),
    ensures
        quota_snapshot_spec(raw)->0.overage_permitted == quota_snapshot_spec(
            other,
        )->0.overage_permitted,
{
    lemma_snapshot_fields(raw);
    lemma_snapshot_fields(other);
}

/// A header name gives category `c` exactly when, lower-cased, it is
/// `x-quota-snapshot-` followed by `c`.
pub proof fn lemma_header_category_is_suffix(name: Seq<char>, c: Seq<char>)
    ensures
        header_category(name) == Some(c) <==> ascii_lowercase(name) == "x-quota-snapshot-"@ + c,
{
    let low = ascii_lowercase(name);
    let p = "x-quota-snapshot-"@;
    if header_category(name) == Some(c) {
        assert(low =~= p + c);
    }
    if low == p + c {
        assert(low.take(p.len() as int) =~= p);
        assert(low.skip(p.len() as int) =~= c);
    }
}

} // verus!
