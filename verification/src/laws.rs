//! The store's laws: properties that relate several operations, proved
//! over the same model the operations' own contracts are stated in.

use vstd::prelude::*;
use crate::record::{Record, remaining_ttl};
use crate::smirk_map::{set_effect, get_spec, GetOutcome, del_count_spec, accum_spec};
use crate::strutil::lossy_utf8;
use crate::value::{Kind, value_kind, parse_ok, is_parsed_value, is_int_kind, kind_min, kind_max, int_value_of};

verus! {

/// After `set(k, v, T)` succeeds, `get::<T>(k)` returns exactly the value
/// `v` parsed to: a typed read under the kind just written finds the
/// parsed value, for every key, kind and accepted input.
pub proof fn lemma_set_then_get(
    c0: Map<Seq<char>, Record>,
    c1: Map<Seq<char>, Record>,
    key: Seq<char>,
    raw: Seq<u8>,
    kind: Kind,
    desired: Seq<char>,
)
    requires
        parse_ok(kind, lossy_utf8(raw)),
        set_effect(c0, c1, key, raw, kind, desired),
    ensures
        get_spec(c1, key, kind) matches GetOutcome::Found(v) && is_parsed_value(
            kind,
            lossy_utf8(raw),
            raw,
            v,
        ),
{
    assert(value_kind(c1[key].value) == kind);
}

/// A typed read under a kind other than the stored one reports a type
/// mismatch — never a coerced or wrong value, and never key-not-found.
pub proof fn lemma_get_wrong_kind(c: Map<Seq<char>, Record>, key: Seq<char>, kind: Kind)
    requires
        c.contains_key(key),
        value_kind(c[key].value) != kind,
    ensures
        get_spec(c, key, kind) is Mismatch,
{
}

/// Deleting a live key removes exactly one record; deleting it again
/// removes none, and the key no longer exists.
pub proof fn lemma_del_twice(c0: Map<Seq<char>, Record>, key: Seq<char>)
    requires
        c0.contains_key(key),
    ensures
        del_count_spec(c0, key) == 1,
        del_count_spec(c0.remove(key), key) == 0,
        !c0.remove(key).contains_key(key),
{
}

/// Two sets to distinct keys, executed one after the other, are both
/// applied and neither is lost: afterwards each key reads back its own
/// parsed value.
pub proof fn lemma_sets_distinct_keys(
    c0: Map<Seq<char>, Record>,
    c1: Map<Seq<char>, Record>,
    c2: Map<Seq<char>, Record>,
    k1: Seq<char>,
    raw1: Seq<u8>,
    kind1: Kind,
    d1: Seq<char>,
    k2: Seq<char>,
    raw2: Seq<u8>,
    kind2: Kind,
    d2: Seq<char>,
)
    requires
        k1 != k2,
        parse_ok(kind1, lossy_utf8(raw1)),
        set_effect(c0, c1, k1, raw1, kind1, d1),
        parse_ok(kind2, lossy_utf8(raw2)),
        set_effect(c1, c2, k2, raw2, kind2, d2),
    ensures
        get_spec(c2, k1, kind1) matches GetOutcome::Found(v1) && is_parsed_value(
            kind1,
            lossy_utf8(raw1),
            raw1,
            v1,
        ),
        get_spec(c2, k2, kind2) matches GetOutcome::Found(v2) && is_parsed_value(
            kind2,
            lossy_utf8(raw2),
            raw2,
            v2,
        ),
{
    assert(c2.remove(k2)[k1] == c1.remove(k2)[k1]);
    assert(c2.remove(k2).contains_key(k1) == c1.remove(k2).contains_key(k1));
    assert(c2[k1] == c1[k1]);
    assert(value_kind(c2[k1].value) == kind1);
    assert(value_kind(c2[k2].value) == kind2);
}


/// The TTL countdown: before expiry the remaining seconds are exactly the
/// TTL minus the elapsed whole seconds; once the elapsed time reaches the
/// TTL the answer is zero — never negative.
pub proof fn lemma_ttl_countdown(n: u64, start: u64, now: u64)
    requires
        now >= start,
    ensures
        now - start < n ==> remaining_ttl(Some(n), start, now) == Some((n - (now - start)) as u64),
        now - start >= n ==> remaining_ttl(Some(n), start, now) == Some(0u64),
{
}

/// The total of the integer values stored under `keys`.
pub open spec fn values_sum(c: Map<Seq<char>, Record>, keys: Seq<Seq<char>>) -> int
    decreases keys.len(),
{
    if keys.len() == 0 {
        0
    } else {
        int_value_of(c[keys[0]].value) + values_sum(c, keys.drop_first())
    }
}

/// Accumulating values of an integer kind that are all non-negative and
/// sum past the kind's maximum reports an overflow rather than a wrapped
/// value.
pub proof fn lemma_accumulate_overflow(
    c: Map<Seq<char>, Record>,
    keys: Seq<Seq<char>>,
    kind: Kind,
    acc: int,
)
    requires
        is_int_kind(kind),
        0 <= acc <= kind_max(kind),
        forall|i: int|
            0 <= i < keys.len() ==> c.contains_key(#[trigger] keys[i]) && value_kind(
                c[keys[i]].value,
            ) == kind && int_value_of(c[keys[i]].value) >= 0,
        acc + values_sum(c, keys) > kind_max(kind),
    ensures
        accum_spec(c, keys, kind, acc) is Overflow,
    decreases keys.len(),
{
    assert(keys.len() > 0);
    let v0 = int_value_of(c[keys[0]].value);
    let a2 = acc + v0;
    assert(kind_min(kind) <= 0);
    if a2 > kind_max(kind) {
    } else {
        assert forall|i: int|
            0 <= i < keys.drop_first().len() implies c.contains_key(
            #[trigger] keys.drop_first()[i],
        ) && value_kind(c[keys.drop_first()[i]].value) == kind && int_value_of(
            c[keys.drop_first()[i]].value,
        ) >= 0 by {
            assert(keys.drop_first()[i] == keys[i + 1]);
        }
        lemma_accumulate_overflow(c, keys.drop_first(), kind, a2);
    }
}

} // verus!
