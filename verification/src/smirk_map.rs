//! The typed store: a map from string keys to records, the prefix trie
//! over the live keys, and the active key-search mode.  The map and the
//! trie are kept in lockstep here: a successful set indexes the key, a
//! delete removes it from both.

use vstd::prelude::*;
use crate::record::{Record, RecordLike, remaining_ttl};
use crate::smirk_messages::SmirkMessages;
use crate::smirk_search_mode::SmirkSearchMode;
use crate::trie::{Trie, trie_wf, spec_inserted, spec_removed};
use crate::value::{Value, Kind, value_kind, spec_kind_name, kind_name, parse_ok, is_parsed_value, parse_value};
use crate::value::{is_int_kind, is_signed_kind, is_unsigned_kind, kind_min, kind_max, int_value_of, is_sum_value, float_bits_of, signed_bounds, unsigned_max, signed_payload, unsigned_payload, make_signed_value, make_unsigned_value, kind_class};
use crate::key_search::views_of;
use crate::numtext::dec_int;
use crate::strutil::{lossy_utf8, lossy_decode};
use crate::clock::now_secs;

verus! {

/// The store: records under their keys, the trie index, and the mode that
/// answers `KEYS` queries.
#[derive(Debug)]
pub struct SmirkMap {
    /// How `KEYS` queries are currently answered.
    pub search_mode: SmirkSearchMode,
    /// The records, each under its key, in insertion order.
    pub entries: Vec<(String, Record)>,
    /// The prefix index over the live keys.
    pub trie: Trie,
}

/// The map an entry list denotes, later entries over earlier ones.
pub open spec fn entries_map(s: Seq<(String, Record)>) -> Map<Seq<char>, Record>
    decreases s.len(),
{
    if s.len() == 0 {
        Map::empty()
    } else {
        entries_map(s.drop_last()).insert(s.last().0@, s.last().1)
    }
}

/// The index of the first entry stored under the key `k`.
pub open spec fn entry_find_idx(s: Seq<(String, Record)>, k: Seq<char>) -> Option<int>
    decreases s.len(),
{
    if s.len() == 0 {
        None
    } else if s[0].0@ == k {
        Some(0int)
    } else {
        match entry_find_idx(s.drop_first(), k) {
            Some(i) => Some(i + 1),
            None => None,
        }
    }
}

/// What a typed read of `k` under `kind` yields.
pub enum GetOutcome {
    /// The key holds a value of the requested kind.
    Found(Value),
    /// The key is absent.
    NotFound,
    /// The key holds a value of another kind.
    Mismatch,
}

/// The outcome a typed read of `k` under `kind` has against the map `c`:
/// the stored value only when the stored kind equals the requested one; a
/// mismatch is distinct from an absent key.
pub open spec fn get_spec(c: Map<Seq<char>, Record>, k: Seq<char>, kind: Kind) -> GetOutcome {
    if !c.contains_key(k) {
        GetOutcome::NotFound
    } else if value_kind(c[k].value) != kind {
        GetOutcome::Mismatch
    } else {
        GetOutcome::Found(c[k].value)
    }
}

/// How many records `del(k)` removes from the map `c`.
pub open spec fn del_count_spec(c: Map<Seq<char>, Record>, k: Seq<char>) -> u64 {
    if c.contains_key(k) {
        1u64
    } else {
        0u64
    }
}


/// The outcome of folding typed values under successive keys.
pub enum AccOutcome {
    /// Every key held a value of the kind; the fold completed with this
    /// total.
    Done(int),
    /// The first key that is absent or holds another kind.
    BadKey(Seq<char>),
    /// A partial sum left the kind's range.
    Overflow,
}

/// Folds the values stored under `keys`, in order, starting from `acc`:
/// the first absent or mismatched key aborts the fold naming that key; for
/// a machine integer kind a partial sum outside the kind's range aborts
/// with an overflow; the big-integer kind never overflows.
pub open spec fn accum_spec(
    c: Map<Seq<char>, Record>,
    keys: Seq<Seq<char>>,
    kind: Kind,
    acc: int,
) -> AccOutcome
    decreases keys.len(),
{
    if keys.len() == 0 {
        AccOutcome::Done(acc)
    } else {
        let k = keys[0];
        if !(c.contains_key(k) && value_kind(c[k].value) == kind) {
            AccOutcome::BadKey(k)
        } else {
            let a2 = acc + int_value_of(c[k].value);
            if is_int_kind(kind) && !(kind_min(kind) <= a2 <= kind_max(kind)) {
                AccOutcome::Overflow
            } else {
                accum_spec(c, keys.drop_first(), kind, a2)
            }
        }
    }
}

/// The outcome of gathering floating-point bit patterns under successive
/// keys.
pub enum FloatOutcome {
    /// Every key held a value of the floating kind: their bit patterns, in
    /// key order.
    Bits(Seq<u64>),
    /// The first key that is absent or holds another kind.
    BadKey(Seq<char>),
}

/// Gathers the bit patterns stored under `keys`, in order, after `acc`:
/// the first absent or mismatched key aborts, naming that key.
pub open spec fn float_gather_spec(
    c: Map<Seq<char>, Record>,
    keys: Seq<Seq<char>>,
    wide: bool,
    acc: Seq<u64>,
) -> FloatOutcome
    decreases keys.len(),
{
    if keys.len() == 0 {
        FloatOutcome::Bits(acc)
    } else {
        let k = keys[0];
        let kind = if wide {
            Kind::F64
        } else {
            Kind::F32
        };
        if !(c.contains_key(k) && value_kind(c[k].value) == kind) {
            FloatOutcome::BadKey(k)
        } else {
            float_gather_spec(c, keys.drop_first(), wide, acc.push(float_bits_of(c[k].value)))
        }
    }
}


/// The map after deleting each of `keys` in order.
pub open spec fn del_seq_map(c: Map<Seq<char>, Record>, keys: Seq<Seq<char>>) -> Map<
    Seq<char>,
    Record,
>
    decreases keys.len(),
{
    if keys.len() == 0 {
        c
    } else {
        del_seq_map(c, keys.drop_last()).remove(keys.last())
    }
}

/// How many records deleting each of `keys` in order removes: a repeated
/// key counts only the first time.
pub open spec fn del_seq_count(c: Map<Seq<char>, Record>, keys: Seq<Seq<char>>) -> int
    decreases keys.len(),
{
    if keys.len() == 0 {
        0
    } else {
        del_seq_count(c, keys.drop_last()) + del_count_spec(
            del_seq_map(c, keys.drop_last()),
            keys.last(),
        )
    }
}

/// One step of removing a key from the trie: the key is removed when it
/// is live in the map at that moment, and nothing happens otherwise.
pub open spec fn trie_del_step(
    cm: Map<Seq<char>, Record>,
    k: Seq<char>,
    ta: Trie,
    tb: Trie,
) -> bool {
    if cm.contains_key(k) {
        spec_removed(ta, k, tb)
    } else {
        tb == ta
    }
}

/// `chain` records the trie after each prefix of the deletions: step `i`
/// removes `keys[i]` against the map as it stood then.
pub open spec fn trie_chain_ok(
    c: Map<Seq<char>, Record>,
    keys: Seq<Seq<char>>,
    chain: Seq<Trie>,
) -> bool {
    &&& chain.len() == keys.len() + 1
    &&& forall|i: int|
        0 <= i < keys.len() ==> #[trigger] trie_del_step(
            del_seq_map(c, keys.take(i)),
            keys[i],
            chain[i],
            chain[i + 1],
        )
}

/// `t1` is `t0` after removing each of `keys` that was then still live in
/// the map, in order.
pub open spec fn tries_del_seq(
    c: Map<Seq<char>, Record>,
    keys: Seq<Seq<char>>,
    t0: Trie,
    t1: Trie,
) -> bool {
    exists|chain: Seq<Trie>|
        #[trigger] trie_chain_ok(c, keys, chain) && chain[0] == t0 && chain.last() == t1
}

/// A successful `set` of `raw` under `key`: the new record holds the value
/// `raw` parses to, no TTL, and the kind names; every other key is
/// untouched.
pub open spec fn set_effect(
    c0: Map<Seq<char>, Record>,
    c1: Map<Seq<char>, Record>,
    key: Seq<char>,
    raw: Seq<u8>,
    kind: Kind,
    desired: Seq<char>,
) -> bool {
    &&& c1.contains_key(key)
    &&& is_parsed_value(kind, lossy_utf8(raw), raw, c1[key].value)
    &&& c1[key].ttl is None
    &&& c1[key].stored_type_name@ == spec_kind_name(kind)
    &&& c1[key].desired_type_name@ == desired
    &&& c1.remove(key) == c0.remove(key)
    &&& c1.dom() == c0.dom().insert(key)
}

impl SmirkMap {
    /// The store's contents: each live key and its record.
    pub open spec fn contents(&self) -> Map<Seq<char>, Record> {
        entries_map(self.entries@)
    }

    /// The live keys, in insertion order.
    pub open spec fn key_seq(&self) -> Seq<Seq<char>> {
        Seq::new(self.entries@.len() as nat, |i: int| self.entries@[i].0@)
    }

    /// The index a key occupies in the entry order.
    pub open spec fn key_idx(&self, k: Seq<char>) -> Option<int> {
        entry_find_idx(self.entries@, k)
    }

    /// The trie index over the live keys.
    pub open spec fn spec_trie(&self) -> Trie {
        self.trie
    }

    /// A well-formed store: distinct keys and a well-formed trie.
    pub open spec fn wf(&self) -> bool {
        &&& (forall|i: int, j: int|
            0 <= i < j < self.entries@.len() ==> (#[trigger] self.entries@[i]).0@ != (
            #[trigger] self.entries@[j]).0@)
        &&& trie_wf(self.trie)
    }

    /// An empty store answering `KEYS` in the given mode.
    pub fn new(mode: SmirkSearchMode) -> (r: SmirkMap)
        ensures
            r.wf(),
            r.search_mode == mode,
            r.contents() == Map::<Seq<char>, Record>::empty(),
            r.key_seq() == Seq::<Seq<char>>::empty(),
            r.spec_trie().has_key_ending_here == false,
            r.spec_trie().counter == 1,
            r.spec_trie().children@.len() == 0,
    {
        let r = SmirkMap { search_mode: mode, entries: Vec::new(), trie: Trie::new() };
        proof {
            assert(r.key_seq() =~= Seq::<Seq<char>>::empty());
        }
        r
    }

    /// The index of the entry stored under `key`.
    fn find_key(&self, key: &String) -> (r: Option<usize>)
        ensures
            match r {
                Some(i) => self.key_idx(key@) == Some(i as int) && i < self.entries@.len()
                    && self.entries@[i as int].0@ == key@,
                None => self.key_idx(key@) is None,
            },
    {
        proof {
            lemma_entry_find_idx(self.entries@, key@);
        }
        let n = self.entries.len();
        let mut i: usize = 0;
        while i < n
            invariant
                n == self.entries@.len(),
                0 <= i <= n,
                forall|k: int| 0 <= k < i ==> (#[trigger] self.entries@[k]).0@ != key@,
            decreases n - i,
        {
            if crate::strutil::str_eq(self.entries[i].0.as_str(), key.as_str()) {
                proof {
                    lemma_entry_find_idx(self.entries@, key@);
                    match entry_find_idx(self.entries@, key@) {
                        Some(j) => {
                            assert(j == i);
                        },
                        None => {
                            assert(false);
                        },
                    }
                }
                return Some(i);
            }
            i = i + 1;
        }
        None
    }

    /// Whether a record is stored under `key`.
    pub fn key_exists(&self, key: &String) -> (r: bool)
        requires
            self.wf(),
        ensures
            r == self.contents().contains_key(key@),
    {
        proof {
            lemma_entries_map(self.entries@);
        }
        match self.find_key(key) {
            Some(_) => {
                proof {
                    lemma_entry_find_idx(self.entries@, key@);
                }
                true
            },
            None => {
                proof {
                    lemma_entry_find_idx(self.entries@, key@);
                }
                false
            },
        }
    }

    /// Reads the value under `key` as `kind`: the stored value only when
    /// the stored kind equals the requested one; an absent key and a
    /// mismatched kind are distinct errors, each naming the key.
    pub fn get(&self, key: &String, kind: Kind) -> (r: Result<&Value, SmirkMessages>)
        requires
            self.wf(),
        ensures
            match get_spec(self.contents(), key@, kind) {
                GetOutcome::Found(v) => r matches Ok(rv) && *rv == v,
                GetOutcome::NotFound => r matches Err(m) && m matches SmirkMessages::KeyNotFound(k)
                    && k@ == key@,
                GetOutcome::Mismatch => r matches Err(m) && m matches SmirkMessages::TypeMismatch(
                    k,
                    d,
                ) && k@ == key@ && d@ == spec_kind_name(kind),
            },
    {
        proof {
            lemma_entries_map(self.entries@);
            lemma_entry_find_idx(self.entries@, key@);
        }
        match self.find_key(key) {
            Some(i) => {
                let rec: &Record = &self.entries[i].1;
                proof {
                    assert(self.contents()[key@] == self.entries@[i as int].1);
                }
                if rec.value.kind() == kind {
                    Ok(&rec.value)
                } else {
                    Err(SmirkMessages::TypeMismatch(key.clone(), String::from_str(kind_name(kind))))
                }
            },
            None => Err(SmirkMessages::KeyNotFound(key.clone())),
        }
    }

    /// Reads the whole record under `key`, or reports the key missing.
    pub fn get_record(&self, key: &String) -> (r: Result<&Record, SmirkMessages>)
        requires
            self.wf(),
        ensures
            self.contents().contains_key(key@) ==> (r matches Ok(rec) && *rec == self.contents()[key@]),
            !self.contents().contains_key(key@) ==> (r matches Err(m) && m matches
                SmirkMessages::KeyNotFound(k) && k@ == key@),
    {
        proof {
            lemma_entries_map(self.entries@);
            lemma_entry_find_idx(self.entries@, key@);
        }
        match self.find_key(key) {
            Some(i) => {
                let rec: &Record = &self.entries[i].1;
                proof {
                    assert(self.contents()[key@] == self.entries@[i as int].1);
                }
                Ok(rec)
            },
            None => Err(SmirkMessages::KeyNotFound(key.clone())),
        }
    }


    /// Parses `value` with the canonical parser of `kind` and, on success,
    /// unconditionally overwrites any record at `key` (TTL reset to none)
    /// and indexes the key in the trie; on failure the store is left
    /// byte-for-byte unchanged and the error names the key, the input text
    /// and the requested kind.
    pub fn set(&mut self, key: &String, value: Vec<u8>, kind: Kind, desired_type_name: &String) -> (r:
        Result<SmirkMessages, SmirkMessages>)
        requires
            old(self).wf(),
            kind != Kind::F32 && kind != Kind::F64,
        ensures
            final(self).wf(),
            final(self).search_mode == old(self).search_mode,
            parse_ok(kind, lossy_utf8(value@)) ==> {
                &&& (r matches Ok(m) && m matches SmirkMessages::SetKey(k, s, d) && k@ == key@
                    && s@ == spec_kind_name(kind) && d@ == desired_type_name@)
                &&& set_effect(
                    old(self).contents(),
                    final(self).contents(),
                    key@,
                    value@,
                    kind,
                    desired_type_name@,
                )
                &&& (old(self).contents().contains_key(key@) ==> final(self).key_seq() == old(
                    self,
                ).key_seq())
                &&& (!old(self).contents().contains_key(key@) ==> final(self).key_seq() == old(
                    self,
                ).key_seq().push(key@))
                &&& spec_inserted(old(self).spec_trie(), key@, final(self).spec_trie())
            },
            !parse_ok(kind, lossy_utf8(value@)) ==> {
                &&& (r matches Err(m) && m matches SmirkMessages::ParseError(k, v, d) && k@ == key@
                    && v@ == lossy_utf8(value@) && d@ == spec_kind_name(kind))
                &&& *final(self) == *old(self)
            },
    {
        let text = lossy_decode(value.as_slice());
        match parse_value(kind, text.as_str(), &value) {
            Some(v) => {
                let rec = Record {
                    value: v,
                    ttl: None,
                    ttl_start: now_secs(),
                    stored_type_name: String::from_str(kind_name(kind)),
                    desired_type_name: desired_type_name.clone(),
                };
                match self.find_key(key) {
                    Some(i) => {
                        let (k0, _r0) = self.entries.remove(i);
                        self.entries.insert(i, (k0, rec));
                        proof {
                            let p = (old(self).entries@[i as int].0, rec);
                            assert(self.entries@ =~= old(self).entries@.update(i as int, p));
                            lemma_entries_map_update(old(self).entries@, i as int, p);
                            assert(self.contents() == old(self).contents().insert(key@, rec));
                            assert(self.contents().remove(key@) =~= old(self).contents().remove(
                                key@,
                            ));
                            lemma_entries_map(old(self).entries@);
                            assert(self.contents().dom() =~= old(self).contents().dom().insert(
                                key@,
                            ));
                            assert(self.key_seq() =~= old(self).key_seq());
                        }
                    },
                    None => {
                        self.entries.push((key.clone(), rec));
                        proof {
                            let p = (self.entries@.last().0, rec);
                            assert(self.entries@ =~= old(self).entries@.push(p));
                            lemma_entries_map_push(old(self).entries@, p);
                            assert(self.contents() == old(self).contents().insert(key@, rec));
                            assert(self.contents().remove(key@) =~= old(self).contents().remove(
                                key@,
                            ));
                            lemma_entries_map(old(self).entries@);
                            lemma_entry_find_idx(old(self).entries@, key@);
                            assert(!old(self).contents().contains_key(key@));
                            assert(self.contents().dom() =~= old(self).contents().dom().insert(
                                key@,
                            ));
                            assert(self.key_seq() =~= old(self).key_seq().push(key@));
                            assert forall|a: int, b: int|
                                0 <= a < b < self.entries@.len() implies (
                            #[trigger] self.entries@[a]).0@ != (#[trigger] self.entries@[b]).0@ by {
                                if b < self.entries@.len() - 1 {
                                    assert(self.entries@[a] == old(self).entries@[a]);
                                    assert(self.entries@[b] == old(self).entries@[b]);
                                } else {
                                    assert(self.entries@[a] == old(self).entries@[a]);
                                }
                            }
                        }
                    },
                }
                self.trie.insert(key);
                Ok(
                    SmirkMessages::SetKey(
                        key.clone(),
                        String::from_str(kind_name(kind)),
                        desired_type_name.clone(),
                    ),
                )
            },
            None => Err(
                SmirkMessages::ParseError(key.clone(), text, String::from_str(kind_name(kind))),
            ),
        }
    }

    /// Stores `value` under `key` as the opaque byte kind, unconditionally
    /// overwriting any prior record; used when the declared tag names no
    /// scalar kind.  Always succeeds.
    pub fn binary_set(&mut self, key: &String, value: Vec<u8>, desired_type_name: &String) -> (r:
        Result<SmirkMessages, SmirkMessages>)
        requires
            old(self).wf(),
        ensures
            final(self).wf(),
            final(self).search_mode == old(self).search_mode,
            r matches Ok(m) && m matches SmirkMessages::SetKey(k, s, d) && k@ == key@ && s@
                == spec_kind_name(Kind::Bytes) && d@ == desired_type_name@,
            set_effect(
                old(self).contents(),
                final(self).contents(),
                key@,
                value@,
                Kind::Bytes,
                desired_type_name@,
            ),
            old(self).contents().contains_key(key@) ==> final(self).key_seq() == old(
                self,
            ).key_seq(),
            !old(self).contents().contains_key(key@) ==> final(self).key_seq() == old(
                self,
            ).key_seq().push(key@),
            spec_inserted(old(self).spec_trie(), key@, final(self).spec_trie()),
    {
        let r = self.set(key, value, Kind::Bytes, desired_type_name);
        r
    }

    /// Removes the record under `key` from the map and the key from the
    /// trie, returning how many records were removed: one the first time,
    /// zero when the key is absent.
    pub fn del(&mut self, key: &String) -> (r: u64)
        requires
            old(self).wf(),
        ensures
            final(self).wf(),
            r == del_count_spec(old(self).contents(), key@),
            final(self).contents() == old(self).contents().remove(key@),
            final(self).search_mode == old(self).search_mode,
            old(self).contents().contains_key(key@) ==> {
                &&& (old(self).key_idx(key@) matches Some(i) && final(self).key_seq() == old(
                    self,
                ).key_seq().remove(i))
                &&& spec_removed(old(self).spec_trie(), key@, final(self).spec_trie())
            },
            !old(self).contents().contains_key(key@) ==> *final(self) == *old(self),
    {
        proof {
            lemma_entries_map(self.entries@);
            lemma_entry_find_idx(self.entries@, key@);
        }
        match self.find_key(key) {
            Some(i) => {
                self.entries.remove(i);
                self.trie.remove(key);
                proof {
                    lemma_entries_map_remove(old(self).entries@, i as int);
                    assert(self.key_seq() =~= old(self).key_seq().remove(i as int));
                    assert forall|a: int, b: int|
                        0 <= a < b < self.entries@.len() implies (#[trigger] self.entries@[a]).0@
                        != (#[trigger] self.entries@[b]).0@ by {
                        let a0: int = if a < i { a } else { a + 1 };
                        let b0: int = if b < i { b } else { b + 1 };
                        assert(self.entries@[a] == old(self).entries@[a0]);
                        assert(self.entries@[b] == old(self).entries@[b0]);
                    }
                }
                1
            },
            None => {
                proof {
                    assert(old(self).contents().remove(key@) =~= old(self).contents());
                }
                0
            },
        }
    }

    /// Reports the seconds the record under `key` has left: nothing when
    /// it never expires, zero once elapsed, the remainder otherwise —
    /// never negative.  An absent key is an error naming it.
    pub fn ttl(&self, key: &String) -> (r: Result<Option<u64>, SmirkMessages>)
        requires
            self.wf(),
        ensures
            !self.contents().contains_key(key@) ==> (r matches Err(m) && m matches
                SmirkMessages::KeyNotFound(k) && k@ == key@),
            self.contents().contains_key(key@) ==> (r matches Ok(o) && {
                let rec = self.contents()[key@];
                &&& (o is Some <==> rec.ttl is Some)
                &&& (o matches Some(m) ==> rec.ttl matches Some(t) && m <= t)
                &&& exists|now: u64| o == #[trigger] remaining_ttl(rec.ttl, rec.ttl_start, now)
            }),
    {
        match self.get_record(key) {
            Ok(rec) => Ok(rec.get_ttl()),
            Err(e) => Err(e),
        }
    }

    /// Replaces the TTL of the record under `key` — only the TTL: the
    /// countdown keeps running from the moment the record was written.  An
    /// absent key leaves the store untouched.
    pub fn set_ttl(&mut self, key: &String, ttl: &Option<u64>)
        requires
            old(self).wf(),
        ensures
            final(self).wf(),
            final(self).search_mode == old(self).search_mode,
            final(self).spec_trie() == old(self).spec_trie(),
            final(self).key_seq() == old(self).key_seq(),
            !old(self).contents().contains_key(key@) ==> *final(self) == *old(self),
            old(self).contents().contains_key(key@) ==> {
                let r0 = old(self).contents()[key@];
                &&& final(self).contents().contains_key(key@)
                &&& final(self).contents()[key@].ttl == *ttl
                &&& final(self).contents()[key@].value == r0.value
                &&& final(self).contents()[key@].ttl_start == r0.ttl_start
                &&& final(self).contents()[key@].stored_type_name == r0.stored_type_name
                &&& final(self).contents()[key@].desired_type_name == r0.desired_type_name
                &&& final(self).contents().remove(key@) == old(self).contents().remove(key@)
            },
    {
        proof {
            lemma_entries_map(self.entries@);
            lemma_entry_find_idx(self.entries@, key@);
        }
        match self.find_key(key) {
            Some(i) => {
                let (k0, r0) = self.entries.remove(i);
                let r1 = Record {
                    value: r0.value,
                    ttl: *ttl,
                    ttl_start: r0.ttl_start,
                    stored_type_name: r0.stored_type_name,
                    desired_type_name: r0.desired_type_name,
                };
                self.entries.insert(i, (k0, r1));
                proof {
                    let p = (old(self).entries@[i as int].0, r1);
                    assert(self.entries@ =~= old(self).entries@.update(i as int, p));
                    lemma_entries_map_update(old(self).entries@, i as int, p);
                    assert(self.contents() == old(self).contents().insert(key@, r1));
                    assert(old(self).contents()[key@] == old(self).entries@[i as int].1);
                    assert(self.contents().remove(key@) =~= old(self).contents().remove(key@));
                    assert(self.key_seq() =~= old(self).key_seq());
                }
            },
            None => {},
        }
    }

    /// Sets the process-wide key-search mode.
    pub fn set_search_mode(&mut self, mode: SmirkSearchMode)
        ensures
            final(self).search_mode == mode,
            final(self).entries == old(self).entries,
            final(self).trie == old(self).trie,
    {
        self.search_mode = mode;
    }


    /// Folds the values stored under `keys`, in order, with
    /// overflow-checked addition for the machine integer kinds and exact
    /// addition for the big-integer kind: the first absent or mismatched
    /// key aborts naming that key, and a partial sum outside the kind's
    /// range aborts with an overflow rather than wrapping.
    pub fn add(&self, keys: &Vec<String>, kind: Kind) -> (r: Result<Value, SmirkMessages>)
        requires
            self.wf(),
            is_int_kind(kind) || kind == Kind::Big,
        ensures
            match accum_spec(self.contents(), views_of(keys@), kind, 0) {
                AccOutcome::Done(v) => r matches Ok(val) && is_sum_value(kind, v, val) && (
                is_int_kind(kind) ==> kind_min(kind) <= v <= kind_max(kind)),
                AccOutcome::BadKey(k) => r matches Err(m) && m matches SmirkMessages::ParseError(
                    kk,
                    vv,
                    dd,
                ) && kk@ == k && vv@.len() == 0 && dd@ == spec_kind_name(kind),
                AccOutcome::Overflow => r matches Err(m) && m is AddOverflowError,
            },
    {
        let (signed, unsigned, big) = kind_class(kind);
        if signed {
            self.add_signed(keys, kind)
        } else if unsigned {
            self.add_unsigned(keys, kind)
        } else {
            self.add_big(keys)
        }
    }

    /// The fold of `add` for a signed machine integer kind.
    fn add_signed(&self, keys: &Vec<String>, kind: Kind) -> (r: Result<Value, SmirkMessages>)
        requires
            self.wf(),
            is_signed_kind(kind),
        ensures
            match accum_spec(self.contents(), views_of(keys@), kind, 0) {
                AccOutcome::Done(v) => r matches Ok(val) && is_sum_value(kind, v, val) && (
                is_int_kind(kind) ==> kind_min(kind) <= v <= kind_max(kind)),
                AccOutcome::BadKey(k) => r matches Err(m) && m matches SmirkMessages::ParseError(
                    kk,
                    vv,
                    dd,
                ) && kk@ == k && vv@.len() == 0 && dd@ == spec_kind_name(kind),
                AccOutcome::Overflow => r matches Err(m) && m is AddOverflowError,
            },
    {
        let ghost c = self.contents();
        let ghost views = views_of(keys@);
        let (lo, hi) = signed_bounds(kind);
        let n = keys.len();
        let mut acc: i128 = 0;
        let mut i: usize = 0;
        proof {
            assert(views.skip(0) =~= views);
        }
        while i < n
            invariant
                self.wf(),
                c == self.contents(),
                views == views_of(keys@),
                n == keys@.len(),
                0 <= i <= n,
                lo == kind_min(kind),
                hi == kind_max(kind),
                is_signed_kind(kind),
                lo <= acc <= hi,
                accum_spec(c, views.skip(i as int), kind, acc as int) == accum_spec(
                    c,
                    views,
                    kind,
                    0,
                ),
            decreases n - i,
        {
            proof {
                assert(views[i as int] == keys@[i as int]@);
                assert(views.skip(i as int)[0] == views[i as int]);
                assert(views.skip(i as int).drop_first() =~= views.skip(i as int + 1));
            }
            match self.get(&keys[i], kind) {
                Ok(v) => {
                    let p = signed_payload(v);
                    match acc.checked_add(p) {
                        Some(s) => {
                            if s < lo || s > hi {
                                return Err(SmirkMessages::AddOverflowError);
                            }
                            acc = s;
                        },
                        None => {
                            return Err(SmirkMessages::AddOverflowError);
                        },
                    }
                },
                Err(_) => {
                    return Err(
                        SmirkMessages::ParseError(
                            keys[i].clone(),
                            String::new(),
                            String::from_str(kind_name(kind)),
                        ),
                    );
                },
            }
            i = i + 1;
        }
        proof {
            assert(views.skip(n as int) =~= Seq::<Seq<char>>::empty());
        }
        Ok(make_signed_value(kind, acc))
    }

    /// The fold of `add` for an unsigned machine integer kind.
    fn add_unsigned(&self, keys: &Vec<String>, kind: Kind) -> (r: Result<Value, SmirkMessages>)
        requires
            self.wf(),
            is_unsigned_kind(kind),
        ensures
            match accum_spec(self.contents(), views_of(keys@), kind, 0) {
                AccOutcome::Done(v) => r matches Ok(val) && is_sum_value(kind, v, val) && (
                is_int_kind(kind) ==> kind_min(kind) <= v <= kind_max(kind)),
                AccOutcome::BadKey(k) => r matches Err(m) && m matches SmirkMessages::ParseError(
                    kk,
                    vv,
                    dd,
                ) && kk@ == k && vv@.len() == 0 && dd@ == spec_kind_name(kind),
                AccOutcome::Overflow => r matches Err(m) && m is AddOverflowError,
            },
    {
        let ghost c = self.contents();
        let ghost views = views_of(keys@);
        let hi = unsigned_max(kind);
        let n = keys.len();
        let mut acc: u128 = 0;
        let mut i: usize = 0;
        proof {
            assert(views.skip(0) =~= views);
        }
        while i < n
            invariant
                self.wf(),
                c == self.contents(),
                views == views_of(keys@),
                n == keys@.len(),
                0 <= i <= n,
                hi == kind_max(kind),
                is_unsigned_kind(kind),
                acc <= hi,
                accum_spec(c, views.skip(i as int), kind, acc as int) == accum_spec(
                    c,
                    views,
                    kind,
                    0,
                ),
            decreases n - i,
        {
            proof {
                assert(views[i as int] == keys@[i as int]@);
                assert(views.skip(i as int)[0] == views[i as int]);
                assert(views.skip(i as int).drop_first() =~= views.skip(i as int + 1));
            }
            match self.get(&keys[i], kind) {
                Ok(v) => {
                    let p = unsigned_payload(v);
                    match acc.checked_add(p) {
                        Some(s) => {
                            if s > hi {
                                return Err(SmirkMessages::AddOverflowError);
                            }
                            acc = s;
                        },
                        None => {
                            return Err(SmirkMessages::AddOverflowError);
                        },
                    }
                },
                Err(_) => {
                    return Err(
                        SmirkMessages::ParseError(
                            keys[i].clone(),
                            String::new(),
                            String::from_str(kind_name(kind)),
                        ),
                    );
                },
            }
            i = i + 1;
        }
        proof {
            assert(views.skip(n as int) =~= Seq::<Seq<char>>::empty());
        }
        Ok(make_unsigned_value(kind, acc))
    }

    /// The fold of `add` for the big-integer kind: exact addition over the
    /// canonical decimal texts, which never overflows.
    fn add_big(&self, keys: &Vec<String>) -> (r: Result<Value, SmirkMessages>)
        requires
            self.wf(),
        ensures
            match accum_spec(self.contents(), views_of(keys@), Kind::Big, 0) {
                AccOutcome::Done(v) => r matches Ok(val) && is_sum_value(Kind::Big, v, val) && (
                is_int_kind(Kind::Big) ==> kind_min(Kind::Big) <= v <= kind_max(Kind::Big)),
                AccOutcome::BadKey(k) => r matches Err(m) && m matches SmirkMessages::ParseError(
                    kk,
                    vv,
                    dd,
                ) && kk@ == k && vv@.len() == 0 && dd@ == spec_kind_name(Kind::Big),
                AccOutcome::Overflow => r matches Err(m) && m is AddOverflowError,
            },
    {
        let ghost c = self.contents();
        let ghost views = views_of(keys@);
        let n = keys.len();
        let mut acc = String::from_str("0");
        let ghost mut sacc: int = 0;
        proof {
            reveal_strlit("0");
            assert(acc@ =~= dec_int(0));
        }
        let mut i: usize = 0;
        proof {
            assert(views.skip(0) =~= views);
        }
        while i < n
            invariant
                self.wf(),
                c == self.contents(),
                views == views_of(keys@),
                n == keys@.len(),
                0 <= i <= n,
                acc@ == dec_int(sacc),
                accum_spec(c, views.skip(i as int), Kind::Big, sacc) == accum_spec(
                    c,
                    views,
                    Kind::Big,
                    0,
                ),
            decreases n - i,
        {
            proof {
                assert(views[i as int] == keys@[i as int]@);
                assert(views.skip(i as int)[0] == views[i as int]);
                assert(views.skip(i as int).drop_first() =~= views.skip(i as int + 1));
            }
            match self.get(&keys[i], Kind::Big) {
                Ok(v) => {
                    let stored: &String = match v {
                        Value::Big(s) => s,
                        _ => {
                            proof {
                                assert(false);
                            }
                            &acc
                        },
                    };
                    match crate::bignum::big_canonicalize(stored.as_str()) {
                        Some(t) => {
                            proof {
                                crate::bignum::lemma_dec_int_round_trip(sacc);
                                crate::bignum::lemma_dec_int_round_trip(
                                    crate::bignum::big_literal_val(stored@),
                                );
                            }
                            let s2 = crate::bignum::big_add_text(acc.as_str(), t.as_str());
                            acc = s2;
                            proof {
                                sacc = sacc + int_value_of(c[views[i as int]].value);
                            }
                        },
                        None => {
                            proof {
                                assert(int_value_of(c[views[i as int]].value) == 0);
                            }
                        },
                    }
                },
                Err(_) => {
                    return Err(
                        SmirkMessages::ParseError(
                            keys[i].clone(),
                            String::new(),
                            String::from_str(kind_name(Kind::Big)),
                        ),
                    );
                },
            }
            i = i + 1;
        }
        proof {
            assert(views.skip(n as int) =~= Seq::<Seq<char>>::empty());
        }
        Ok(Value::Big(acc))
    }

    /// Gathers, in key order, the bit patterns of the floating-point
    /// values stored under `keys` (the 32-bit kind when `wide` is false,
    /// the 64-bit kind otherwise): the first absent or mismatched key
    /// aborts the whole operation naming that key.  The caller folds the
    /// bit patterns with floating-point addition.
    pub fn add_float(&self, keys: &Vec<String>, wide: bool) -> (r: Result<Vec<u64>, SmirkMessages>)
        requires
            self.wf(),
        ensures
            match float_gather_spec(self.contents(), views_of(keys@), wide, Seq::empty()) {
                FloatOutcome::Bits(bs) => r matches Ok(v) && v@ == bs,
                FloatOutcome::BadKey(k) => r matches Err(m) && m matches
                    SmirkMessages::ParseError(kk, vv, dd) && kk@ == k && vv@.len() == 0 && dd@
                    == spec_kind_name(if wide { Kind::F64 } else { Kind::F32 }),
            },
    {
        let ghost c = self.contents();
        let ghost views = views_of(keys@);
        let kind = if wide {
            Kind::F64
        } else {
            Kind::F32
        };
        let n = keys.len();
        let mut out: Vec<u64> = Vec::new();
        let mut i: usize = 0;
        proof {
            assert(views.skip(0) =~= views);
            assert(out@ =~= Seq::<u64>::empty());
        }
        while i < n
            invariant
                self.wf(),
                c == self.contents(),
                views == views_of(keys@),
                n == keys@.len(),
                0 <= i <= n,
                kind == (if wide { Kind::F64 } else { Kind::F32 }),
                float_gather_spec(c, views.skip(i as int), wide, out@) == float_gather_spec(
                    c,
                    views,
                    wide,
                    Seq::empty(),
                ),
            decreases n - i,
        {
            proof {
                assert(views[i as int] == keys@[i as int]@);
                assert(views.skip(i as int)[0] == views[i as int]);
                assert(views.skip(i as int).drop_first() =~= views.skip(i as int + 1));
            }
            match self.get(&keys[i], kind) {
                Ok(v) => {
                    let bits: u64 = match v {
                        Value::F32Bits(b) => *b as u64,
                        Value::F64Bits(b) => *b,
                        _ => {
                            proof {
                                assert(false);
                            }
                            0
                        },
                    };
                    out.push(bits);
                },
                Err(_) => {
                    return Err(
                        SmirkMessages::ParseError(
                            keys[i].clone(),
                            String::new(),
                            String::from_str(kind_name(kind)),
                        ),
                    );
                },
            }
            i = i + 1;
        }
        proof {
            assert(views.skip(n as int) =~= Seq::<Seq<char>>::empty());
        }
        Ok(out)
    }


    /// Stores an IEEE-754 bit pattern under `key`: the 32-bit kind when
    /// `wide` is false (the pattern must fit 32 bits), the 64-bit kind
    /// otherwise.  The text-to-bits conversion happens outside the
    /// library; storage, TTL reset, trie upkeep and the acknowledgment are
    /// handled here like any other set.
    pub fn set_float_bits(&mut self, key: &String, wide: bool, bits: u64, desired_type_name: &String) -> (r:
        SmirkMessages)
        requires
            old(self).wf(),
            !wide ==> bits <= u32::MAX,
        ensures
            final(self).wf(),
            final(self).search_mode == old(self).search_mode,
            ({
                let kind = if wide { Kind::F64 } else { Kind::F32 };
                let c1 = final(self).contents();
                &&& (r matches SmirkMessages::SetKey(k, s, d) && k@ == key@ && s@
                    == spec_kind_name(kind) && d@ == desired_type_name@)
                &&& c1.contains_key(key@)
                &&& c1[key@].value == (if wide {
                    Value::F64Bits(bits)
                } else {
                    Value::F32Bits(bits as u32)
                })
                &&& c1[key@].ttl is None
                &&& c1[key@].stored_type_name@ == spec_kind_name(kind)
                &&& c1[key@].desired_type_name@ == desired_type_name@
                &&& c1.remove(key@) == old(self).contents().remove(key@)
                &&& c1.dom() == old(self).contents().dom().insert(key@)
            }),
            old(self).contents().contains_key(key@) ==> final(self).key_seq() == old(
                self,
            ).key_seq(),
            !old(self).contents().contains_key(key@) ==> final(self).key_seq() == old(
                self,
            ).key_seq().push(key@),
            spec_inserted(old(self).spec_trie(), key@, final(self).spec_trie()),
    {
        let kind = if wide {
            Kind::F64
        } else {
            Kind::F32
        };
        let v = if wide {
            Value::F64Bits(bits)
        } else {
            Value::F32Bits(bits as u32)
        };
        let rec = Record {
            value: v,
            ttl: None,
            ttl_start: now_secs(),
            stored_type_name: String::from_str(kind_name(kind)),
            desired_type_name: desired_type_name.clone(),
        };
        match self.find_key(key) {
            Some(i) => {
                let (k0, _r0) = self.entries.remove(i);
                self.entries.insert(i, (k0, rec));
                proof {
                    let p = (old(self).entries@[i as int].0, rec);
                    assert(self.entries@ =~= old(self).entries@.update(i as int, p));
                    lemma_entries_map_update(old(self).entries@, i as int, p);
                    assert(self.contents() == old(self).contents().insert(key@, rec));
                    assert(self.contents().remove(key@) =~= old(self).contents().remove(key@));
                    lemma_entries_map(old(self).entries@);
                    assert(self.contents().dom() =~= old(self).contents().dom().insert(key@));
                    assert(self.key_seq() =~= old(self).key_seq());
                }
            },
            None => {
                self.entries.push((key.clone(), rec));
                proof {
                    let p = (self.entries@.last().0, rec);
                    assert(self.entries@ =~= old(self).entries@.push(p));
                    lemma_entries_map_push(old(self).entries@, p);
                    assert(self.contents() == old(self).contents().insert(key@, rec));
                    assert(self.contents().remove(key@) =~= old(self).contents().remove(key@));
                    lemma_entries_map(old(self).entries@);
                    lemma_entry_find_idx(old(self).entries@, key@);
                    assert(!old(self).contents().contains_key(key@));
                    assert(self.contents().dom() =~= old(self).contents().dom().insert(key@));
                    assert(self.key_seq() =~= old(self).key_seq().push(key@));
                    assert forall|a: int, b: int|
                        0 <= a < b < self.entries@.len() implies (#[trigger] self.entries@[a]).0@
                        != (#[trigger] self.entries@[b]).0@ by {
                        if b < self.entries@.len() - 1 {
                            assert(self.entries@[a] == old(self).entries@[a]);
                            assert(self.entries@[b] == old(self).entries@[b]);
                        } else {
                            assert(self.entries@[a] == old(self).entries@[a]);
                        }
                    }
                }
            },
        }
        self.trie.insert(key);
        SmirkMessages::SetKey(
            key.clone(),
            String::from_str(kind_name(kind)),
            desired_type_name.clone(),
        )
    }

    /// Reads the IEEE-754 bit pattern stored under `key` for the floating
    /// kind selected by `wide`; an absent key and a mismatched kind are
    /// distinct errors.  The bits-to-text rendering happens outside the
    /// library.
    pub fn get_float_bits(&self, key: &String, wide: bool) -> (r: Result<u64, SmirkMessages>)
        requires
            self.wf(),
        ensures
            ({
                let kind = if wide { Kind::F64 } else { Kind::F32 };
                match get_spec(self.contents(), key@, kind) {
                    GetOutcome::Found(v) => r matches Ok(b) && b == float_bits_of(v),
                    GetOutcome::NotFound => r matches Err(m) && m matches
                        SmirkMessages::KeyNotFound(k) && k@ == key@,
                    GetOutcome::Mismatch => r matches Err(m) && m matches
                        SmirkMessages::TypeMismatch(k, d) && k@ == key@ && d@ == spec_kind_name(
                        kind,
                    ),
                }
            }),
    {
        let kind = if wide {
            Kind::F64
        } else {
            Kind::F32
        };
        match self.get(key, kind) {
            Ok(v) => {
                let bits: u64 = match v {
                    Value::F32Bits(b) => *b as u64,
                    Value::F64Bits(b) => *b,
                    _ => {
                        proof {
                            assert(false);
                        }
                        0
                    },
                };
                Ok(bits)
            },
            Err(e) => Err(e),
        }
    }

    /// The live keys, cloned in insertion order.
    pub fn live_keys(&self) -> (r: Vec<String>)
        ensures
            r@.len() == self.key_seq().len(),
            forall|i: int| 0 <= i < r@.len() ==> (#[trigger] r@[i])@ == self.key_seq()[i],
    {
        let n = self.entries.len();
        let mut out: Vec<String> = Vec::new();
        let mut i: usize = 0;
        while i < n
            invariant
                n == self.entries@.len(),
                0 <= i <= n,
                out@.len() == i,
                forall|k: int| 0 <= k < i ==> (#[trigger] out@[k])@ == self.entries@[k].0@,
            decreases n - i,
        {
            out.push(self.entries[i].0.clone());
            i = i + 1;
        }
        out
    }
}


/// Updating the entry at `i` with a pair under the same key updates the
/// denoted map at that key.
proof fn lemma_entries_map_update(s: Seq<(String, Record)>, i: int, p: (String, Record))
    requires
        0 <= i < s.len(),
        p.0@ == s[i].0@,
        forall|a: int, b: int| 0 <= a < b < s.len() ==> (#[trigger] s[a]).0@ != (#[trigger] s[b]).0@,
    ensures
        entries_map(s.update(i, p)) == entries_map(s).insert(p.0@, p.1),
    decreases s.len(),
{
    let s2 = s.update(i, p);
    if i == s.len() - 1 {
        assert(s2.drop_last() =~= s.drop_last());
        assert(s2.last() == p);
        assert(entries_map(s2) =~= entries_map(s).insert(p.0@, p.1));
    } else {
        assert(s2.drop_last() =~= s.drop_last().update(i, p));
        assert(s2.last() == s.last());
        assert forall|a: int, b: int|
            0 <= a < b < s.drop_last().len() implies (#[trigger] s.drop_last()[a]).0@ != (
        #[trigger] s.drop_last()[b]).0@ by {
            assert(s.drop_last()[a] == s[a]);
            assert(s.drop_last()[b] == s[b]);
        }
        assert(s.drop_last()[i] == s[i]);
        lemma_entries_map_update(s.drop_last(), i, p);
        assert(s.last().0@ != s[i].0@);
        assert(entries_map(s2) =~= entries_map(s).insert(p.0@, p.1));
    }
}

/// Appending an entry inserts its key into the denoted map.
proof fn lemma_entries_map_push(s: Seq<(String, Record)>, p: (String, Record))
    ensures
        entries_map(s.push(p)) == entries_map(s).insert(p.0@, p.1),
{
    assert(s.push(p).drop_last() =~= s);
    assert(s.push(p).last() == p);
}

/// Removing the entry at `i` removes its key from the denoted map.
proof fn lemma_entries_map_remove(s: Seq<(String, Record)>, i: int)
    requires
        0 <= i < s.len(),
        forall|a: int, b: int| 0 <= a < b < s.len() ==> (#[trigger] s[a]).0@ != (#[trigger] s[b]).0@,
    ensures
        entries_map(s.remove(i)) == entries_map(s).remove(s[i].0@),
    decreases s.len(),
{
    assert forall|a: int, b: int|
        0 <= a < b < s.drop_last().len() implies (#[trigger] s.drop_last()[a]).0@ != (
    #[trigger] s.drop_last()[b]).0@ by {
        assert(s.drop_last()[a] == s[a]);
        assert(s.drop_last()[b] == s[b]);
    }
    if i == s.len() - 1 {
        assert(s.remove(i) =~= s.drop_last());
        lemma_entries_map(s.drop_last());
        assert(!entries_map(s.drop_last()).contains_key(s[i].0@));
        assert(entries_map(s.remove(i)) =~= entries_map(s).remove(s[i].0@));
    } else {
        assert(s.remove(i).drop_last() =~= s.drop_last().remove(i));
        assert(s.remove(i).last() == s.last());
        assert(s.drop_last()[i] == s[i]);
        lemma_entries_map_remove(s.drop_last(), i);
        assert(s.last().0@ != s[i].0@);
        assert(entries_map(s.remove(i)) =~= entries_map(s).remove(s[i].0@));
    }
}

/// The entry list and the map it denotes agree: with distinct keys, each
/// entry is found under its key, and only present keys are in the map.
proof fn lemma_entries_map(s: Seq<(String, Record)>)
    requires
        forall|i: int, j: int| 0 <= i < j < s.len() ==> (#[trigger] s[i]).0@ != (#[trigger] s[j]).0@,
    ensures
        forall|k: Seq<char>|
            #[trigger] entries_map(s).contains_key(k) <==> exists|i: int|
                0 <= i < s.len() && (#[trigger] s[i]).0@ == k,
        forall|i: int|
            0 <= i < s.len() ==> entries_map(s).contains_key((#[trigger] s[i]).0@) && entries_map(s)[
                s[i].0@] == s[i].1,
    decreases s.len(),
{
    if s.len() > 0 {
        lemma_entries_map(s.drop_last());
        assert forall|i: int|
            0 <= i < s.len() implies entries_map(s).contains_key((#[trigger] s[i]).0@)
            && entries_map(s)[s[i].0@] == s[i].1 by {
            if i < s.len() - 1 {
                assert(s.drop_last()[i] == s[i]);
                assert(s[i].0@ != s.last().0@);
            }
        }
        assert forall|k: Seq<char>| #[trigger] entries_map(s).contains_key(k) implies exists|i: int|
            0 <= i < s.len() && (#[trigger] s[i]).0@ == k by {
            if k != s.last().0@ {
                assert(entries_map(s.drop_last()).contains_key(k));
                let i = choose|i: int| 0 <= i < s.drop_last().len() && (#[trigger] s.drop_last()[i]).0@ == k;
                assert(s[i] == s.drop_last()[i]);
            }
        }
        assert forall|k: Seq<char>| (exists|i: int| 0 <= i < s.len() && (#[trigger] s[i]).0@ == k)
            implies #[trigger] entries_map(s).contains_key(k) by {
            let i = choose|i: int| 0 <= i < s.len() && (#[trigger] s[i]).0@ == k;
            if i < s.len() - 1 {
                assert(s.drop_last()[i] == s[i]);
            }
        }
    }
}

/// `entry_find_idx` finds the first entry under the sought key, and fails
/// only when no entry carries it.
proof fn lemma_entry_find_idx(s: Seq<(String, Record)>, k: Seq<char>)
    ensures
        match entry_find_idx(s, k) {
            Some(i) => 0 <= i < s.len() && s[i].0@ == k && forall|x: int|
                0 <= x < i ==> (#[trigger] s[x]).0@ != k,
            None => forall|x: int| 0 <= x < s.len() ==> (#[trigger] s[x]).0@ != k,
        },
    decreases s.len(),
{
    if s.len() == 0 {
    } else if s[0].0@ == k {
    } else {
        lemma_entry_find_idx(s.drop_first(), k);
        match entry_find_idx(s.drop_first(), k) {
            Some(i) => {
                assert(s.drop_first()[i] == s[i + 1]);
                assert forall|x: int| 0 <= x < i + 1 implies (#[trigger] s[x]).0@ != k by {
                    if x > 0 {
                        assert(s.drop_first()[x - 1] == s[x]);
                    }
                }
            },
            None => {
                assert forall|x: int| 0 <= x < s.len() implies (#[trigger] s[x]).0@ != k by {
                    if x > 0 {
                        assert(s.drop_first()[x - 1] == s[x]);
                    }
                }
            },
        }
    }
}

} // verus!
