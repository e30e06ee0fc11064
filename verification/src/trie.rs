//! The prefix trie over live keys.  Each node counts the keys whose path
//! passes through it and remembers whether some key ends there; a node is
//! pruned from its parent once its count reaches zero.  Only the node a
//! removed key ends at is decremented: the counts of its ancestors are not
//! re-examined, which is the documented shallow-maintenance contract.

use vstd::prelude::*;

verus! {

/// A trie node.  The root represents the empty prefix; each child edge
/// carries one character.
#[derive(Debug)]
pub struct Trie {
    pub has_key_ending_here: bool,
    pub counter: u64,
    pub children: Vec<(char, Trie)>,
}

/// The index of the first child labelled `c`.
pub open spec fn seq_find_idx(s: Seq<(char, Trie)>, c: char) -> Option<int>
    decreases s.len(),
{
    if s.len() == 0 {
        None
    } else if s[0].0 == c {
        Some(0int)
    } else {
        match seq_find_idx(s.drop_first(), c) {
            Some(i) => Some(i + 1),
            None => None,
        }
    }
}

/// The child of `t` reached over the edge `c`.
pub open spec fn spec_child(t: Trie, c: char) -> Option<Trie> {
    match seq_find_idx(t.children@, c) {
        Some(i) => Some(t.children@[i].1),
        None => None,
    }
}

/// The node reached from `t` along the path `p`.
pub open spec fn node_at(t: Trie, p: Seq<char>) -> Option<Trie>
    decreases p.len(),
{
    if p.len() == 0 {
        Some(t)
    } else {
        match spec_child(t, p[0]) {
            Some(ch) => node_at(ch, p.drop_first()),
            None => None,
        }
    }
}

/// The edge labels leaving `t`, in child order.
pub open spec fn kids(t: Trie) -> Seq<char> {
    Seq::new(t.children@.len() as nat, |i: int| t.children@[i].0)
}

/// The next-character continuations the trie reports for `p`: the edge
/// labels leaving the node `p` reaches, or nothing when no key with that
/// prefix was ever inserted.
pub open spec fn continuations(t: Trie, p: Seq<char>) -> Seq<char> {
    match node_at(t, p) {
        Some(n) => kids(n),
        None => Seq::empty(),
    }
}

/// Whether some key ends at the node `p` reaches.
pub open spec fn terminal_at(t: Trie, p: Seq<char>) -> bool {
    match node_at(t, p) {
        Some(n) => n.has_key_ending_here,
        None => false,
    }
}

/// The live count of the node `p` reaches.
pub open spec fn count_at(t: Trie, p: Seq<char>) -> u64 {
    match node_at(t, p) {
        Some(n) => n.counter,
        None => 0,
    }
}

/// A well-formed trie: edge labels are distinct at every node and every
/// non-root node has a positive count.
pub open spec fn trie_wf(t: Trie) -> bool
    decreases t,
{
    &&& (forall|i: int, j: int|
        0 <= i < j < t.children@.len() ==> (#[trigger] t.children@[i]).0 != (#[trigger] t.children@[j]).0)
    &&& (forall|i: int|
        0 <= i < t.children@.len() ==> (#[trigger] t.children@[i]).1.counter >= 1)
    &&& (forall|i: int| 0 <= i < t.children@.len() ==> trie_wf((#[trigger] t.children@[i]).1))
}

/// A count increment that stays put at the top of the range.
pub open spec fn sat_inc(c: u64) -> u64 {
    if c == u64::MAX {
        c
    } else {
        (c + 1) as u64
    }
}

/// A count decrement that stays put at zero.
pub open spec fn sat_dec(c: u64) -> u64 {
    if c == 0 {
        0
    } else {
        (c - 1) as u64
    }
}

/// `t` with its count incremented.
pub open spec fn bumped(t: Trie) -> Trie {
    Trie { has_key_ending_here: t.has_key_ending_here, counter: sat_inc(t.counter), children: t.children }
}

/// `t1` is a freshly created chain for `suffix`: one node per remaining
/// character, each with count one, the last marked terminal.
pub open spec fn fresh_path(suffix: Seq<char>, t1: Trie) -> bool
    decreases suffix.len(),
{
    &&& t1.counter == 1
    &&& if suffix.len() == 0 {
        t1.has_key_ending_here && t1.children@.len() == 0
    } else {
        &&& !t1.has_key_ending_here
        &&& t1.children@.len() == 1
        &&& t1.children@[0].0 == suffix[0]
        &&& fresh_path(suffix.drop_first(), t1.children@[0].1)
    }
}

/// `t1` is `t0` after inserting `suffix` below this node: walk or create
/// one node per character, incrementing the count of every node entered,
/// and mark the node the suffix ends at as terminal.  Nodes off the path
/// keep their values, and a created edge is appended after the existing
/// children.
pub open spec fn spec_inserted(t0: Trie, suffix: Seq<char>, t1: Trie) -> bool
    decreases suffix.len(),
{
    if suffix.len() == 0 {
        &&& t1.has_key_ending_here == true
        &&& t1.counter == t0.counter
        &&& t1.children@ == t0.children@
    } else {
        &&& t1.has_key_ending_here == t0.has_key_ending_here
        &&& t1.counter == t0.counter
        &&& match seq_find_idx(t0.children@, suffix[0]) {
            Some(j) => {
                &&& t1.children@.len() == t0.children@.len()
                &&& 0 <= j < t1.children@.len()
                &&& t1.children@ == t0.children@.update(j, (suffix[0], t1.children@[j].1))
                &&& spec_inserted(bumped(t0.children@[j].1), suffix.drop_first(), t1.children@[j].1)
            },
            None => {
                &&& t1.children@.len() == t0.children@.len() + 1
                &&& t1.children@ == t0.children@.push(t1.children@.last())
                &&& t1.children@.last().0 == suffix[0]
                &&& fresh_path(suffix.drop_first(), t1.children@.last().1)
            },
        }
    }
}

/// `t1` is `t0` after removing `key` below this node: walk the existing
/// path (stopping harmlessly where it ends), decrement the count of the
/// node the key ends at, and prune that node from its parent once its
/// count reaches zero.  No other node changes.
pub open spec fn spec_removed(t0: Trie, key: Seq<char>, t1: Trie) -> bool
    decreases key.len(),
{
    if key.len() == 0 {
        &&& t1.has_key_ending_here == t0.has_key_ending_here
        &&& t1.counter == sat_dec(t0.counter)
        &&& t1.children@ == t0.children@
    } else {
        &&& t1.has_key_ending_here == t0.has_key_ending_here
        &&& t1.counter == t0.counter
        &&& match seq_find_idx(t0.children@, key[0]) {
            Some(j) => {
                if key.len() == 1 && sat_dec(t0.children@[j].1.counter) == 0 {
                    t1.children@ == t0.children@.remove(j)
                } else {
                    &&& t1.children@.len() == t0.children@.len()
                    &&& 0 <= j < t1.children@.len()
                    &&& t1.children@ == t0.children@.update(j, (key[0], t1.children@[j].1))
                    &&& spec_removed(t0.children@[j].1, key.drop_first(), t1.children@[j].1)
                }
            },
            None => t1.children@ == t0.children@,
        }
    }
}

/// `seq_find_idx` finds the first child with the sought label, and fails
/// only when no child carries it.
proof fn lemma_seq_find_idx(s: Seq<(char, Trie)>, c: char)
    ensures
        match seq_find_idx(s, c) {
            Some(i) => 0 <= i < s.len() && s[i].0 == c && forall|k: int|
                0 <= k < i ==> (#[trigger] s[k]).0 != c,
            None => forall|k: int| 0 <= k < s.len() ==> (#[trigger] s[k]).0 != c,
        },
    decreases s.len(),
{
    if s.len() == 0 {
    } else if s[0].0 == c {
    } else {
        lemma_seq_find_idx(s.drop_first(), c);
        assert forall|k: int| 0 <= k < s.len() && s[k].0 == c implies match seq_find_idx(s, c) {
            Some(i) => true,
            None => false,
        } by {
            if k > 0 {
                assert(s.drop_first()[k - 1] == s[k]);
            }
        }
        match seq_find_idx(s.drop_first(), c) {
            Some(i) => {
                assert(s.drop_first()[i] == s[i + 1]);
                assert forall|k: int| 0 <= k < i + 1 implies (#[trigger] s[k]).0 != c by {
                    if k > 0 {
                        assert(s.drop_first()[k - 1] == s[k]);
                    }
                }
            },
            None => {
                assert forall|k: int| 0 <= k < s.len() implies (#[trigger] s[k]).0 != c by {
                    if k > 0 {
                        assert(s.drop_first()[k - 1] == s[k]);
                    }
                }
            },
        }
    }
}


/// Every node of a fresh chain offers the chain's next character.
proof fn lemma_fresh_path_continuations(suffix: Seq<char>, t1: Trie, i: int)
    requires
        fresh_path(suffix, t1),
        0 <= i < suffix.len(),
    ensures
        node_at(t1, suffix.take(i)) matches Some(n) && kids(n).contains(suffix[i]),
    decreases i,
{
    if i == 0 {
        assert(suffix.take(0) =~= Seq::<char>::empty());
        assert(node_at(t1, suffix.take(0)) == Some(t1));
        assert(kids(t1)[0] == suffix[0]);
    } else {
        let ch = t1.children@[0].1;
        assert(seq_find_idx(t1.children@, suffix[0]) == Some(0int));
        assert(spec_child(t1, suffix[0]) == Some(ch));
        assert(suffix.take(i)[0] == suffix[0]);
        assert(suffix.take(i).drop_first() =~= suffix.drop_first().take(i - 1));
        assert(suffix.drop_first()[i - 1] == suffix[i]);
        lemma_fresh_path_continuations(suffix.drop_first(), ch, i - 1);
        assert(node_at(t1, suffix.take(i)) == node_at(ch, suffix.take(i).drop_first()));
    }
}

/// After inserting a key, every proper prefix of it reaches a node whose
/// continuations offer the key's next character: the inserted key is
/// discoverable from each of its prefixes.
pub proof fn lemma_inserted_continuations(t0: Trie, key: Seq<char>, t1: Trie, i: int)
    requires
        trie_wf(t0),
        spec_inserted(t0, key, t1),
        0 <= i < key.len(),
    ensures
        continuations(t1, key.take(i)).contains(key[i]),
    decreases i,
{
    lemma_seq_find_idx(t0.children@, key[0]);
    match seq_find_idx(t0.children@, key[0]) {
        Some(j) => {
            let ch1 = t1.children@[j].1;
            assert(t1.children@[j] == (key[0], ch1));
            lemma_seq_find_idx(t1.children@, key[0]);
            match seq_find_idx(t1.children@, key[0]) {
                Some(x) => {
                    if x != j {
                        assert(t1.children@[x].0 == key[0]);
                        assert(t1.children@[x] == t0.children@[x]);
                        if x < j {
                            assert(t0.children@[x].0 != key[0]);
                        } else {
                            assert(t0.children@[j].0 == key[0]);
                            assert(t0.children@[x].0 != t0.children@[j].0);
                        }
                        assert(false);
                    }
                },
                None => {
                    assert(t1.children@[j].0 == key[0]);
                    assert(false);
                },
            }
            assert(spec_child(t1, key[0]) == Some(ch1));
            if i == 0 {
                assert(key.take(0) =~= Seq::<char>::empty());
                assert(node_at(t1, key.take(0)) == Some(t1));
                assert(kids(t1)[j] == key[0]);
            } else {
                let ch0 = t0.children@[j].1;
                assert(trie_wf(ch0));
                assert(trie_wf(bumped(ch0)));
                assert(key.take(i)[0] == key[0]);
                assert(key.take(i).drop_first() =~= key.drop_first().take(i - 1));
                assert(key.drop_first()[i - 1] == key[i]);
                lemma_inserted_continuations(bumped(ch0), key.drop_first(), ch1, i - 1);
                assert(node_at(t1, key.take(i)) == node_at(ch1, key.take(i).drop_first()));
            }
        },
        None => {
            let ch1 = t1.children@.last().1;
            assert(t1.children@.last() == (key[0], t1.children@.last().1));
            lemma_seq_find_idx(t1.children@, key[0]);
            let last: int = t1.children@.len() - 1;
            match seq_find_idx(t1.children@, key[0]) {
                Some(x) => {
                    if x != last {
                        assert(t1.children@[x] == t0.children@[x]);
                        assert(t0.children@[x].0 != key[0]);
                        assert(false);
                    }
                },
                None => {
                    assert(t1.children@[last].0 == key[0]);
                    assert(false);
                },
            }
            assert(spec_child(t1, key[0]) == Some(ch1));
            if i == 0 {
                assert(key.take(0) =~= Seq::<char>::empty());
                assert(node_at(t1, key.take(0)) == Some(t1));
                assert(kids(t1)[last] == key[0]);
            } else {
                assert(key.take(i)[0] == key[0]);
                assert(key.take(i).drop_first() =~= key.drop_first().take(i - 1));
                assert(key.drop_first()[i - 1] == key[i]);
                lemma_fresh_path_continuations(key.drop_first(), ch1, i - 1);
                assert(node_at(t1, key.take(i)) == node_at(ch1, key.take(i).drop_first()));
            }
        },
    }
}


/// After removing a key whose end node held its last count, the node is
/// pruned: the key's parent prefix no longer offers the key's final
/// character.
pub proof fn lemma_removed_prunes(t0: Trie, key: Seq<char>, t1: Trie)
    requires
        trie_wf(t0),
        key.len() > 0,
        spec_removed(t0, key, t1),
        node_at(t0, key) matches Some(n) && n.counter == 1,
    ensures
        !continuations(t1, key.drop_last()).contains(key.last()),
    decreases key.len(),
{
    lemma_seq_find_idx(t0.children@, key[0]);
    match seq_find_idx(t0.children@, key[0]) {
        None => {
            assert(spec_child(t0, key[0]) is None);
            assert(node_at(t0, key) is None);
        },
        Some(j) => {
            let ch0 = t0.children@[j].1;
            assert(spec_child(t0, key[0]) == Some(ch0));
            assert(node_at(t0, key) == node_at(ch0, key.drop_first()));
            if key.len() == 1 {
                assert(key.drop_first() =~= Seq::<char>::empty());
                assert(node_at(ch0, key.drop_first()) == Some(ch0));
                assert(ch0.counter == 1);
                assert(sat_dec(ch0.counter) == 0);
                assert(t1.children@ == t0.children@.remove(j));
                assert(key.drop_last() =~= Seq::<char>::empty());
                assert(node_at(t1, key.drop_last()) == Some(t1));
                assert(key.last() == key[0]);
                assert forall|x: int| 0 <= x < kids(t1).len() implies kids(t1)[x] != key[0] by {
                    let x0: int = if x < j {
                        x
                    } else {
                        x + 1
                    };
                    assert(t1.children@[x] == t0.children@[x0]);
                    assert(x0 != j);
                    if x0 < j {
                        assert(t0.children@[x0].0 != t0.children@[j].0);
                    } else {
                        assert(t0.children@[j].0 != t0.children@[x0].0);
                    }
                }
                if continuations(t1, key.drop_last()).contains(key.last()) {
                    let x = choose|x: int|
                        0 <= x < kids(t1).len() && kids(t1)[x] == key.last();
                    assert(false);
                }
            } else {
                let ch1 = t1.children@[j].1;
                assert(t1.children@ == t0.children@.update(j, (key[0], ch1)));
                assert(spec_removed(ch0, key.drop_first(), ch1));
                assert(trie_wf(ch0));
                assert(key.drop_first().len() > 0);
                assert(node_at(ch0, key.drop_first()) is Some);
                lemma_seq_find_idx(t1.children@, key[0]);
                match seq_find_idx(t1.children@, key[0]) {
                    Some(x) => {
                        if x != j {
                            assert(t1.children@[x].0 == key[0]);
                            assert(t1.children@[x] == t0.children@[x]);
                            if x < j {
                                assert(t0.children@[x].0 != t0.children@[j].0);
                            } else {
                                assert(t0.children@[j].0 != t0.children@[x].0);
                            }
                            assert(false);
                        }
                    },
                    None => {
                        assert(t1.children@[j].0 == key[0]);
                        assert(false);
                    },
                }
                assert(spec_child(t1, key[0]) == Some(ch1));
                lemma_removed_prunes(ch0, key.drop_first(), ch1);
                assert(key.drop_last()[0] == key[0]);
                assert(key.drop_last().drop_first() =~= key.drop_first().drop_last());
                assert(key.drop_first().last() == key.last());
                assert(node_at(t1, key.drop_last()) == node_at(ch1, key.drop_last().drop_first()));
            }
        },
    }
}


/// Removing a key whose end node still counts other keys keeps the
/// branch: the parent prefix still offers the key's final character.
pub proof fn lemma_removed_keeps_shared(t0: Trie, key: Seq<char>, t1: Trie)
    requires
        trie_wf(t0),
        key.len() > 0,
        spec_removed(t0, key, t1),
        node_at(t0, key) matches Some(n) && n.counter > 1,
    ensures
        continuations(t1, key.drop_last()).contains(key.last()),
    decreases key.len(),
{
    lemma_seq_find_idx(t0.children@, key[0]);
    match seq_find_idx(t0.children@, key[0]) {
        None => {
            assert(spec_child(t0, key[0]) is None);
            assert(node_at(t0, key) is None);
        },
        Some(j) => {
            let ch0 = t0.children@[j].1;
            assert(spec_child(t0, key[0]) == Some(ch0));
            assert(node_at(t0, key) == node_at(ch0, key.drop_first()));
            let ch1 = t1.children@[j].1;
            if key.len() == 1 {
                assert(key.drop_first() =~= Seq::<char>::empty());
                assert(node_at(ch0, key.drop_first()) == Some(ch0));
                assert(ch0.counter > 1);
                assert(sat_dec(ch0.counter) != 0);
                assert(t1.children@ == t0.children@.update(j, (key[0], ch1)));
                assert(key.drop_last() =~= Seq::<char>::empty());
                assert(node_at(t1, key.drop_last()) == Some(t1));
                assert(kids(t1)[j] == key[0]);
                assert(key.last() == key[0]);
            } else {
                assert(t1.children@ == t0.children@.update(j, (key[0], ch1)));
                assert(spec_removed(ch0, key.drop_first(), ch1));
                assert(trie_wf(ch0));
                lemma_seq_find_idx(t1.children@, key[0]);
                match seq_find_idx(t1.children@, key[0]) {
                    Some(x) => {
                        if x != j {
                            assert(t1.children@[x].0 == key[0]);
                            assert(t1.children@[x] == t0.children@[x]);
                            if x < j {
                                assert(t0.children@[x].0 != t0.children@[j].0);
                            } else {
                                assert(t0.children@[j].0 != t0.children@[x].0);
                            }
                            assert(false);
                        }
                    },
                    None => {
                        assert(t1.children@[j].0 == key[0]);
                        assert(false);
                    },
                }
                assert(spec_child(t1, key[0]) == Some(ch1));
                lemma_removed_keeps_shared(ch0, key.drop_first(), ch1);
                assert(key.drop_last()[0] == key[0]);
                assert(key.drop_last().drop_first() =~= key.drop_first().drop_last());
                assert(key.drop_first().last() == key.last());
                assert(node_at(t1, key.drop_last()) == node_at(ch1, key.drop_last().drop_first()));
            }
        },
    }
}

/// Descending a concatenated path descends one part after the other.
proof fn lemma_node_at_append(t: Trie, p1: Seq<char>, p2: Seq<char>)
    ensures
        node_at(t, p1 + p2) == (match node_at(t, p1) {
            Some(m) => node_at(m, p2),
            None => None,
        }),
    decreases p1.len(),
{
    if p1.len() == 0 {
        assert(p1 + p2 =~= p2);
    } else {
        assert((p1 + p2)[0] == p1[0]);
        assert((p1 + p2).drop_first() =~= p1.drop_first() + p2);
        match spec_child(t, p1[0]) {
            Some(ch) => {
                lemma_node_at_append(ch, p1.drop_first(), p2);
            },
            None => {},
        }
    }
}

impl Trie {
    /// An empty trie: no terminal mark, count one, no children.
    pub fn new() -> (r: Trie)
        ensures
            r.has_key_ending_here == false,
            r.counter == 1,
            r.children.len() == 0,
            trie_wf(r),
    {
        Trie { has_key_ending_here: false, counter: 1, children: Vec::new() }
    }

    /// Walks or creates the nodes for the characters of `key` from index
    /// `i` on, incrementing the count of every node entered below this one,
    /// and marks the node the key ends at as terminal.
    fn insert_under(&mut self, key: &str, i: usize, n: usize)
        requires
            n == key@.len(),
            i <= n,
            trie_wf(*old(self)),
        ensures
            trie_wf(*final(self)),
            spec_inserted(*old(self), key@.skip(i as int), *final(self)),
        decreases n - i,
    {
        let ghost suffix = key@.skip(i as int);
        if i == n {
            self.has_key_ending_here = true;
            return;
        }
        let c = key.get_char(i);
        proof {
            assert(suffix[0] == key@[i as int]);
            assert(suffix.drop_first() =~= key@.skip(i as int + 1));
        }
        match self.find_child(c) {
            Some(j) => {
                let ghost ch0 = old(self).children@[j as int].1;
                let (c0, mut ch) = self.children.remove(j);
                ch.counter = ch.counter.saturating_add(1);
                proof {
                    assert(ch == bumped(ch0));
                    assert(trie_wf(ch0));
                    assert(trie_wf(bumped(ch0)));
                }
                ch.insert_under(key, i + 1, n);
                let ghost chv = ch;
                self.children.insert(j, (c0, ch));
                proof {
                    assert(self.children@ =~= old(self).children@.update(j as int, (c, chv)));
                    assert(self.children@[j as int].1 == chv);
                    assert(spec_inserted(bumped(old(self).children@[j as int].1), suffix.drop_first(), chv));
                    assert(seq_find_idx(old(self).children@, suffix[0]) == Some(j as int));
                    assert(spec_inserted(*old(self), suffix, *self));
                    assert(chv.counter == sat_inc(ch0.counter));
                    assert forall|a: int, b: int|
                        0 <= a < b < self.children@.len() implies (#[trigger] self.children@[a]).0
                        != (#[trigger] self.children@[b]).0 by {
                        assert(old(self).children@[a].0 == self.children@[a].0 || a == j);
                        assert(old(self).children@[b].0 == self.children@[b].0 || b == j);
                    }
                    assert(trie_wf(*self));
                }
            },
            None => {
                let mut ch = Trie { has_key_ending_here: false, counter: 1, children: Vec::new() };
                proof {
                    assert(trie_wf(ch));
                }
                ch.insert_under(key, i + 1, n);
                let ghost chv = ch;
                self.children.push((c, ch));
                proof {
                    lemma_seq_find_idx(old(self).children@, c);
                    assert(self.children@ =~= old(self).children@.push((c, chv)));
                    assert(self.children@.last() == (c, chv));
                    assert(fresh_path(suffix.drop_first(), chv));
                    assert(spec_inserted(*old(self), suffix, *self));
                    assert forall|a: int, b: int|
                        0 <= a < b < self.children@.len() implies (#[trigger] self.children@[a]).0
                        != (#[trigger] self.children@[b]).0 by {
                        if b == self.children@.len() - 1 {
                            assert(self.children@[a] == old(self).children@[a]);
                        }
                    }
                    assert(trie_wf(*self));
                }
            },
        }
    }

    /// Walks or creates one node per character of `input`, increments the
    /// count of every node visited, and marks the final node as terminal.
    pub fn insert(&mut self, input: &String)
        requires
            trie_wf(*old(self)),
        ensures
            trie_wf(*final(self)),
            spec_inserted(*old(self), input@, *final(self)),
    {
        let n = input.as_str().unicode_len();
        self.insert_under(input.as_str(), 0, n);
        proof {
            assert(input@.skip(0) =~= input@);
        }
    }

    /// Walks the existing path for the characters of `key` from index `i`
    /// on, decrements the count of the node the key ends at, and prunes
    /// that node from its parent once its count reaches zero.
    fn remove_under(&mut self, key: &str, i: usize, n: usize)
        requires
            n == key@.len(),
            i <= n,
            trie_wf(*old(self)),
        ensures
            trie_wf(*final(self)),
            spec_removed(*old(self), key@.skip(i as int), *final(self)),
        decreases n - i,
    {
        let ghost kseq = key@.skip(i as int);
        if i == n {
            self.counter = self.counter.saturating_sub(1);
            return;
        }
        let c = key.get_char(i);
        proof {
            assert(kseq[0] == key@[i as int]);
            assert(kseq.drop_first() =~= key@.skip(i as int + 1));
        }
        match self.find_child(c) {
            None => {},
            Some(j) => {
                let ghost ch0 = old(self).children@[j as int].1;
                let (c0, mut ch) = self.children.remove(j);
                ch.remove_under(key, i + 1, n);
                let ghost chv = ch;
                if i + 1 == n && ch.counter == 0 {
                    proof {
                        assert(kseq.len() == 1);
                        assert(chv.counter == sat_dec(ch0.counter));
                        assert(self.children@ == old(self).children@.remove(j as int));
                        assert(spec_removed(*old(self), kseq, *self));
                        assert forall|a: int, b: int|
                            0 <= a < b < self.children@.len() implies (#[trigger] self.children@[a]).0
                            != (#[trigger] self.children@[b]).0 by {
                            let a0: int = if a < j { a } else { a + 1 };
                            let b0: int = if b < j { b } else { b + 1 };
                            assert(self.children@[a] == old(self).children@[a0]);
                            assert(self.children@[b] == old(self).children@[b0]);
                        }
                        assert forall|a: int| 0 <= a < self.children@.len() implies (
                        #[trigger] self.children@[a]).1.counter >= 1 && trie_wf(
                            self.children@[a].1,
                        ) by {
                            let a0: int = if a < j { a } else { a + 1 };
                            assert(self.children@[a] == old(self).children@[a0]);
                        }
                        assert(trie_wf(*self));
                    }
                } else {
                    proof {
                        if i + 1 == n {
                            assert(chv.counter == sat_dec(ch0.counter));
                        } else {
                            assert(chv.counter == ch0.counter);
                        }
                        assert(chv.counter >= 1);
                    }
                    self.children.insert(j, (c0, ch));
                    proof {
                        assert(self.children@ =~= old(self).children@.update(j as int, (c, chv)));
                        assert(self.children@[j as int].1 == chv);
                        assert(spec_removed(ch0, kseq.drop_first(), chv));
                        assert(seq_find_idx(old(self).children@, kseq[0]) == Some(j as int));
                        assert(!(kseq.len() == 1 && sat_dec(ch0.counter) == 0));
                        assert(spec_removed(*old(self), kseq, *self));
                        assert forall|a: int, b: int|
                            0 <= a < b < self.children@.len() implies (#[trigger] self.children@[a]).0
                            != (#[trigger] self.children@[b]).0 by {
                            assert(old(self).children@[a].0 == self.children@[a].0 || a == j);
                            assert(old(self).children@[b].0 == self.children@[b].0 || b == j);
                        }
                        assert(trie_wf(*self));
                    }
                }
            },
        }
    }

    /// Walks the existing path of `input` (stopping harmlessly where the
    /// path ends), decrements the count of the node the key ends at, and
    /// prunes that node from its parent once its count reaches zero.
    pub fn remove(&mut self, input: &String)
        requires
            trie_wf(*old(self)),
        ensures
            trie_wf(*final(self)),
            spec_removed(*old(self), input@, *final(self)),
    {
        let n = input.as_str().unicode_len();
        self.remove_under(input.as_str(), 0, n);
        proof {
            assert(input@.skip(0) =~= input@);
        }
    }

    /// The index of this node's child labelled `c`.
    fn find_child(&self, c: char) -> (r: Option<usize>)
        ensures
            match r {
                Some(j) => seq_find_idx(self.children@, c) == Some(j as int) && j
                    < self.children@.len() && self.children@[j as int].0 == c,
                None => seq_find_idx(self.children@, c) is None,
            },
    {
        proof {
            lemma_seq_find_idx(self.children@, c);
        }
        let n = self.children.len();
        let mut j: usize = 0;
        while j < n
            invariant
                n == self.children@.len(),
                0 <= j <= n,
                forall|k: int| 0 <= k < j ==> (#[trigger] self.children@[k]).0 != c,
            decreases n - j,
        {
            if self.children[j].0 == c {
                proof {
                    lemma_seq_find_idx(self.children@, c);
                    match seq_find_idx(self.children@, c) {
                        Some(i) => {
                            assert(i == j);
                        },
                        None => {
                            assert(false);
                        },
                    }
                }
                return Some(j);
            }
            j = j + 1;
        }
        None
    }
}


impl Trie {
    /// Descends along `prefix` and reports the next-character continuations
    /// available at the node reached: one single-character string per child
    /// edge, in child order; nothing when the path does not exist.
    pub fn get_keys_with_prefix(&self, prefix: &str) -> (r: Vec<String>)
        ensures
            r@.len() == continuations(*self, prefix@).len(),
            forall|i: int|
                0 <= i < r@.len() ==> (#[trigger] r@[i])@ == seq![continuations(*self, prefix@)[i]],
    {
        let n = prefix.unicode_len();
        let mut cur: &Trie = self;
        let mut i: usize = 0;
        while i < n
            invariant
                n == prefix@.len(),
                0 <= i <= n,
                node_at(*self, prefix@.take(i as int)) == Some(*cur),
            decreases n - i,
        {
            let c = prefix.get_char(i);
            match cur.find_child(c) {
                Some(j) => {
                    let next: &Trie = &cur.children[j].1;
                    proof {
                        assert(spec_child(*cur, c) == Some(*next));
                        lemma_node_at_append(*self, prefix@.take(i as int), seq![c]);
                        assert(prefix@.take(i as int) + seq![c] =~= prefix@.take(i as int + 1));
                        assert(seq![c][0] == c);
                        assert(seq![c].drop_first() =~= Seq::<char>::empty());
                        assert(node_at(*next, seq![c].drop_first()) == Some(*next));
                        assert(node_at(*cur, seq![c]) == Some(*next));
                    }
                    cur = next;
                },
                None => {
                    proof {
                        lemma_node_at_append(*self, prefix@.take(i as int), prefix@.skip(i as int));
                        assert(prefix@.take(i as int) + prefix@.skip(i as int) =~= prefix@);
                        assert(prefix@.skip(i as int)[0] == c);
                        assert(node_at(*cur, prefix@.skip(i as int)) is None);
                        assert(node_at(*self, prefix@) is None);
                    }
                    return Vec::new();
                },
            }
            i = i + 1;
        }
        proof {
            assert(prefix@.take(n as int) =~= prefix@);
            assert(node_at(*self, prefix@) == Some(*cur));
        }
        let m = cur.children.len();
        let mut out: Vec<String> = Vec::new();
        let mut k: usize = 0;
        while k < m
            invariant
                m == cur.children@.len(),
                0 <= k <= m,
                out@.len() == k,
                forall|x: int|
                    0 <= x < k ==> (#[trigger] out@[x])@ == seq![cur.children@[x].0],
            decreases m - k,
        {
            let s = crate::strutil::char_to_string(cur.children[k].0);
            out.push(s);
            k = k + 1;
        }
        proof {
            assert(continuations(*self, prefix@) == kids(*cur));
            assert(kids(*cur).len() == cur.children@.len());
            assert(forall|x: int|
                0 <= x < kids(*cur).len() ==> kids(*cur)[x] == (#[trigger] cur.children@[x]).0);
        }
        out
    }
}

impl Default for Trie {
    /// The empty trie the store starts from: no terminal mark, a count of
    /// one, and no children.
    fn default() -> (r: Trie)
        ensures
            r.has_key_ending_here == false,
            r.counter == 1,
            r.children@.len() == 0,
            trie_wf(r),
    {
        Trie::new()
    }
}

} // verus!
