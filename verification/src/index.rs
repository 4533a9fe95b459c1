//! The occurrence index: canonical key to occurrence count.
//!
//! Built incrementally during one traversal and discarded afterwards.  It is
//! an association list over two parallel vectors, looked up by first match;
//! `spec_get` gives the count a key maps to, zero for an unknown key.

use vstd::prelude::*;

verus! {

/// The count `key` maps to among the parallel entry sequences, zero when it
/// is absent; the first matching entry decides.
pub open spec fn entries_get(keys: Seq<String>, counts: Seq<usize>, key: Seq<char>) -> nat
    decreases keys.len(),
{
    if keys.len() == 0 {
        0
    } else if keys[0]@ == key {
        counts[0] as nat
    } else {
        entries_get(keys.skip(1), counts.skip(1), key)
    }
}

/// A mapping from canonical keys to how often the traversal has met them.
pub struct DupIndex {
    keys: Vec<String>,
    counts: Vec<usize>,
}

impl DupIndex {
    /// The two entry vectors run in parallel.
    pub closed spec fn wf(self) -> bool {
        self.keys@.len() == self.counts@.len()
    }

    /// The count recorded for `key`, zero when the key is unknown.
    pub closed spec fn spec_get(self, key: Seq<char>) -> nat {
        entries_get(self.keys@, self.counts@, key)
    }

    /// An empty index: every key counts zero.
    pub fn new() -> (r: Self)
        ensures
            r.wf(),
            forall|k: Seq<char>| r.spec_get(k) == 0,
    {
        DupIndex { keys: Vec::new(), counts: Vec::new() }
    }

    /// Record one more occurrence of `key` and return how many had been
    /// recorded before: every other key keeps its count.
    pub fn bump(&mut self, key: &String) -> (prev: usize)
        requires
            old(self).wf(),
            old(self).spec_get(key@) < usize::MAX,
        ensures
            final(self).wf(),
            prev == old(self).spec_get(key@),
            final(self).spec_get(key@) == prev + 1,
            forall|k: Seq<char>| k != key@ ==> final(self).spec_get(k) == old(self).spec_get(k),
    {
        let n = self.keys.len();
        let mut i: usize = 0;
        while i < n
            invariant
                self == old(self),
                old(self).spec_get(key@) < usize::MAX,
                n == self.keys@.len(),
                self.wf(),
                i <= n,
                forall|j: int| 0 <= j < i ==> self.keys@[j]@ != key@,
            decreases n - i,
        {
            if self.keys[i] == *key {
                let c = self.counts[i];
                proof {
                    lemma_entries_get_found(self.keys@, self.counts@, i as int, key@);
                    assert(old(self).spec_get(key@) == entries_get(self.keys@, self.counts@, key@));
                }
                let c1 = c + 1;
                proof {
                    lemma_entries_get_update(self.keys@, self.counts@, i as int, c1, key@);
                }
                self.counts[i] = c1;
                return c;
            }
            i += 1;
        }
        proof {
            lemma_entries_get_absent(self.keys@, self.counts@, key@);
            lemma_entries_get_push(self.keys@, self.counts@, *key, 1, key@);
            assert forall|k: Seq<char>| k != key@ implies entries_get(
                self.keys@.push(*key),
                self.counts@.push(1),
                k,
            ) == entries_get(self.keys@, self.counts@, k) by {
                lemma_entries_get_push(self.keys@, self.counts@, *key, 1, k);
            }
        }
        self.keys.push(key.clone());
        self.counts.push(1);
        0
    }
}

/// A key found first at position `i` reads back that entry's count.
proof fn lemma_entries_get_found(keys: Seq<String>, counts: Seq<usize>, i: int, key: Seq<char>)
    requires
        keys.len() == counts.len(),
        0 <= i < keys.len(),
        keys[i]@ == key,
        forall|j: int| 0 <= j < i ==> keys[j]@ != key,
    ensures
        entries_get(keys, counts, key) == counts[i] as nat,
    decreases i,
{
    if i > 0 {
        lemma_entries_get_found(keys.skip(1), counts.skip(1), i - 1, key);
    }
}

/// A key matching no entry reads back zero.
proof fn lemma_entries_get_absent(keys: Seq<String>, counts: Seq<usize>, key: Seq<char>)
    requires
        keys.len() == counts.len(),
        forall|j: int| 0 <= j < keys.len() ==> keys[j]@ != key,
    ensures
        entries_get(keys, counts, key) == 0,
    decreases keys.len(),
{
    if keys.len() > 0 {
        lemma_entries_get_absent(keys.skip(1), counts.skip(1), key);
    }
}

/// Replacing the count of the first entry matching `key` changes that key's
/// reading alone.
proof fn lemma_entries_get_update(
    keys: Seq<String>,
    counts: Seq<usize>,
    i: int,
    c: usize,
    key: Seq<char>,
)
    requires
        keys.len() == counts.len(),
        0 <= i < keys.len(),
        keys[i]@ == key,
        forall|j: int| 0 <= j < i ==> keys[j]@ != key,
    ensures
        entries_get(keys, counts.update(i, c), key) == c as nat,
        forall|k: Seq<char>| k != key ==> entries_get(keys, counts.update(i, c), k)
            == entries_get(keys, counts, k),
    decreases keys.len(),
{
    assert(counts.update(i, c).len() == counts.len());
    if i == 0 {
        assert forall|k: Seq<char>| k != key implies entries_get(keys, counts.update(i, c), k)
            == entries_get(keys, counts, k) by {
            assert(counts.update(0, c).skip(1) =~= counts.skip(1));
        }
    } else {
        lemma_entries_get_update(keys.skip(1), counts.skip(1), i - 1, c, key);
        assert(counts.update(i, c).skip(1) =~= counts.skip(1).update(i - 1, c));
        assert(entries_get(keys, counts.update(i, c), key) == c as nat);
        assert forall|k: Seq<char>| k != key implies entries_get(keys, counts.update(i, c), k)
            == entries_get(keys, counts, k) by {
            if keys[0]@ != k {
                assert(entries_get(keys.skip(1), counts.skip(1).update(i - 1, c), k)
                    == entries_get(keys.skip(1), counts.skip(1), k));
            }
        }
    }
}

/// Appending an entry for a fresh key `s` makes its reading `c` and leaves
/// every other key's reading alone.
proof fn lemma_entries_get_push(
    keys: Seq<String>,
    counts: Seq<usize>,
    s: String,
    c: usize,
    k: Seq<char>,
)
    requires
        keys.len() == counts.len(),
        forall|j: int| 0 <= j < keys.len() ==> keys[j]@ != s@,
    ensures
        entries_get(keys.push(s), counts.push(c), k) == if k == s@ {
            c as nat
        } else {
            entries_get(keys, counts, k)
        },
    decreases keys.len(),
{
    if keys.len() == 0 {
        assert(keys.push(s)[0] == s);
        assert(keys.push(s).len() == 1);
        if k == s@ {
            assert(counts.push(c)[0] == c);
            assert(entries_get(keys.push(s), counts.push(c), k) == c as nat);
        } else {
            assert(keys.push(s).skip(1) =~= Seq::<String>::empty());
            assert(counts.push(c).skip(1) =~= Seq::<usize>::empty());
            assert(entries_get(Seq::<String>::empty(), Seq::<usize>::empty(), k) == 0);
            assert(entries_get(keys.push(s), counts.push(c), k) == 0);
            assert(entries_get(keys, counts, k) == 0);
        }
    } else {
        assert(keys.push(s)[0] == keys[0]);
        assert(counts.push(c)[0] == counts[0]);
        assert(keys.push(s).skip(1) =~= keys.skip(1).push(s));
        assert(counts.push(c).skip(1) =~= counts.skip(1).push(c));
        lemma_entries_get_push(keys.skip(1), counts.skip(1), s, c, k);
        if keys[0]@ == k {
            assert(entries_get(keys.push(s), counts.push(c), k) == counts[0] as nat);
            assert(entries_get(keys, counts, k) == counts[0] as nat);
        } else {
            assert(entries_get(keys.push(s), counts.push(c), k) == entries_get(
                keys.skip(1).push(s),
                counts.skip(1).push(c),
                k,
            ));
            assert(entries_get(keys, counts, k) == entries_get(keys.skip(1), counts.skip(1), k));
        }
    }
}

} // verus!
