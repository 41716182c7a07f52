//! A set of keys whose operation is in progress.
//!
//! The set answers one question, atomically with recording the answer: "is
//! somebody already doing this?". It knows nothing of success, failure or
//! waiting; users layer those on top.

use vstd::prelude::*;

verus! {

/// A key of an [`InProgressSet`]: an opaque value that can be compared and
/// copied. Two keys stand for the same operation when their views are equal.
pub trait DedupKey: View + Sized {
    /// Whether `self` and `other` stand for the same operation.
    fn same_key(&self, other: &Self) -> (same: bool)
        ensures
            same == (self@ == other@),
    ;

    /// An owned copy of the key.
    fn clone_key(&self) -> (copy: Self)
        ensures
            copy@ == self@,
    ;
}

impl DedupKey for String {
    fn same_key(&self, other: &Self) -> (same: bool) {
        *self == *other
    }

    fn clone_key(&self) -> (copy: Self) {
        self.clone()
    }
}

/// The keys currently in progress. A key is in the set from the
/// [`try_start`](InProgressSet::try_start) that won it until the matching
/// [`finish`](InProgressSet::finish).
pub struct InProgressSet<K: DedupKey> {
    keys: Vec<K>,
}

impl<K: DedupKey> View for InProgressSet<K> {
    type V = Set<K::V>;

    closed spec fn view(&self) -> Set<K::V> {
        Set::new(|v: K::V| exists|i: int| 0 <= i < self.keys.len() && self.keys[i]@ == v)
    }
}

impl<K: DedupKey> InProgressSet<K> {
    /// The set is well formed: no key is stored twice.
    pub closed spec fn wf(&self) -> bool {
        forall|i: int, j: int|
            0 <= i < j < self.keys.len() ==> self.keys[i]@ != self.keys[j]@
    }

    /// The position of `key` among the stored keys, if it is stored.
    fn position(&self, key: &K) -> (found: Option<usize>)
        ensures
            match found {
                Some(i) => i < self.keys.len() && self.keys[i as int]@ == key@,
                None => !self@.contains(key@),
            },
    {
        let mut i: usize = 0;
        while i < self.keys.len()
            invariant
                i <= self.keys.len(),
                forall|j: int| 0 <= j < i ==> self.keys[j]@ != key@,
            decreases self.keys.len() - i,
        {
            if self.keys[i].same_key(key) {
                return Some(i);
            }
            i += 1;
        }
        None
    }

    /// An empty set: nothing is in progress.
    pub fn new() -> (set: Self)
        ensures
            set.wf(),
            set@ == Set::<K::V>::empty(),
    {
        let set = InProgressSet { keys: Vec::new() };
        assert(set@ =~= Set::<K::V>::empty());
        set
    }

    /// Claims `key`. Returns `true` when the key was absent: the caller has
    /// won it, performs the operation and must call
    /// [`finish`](InProgressSet::finish) afterwards, also when the operation
    /// fails. Returns `false` when the key is already in progress: the caller
    /// must not duplicate the operation.
    pub fn try_start(&mut self, key: &K) -> (started: bool)
        requires
            old(self).wf(),
        ensures
            final(self).wf(),
            started == !old(self)@.contains(key@),
            final(self)@ == old(self)@.insert(key@),
    {
        match self.position(key) {
            Some(_) => {
                assert(self@ =~= old(self)@.insert(key@));
                false
            },
            None => {
                let ghost before = self.keys@;
                self.keys.push(key.clone_key());
                assert forall|v: K::V| self@.contains(v) <==> old(self)@.insert(key@).contains(v) by {
                    if old(self)@.contains(v) {
                        let i = choose|i: int| 0 <= i < before.len() && before[i]@ == v;
                        assert(self.keys[i]@ == v);
                    }
                    if v == key@ {
                        assert(self.keys[before.len() as int]@ == v);
                    }
                }
                assert(self@ =~= old(self)@.insert(key@));
                true
            },
        }
    }

    /// Releases `key`. Releasing a key that is not in progress changes
    /// nothing and is no error.
    pub fn finish(&mut self, key: &K)
        requires
            old(self).wf(),
        ensures
            final(self).wf(),
            final(self)@ == old(self)@.remove(key@),
            !old(self)@.contains(key@) ==> final(self)@ == old(self)@,
    {
        match self.position(key) {
            Some(i) => {
                let ghost before = self.keys@;
                self.keys.swap_remove(i);
                assert forall|v: K::V| self@.contains(v) <==> old(self)@.remove(key@).contains(v) by {
                    if self@.contains(v) {
                        let j = choose|j: int| 0 <= j < self.keys.len() && self.keys[j]@ == v;
                        if j == i {
                            assert(before[before.len() - 1]@ == v);
                        } else {
                            assert(before[j]@ == v);
                        }
                    }
                    if old(self)@.remove(key@).contains(v) {
                        let j = choose|j: int| 0 <= j < before.len() && before[j]@ == v;
                        if j == before.len() - 1 {
                            assert(self.keys[i as int]@ == v);
                        } else {
                            assert(self.keys[j]@ == v);
                        }
                    }
                }
                assert(self@ =~= old(self)@.remove(key@));
            },
            None => {
                assert(self@ =~= old(self)@.remove(key@));
            },
        }
    }

    /// Whether `key` is in progress.
    pub fn contains(&self, key: &K) -> (present: bool)
        ensures
            present == self@.contains(key@),
    {
        self.position(key).is_some()
    }
}

/// One call on a set of keys, as the set sees it: the calls of many
/// concurrent callers reach the set one at a time, in some order.
pub enum SetCall<V> {
    /// `try_start` with this key.
    TryStart(V),
    /// `finish` with this key.
    Finish(V),
}

/// The keys in progress after `call` on `keys`.
pub open spec fn after_call<V>(keys: Set<V>, call: SetCall<V>) -> Set<V> {
    match call {
        SetCall::TryStart(k) => keys.insert(k),
        SetCall::Finish(k) => keys.remove(k),
    }
}

/// Whether `call` on `keys` is a `try_start` that returns `true`.
pub open spec fn wins<V>(keys: Set<V>, call: SetCall<V>) -> bool {
    call matches SetCall::TryStart(k) && !keys.contains(k)
}

/// The keys in progress after `calls`, in order, on `keys`.
pub open spec fn after_calls<V>(keys: Set<V>, calls: Seq<SetCall<V>>) -> Set<V>
    decreases calls.len(),
{
    if calls.len() == 0 {
        keys
    } else {
        after_call(after_calls(keys, calls.drop_last()), calls.last())
    }
}

/// Whether the call at position `i` of `calls` is a `try_start` that returns
/// `true`, when `calls` run in order from `keys`.
pub open spec fn wins_at<V>(keys: Set<V>, calls: Seq<SetCall<V>>, i: int) -> bool {
    wins(after_calls(keys, calls.take(i)), calls[i])
}

/// A key that is in progress stays so until it is finished.
proof fn lemma_key_stays<V>(keys: Set<V>, calls: Seq<SetCall<V>>, k: V, i: int, j: int)
    requires
        0 <= i <= j <= calls.len(),
        after_calls(keys, calls.take(i)).contains(k),
        forall|m: int| i <= m < j ==> calls[m] != SetCall::Finish(k),
    ensures
        after_calls(keys, calls.take(j)).contains(k),
    decreases j - i,
{
    if i < j {
        lemma_key_stays(keys, calls, k, i, j - 1);
        assert(calls.take(j).drop_last() =~= calls.take(j - 1));
        assert(calls.take(j).last() == calls[j - 1]);
    }
}

/// At most one caller wins a key: between two `try_start` calls on `k` that
/// both return `true`, whatever else is called in between and in whatever
/// order, there is a `finish` of `k`.
pub proof fn law_one_winner_until_finish<V>(
    keys: Set<V>,
    calls: Seq<SetCall<V>>,
    k: V,
    i: int,
    j: int,
)
    requires
        0 <= i < j < calls.len(),
        calls[i] == SetCall::TryStart(k),
        calls[j] == SetCall::TryStart(k),
        wins_at(keys, calls, i),
        wins_at(keys, calls, j),
    ensures
        exists|m: int| i < m < j && calls[m] == SetCall::Finish(k),
{
    if forall|m: int| i < m < j ==> calls[m] != SetCall::Finish(k) {
        assert(calls.take(i + 1).drop_last() =~= calls.take(i));
        assert(calls.take(i + 1).last() == calls[i]);
        assert(after_calls(keys, calls.take(i + 1)).contains(k));
        lemma_key_stays(keys, calls, k, i + 1, j);
    }
}

/// Exactly one of the callers that race for an absent key wins it: the first
/// `try_start` on `k` to reach the set returns `true`, and every later one
/// returns `false` as long as `k` is not finished.
pub proof fn law_first_caller_wins<V>(keys: Set<V>, calls: Seq<SetCall<V>>, k: V, i: int, j: int)
    requires
        0 <= i <= j < calls.len(),
        !keys.contains(k),
        forall|m: int| 0 <= m < i ==> calls[m] != SetCall::TryStart(k),
        calls[i] == SetCall::TryStart(k),
        calls[j] == SetCall::TryStart(k),
        forall|m: int| i < m < j ==> calls[m] != SetCall::Finish(k),
    ensures
        wins_at(keys, calls, j) <==> i == j,
{
    lemma_key_absent(keys, calls, k, i);
    if i < j {
        assert(calls.take(i + 1).drop_last() =~= calls.take(i));
        assert(calls.take(i + 1).last() == calls[i]);
        lemma_key_stays(keys, calls, k, i + 1, j);
    }
}

/// A key that nobody started is not in progress.
proof fn lemma_key_absent<V>(keys: Set<V>, calls: Seq<SetCall<V>>, k: V, i: int)
    requires
        0 <= i <= calls.len(),
        !keys.contains(k),
        forall|m: int| 0 <= m < i ==> calls[m] != SetCall::TryStart(k),
    ensures
        !after_calls(keys, calls.take(i)).contains(k),
    decreases i,
{
    if 0 < i {
        lemma_key_absent(keys, calls, k, i - 1);
        assert(calls.take(i).drop_last() =~= calls.take(i - 1));
        assert(calls.take(i).last() == calls[i - 1]);
    }
}

/// A finished key can be won again: `try_start` on `k` right after
/// `finish` of `k` returns `true`, whatever was in progress before.
pub proof fn law_finished_key_can_restart<V>(keys: Set<V>, k: V)
    ensures
        wins(after_call(keys, SetCall::Finish(k)), SetCall::TryStart(k)),
{
}

/// Finishing a key that is not in progress leaves the set as it was.
pub proof fn law_finish_of_absent_key_is_noop<V>(keys: Set<V>, k: V)
    requires
        !keys.contains(k),
    ensures
        after_call(keys, SetCall::Finish(k)) == keys,
{
    assert(keys.remove(k) =~= keys);
}

} // verus!
