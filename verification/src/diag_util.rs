//! Small helpers that keep diagnostic logs short: sets of what was already reported, a count
//! of the most frequent keys, and budgets of log lines.

use crate::text;
use crate::text::{push_hex, push_text};
use vstd::prelude::*;
use vstd::std_specs::cmp::PartialEqSpec;

verus! {

/// The first `N` distinct keys that were reported.
pub struct SeenSet<T: Copy + PartialEq, const N: usize> {
    pub keys: Vec<T>,
}

impl<T: Copy + PartialEq, const N: usize> View for SeenSet<T, N> {
    type V = Seq<T>;

    open spec fn view(&self) -> Seq<T> {
        self.keys@
    }
}

/// Whether one of `s` equals `key`.
pub open spec fn seen<T: PartialEq>(s: Seq<T>, key: T) -> bool {
    exists|i: int| 0 <= i < s.len() && (#[trigger] s[i]).eq_spec(&key)
}

/// Whether `key` is new to the set `s`, which has room for `n` keys, and room is left.
pub open spec fn is_new<T: PartialEq>(s: Seq<T>, n: nat, key: T) -> bool {
    !seen(s, key) && s.len() < n
}

/// The set `s` once it has been asked for `key`.
pub open spec fn with_key<T: PartialEq>(s: Seq<T>, n: nat, key: T) -> Seq<T> {
    if is_new(s, n, key) {
        s.push(key)
    } else {
        s
    }
}

/// The set once it has been asked for each key of a stream.
pub open spec fn with_stream<T: PartialEq>(n: nat, stream: Seq<T>) -> Seq<T>
    decreases stream.len(),
{
    if stream.len() == 0 {
        Seq::empty()
    } else {
        with_key(with_stream(n, stream.drop_last()), n, stream.last())
    }
}

/// The distinct keys of a stream, in the order in which they first come.
pub open spec fn distinct<T: PartialEq>(stream: Seq<T>) -> Seq<T>
    decreases stream.len(),
{
    if stream.len() == 0 {
        Seq::empty()
    } else {
        let before = distinct(stream.drop_last());
        if seen(stream.drop_last(), stream.last()) {
            before
        } else {
            before.push(stream.last())
        }
    }
}

impl<T: Copy + PartialEq, const N: usize> SeenSet<T, N> {
    pub open spec fn wf(self) -> bool {
        self@.len() <= N && T::obeys_eq_spec()
    }

    /// The empty set.
    pub fn new(_fill: T) -> (s: Self)
        ensures
            s@ == Seq::<T>::empty(),
            T::obeys_eq_spec() ==> s.wf(),
    {
        SeenSet { keys: Vec::new() }
    }

    /// Whether `key` is new, and there was room to keep it.
    pub fn first_time(&mut self, key: T) -> (first: bool)
        requires
            old(self).wf(),
        ensures
            final(self).wf(),
            first == is_new(old(self)@, N as nat, key),
            final(self)@ == with_key(old(self)@, N as nat, key),
    {
        if self.contains(key) {
            return false;
        }
        self.insert(key)
    }

    /// Whether `key` was kept.
    pub fn contains(&self, key: T) -> (found: bool)
        requires
            self.wf(),
        ensures
            found == seen(self@, key),
    {
        let mut i: usize = 0;
        while i < self.keys.len()
            invariant
                i <= self@.len(),
                self.wf(),
                forall|k: int| 0 <= k < i ==> !(#[trigger] self@[k]).eq_spec(&key),
            decreases self.keys.len() - i,
        {
            if self.keys[i] == key {
                return true;
            }
            i = i + 1;
        }
        false
    }

    /// Keeps `key`, if there is room.
    pub fn insert(&mut self, key: T) -> (kept: bool)
        requires
            old(self).wf(),
        ensures
            final(self).wf(),
            kept == (old(self)@.len() < N),
            final(self)@ == (if kept {
                old(self)@.push(key)
            } else {
                old(self)@
            }),
    {
        if self.keys.len() < N {
            self.keys.push(key);
            true
        } else {
            false
        }
    }
}

/// A key is new once: asked again, it is not.
pub proof fn keys_are_new_once<T: PartialEq>(s: Seq<T>, key: T)
    requires
        key.eq_spec(&key),
    ensures
        seen(s.push(key), key),
{
    assert(s.push(key)[s.len() as int].eq_spec(&key));
}

/// Whether what equals something equals what that equals.
pub open spec fn eq_is_transitive<T: PartialEq>() -> bool {
    forall|x: T, y: T, z: T|
        #[trigger] x.eq_spec(&y) && #[trigger] y.eq_spec(&z) ==> x.eq_spec(&z)
}

proof fn distinct_keeps_what_is_seen<T: PartialEq>(stream: Seq<T>, key: T)
    requires
        eq_is_transitive::<T>(),
    ensures
        seen(distinct(stream), key) == seen(stream, key),
    decreases stream.len(),
{
    if stream.len() > 0 {
        let before = stream.drop_last();
        let last = stream.last();
        distinct_keeps_what_is_seen(before, key);
        distinct_keeps_what_is_seen(before, last);
        let d = distinct(stream);
        if seen(before, key) {
            let i = choose|i: int| 0 <= i < before.len() && (#[trigger] before[i]).eq_spec(&key);
            assert(stream[i].eq_spec(&key));
            let j = choose|j: int|
                0 <= j < distinct(before).len() && (#[trigger] distinct(before)[j]).eq_spec(&key);
            assert(d[j].eq_spec(&key));
        } else if last.eq_spec(&key) {
            assert(stream[stream.len() - 1].eq_spec(&key));
            if seen(before, last) {
                let j = choose|j: int|
                    0 <= j < distinct(before).len() && (#[trigger] distinct(before)[j]).eq_spec(
                        &last,
                    );
                assert(distinct(before)[j].eq_spec(&key));
                assert(seen(distinct(before), key));
            } else {
                assert(d[d.len() - 1].eq_spec(&key));
            }
        } else {
            if seen(d, key) {
                let j = choose|j: int| 0 <= j < d.len() && (#[trigger] d[j]).eq_spec(&key);
                assert(j < distinct(before).len());
                assert(distinct(before)[j].eq_spec(&key));
            }
            if seen(stream, key) {
                let i = choose|i: int|
                    0 <= i < stream.len() && (#[trigger] stream[i]).eq_spec(&key);
                assert(i < before.len());
                assert(before[i].eq_spec(&key));
            }
        }
    }
}

/// Of a stream of keys the set keeps the first `n` distinct ones. The next key is reported as
/// new exactly where no key of the stream equals it and the stream has fewer than `n` distinct
/// keys.
pub proof fn first_keys_are_reported<T: PartialEq>(n: nat, stream: Seq<T>, next: T)
    requires
        eq_is_transitive::<T>(),
    ensures
        with_stream(n, stream) == (if distinct(stream).len() <= n {
            distinct(stream)
        } else {
            distinct(stream).take(n as int)
        }),
        is_new(with_stream(n, stream), n, next) == (!seen(stream, next) && distinct(stream).len()
            < n),
    decreases stream.len(),
{
    distinct_keeps_what_is_seen(stream, next);
    if stream.len() > 0 {
        let before = stream.drop_last();
        first_keys_are_reported(n, before, stream.last());
        if distinct(stream).len() > n {
            assert(with_stream(n, stream) =~= distinct(stream).take(n as int));
        } else {
            assert(with_stream(n, stream) =~= distinct(stream));
        }
    } else {
        assert(with_stream(n, stream) =~= distinct(stream));
    }
}

/// The most frequent keys of a stream, by the method of Misra and Gries: `N` keys with
/// counts.
pub struct TopK<const N: usize> {
    pub entries: Vec<(u32, u64)>,
}

/// The first entry, from `i` on, that counts `key`; the length where there is none.
pub open spec fn counting(t: Seq<(u32, u64)>, key: u32, i: int) -> int
    decreases t.len() - i,
{
    if i >= t.len() {
        t.len() as int
    } else if t[i].1 > 0 && t[i].0 == key {
        i
    } else {
        counting(t, key, i + 1)
    }
}

/// The first entry, from `i` on, that counts nothing; the length where there is none.
pub open spec fn free(t: Seq<(u32, u64)>, i: int) -> int
    decreases t.len() - i,
{
    if i >= t.len() {
        t.len() as int
    } else if t[i].1 == 0 {
        i
    } else {
        free(t, i + 1)
    }
}

/// Every count less one.
pub open spec fn lowered(t: Seq<(u32, u64)>) -> Seq<(u32, u64)> {
    Seq::new(
        t.len(),
        |i: int|
            (
                t[i].0,
                if t[i].1 == 0 {
                    0
                } else {
                    (t[i].1 - 1) as u64
                },
            ),
    )
}

/// The entries after one more `key`: counted where it is counted already, else where there
/// is room, and else every count goes down.
pub open spec fn recorded(t: Seq<(u32, u64)>, key: u32) -> Seq<(u32, u64)> {
    let i = counting(t, key, 0);
    let f = free(t, 0);
    if i < t.len() {
        t.update(
            i,
            (
                key,
                if t[i].1 == u64::MAX {
                    u64::MAX
                } else {
                    (t[i].1 + 1) as u64
                },
            ),
        )
    } else if f < t.len() {
        t.update(f, (key, 1))
    } else {
        lowered(t)
    }
}

/// `n` entries that count nothing.
pub open spec fn blank(n: nat) -> Seq<(u32, u64)> {
    Seq::new(n, |i: int| (0u32, 0u64))
}

/// The entries after a stream of keys.
pub open spec fn after(n: nat, stream: Seq<u32>) -> Seq<(u32, u64)>
    decreases stream.len(),
{
    if stream.len() == 0 {
        blank(n)
    } else {
        recorded(after(n, stream.drop_last()), stream.last())
    }
}

/// The keys of a stream that found neither an entry nor room.
pub open spec fn misses(n: nat, stream: Seq<u32>) -> nat
    decreases stream.len(),
{
    if stream.len() == 0 {
        0
    } else {
        let t = after(n, stream.drop_last());
        misses(n, stream.drop_last()) + (if counting(t, stream.last(), 0) == t.len() && free(t, 0)
            == t.len() {
            1nat
        } else {
            0
        })
    }
}

/// How often `key` occurs in a stream.
pub open spec fn occurrences(stream: Seq<u32>, key: u32) -> nat
    decreases stream.len(),
{
    if stream.len() == 0 {
        0
    } else {
        occurrences(stream.drop_last(), key) + (if stream.last() == key {
            1nat
        } else {
            0
        })
    }
}

/// The count of `key`.
pub open spec fn estimate(t: Seq<(u32, u64)>, key: u32) -> int {
    let i = counting(t, key, 0);
    if i < t.len() {
        t[i].1 as int
    } else {
        0
    }
}

/// The sum of the counts.
pub open spec fn total(t: Seq<(u32, u64)>) -> int
    decreases t.len(),
{
    if t.len() == 0 {
        0
    } else {
        total(t.drop_last()) + t.last().1
    }
}

/// No key is counted twice.
pub open spec fn counted_once(t: Seq<(u32, u64)>) -> bool {
    forall|i: int, j: int|
        0 <= i < j < t.len() && #[trigger] t[i].1 > 0 && #[trigger] t[j].1 > 0 ==> t[i].0 != t[j].0
}

proof fn counting_found(t: Seq<(u32, u64)>, key: u32, i: int)
    requires
        0 <= i <= t.len(),
    ensures
        i <= counting(t, key, i) <= t.len(),
        counting(t, key, i) < t.len() ==> t[counting(t, key, i)].1 > 0 && t[counting(
            t,
            key,
            i,
        )].0 == key,
        forall|k: int|
            i <= k < counting(t, key, i) ==> !(#[trigger] t[k].1 > 0 && t[k].0 == key),
    decreases t.len() - i,
{
    if i < t.len() && !(t[i].1 > 0 && t[i].0 == key) {
        counting_found(t, key, i + 1);
    }
}

proof fn free_found(t: Seq<(u32, u64)>, i: int)
    requires
        0 <= i <= t.len(),
    ensures
        i <= free(t, i) <= t.len(),
        free(t, i) < t.len() ==> t[free(t, i)].1 == 0,
        forall|k: int| i <= k < free(t, i) ==> #[trigger] t[k].1 > 0,
    decreases t.len() - i,
{
    if i < t.len() && t[i].1 != 0 {
        free_found(t, i + 1);
    }
}

proof fn total_update(t: Seq<(u32, u64)>, i: int, e: (u32, u64))
    requires
        0 <= i < t.len(),
    ensures
        total(t.update(i, e)) == total(t) - t[i].1 + e.1,
    decreases t.len(),
{
    if i == t.len() - 1 {
        assert(t.update(i, e).drop_last() =~= t.drop_last());
    } else {
        total_update(t.drop_last(), i, e);
        assert(t.update(i, e).drop_last() =~= t.drop_last().update(i, e));
    }
}

proof fn total_lowered(t: Seq<(u32, u64)>)
    requires
        forall|k: int| 0 <= k < t.len() ==> #[trigger] t[k].1 > 0,
    ensures
        total(lowered(t)) == total(t) - t.len(),
    decreases t.len(),
{
    if t.len() > 0 {
        total_lowered(t.drop_last());
        assert(lowered(t).drop_last() =~= lowered(t.drop_last()));
        assert(t[t.len() - 1].1 > 0);
    }
}

proof fn total_blank(n: nat)
    ensures
        total(blank(n)) == 0,
    decreases n,
{
    if n > 0 {
        assert(blank(n).drop_last() =~= blank((n - 1) as nat));
        total_blank((n - 1) as nat);
    }
}

proof fn total_nonnegative(t: Seq<(u32, u64)>, i: int)
    ensures
        total(t) >= 0,
        0 <= i < t.len() ==> t[i].1 <= total(t),
    decreases t.len(),
{
    if t.len() > 0 {
        total_nonnegative(t.drop_last(), i);
    }
}

/// The key of an entry is counted there.
proof fn counted_at(t: Seq<(u32, u64)>, key: u32, i: int)
    requires
        counted_once(t),
        0 <= i < t.len(),
        t[i].1 > 0,
        t[i].0 == key,
    ensures
        counting(t, key, 0) == i,
{
    counting_found(t, key, 0);
    let j = counting(t, key, 0);
    if j < i {
        assert(t[j].1 > 0 && t[i].1 > 0);
    }
}

proof fn record_step(t: Seq<(u32, u64)>, key: u32, other: u32)
    requires
        counted_once(t),
        forall|k: int| 0 <= k < t.len() ==> #[trigger] t[k].1 < u64::MAX,
    ensures
        ({
            let u = recorded(t, key);
            let miss = counting(t, key, 0) == t.len() && free(t, 0) == t.len();
            &&& u.len() == t.len()
            &&& counted_once(u)
            &&& !miss ==> total(u) == total(t) + 1
            &&& miss ==> total(u) == total(t) - t.len()
            &&& !miss ==> estimate(u, other) == estimate(t, other) + (if other == key {
                1int
            } else {
                0
            })
            &&& miss ==> estimate(t, other) - 1 <= estimate(u, other) <= estimate(t, other)
            &&& miss && other == key ==> estimate(t, other) == 0 && estimate(u, other) == 0
        }),
{
    let u = recorded(t, key);
    counting_found(t, key, 0);
    free_found(t, 0);
    let i = counting(t, key, 0);
    let f = free(t, 0);
    counting_found(t, other, 0);
    counting_found(u, other, 0);
    let a = counting(t, other, 0);
    let b = counting(u, other, 0);
    if i < t.len() {
        total_update(t, i, u[i]);
        assert(counted_once(u));
        if a < t.len() {
            assert(u[a].0 == other && u[a].1 > 0);
            counted_at(u, other, a);
        } else if b < t.len() {
            assert(t[b].0 == other && t[b].1 > 0);
        }
    } else if f < t.len() {
        total_update(t, f, u[f]);
        assert(counted_once(u)) by {
            assert forall|x: int, y: int|
                0 <= x < y < u.len() && #[trigger] u[x].1 > 0 && #[trigger] u[y].1
                    > 0 implies u[x].0 != u[y].0 by {
                if x == f {
                    assert(t[y] == u[y]);
                } else if y == f {
                    assert(t[x] == u[x]);
                } else {
                    assert(t[x] == u[x] && t[y] == u[y]);
                }
            }
        }
        if other == key {
            counted_at(u, key, f);
        } else if a < t.len() {
            assert(a != f);
            assert(u[a] == t[a]);
            counted_at(u, other, a);
        } else if b < t.len() {
            assert(b != f);
            assert(t[b] == u[b]);
        }
    } else {
        assert forall|k: int| 0 <= k < t.len() implies #[trigger] t[k].1 > 0 by {}
        total_lowered(t);
        assert(counted_once(u)) by {
            assert forall|x: int, y: int|
                0 <= x < y < u.len() && #[trigger] u[x].1 > 0 && #[trigger] u[y].1
                    > 0 implies u[x].0 != u[y].0 by {
                assert(t[x].1 > 0 && t[y].1 > 0);
            }
        }
        if a < t.len() {
            if u[a].1 > 0 {
                assert(u[a].0 == other);
                counted_at(u, other, a);
            } else if b < t.len() {
                assert(t[b].1 > 0 && t[b].0 == other);
                counted_at(t, other, b);
            }
        } else if b < t.len() {
            assert(t[b].1 > 0 && t[b].0 == other);
        }
    }
}

/// The counts are trustworthy: no key is counted twice, a count is never above the number of
/// times its key occurred, and never below it by more than one part in `n + 1` of the stream. A
/// key that occurs more often than that is therefore counted.
pub proof fn frequent_keys_are_counted(n: nat, stream: Seq<u32>, key: u32)
    requires
        stream.len() < u64::MAX,
    ensures
        ({
            let t = after(n, stream);
            &&& counted_once(t)
            &&& estimate(t, key) <= occurrences(stream, key)
            &&& occurrences(stream, key) <= estimate(t, key) + misses(n, stream)
            &&& misses(n, stream) * (n + 1) <= stream.len()
            &&& occurrences(stream, key) <= estimate(t, key) + stream.len() / (n + 1)
            &&& occurrences(stream, key) > stream.len() / (n + 1) ==> counting(t, key, 0)
                < t.len()
        }),
{
    counts_hold(n, stream, key);
    let t = after(n, stream);
    total_nonnegative(t, 0);
    let m = misses(n, stream);
    let len = stream.len();
    assert(m * (n + 1) <= len ==> m <= len / (n + 1)) by (nonlinear_arith);
}

proof fn counts_hold(n: nat, stream: Seq<u32>, key: u32)
    requires
        stream.len() < u64::MAX,
    ensures
        ({
            let t = after(n, stream);
            &&& t.len() == n
            &&& counted_once(t)
            &&& total(t) + misses(n, stream) * (n + 1) == stream.len()
            &&& estimate(t, key) <= occurrences(stream, key)
            &&& occurrences(stream, key) <= estimate(t, key) + misses(n, stream)
        }),
    decreases stream.len(),
{
    if stream.len() == 0 {
        total_blank(n);
        counting_found(blank(n), key, 0);
        assert(misses(n, stream) * (n + 1) == 0) by (nonlinear_arith)
            requires
                misses(n, stream) == 0,
        ;
    } else {
        let prefix = stream.drop_last();
        counts_hold(n, prefix, key);
        let t = after(n, prefix);
        assert forall|k: int| 0 <= k < t.len() implies #[trigger] t[k].1 < u64::MAX by {
            total_nonnegative(t, k);
            assert(misses(n, prefix) * (n + 1) >= 0) by (nonlinear_arith);
        }
        record_step(t, stream.last(), key);
        assert((misses(n, prefix) + 1) * (n + 1) == misses(n, prefix) * (n + 1) + n + 1)
            by (nonlinear_arith);
    }
}

/// What counting one more key does to the entries: an entry that counts it goes up by one and the
/// others stay; where none does, the first entry that counts nothing takes it with a count of one;
/// where there is no such entry either, every count goes down by one.
pub proof fn one_more_key(t: Seq<(u32, u64)>, key: u32, i: int)
    requires
        counted_once(t),
        0 <= i < t.len(),
        forall|k: int| 0 <= k < t.len() ==> #[trigger] t[k].1 < u64::MAX,
    ensures
        ({
            let u = recorded(t, key);
            let counts = exists|k: int| 0 <= k < t.len() && #[trigger] t[k].1 > 0 && t[k].0 == key;
            let full = forall|k: int| 0 <= k < t.len() ==> #[trigger] t[k].1 > 0;
            let first_free = t[i].1 == 0 && forall|k: int| 0 <= k < i ==> #[trigger] t[k].1 > 0;
            &&& u.len() == t.len()
            &&& t[i].1 > 0 && t[i].0 == key ==> u[i] == (key, (t[i].1 + 1) as u64)
            &&& counts && !(t[i].1 > 0 && t[i].0 == key) ==> u[i] == t[i]
            &&& !counts && first_free ==> u[i] == (key, 1u64)
            &&& !counts && !full && !first_free ==> u[i] == t[i]
            &&& !counts && full ==> u[i] == (t[i].0, (t[i].1 - 1) as u64)
        }),
{
    counting_found(t, key, 0);
    free_found(t, 0);
    if t[i].1 > 0 && t[i].0 == key {
        counted_at(t, key, i);
    }
    let c = counting(t, key, 0);
    if c < t.len() {
        assert(t[c].1 > 0 && t[c].0 == key);
    }
    let f = free(t, 0);
    if f < t.len() {
        assert(t[f].1 == 0);
    }
}

/// Whether counts go down along `t`.
pub open spec fn descending(t: Seq<(u32, u64)>) -> bool {
    forall|i: int, j: int| 0 <= i <= j < t.len() ==> t[i].1 >= t[j].1
}

/// The first of the entries from `k` on, before `n`, with the largest count among them.
pub open spec fn first_largest(t: Seq<(u32, u64)>, k: int, n: int) -> int
    decreases n - k,
{
    if n <= k + 1 {
        k
    } else {
        let b = first_largest(t, k, n - 1);
        if t[n - 1].1 > t[b].1 {
            n - 1
        } else {
            b
        }
    }
}

/// The entries with the largest of the rest swapped to each of the first `k` places in turn.
pub open spec fn selected(t: Seq<(u32, u64)>, k: int) -> Seq<(u32, u64)>
    decreases k,
{
    if k <= 0 {
        t
    } else {
        let s = selected(t, k - 1);
        let b = first_largest(s, k - 1, s.len() as int);
        s.update(k - 1, s[b]).update(b, s[k - 1])
    }
}

/// What is chosen next is the largest count of the rest, and the first entry that has it.
pub proof fn largest_of_the_rest(t: Seq<(u32, u64)>, k: int, n: int, j: int)
    requires
        0 <= k < n <= t.len(),
    ensures
        k <= first_largest(t, k, n) < n,
        k <= j < n ==> t[j].1 <= t[first_largest(t, k, n)].1,
        k <= j < first_largest(t, k, n) ==> t[j].1 < t[first_largest(t, k, n)].1,
    decreases n - k,
{
    if n > k + 1 {
        largest_of_the_rest(t, k, n - 1, j);
        largest_of_the_rest(t, k, n - 1, first_largest(t, k, n - 1));
    }
}

/// The sorted entries are the entries, each as often as before, and no count is larger than one before it.
pub proof fn largest_counts_come_first(t: Seq<(u32, u64)>, k: int)
    requires
        0 <= k <= t.len(),
    ensures
        selected(t, k).len() == t.len(),
        selected(t, k).to_multiset() == t.to_multiset(),
        forall|a: int, b: int|
            0 <= a < k && a <= b < t.len() ==> (#[trigger] selected(t, k)[a]).1 >= (#[trigger] selected(
                t,
                k,
            )[b]).1,
    decreases k,
{
    if k > 0 {
        largest_counts_come_first(t, k - 1);
        let s = selected(t, k - 1);
        let n = s.len() as int;
        let b = first_largest(s, k - 1, n);
        largest_of_the_rest(s, k - 1, n, k - 1);
        swap_keeps_items(s, k - 1, b);
        let r = selected(t, k);
        assert forall|x: int, y: int| 0 <= x < k && x <= y < t.len() implies (#[trigger] r[x]).1 >= (
        #[trigger] r[y]).1 by {
            let from = if y == k - 1 {
                b
            } else if y == b {
                k - 1
            } else {
                y
            };
            assert(r[y] == s[from]);
            if x < k - 1 {
                assert(r[x] == s[x]);
                assert(s[x].1 >= s[from].1);
            } else {
                assert(r[x] == s[b]);
                largest_of_the_rest(s, k - 1, n, from);
            }
        }
    }
}

impl<const N: usize> TopK<N> {
    pub open spec fn wf(self) -> bool {
        self.entries@.len() == N
    }

    /// Nothing counted.
    pub fn new() -> (t: Self)
        ensures
            t.wf(),
            t.entries@ == blank(N as nat),
    {
        let mut entries: Vec<(u32, u64)> = Vec::new();
        while entries.len() < N
            invariant
                entries@.len() <= N,
                entries@ =~= blank(entries@.len()),
            decreases N - entries.len(),
        {
            entries.push((0, 0));
        }
        TopK { entries }
    }

    /// Counts `key`.
    pub fn record(&mut self, key: u32)
        requires
            old(self).wf(),
        ensures
            final(self).wf(),
            final(self).entries@ == recorded(old(self).entries@, key),
    {
        let ghost t = self.entries@;
        let mut i: usize = 0;
        while i < N
            invariant
                i <= N,
                self.wf(),
                self.entries@ == t,
                t == old(self).entries@,
                counting(t, key, 0) == counting(t, key, i as int),
            decreases N - i,
        {
            let (k, c) = self.entries[i];
            if c > 0 && k == key {
                self.entries.set(i, (key, c.saturating_add(1)));
                return ;
            }
            i = i + 1;
        }
        let mut f: usize = 0;
        while f < N
            invariant
                f <= N,
                self.wf(),
                self.entries@ == t,
                t == old(self).entries@,
                counting(t, key, 0) == N,
                free(t, 0) == free(t, f as int),
            decreases N - f,
        {
            if self.entries[f].1 == 0 {
                self.entries.set(f, (key, 1));
                return ;
            }
            f = f + 1;
        }
        let mut j: usize = 0;
        while j < N
            invariant
                j <= N,
                t.len() == N,
                self.wf(),
                forall|k: int| 0 <= k < j ==> self.entries@[k] == lowered(t)[k],
                forall|k: int| j <= k < N ==> self.entries@[k] == t[k],
            decreases N - j,
        {
            let (k, c) = self.entries[j];
            self.entries.set(j, (k, c.saturating_sub(1)));
            j = j + 1;
        }
        assert(self.entries@ =~= lowered(t));
    }

    /// The entries, the largest count first. Among equal counts the order is that of a
    /// selection by swaps.
    pub fn snapshot_sorted(&self) -> (out: Vec<(u32, u64)>)
        requires
            self.wf(),
        ensures
            out@ == selected(self.entries@, N as int),
            out@.to_multiset() == self.entries@.to_multiset(),
            descending(out@),
    {
        let mut out: Vec<(u32, u64)> = Vec::new();
        let mut i: usize = 0;
        while i < N
            invariant
                i <= N,
                self.wf(),
                out@ =~= self.entries@.take(i as int),
            decreases N - i,
        {
            out.push(self.entries[i]);
            i = i + 1;
        }
        assert(out@ =~= self.entries@);
        let mut k: usize = 0;
        while k < N
            invariant
                k <= N,
                out@.len() == N,
                out@ == selected(self.entries@, k as int),
                out@.to_multiset() == self.entries@.to_multiset(),
                forall|a: int, b: int| 0 <= a < k && a <= b < N ==> out@[a].1 >= out@[b].1,
            decreases N - k,
        {
            let mut best: usize = k;
            let mut j: usize = k + 1;
            while j < N
                invariant
                    k <= best < j <= N,
                    out@.len() == N,
                    best == first_largest(out@, k as int, j as int),
                    forall|b: int| k <= b < j ==> out@[best as int].1 >= out@[b].1,
                decreases N - j,
            {
                if out[j].1 > out[best].1 {
                    best = j;
                }
                j = j + 1;
            }
            let a = out[k];
            let b = out[best];
            let ghost before = out@;
            out.set(k, b);
            out.set(best, a);
            proof {
                swap_keeps_items(before, k as int, best as int);
            }
            k = k + 1;
        }
        out
    }

    /// Forgets everything.
    pub fn reset(&mut self)
        requires
            old(self).wf(),
        ensures
            final(self).wf(),
            final(self).entries@ == blank(N as nat),
    {
        let mut i: usize = 0;
        while i < N
            invariant
                i <= N,
                self.wf(),
                forall|k: int| 0 <= k < i ==> self.entries@[k] == (0u32, 0u64),
            decreases N - i,
        {
            self.entries.set(i, (0, 0));
            i = i + 1;
        }
        assert(self.entries@ =~= blank(N as nat));
    }
}

proof fn swap_keeps_items(s: Seq<(u32, u64)>, i: int, j: int)
    requires
        0 <= i < s.len(),
        0 <= j < s.len(),
    ensures
        s.update(i, s[j]).update(j, s[i]).to_multiset() == s.to_multiset(),
{
    broadcast use vstd::seq_lib::group_to_multiset_ensures;

    let m = s.to_multiset();
    assert(s.update(i, s[j]).update(j, s[i]).to_multiset() =~= m);
}

/// A budget of log lines: the first `max` are let through.
#[derive(Clone, Copy, PartialEq, Eq, Structural)]
pub struct LogBudget {
    pub count: usize,
    pub max: usize,
}

impl LogBudget {
    /// An unspent budget.
    pub fn new(max: usize) -> (b: Self)
        ensures
            b == (LogBudget { count: 0, max }),
    {
        LogBudget { count: 0, max }
    }

    /// Whether this line is let through: the first `max` are.
    pub fn allow(&mut self) -> (yes: bool)
        ensures
            yes == (old(self).count < old(self).max),
            *final(self) == (LogBudget { count: old(self).count.wrapping_add(1), ..*old(self) }),
    {
        let n: usize = self.count;
        self.count = n.wrapping_add(1);
        n < self.max
    }

    /// Whether this line is let through: the first `max` are, and then one in `every`, if
    /// that is not zero.
    pub fn allow_or_every(&mut self, every: usize) -> (yes: bool)
        ensures
            yes == (old(self).count < old(self).max || (every != 0 && old(self).count as int
                % every as int == 0)),
            *final(self) == (LogBudget { count: old(self).count.wrapping_add(1), ..*old(self) }),
    {
        let n: usize = self.count;
        self.count = n.wrapping_add(1);
        n < self.max || (every != 0 && n % every == 0)
    }
}

/// Two budgets: one for what is expected, one for what is not, so that the first never uses
/// up the second.
#[derive(Clone, Copy, PartialEq, Eq, Structural)]
pub struct TwoTierLog {
    pub expected: LogBudget,
    pub unknown: LogBudget,
}

impl TwoTierLog {
    /// Two unspent budgets.
    pub fn new(expected_max: usize, unknown_max: usize) -> (t: Self)
        ensures
            t == (TwoTierLog {
                expected: LogBudget { count: 0, max: expected_max },
                unknown: LogBudget { count: 0, max: unknown_max },
            }),
    {
        TwoTierLog {
            expected: LogBudget::new(expected_max),
            unknown: LogBudget::new(unknown_max),
        }
    }

    /// Whether a line about what is expected is let through.
    pub fn expected(&mut self) -> (yes: bool)
        ensures
            yes == (old(self).expected.count < old(self).expected.max),
            final(self).expected.count == old(self).expected.count.wrapping_add(1),
            final(self).expected.max == old(self).expected.max,
            final(self).unknown == old(self).unknown,
    {
        self.expected.allow()
    }

    /// Whether a line about what is not expected is let through.
    pub fn unknown(&mut self) -> (yes: bool)
        ensures
            yes == (old(self).unknown.count < old(self).unknown.max),
            final(self).unknown.count == old(self).unknown.count.wrapping_add(1),
            final(self).unknown.max == old(self).unknown.max,
            final(self).expected == old(self).expected,
    {
        self.unknown.allow()
    }
}

/// A register with its name.
pub open spec fn named_hex(name: Seq<char>, v: u32) -> Seq<char> {
    name + "=0x"@ + text::hex(v as nat)
}

fn push_named_hex(out: &mut String, name: &str, v: u32)
    ensures
        final(out)@ == old(out)@ + named_hex(name@, v),
{
    push_text(out, name);
    push_text(out, "=0x");
    push_hex(out, v);
    assert(out@ =~= old(out)@ + named_hex(name@, v));
}

/// What is reported of a native call that its driver does not know.
pub open spec fn unknown_subfn_text(
    file: Seq<char>,
    subfn: u32,
    pc: u32,
    r0: u32,
    r1: u32,
    r2: u32,
    r3: u32,
) -> Seq<char> {
    "\n*** "@ + file + ": unknown subfn 0x"@ + text::hex(subfn as nat) + named_hex(" @PC"@, pc)
        + named_hex(" r0"@, r0) + named_hex(" r1"@, r1) + named_hex(" r2"@, r2) + named_hex(
        " r3"@,
        r3,
    ) + "\n    (extend peripherals/"@ + file + ".rs::handle to add this subfn)\n"@
}

/// What is reported of an unknown call names the driver, the call, where it came from and its four
/// arguments.
pub proof fn unknown_calls_are_named(
    file: Seq<char>,
    subfn: u32,
    pc: u32,
    r0: u32,
    r1: u32,
    r2: u32,
    r3: u32,
)
    ensures
        unknown_subfn_text(file, subfn, pc, r0, r1, r2, r3) == "\n*** "@ + file
            + ": unknown subfn 0x"@ + text::hex(subfn as nat) + (" @PC"@ + "=0x"@ + text::hex(pc as nat))
            + (" r0"@ + "=0x"@ + text::hex(r0 as nat)) + (" r1"@ + "=0x"@ + text::hex(r1 as nat)) + (
        " r2"@ + "=0x"@ + text::hex(r2 as nat)) + (" r3"@ + "=0x"@ + text::hex(r3 as nat))
            + "\n    (extend peripherals/"@ + file + ".rs::handle to add this subfn)\n"@,
{
}

/// What is reported of a native call that its driver does not know, before the halt.
pub fn halt_unknown_subfn(
    file: &str,
    subfn: u32,
    pc: u32,
    r0: u32,
    r1: u32,
    r2: u32,
    r3: u32,
) -> (out: String)
    ensures
        out@ == unknown_subfn_text(file@, subfn, pc, r0, r1, r2, r3),
{
    let mut out = String::new();
    push_text(&mut out, "\n*** ");
    push_text(&mut out, file);
    push_text(&mut out, ": unknown subfn 0x");
    push_hex(&mut out, subfn);
    push_named_hex(&mut out, " @PC", pc);
    push_named_hex(&mut out, " r0", r0);
    push_named_hex(&mut out, " r1", r1);
    push_named_hex(&mut out, " r2", r2);
    push_named_hex(&mut out, " r3", r3);
    push_text(&mut out, "\n    (extend peripherals/");
    push_text(&mut out, file);
    push_text(&mut out, ".rs::handle to add this subfn)\n");
    assert(out@ =~= unknown_subfn_text(file@, subfn, pc, r0, r1, r2, r3));
    out
}

} // verus!
