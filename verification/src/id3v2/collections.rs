//! Collections of frames.
use crate::id3v2::frames::{self, spec_frame_header, AnyFrame, Frame, UnknownFrame};
use crate::id3v2::tag::{TagHeader, Version};
use crate::string::chars_of;
use vstd::prelude::*;

verus! {

// ---- The order of keys ----

/// Whether key `a` comes before key `b`: keys are compared character by character, by the
/// characters' code points, and a key comes before every longer key it starts.
pub open spec fn key_lt(a: Seq<char>, b: Seq<char>) -> bool
    decreases a.len(),
{
    if a.len() == 0 {
        b.len() > 0
    } else if b.len() == 0 {
        false
    } else if a[0] != b[0] {
        (a[0] as int) < (b[0] as int)
    } else {
        key_lt(a.drop_first(), b.drop_first())
    }
}

/// No key comes before itself.
pub proof fn lemma_key_lt_irreflexive(a: Seq<char>)
    ensures
        !key_lt(a, a),
    decreases a.len(),
{
    if a.len() > 0 {
        lemma_key_lt_irreflexive(a.drop_first());
    }
}

/// The order of keys is transitive.
pub proof fn lemma_key_lt_transitive(a: Seq<char>, b: Seq<char>, c: Seq<char>)
    requires
        key_lt(a, b),
        key_lt(b, c),
    ensures
        key_lt(a, c),
    decreases a.len(),
{
    if a.len() > 0 && b.len() > 0 && c.len() > 0 && a[0] == b[0] && b[0] == c[0] {
        lemma_key_lt_transitive(a.drop_first(), b.drop_first(), c.drop_first());
    }
}

/// Of two different keys, one comes before the other.
pub proof fn lemma_key_lt_total(a: Seq<char>, b: Seq<char>)
    requires
        a != b,
    ensures
        key_lt(a, b) || key_lt(b, a),
    decreases a.len(),
{
    if a.len() > 0 && b.len() > 0 {
        if a[0] == b[0] {
            if a.drop_first() == b.drop_first() {
                assert(a =~= seq![a[0]] + a.drop_first());
                assert(b =~= seq![b[0]] + b.drop_first());
            }
            lemma_key_lt_total(a.drop_first(), b.drop_first());
        } else {
            assert((a[0] as int) != (b[0] as int));
        }
    } else if a.len() == 0 && b.len() == 0 {
        assert(a =~= b);
    }
}

/// Two keys that agree on their first `i` characters compare as what follows them does.
proof fn lemma_key_lt_skip(a: Seq<char>, b: Seq<char>, i: int)
    requires
        0 <= i <= a.len(),
        i <= b.len(),
        a.take(i) == b.take(i),
    ensures
        key_lt(a, b) == key_lt(a.skip(i), b.skip(i)),
    decreases i,
{
    if i > 0 {
        assert(a[0] == a.take(i)[0]);
        assert(b[0] == b.take(i)[0]);
        assert(a.drop_first().take(i - 1) =~= a.take(i).drop_first());
        assert(b.drop_first().take(i - 1) =~= b.take(i).drop_first());
        lemma_key_lt_skip(a.drop_first(), b.drop_first(), i - 1);
        assert(a.drop_first().skip(i - 1) =~= a.skip(i));
        assert(b.drop_first().skip(i - 1) =~= b.skip(i));
    } else {
        assert(a.skip(0) =~= a);
        assert(b.skip(0) =~= b);
    }
}

/// Whether key `a` comes before key `b`.
pub fn key_before(a: &str, b: &str) -> (r: bool)
    ensures
        r == key_lt(a@, b@),
{
    let x = chars_of(a);
    let y = chars_of(b);
    let mut i: usize = 0;
    while i < x.len() && i < y.len()
        invariant
            x@ == a@,
            y@ == b@,
            i <= x.len(),
            i <= y.len(),
            x@.take(i as int) == y@.take(i as int),
        decreases x.len() - i,
    {
        if x[i] != y[i] {
            proof {
                lemma_key_lt_skip(x@, y@, i as int);
                assert(x@.skip(i as int)[0] == x@[i as int]);
                assert(y@.skip(i as int)[0] == y@[i as int]);
            }
            return x[i] < y[i];
        }
        proof {
            assert(x@.take(i + 1) =~= x@.take(i as int).push(x@[i as int]));
            assert(y@.take(i + 1) =~= y@.take(i as int).push(y@[i as int]));
        }
        i = i + 1;
    }
    proof {
        lemma_key_lt_skip(x@, y@, i as int);
    }
    i < y.len()
}

/// Whether keys `a` and `b` are the same.
pub fn same_key(a: &str, b: &str) -> (r: bool)
    ensures
        r == (a@ == b@),
{
    let x = chars_of(a);
    let y = chars_of(b);
    if x.len() != y.len() {
        return false;
    }
    let mut i: usize = 0;
    while i < x.len()
        invariant
            x@ == a@,
            y@ == b@,
            x.len() == y.len(),
            i <= x.len(),
            forall|j: int| 0 <= j < i ==> x@[j] == y@[j],
        decreases x.len() - i,
    {
        if x[i] != y[i] {
            return false;
        }
        i = i + 1;
    }
    proof {
        assert(x@ =~= y@);
    }
    true
}

// ---- Sorted entries ----

/// Whether each entry of `entries` is filed under the key of its frame, as far as the frames
/// are described.
pub open spec fn keyed(entries: Seq<(Seq<char>, AnyFrame)>) -> bool {
    forall|i: int| 0 <= i < entries.len() && !(#[trigger] entries[i]).1.is_custom() ==> entries[i].0 == entries[i].1.spec_key()
}

/// Whether the keys of `entries` are in order, each key before the next.
pub open spec fn keys_sorted<V>(entries: Seq<(Seq<char>, V)>) -> bool {
    forall|i: int, j: int| 0 <= i < j < entries.len() ==> key_lt(entries[i].0, entries[j].0)
}

/// The place of key `k` among `entries`: the number of entries at the front whose keys come
/// before `k`.
pub open spec fn key_position<V>(entries: Seq<(Seq<char>, V)>, k: Seq<char>) -> nat
    decreases entries.len(),
{
    if entries.len() == 0 || !key_lt(entries[0].0, k) {
        0
    } else {
        1 + key_position(entries.drop_first(), k)
    }
}

/// Whether `entries` hold key `k`, at its place.
pub open spec fn holds_key<V>(entries: Seq<(Seq<char>, V)>, k: Seq<char>) -> bool {
    let p = key_position(entries, k);
    p < entries.len() && entries[p as int].0 == k
}

/// The frame that `entries` hold under key `k`.
pub open spec fn lookup<V>(entries: Seq<(Seq<char>, V)>, k: Seq<char>) -> Option<V> {
    if holds_key(entries, k) {
        Some(entries[key_position(entries, k) as int].1)
    } else {
        None
    }
}

/// `entries` with `f` under key `k`, in place of a frame held under `k` before.
pub open spec fn entries_insert<V>(entries: Seq<(Seq<char>, V)>, k: Seq<char>, f: V) -> Seq<(Seq<char>, V)> {
    let p = key_position(entries, k) as int;
    if holds_key(entries, k) {
        entries.update(p, (k, f))
    } else {
        entries.insert(p, (k, f))
    }
}

/// `entries` without the frame under key `k`.
pub open spec fn entries_remove<V>(entries: Seq<(Seq<char>, V)>, k: Seq<char>) -> Seq<(Seq<char>, V)> {
    if holds_key(entries, k) {
        entries.remove(key_position(entries, k) as int)
    } else {
        entries
    }
}

/// In sorted entries, the keys before the place of `k` come before `k`, and those after it
/// come after `k`.
pub proof fn lemma_key_position<V>(entries: Seq<(Seq<char>, V)>, k: Seq<char>)
    requires
        keys_sorted(entries),
    ensures
        key_position(entries, k) <= entries.len(),
        forall|j: int| 0 <= j < key_position(entries, k) ==> key_lt(#[trigger] entries[j].0, k),
        forall|j: int|
            key_position(entries, k) <= j < entries.len() ==> #[trigger] entries[j].0 == k
                || key_lt(k, entries[j].0),
        forall|j: int|
            key_position(entries, k) < j < entries.len() ==> key_lt(k, #[trigger] entries[j].0),
    decreases entries.len(),
{
    if entries.len() > 0 {
        let rest = entries.drop_first();
        assert(keys_sorted(rest)) by {
            assert forall|i: int, j: int| 0 <= i < j < rest.len() implies key_lt(rest[i].0, rest[j].0) by {
                assert(rest[i] == entries[i + 1]);
                assert(rest[j] == entries[j + 1]);
            }
        }
        lemma_key_position(rest, k);
        if !key_lt(entries[0].0, k) {
            if entries[0].0 != k {
                lemma_key_lt_total(entries[0].0, k);
            }
            assert forall|j: int| 0 < j < entries.len() implies key_lt(k, #[trigger] entries[j].0) by {
                assert(key_lt(entries[0].0, entries[j].0));
                if entries[0].0 != k {
                    lemma_key_lt_transitive(k, entries[0].0, entries[j].0);
                }
            }
        } else {
            assert forall|j: int| 0 <= j < key_position(entries, k) implies key_lt(#[trigger] entries[j].0, k) by {
                if j > 0 {
                    assert(entries[j] == rest[j - 1]);
                }
            }
            assert forall|j: int|
                key_position(entries, k) <= j < entries.len() implies #[trigger] entries[j].0 == k
                || key_lt(k, entries[j].0) by {
                assert(entries[j] == rest[j - 1]);
            }
            assert forall|j: int|
                key_position(entries, k) < j < entries.len() implies key_lt(k, #[trigger] entries[j].0) by {
                assert(entries[j] == rest[j - 1]);
            }
        }
    }
}

/// The place of `k` is the first entry whose key does not come before `k`.
pub proof fn lemma_position_at<V>(entries: Seq<(Seq<char>, V)>, k: Seq<char>, i: int)
    requires
        0 <= i <= entries.len(),
        forall|j: int| 0 <= j < i ==> key_lt(#[trigger] entries[j].0, k),
        i == entries.len() || !key_lt(entries[i].0, k),
    ensures
        key_position(entries, k) == i,
    decreases i,
{
    if i > 0 {
        let rest = entries.drop_first();
        assert(key_lt(entries[0].0, k));
        assert forall|j: int| 0 <= j < i - 1 implies key_lt(#[trigger] rest[j].0, k) by {
            assert(rest[j] == entries[j + 1]);
        }
        if i < entries.len() {
            assert(rest[i - 1] == entries[i]);
        }
        lemma_position_at(rest, k, i - 1);
    }
}

/// A key is held by sorted entries exactly where it is found.
pub proof fn lemma_holds_key<V>(entries: Seq<(Seq<char>, V)>, k: Seq<char>)
    requires
        keys_sorted(entries),
    ensures
        holds_key(entries, k) <==> exists|j: int| 0 <= j < entries.len() && #[trigger] entries[j].0 == k,
        forall|j: int| 0 <= j < entries.len() && #[trigger] entries[j].0 == k ==> j == key_position(entries, k),
{
    lemma_key_position(entries, k);
    let p = key_position(entries, k) as int;
    assert forall|j: int| 0 <= j < entries.len() && #[trigger] entries[j].0 == k implies j == p by {
        if j < p {
            lemma_key_lt_irreflexive(k);
        } else if j > p {
            lemma_key_lt_irreflexive(k);
        }
    }
}

/// Inserting under the place of a key keeps entries sorted.
pub proof fn lemma_insert_sorted<V>(entries: Seq<(Seq<char>, V)>, k: Seq<char>, f: V)
    requires
        keys_sorted(entries),
    ensures
        keys_sorted(entries_insert(entries, k, f)),
{
    lemma_key_position(entries, k);
    let p = key_position(entries, k) as int;
    let r = entries_insert(entries, k, f);
    if holds_key(entries, k) {
        assert forall|i: int, j: int| 0 <= i < j < r.len() implies key_lt(r[i].0, r[j].0) by {
            assert(r[i].0 == entries[i].0);
            assert(r[j].0 == entries[j].0);
        }
    } else {
        assert forall|i: int, j: int| 0 <= i < j < r.len() implies key_lt(r[i].0, r[j].0) by {
            if j < p {
                assert(r[i] == entries[i] && r[j] == entries[j]);
            } else if j == p {
                assert(r[i] == entries[i]);
            } else if i < p {
                assert(r[i] == entries[i] && r[j] == entries[j - 1]);
                lemma_key_lt_transitive(r[i].0, k, r[j].0);
            } else if i == p {
                assert(r[j] == entries[j - 1]);
            } else {
                assert(r[i] == entries[i - 1] && r[j] == entries[j - 1]);
            }
        }
    }
}

/// Removing an entry keeps entries sorted.
pub proof fn lemma_remove_sorted<V>(entries: Seq<(Seq<char>, V)>, p: int)
    requires
        keys_sorted(entries),
        0 <= p < entries.len(),
    ensures
        keys_sorted(entries.remove(p)),
{
    let r = entries.remove(p);
    assert forall|i: int, j: int| 0 <= i < j < r.len() implies key_lt(r[i].0, r[j].0) by {
        let a = if i < p { i } else { i + 1 };
        let b = if j < p { j } else { j + 1 };
        assert(r[i] == entries[a] && r[j] == entries[b]);
    }
}

/// In sorted entries, a key is found at most once, and what is found under it is what
/// [`lookup`](lookup) gives.
pub proof fn lemma_lookup<V>(entries: Seq<(Seq<char>, V)>, k: Seq<char>)
    requires
        keys_sorted(entries),
    ensures
        lookup(entries, k) is None <==> forall|j: int| 0 <= j < entries.len() ==> (#[trigger] entries[j]).0 != k,
        forall|j: int| 0 <= j < entries.len() && (#[trigger] entries[j]).0 == k ==> lookup(entries, k) == Some(entries[j].1),
{
    lemma_holds_key(entries, k);
    lemma_key_position(entries, k);
}

/// Removing the frame under one key leaves what is found under any other key.
pub proof fn lemma_lookup_remove<V>(entries: Seq<(Seq<char>, V)>, k: Seq<char>, other: Seq<char>)
    requires
        keys_sorted(entries),
        k != other,
    ensures
        keys_sorted(entries_remove(entries, k)),
        lookup(entries_remove(entries, k), other) == lookup(entries, other),
{
    lemma_key_position(entries, k);
    let r = entries_remove(entries, k);
    if holds_key(entries, k) {
        let p = key_position(entries, k) as int;
        lemma_remove_sorted(entries, p);
        lemma_lookup(entries, other);
        lemma_lookup(r, other);
        assert forall|j: int| 0 <= j < r.len() implies (#[trigger] r[j]) == entries[if j < p { j } else { j + 1 }] by {}
        if lookup(entries, other) is None {
            assert forall|j: int| 0 <= j < r.len() implies (#[trigger] r[j]).0 != other by {
                assert(r[j] == entries[if j < p { j } else { j + 1 }]);
            }
        } else {
            let w = choose|w: int| 0 <= w < entries.len() && (#[trigger] entries[w]).0 == other;
            assert(w != p);
            let j = if w < p { w } else { w - 1 };
            assert(r[j] == entries[w]);
        }
    }
}

/// After a frame is put under a key, that key finds that frame, and every other key finds what
/// it found before.
#[verifier::rlimit(30)]
pub proof fn lemma_lookup_insert<V>(entries: Seq<(Seq<char>, V)>, k: Seq<char>, f: V, other: Seq<char>)
    requires
        keys_sorted(entries),
    ensures
        keys_sorted(entries_insert(entries, k, f)),
        lookup(entries_insert(entries, k, f), k) == Some(f),
        other != k ==> lookup(entries_insert(entries, k, f), other) == lookup(entries, other),
{
    lemma_key_position(entries, k);
    lemma_insert_sorted(entries, k, f);
    let p = key_position(entries, k) as int;
    let r = entries_insert(entries, k, f);
    assert(r[p] == (k, f));
    lemma_lookup(r, k);
    if other != k {
        lemma_lookup(entries, other);
        lemma_lookup(r, other);
        if holds_key(entries, k) {
            assert forall|j: int| 0 <= j < r.len() && j != p implies (#[trigger] r[j]) == entries[j] by {}
            if lookup(entries, other) is None {
                assert forall|j: int| 0 <= j < r.len() implies (#[trigger] r[j]).0 != other by {
                    if j != p {
                        assert(r[j] == entries[j]);
                    }
                }
            } else {
                let w = choose|w: int| 0 <= w < entries.len() && (#[trigger] entries[w]).0 == other;
                assert(r[w] == entries[w]);
            }
        } else {
            assert forall|j: int| 0 <= j < r.len() && j != p implies (#[trigger] r[j]) == entries[
                if j < p { j } else { j - 1 }
            ] by {}
            if lookup(entries, other) is None {
                assert forall|j: int| 0 <= j < r.len() implies (#[trigger] r[j]).0 != other by {
                    if j != p {
                        assert(r[j] == entries[if j < p { j } else { j - 1 }]);
                    }
                }
            } else {
                let w = choose|w: int| 0 <= w < entries.len() && (#[trigger] entries[w]).0 == other;
                let j = if w < p { w } else { w + 1 };
                assert(r[j] == entries[w]);
            }
        }
    }
}

/// After the frame under a key is removed, that key finds nothing.
pub proof fn lemma_lookup_removed<V>(entries: Seq<(Seq<char>, V)>, k: Seq<char>)
    requires
        keys_sorted(entries),
    ensures
        keys_sorted(entries_remove(entries, k)),
        lookup(entries_remove(entries, k), k) is None,
{
    lemma_key_position(entries, k);
    lemma_holds_key(entries, k);
    let r = entries_remove(entries, k);
    if holds_key(entries, k) {
        let p = key_position(entries, k) as int;
        lemma_remove_sorted(entries, p);
        lemma_lookup(r, k);
        assert forall|j: int| 0 <= j < r.len() implies (#[trigger] r[j]).0 != k by {
            let w = if j < p { j } else { j + 1 };
            assert(r[j] == entries[w]);
        }
    } else {
        lemma_lookup(entries, k);
    }
}

/// Keeping some of the entries, in order, keeps them sorted.
pub open spec fn kept(entries: Seq<(Seq<char>, AnyFrame)>, keep: Seq<bool>) -> Seq<(Seq<char>, AnyFrame)>
    decreases entries.len(),
{
    if entries.len() == 0 || keep.len() == 0 {
        Seq::empty()
    } else {
        let rest = kept(entries.drop_last(), keep.drop_last());
        if keep.last() {
            rest.push(entries.last())
        } else {
            rest
        }
    }
}

/// The frames of the entries picked by `pick`, in order.
pub open spec fn picked(entries: Seq<(Seq<char>, AnyFrame)>, pick: Seq<bool>) -> Seq<AnyFrame> {
    kept(entries, pick).map_values(|e: (Seq<char>, AnyFrame)| e.1)
}

/// Whether `pick` marks the entries whose frames have the ID `id`, as far as the frames are
/// described: a custom frame is marked by what its `id` method returned.
pub open spec fn marks_id(entries: Seq<(Seq<char>, AnyFrame)>, id: Seq<u8>, pick: Seq<bool>) -> bool {
    &&& pick.len() == entries.len()
    &&& forall|i: int|
        0 <= i < entries.len() && !(#[trigger] entries[i].1).is_custom() ==> pick[i] == (entries[i].1.spec_id() == id)
}

/// The entries of a kept part of sorted entries are in order.
pub proof fn lemma_kept_sorted(entries: Seq<(Seq<char>, AnyFrame)>, keep: Seq<bool>)
    requires
        keys_sorted(entries),
        keep.len() == entries.len(),
    ensures
        keys_sorted(kept(entries, keep)),
        forall|i: int| 0 <= i < kept(entries, keep).len() ==> entries.contains(#[trigger] kept(entries, keep)[i]),
    decreases entries.len(),
{
    if entries.len() > 0 {
        let front = entries.drop_last();
        assert(keys_sorted(front)) by {
            assert forall|i: int, j: int| 0 <= i < j < front.len() implies key_lt(front[i].0, front[j].0) by {
                assert(front[i] == entries[i] && front[j] == entries[j]);
            }
        }
        lemma_kept_sorted(front, keep.drop_last());
        let rest = kept(front, keep.drop_last());
        assert forall|i: int| 0 <= i < rest.len() implies key_lt(#[trigger] rest[i].0, entries.last().0) by {
            assert(front.contains(rest[i]));
            let w = choose|w: int| 0 <= w < front.len() && front[w] == rest[i];
            assert(entries[w] == front[w]);
        }
        let r = kept(entries, keep);
        assert forall|i: int| 0 <= i < r.len() implies entries.contains(#[trigger] r[i]) by {
            if i < rest.len() {
                assert(front.contains(rest[i]));
                let w = choose|w: int| 0 <= w < front.len() && front[w] == rest[i];
                assert(entries[w] == front[w]);
            } else {
                assert(entries[entries.len() - 1] == entries.last());
            }
        }
    }
}

/// The place among `entries` of the `i`th kept entry.
pub open spec fn kept_place(entries: Seq<(Seq<char>, AnyFrame)>, keep: Seq<bool>, i: int) -> int
    decreases entries.len(),
{
    if entries.len() == 0 || keep.len() == 0 {
        0
    } else if i < kept(entries.drop_last(), keep.drop_last()).len() {
        kept_place(entries.drop_last(), keep.drop_last(), i)
    } else {
        entries.len() - 1
    }
}

/// The `i`th kept entry is the entry at its place, which `keep` marks.
pub proof fn lemma_kept_place(entries: Seq<(Seq<char>, AnyFrame)>, keep: Seq<bool>, i: int)
    requires
        keep.len() == entries.len(),
        0 <= i < kept(entries, keep).len(),
    ensures
        0 <= kept_place(entries, keep, i) < entries.len(),
        keep[kept_place(entries, keep, i)],
        entries[kept_place(entries, keep, i)] == kept(entries, keep)[i],
    decreases entries.len(),
{
    let front = entries.drop_last();
    let fk = keep.drop_last();
    let rest = kept(front, fk);
    if i < rest.len() {
        lemma_kept_place(front, fk, i);
        let j = kept_place(front, fk, i);
        assert(entries[j] == front[j] && keep[j] == fk[j]);
    } else {
        assert(keep[entries.len() - 1] == keep.last());
    }
}

/// The place of the first entry at or after `i` whose key does not come before `key`.
fn position_from<V>(entries: &Vec<(String, V)>, key: &str) -> (p: usize)
    requires
        keys_sorted(entries@.map_values(|e: (String, V)| (e.0@, e.1))),
    ensures
        p == key_position(entries@.map_values(|e: (String, V)| (e.0@, e.1)), key@),
{
    let ghost view = entries@.map_values(|e: (String, V)| (e.0@, e.1));
    let mut i: usize = 0;
    while i < entries.len() && key_before(entries[i].0.as_str(), key)
        invariant
            view == entries@.map_values(|e: (String, V)| (e.0@, e.1)),
            i <= entries.len(),
            forall|j: int| 0 <= j < i ==> key_lt(#[trigger] view[j].0, key@),
        decreases entries.len() - i,
    {
        i = i + 1;
    }
    proof {
        lemma_position_at(view, key@, i as int);
    }
    i
}

/// Whether `r` is what adding the frame `new` leaves of `old`, a frame under the same key:
/// text frames and user text frames take on the strings of a frame of their kind after their
/// own, and any other frame stays as it is.
pub open spec fn merged(old: AnyFrame, new: AnyFrame, r: AnyFrame) -> bool {
    match (old, new) {
        (AnyFrame::Text(a), AnyFrame::Text(b)) => r matches AnyFrame::Text(c) && c.spec_frame_id()
            == a.spec_frame_id() && c.spec_encoding() == a.spec_encoding() && c.spec_text()
            == a.spec_text() + b.spec_text(),
        (AnyFrame::UserText(a), AnyFrame::UserText(b)) => r matches AnyFrame::UserText(c)
            && c.encoding == a.encoding && c.desc@ == a.desc@ && c.text@ == a.text@ + b.text@,
        _ => r == old,
    }
}

/// Whether `after` is what adding frame `f` under key `k` to `before` gives: a frame under
/// `k` already takes on what [`merged`](merged) says, and `f` is put in otherwise.
pub open spec fn added(
    before: Seq<(Seq<char>, AnyFrame)>,
    k: Seq<char>,
    f: AnyFrame,
    after: Seq<(Seq<char>, AnyFrame)>,
) -> bool {
    if holds_key(before, k) {
        let p = key_position(before, k) as int;
        &&& after == before.update(p, (k, after[p].1))
        &&& merged(before[p].1, f, after[p].1)
    } else {
        after == entries_insert(before, k, f)
    }
}

/// The IDs held by `ids`.
pub open spec fn id_list(ids: Seq<[u8; 4]>) -> Seq<Seq<u8>> {
    ids.map_values(|a: [u8; 4]| a@)
}

/// Whether `pick` marks the entries whose frames have one of the IDs `ids`, as far as the
/// frames are described: a custom frame is marked by what its `id` method returned.
pub open spec fn marks_ids(entries: Seq<(Seq<char>, AnyFrame)>, ids: Seq<Seq<u8>>, pick: Seq<bool>) -> bool {
    &&& pick.len() == entries.len()
    &&& forall|i: int|
        0 <= i < entries.len() && !(#[trigger] entries[i].1).is_custom() ==> pick[i] == ids.contains(
            entries[i].1.spec_id(),
        )
}

/// Whether `id` is one of `ids`.
fn id_in(id: &[u8; 4], ids: &[[u8; 4]]) -> (r: bool)
    ensures
        r == id_list(ids@).contains(id@),
{
    let mut i: usize = 0;
    while i < ids.len()
        invariant
            i <= ids@.len(),
            forall|j: int| 0 <= j < i ==> (#[trigger] ids@[j])@ != id@,
        decreases ids@.len() - i,
    {
        if same_id(&ids[i], id) {
            proof {
                assert(id_list(ids@)[i as int] == id@);
            }
            return true;
        }
        i = i + 1;
    }
    proof {
        if id_list(ids@).contains(id@) {
            let w = choose|w: int| 0 <= w < id_list(ids@).len() && id_list(ids@)[w] == id@;
            assert(ids@[w]@ == id@);
        }
    }
    false
}

/// Adds the strings of `new` to `orig` where both are text frames, or both user text frames.
fn merge_frames(orig: AnyFrame, new: AnyFrame) -> (r: AnyFrame)
    ensures
        merged(orig, new, r),
{
    match (orig, new) {
        (AnyFrame::Text(mut a), AnyFrame::Text(b)) => {
            a.merge(b);
            AnyFrame::Text(a)
        },
        (AnyFrame::UserText(mut a), AnyFrame::UserText(mut b)) => {
            a.text.append(&mut b.text);
            AnyFrame::UserText(a)
        },
        (orig, _) => orig,
    }
}

/// Whether `a` and `b` hold the same bytes.
fn same_id(a: &[u8; 4], b: &[u8; 4]) -> (r: bool)
    ensures
        r == (a@ == b@),
{
    let r = a[0] == b[0] && a[1] == b[1] && a[2] == b[2] && a[3] == b[3];
    proof {
        if r {
            assert(a@ =~= b@);
        }
    }
    r
}

/// Taking one more entry into account extends the kept entries by it where it is kept.
proof fn lemma_kept_push(entries: Seq<(Seq<char>, AnyFrame)>, keep: Seq<bool>, i: int, b: bool)
    requires
        0 <= i < entries.len(),
        keep.len() == i,
    ensures
        kept(entries.take(i + 1), keep.push(b)) == if b {
            kept(entries.take(i), keep).push(entries[i])
        } else {
            kept(entries.take(i), keep)
        },
{
    assert(entries.take(i + 1).drop_last() =~= entries.take(i));
    assert(keep.push(b).drop_last() =~= keep);
}

// ---- The order of rendered frames ----

/// The place of a frame ID among the frames written first, which are, in this order, `TIT2`,
/// `TPE1`, `TALB`, `TRCK`, `TPOS`, `TDRC` and `TCON`.
pub open spec fn priority(id: Seq<u8>) -> Option<nat> {
    if id == seq![0x54u8, 0x49, 0x54, 0x32] {
        Some(0)
    } else if id == seq![0x54u8, 0x50, 0x45, 0x31] {
        Some(1)
    } else if id == seq![0x54u8, 0x41, 0x4C, 0x42] {
        Some(2)
    } else if id == seq![0x54u8, 0x52, 0x43, 0x4B] {
        Some(3)
    } else if id == seq![0x54u8, 0x50, 0x4F, 0x53] {
        Some(4)
    } else if id == seq![0x54u8, 0x44, 0x52, 0x43] {
        Some(5)
    } else if id == seq![0x54u8, 0x43, 0x4F, 0x4E] {
        Some(6)
    } else {
        None
    }
}

/// Whether the rendered frame `a` is written before the rendered frame `b`, each given by
/// its key, ID and bytes. The frames of priority come first, in the order of their IDs; the
/// other frames follow, shorter ones before longer ones and then by key.
pub open spec fn rendered_before(a: (Seq<char>, Seq<u8>, Seq<u8>), b: (Seq<char>, Seq<u8>, Seq<u8>)) -> bool {
    match (priority(a.1), priority(b.1)) {
        (Some(x), Some(y)) => x < y || (x == y && key_lt(a.0, b.0)),
        (Some(_), None) => true,
        (None, Some(_)) => false,
        (None, None) => a.2.len() < b.2.len() || (a.2.len() == b.2.len() && key_lt(a.0, b.0)),
    }
}

/// Whether `items` are in the order they are written in.
pub open spec fn rendered_in_order(items: Seq<(Seq<char>, Seq<u8>, Seq<u8>)>) -> bool {
    forall|i: int, j: int| 0 <= i < j < items.len() ==> rendered_before(items[i], items[j])
}

/// The order of rendered frames is transitive.
pub proof fn lemma_rendered_before_transitive(
    a: (Seq<char>, Seq<u8>, Seq<u8>),
    b: (Seq<char>, Seq<u8>, Seq<u8>),
    c: (Seq<char>, Seq<u8>, Seq<u8>),
)
    requires
        rendered_before(a, b),
        rendered_before(b, c),
    ensures
        rendered_before(a, c),
{
    if key_lt(a.0, b.0) && key_lt(b.0, c.0) {
        lemma_key_lt_transitive(a.0, b.0, c.0);
    }
}

/// Of two rendered frames with different keys, one is written before the other.
pub proof fn lemma_rendered_before_total(a: (Seq<char>, Seq<u8>, Seq<u8>), b: (Seq<char>, Seq<u8>, Seq<u8>))
    requires
        a.0 != b.0,
    ensures
        rendered_before(a, b) || rendered_before(b, a),
{
    lemma_key_lt_total(a.0, b.0);
}

/// What rendering frame `f` in a tag of `version` gives: its ID and bytes, or nothing where the
/// frame is empty or too large.
pub open spec fn render_outcome(f: AnyFrame, version: Version) -> Option<(Seq<u8>, Seq<u8>)> {
    let body = f.spec_render(version);
    if f.spec_empty() {
        None
    } else {
        match spec_frame_header(version, f.spec_id(), 0, body.len()) {
            Some(h) => Some((f.spec_id(), h + body)),
            None => None,
        }
    }
}

/// The rendered frames of `entries`, given what each gave.
pub open spec fn collect_rendered(
    entries: Seq<(Seq<char>, AnyFrame)>,
    outcomes: Seq<Option<(Seq<u8>, Seq<u8>)>>,
) -> Seq<(Seq<char>, Seq<u8>, Seq<u8>)>
    decreases entries.len(),
{
    if entries.len() == 0 || outcomes.len() == 0 {
        Seq::empty()
    } else {
        let rest = collect_rendered(entries.drop_last(), outcomes.drop_last());
        match outcomes.last() {
            Some(o) => rest.push((entries.last().0, o.0, o.1)),
            None => rest,
        }
    }
}

/// The bytes of rendered frames, one after another.
pub open spec fn rendered_bytes(items: Seq<(Seq<char>, Seq<u8>, Seq<u8>)>) -> Seq<u8>
    decreases items.len(),
{
    if items.len() == 0 {
        Seq::empty()
    } else {
        rendered_bytes(items.drop_last()) + items.last().2
    }
}

/// Whether `outcomes` are what rendering each of `entries` gave, as far as the frames are
/// described.
pub open spec fn outcomes_of(
    entries: Seq<(Seq<char>, AnyFrame)>,
    version: Version,
    outcomes: Seq<Option<(Seq<u8>, Seq<u8>)>>,
) -> bool {
    &&& outcomes.len() == entries.len()
    &&& forall|i: int|
        0 <= i < entries.len() && !(#[trigger] entries[i].1).is_custom() ==> outcomes[i]
            == render_outcome(entries[i].1, version)
}

/// Whether `bytes` are what rendering `entries` in a tag of `version` gives: each frame that
/// is not empty and fits its header, with its header, in the order that
/// [`rendered_before`](rendered_before) gives.
pub open spec fn renders_frames(entries: Seq<(Seq<char>, AnyFrame)>, version: Version, bytes: Seq<u8>) -> bool {
    exists|outcomes: Seq<Option<(Seq<u8>, Seq<u8>)>>, order: Seq<(Seq<char>, Seq<u8>, Seq<u8>)>|
        {
            &&& #[trigger] outcomes_of(entries, version, outcomes)
            &&& order.to_multiset() == collect_rendered(entries, outcomes).to_multiset()
            &&& #[trigger] rendered_in_order(order)
            &&& bytes == rendered_bytes(order)
        }
}

/// The place of the ID `id` among the frames written first.
fn priority_of(id: &[u8; 4]) -> (r: Option<usize>)
    ensures
        match r {
            Some(x) => priority(id@) == Some(x as nat),
            None => priority(id@) is None,
        },
{
    let ids: [[u8; 4]; 7] = [
        [0x54, 0x49, 0x54, 0x32],
        [0x54, 0x50, 0x45, 0x31],
        [0x54, 0x41, 0x4C, 0x42],
        [0x54, 0x52, 0x43, 0x4B],
        [0x54, 0x50, 0x4F, 0x53],
        [0x54, 0x44, 0x52, 0x43],
        [0x54, 0x43, 0x4F, 0x4E],
    ];
    proof {
        assert(ids[0]@ =~= seq![0x54u8, 0x49, 0x54, 0x32]);
        assert(ids[1]@ =~= seq![0x54u8, 0x50, 0x45, 0x31]);
        assert(ids[2]@ =~= seq![0x54u8, 0x41, 0x4C, 0x42]);
        assert(ids[3]@ =~= seq![0x54u8, 0x52, 0x43, 0x4B]);
        assert(ids[4]@ =~= seq![0x54u8, 0x50, 0x4F, 0x53]);
        assert(ids[5]@ =~= seq![0x54u8, 0x44, 0x52, 0x43]);
        assert(ids[6]@ =~= seq![0x54u8, 0x43, 0x4F, 0x4E]);
    }
    let mut i: usize = 0;
    while i < 7
        invariant
            i <= 7,
            ids[0]@ == seq![0x54u8, 0x49, 0x54, 0x32],
            ids[1]@ == seq![0x54u8, 0x50, 0x45, 0x31],
            ids[2]@ == seq![0x54u8, 0x41, 0x4C, 0x42],
            ids[3]@ == seq![0x54u8, 0x52, 0x43, 0x4B],
            ids[4]@ == seq![0x54u8, 0x50, 0x4F, 0x53],
            ids[5]@ == seq![0x54u8, 0x44, 0x52, 0x43],
            ids[6]@ == seq![0x54u8, 0x43, 0x4F, 0x4E],
            forall|j: int| 0 <= j < i ==> id@ != (#[trigger] ids[j])@,
        decreases 7 - i,
    {
        if same_id(&ids[i], id) {
            return Some(i);
        }
        i = i + 1;
    }
    None
}

/// A rendered frame: its key, ID and bytes.
struct RenderedFrame {
    key: String,
    id: [u8; 4],
    data: Vec<u8>,
}

impl RenderedFrame {
    spec fn view(&self) -> (Seq<char>, Seq<u8>, Seq<u8>) {
        (self.key@, self.id@, self.data@)
    }
}

/// Whether the rendered frame `a` is written before `b`.
fn written_before(a: &RenderedFrame, b: &RenderedFrame) -> (r: bool)
    ensures
        r == rendered_before(a.view(), b.view()),
{
    match (priority_of(&a.id), priority_of(&b.id)) {
        (Some(x), Some(y)) => x < y || (x == y && key_before(a.key.as_str(), b.key.as_str())),
        (Some(_), None) => true,
        (None, Some(_)) => false,
        (None, None) => a.data.len() < b.data.len() || (a.data.len() == b.data.len() && key_before(
            a.key.as_str(),
            b.key.as_str(),
        )),
    }
}

spec fn views(items: Seq<RenderedFrame>) -> Seq<(Seq<char>, Seq<u8>, Seq<u8>)> {
    items.map_values(|f: RenderedFrame| f.view())
}

/// Puts `item` into `items`, which are in the order they are written in, at its place.
fn insert_in_order(items: &mut Vec<RenderedFrame>, item: RenderedFrame)
    requires
        rendered_in_order(views(old(items)@)),
        forall|j: int| 0 <= j < old(items)@.len() ==> (#[trigger] old(items)@[j]).key@ != item.key@,
    ensures
        rendered_in_order(views(final(items)@)),
        views(final(items)@).to_multiset() == views(old(items)@).to_multiset().insert(item.view()),
        exists|p: int| 0 <= p <= old(items)@.len() && final(items)@ == old(items)@.insert(p, item),
{
    let ghost before = views(items@);
    let mut p: usize = 0;
    while p < items.len() && written_before(&items[p], &item)
        invariant
            before == views(items@),
            p <= items.len(),
            forall|j: int| 0 <= j < p ==> rendered_before(#[trigger] before[j], item.view()),
        decreases items.len() - p,
    {
        p = p + 1;
    }
    let ghost x = item.view();
    let ghost old_items = items@;
    let ghost the_item = item;
    items.insert(p, item);
    proof {
        assert(items@ == old_items.insert(p as int, the_item));
        let after = views(items@);
        assert(after =~= before.insert(p as int, x));
        assert forall|i: int, j: int| 0 <= i < j < after.len() implies rendered_before(after[i], after[j]) by {
            if j < p {
                assert(after[i] == before[i] && after[j] == before[j]);
            } else if j == p {
                assert(after[i] == before[i]);
            } else {
                // Every item after `p` comes after the new item.
                assert(p < before.len());
                assert(!rendered_before(before[p as int], x));
                assert(before[p as int].0 != x.0);
                lemma_rendered_before_total(before[p as int], x);
                assert(rendered_before(x, before[p as int]));
                if j - 1 > p {
                    lemma_rendered_before_transitive(x, before[p as int], before[j - 1]);
                }
                assert(after[j] == before[j - 1]);
                if i < p {
                    assert(after[i] == before[i]);
                    lemma_rendered_before_transitive(before[i], x, before[j - 1]);
                } else if i > p {
                    assert(after[i] == before[i - 1]);
                }
            }
        }
        vstd::seq_lib::to_multiset_insert(before, p as int, x);
    }
}

/// A collection of known frames, each under its key.
///
/// The key of a frame is its Frame ID followed by whatever tells the frame apart from other
/// frames of that ID (see [`Frame::key`](crate::id3v2::frames::Frame::key)). The frames are
/// kept in the order of their keys.
pub struct FrameMap {
    entries: Vec<(String, AnyFrame)>,
}

impl FrameMap {
    #[verifier::type_invariant]
    spec fn sorted(&self) -> bool {
        &&& keys_sorted(self.spec_entries())
        &&& keyed(self.spec_entries())
    }

    /// The keys and frames of this map, in the order of the keys.
    pub closed spec fn spec_entries(&self) -> Seq<(Seq<char>, AnyFrame)> {
        self.entries@.map_values(|e: (String, AnyFrame)| (e.0@, e.1))
    }

    /// Creates an empty map.
    pub fn new() -> (r: Self)
        ensures
            r.spec_entries() == Seq::<(Seq<char>, AnyFrame)>::empty(),
    {
        let r = FrameMap { entries: Vec::new() };
        proof {
            assert(r.spec_entries() =~= Seq::<(Seq<char>, AnyFrame)>::empty());
        }
        r
    }

    /// Returns the number of frames in this map.
    pub fn len(&self) -> (r: usize)
        ensures
            r == self.spec_entries().len(),
            keys_sorted(self.spec_entries()),
            keyed(self.spec_entries()),
    {
        proof {
            use_type_invariant(self);
        }
        self.entries.len()
    }

    /// Returns whether this map holds no frames.
    pub fn is_empty(&self) -> (r: bool)
        ensures
            r == (self.spec_entries().len() == 0),
    {
        self.entries.len() == 0
    }

    /// Returns whether this map holds a frame under `key`.
    pub fn contains_key(&self, key: &str) -> (r: bool)
        ensures
            keys_sorted(self.spec_entries()),
            r == holds_key(self.spec_entries(), key@),
    {
        proof {
            use_type_invariant(self);
        }
        let p = position_from(&self.entries, key);
        p < self.entries.len() && same_key(self.entries[p].0.as_str(), key)
    }

    /// Returns the frame under `key`, if there is one.
    pub fn get(&self, key: &str) -> (r: Option<&AnyFrame>)
        ensures
            keys_sorted(self.spec_entries()),
            r matches Some(f) ==> lookup(self.spec_entries(), key@) == Some(*f),
            r is None ==> lookup(self.spec_entries(), key@) is None,
    {
        proof {
            use_type_invariant(self);
        }
        let p = position_from(&self.entries, key);
        if p < self.entries.len() && same_key(self.entries[p].0.as_str(), key) {
            Some(&self.entries[p].1)
        } else {
            None
        }
    }

    /// Puts `frame` into this map under its key, in place of any frame under that key.
    pub fn insert(&mut self, frame: AnyFrame)
        ensures
            keys_sorted(final(self).spec_entries()),
            exists|k: Seq<char>|
                (!frame.is_custom() ==> k == frame.spec_key()) && final(self).spec_entries()
                    == #[trigger] entries_insert(old(self).spec_entries(), k, frame),
    {
        proof {
            use_type_invariant(&*self);
        }
        let ghost before = self.spec_entries();
        let key = frame.key();
        let mut entries: Vec<(String, AnyFrame)> = Vec::new();
        std::mem::swap(&mut entries, &mut self.entries);
        let p = position_from(&entries, key.as_str());
        let ghost k = key@;
        proof {
            lemma_key_position(before, k);
        }
        if p < entries.len() && same_key(entries[p].0.as_str(), key.as_str()) {
            entries.set(p, (key, frame));
        } else {
            entries.insert(p, (key, frame));
        }
        proof {
            lemma_insert_sorted(before, k, frame);
            assert(entries@.map_values(|e: (String, AnyFrame)| (e.0@, e.1)) =~= entries_insert(before, k, frame));
        }
        self.entries = entries;
    }

    /// Adds `frame` to this map under its key. Where a frame is under that key already, a
    /// text frame or user text frame takes on the strings of a frame of its kind, and any
    /// other frame stays: `frame` is then not added.
    pub fn add(&mut self, frame: AnyFrame)
        ensures
            keys_sorted(final(self).spec_entries()),
            exists|k: Seq<char>|
                (!frame.is_custom() ==> k == frame.spec_key()) && #[trigger] added(
                    old(self).spec_entries(),
                    k,
                    frame,
                    final(self).spec_entries(),
                ),
    {
        proof {
            use_type_invariant(&*self);
        }
        let ghost before = self.spec_entries();
        let key = frame.key();
        let ghost k = key@;
        let mut entries: Vec<(String, AnyFrame)> = Vec::new();
        std::mem::swap(&mut entries, &mut self.entries);
        let p = position_from(&entries, key.as_str());
        proof {
            lemma_key_position(before, k);
        }
        proof {
            assert(entries@.map_values(|e: (String, AnyFrame)| (e.0@, e.1)) == before);
        }
        if p < entries.len() && same_key(entries[p].0.as_str(), key.as_str()) {
            proof {
                assert(before[p as int] == (entries@[p as int].0@, entries@[p as int].1));
            }
            let (orig_key, orig) = entries.remove(p);
            let m = merge_frames(orig, frame);
            entries.insert(p, (orig_key, m));
            proof {
                assert(holds_key(before, k));
                assert(merged(before[p as int].1, frame, m));
                assert(entries@.map_values(|e: (String, AnyFrame)| (e.0@, e.1)) =~= before.update(
                    p as int,
                    (k, m),
                ));
                assert forall|i: int, j: int|
                    0 <= i < j < before.len() implies key_lt(
                    before.update(p as int, (k, m))[i].0,
                    before.update(p as int, (k, m))[j].0,
                ) by {
                    assert(before[i].0 == before.update(p as int, (k, m))[i].0);
                    assert(before[j].0 == before.update(p as int, (k, m))[j].0);
                }
            }
        } else {
            entries.insert(p, (key, frame));
            proof {
                assert(!holds_key(before, k));
                lemma_insert_sorted(before, k, frame);
                assert(entries@.map_values(|e: (String, AnyFrame)| (e.0@, e.1)) =~= entries_insert(before, k, frame));
            }
        }
        self.entries = entries;
        proof {
            assert(!frame.is_custom() ==> k == frame.spec_key());
            assert(added(before, k, frame, self.spec_entries()));
        }
    }

    /// Returns the frames that have the Frame ID `id`, in the order of their keys.
    pub fn get_all(&self, id: &[u8; 4]) -> (r: Vec<&AnyFrame>)
        ensures
            exists|pick: Seq<bool>|
                marks_id(self.spec_entries(), id@, pick) && r@.map_values(|f: &AnyFrame| *f)
                    == #[trigger] picked(self.spec_entries(), pick),
    {
        let ghost all = self.spec_entries();
        let ghost mut pick: Seq<bool> = Seq::empty();
        let mut r: Vec<&AnyFrame> = Vec::new();
        let mut i: usize = 0;
        while i < self.entries.len()
            invariant
                all == self.spec_entries(),
                i <= self.entries.len(),
                pick.len() == i,
                forall|j: int|
                    0 <= j < i && !(#[trigger] all[j].1).is_custom() ==> pick[j] == (all[j].1.spec_id() == id@),
                r@.map_values(|f: &AnyFrame| *f) == picked(all.take(i as int), pick),
            decreases self.entries.len() - i,
        {
            let frame = &self.entries[i].1;
            let found = same_id(&frame.id().inner(), id);
            let ghost before = r@;
            proof {
                lemma_kept_push(all, pick, i as int, found);
                assert(all[i as int].1 == *frame);
            }
            if found {
                r.push(frame);
            }
            proof {
                let old_kept = kept(all.take(i as int), pick);
                pick = pick.push(found);
                if found {
                    assert(r@ =~= before.push(frame));
                    assert(old_kept.push(all[i as int]).map_values(|e: (Seq<char>, AnyFrame)| e.1)
                        =~= old_kept.map_values(|e: (Seq<char>, AnyFrame)| e.1).push(all[i as int].1));
                }
                assert(r@.map_values(|f: &AnyFrame| *f) =~= picked(all.take(i + 1), pick));
            }
            i = i + 1;
        }
        proof {
            assert(all.take(i as int) =~= all);
        }
        r
    }

    /// Returns whether this map holds a frame with the Frame ID `id`.
    pub fn contains_any(&self, id: &[u8; 4]) -> (r: bool)
        ensures
            exists|pick: Seq<bool>|
                #[trigger] marks_id(self.spec_entries(), id@, pick) && r == pick.contains(true),
    {
        let ghost all = self.spec_entries();
        let ghost mut pick: Seq<bool> = Seq::empty();
        let mut i: usize = 0;
        while i < self.entries.len()
            invariant
                all == self.spec_entries(),
                i <= self.entries.len(),
                pick.len() == i,
                forall|j: int|
                    0 <= j < i && !(#[trigger] all[j].1).is_custom() ==> pick[j] == (all[j].1.spec_id() == id@),
                !pick.contains(true),
            decreases self.entries.len() - i,
        {
            let found = same_id(&self.entries[i].1.id().inner(), id);
            if found {
                let ghost whole = pick.push(true) + Seq::new((all.len() - i - 1) as nat, |j: int| all[i + 1 + j].1.spec_id() == id@);
                proof {
                    assert(whole[i as int]);
                    assert(whole.contains(true));
                    assert forall|j: int|
                        0 <= j < all.len() && !(#[trigger] all[j].1).is_custom() implies whole[j] == (all[j].1.spec_id() == id@) by {
                        if j < i {
                            assert(whole[j] == pick[j]);
                        }
                    }
                    assert(marks_id(all, id@, whole));
                }
                return true;
            }
            proof {
                pick = pick.push(false);
                assert(!pick.contains(true)) by {
                    if pick.contains(true) {
                        let w = choose|w: int| 0 <= w < pick.len() && pick[w] == true;
                        assert(pick.drop_last()[w] == true || w == i);
                    }
                }
            }
            i = i + 1;
        }
        proof {
            assert(marks_id(all, id@, pick));
        }
        false
    }

    /// Returns the keys of this map, in order.
    pub fn keys(&self) -> (r: Vec<String>)
        ensures
            r@.map_values(|k: String| k@) == self.spec_entries().map_values(
                |e: (Seq<char>, AnyFrame)| e.0,
            ),
    {
        let mut r: Vec<String> = Vec::new();
        let mut i: usize = 0;
        while i < self.entries.len()
            invariant
                i <= self.entries.len(),
                r@.len() == i,
                forall|j: int| 0 <= j < i ==> (#[trigger] r@[j])@ == self.entries@[j].0@,
            decreases self.entries.len() - i,
        {
            r.push(self.entries[i].0.clone());
            i = i + 1;
        }
        proof {
            assert(r@.map_values(|k: String| k@) =~= self.spec_entries().map_values(
                |e: (Seq<char>, AnyFrame)| e.0,
            ));
        }
        r
    }

    /// Returns the frames of this map, in the order of their keys.
    pub fn values(&self) -> (r: Vec<&AnyFrame>)
        ensures
            r@.map_values(|f: &AnyFrame| *f) == self.spec_entries().map_values(
                |e: (Seq<char>, AnyFrame)| e.1,
            ),
    {
        let mut r: Vec<&AnyFrame> = Vec::new();
        let mut i: usize = 0;
        while i < self.entries.len()
            invariant
                i <= self.entries.len(),
                r@.len() == i,
                forall|j: int| 0 <= j < i ==> *(#[trigger] r@[j]) == self.entries@[j].1,
            decreases self.entries.len() - i,
        {
            r.push(&self.entries[i].1);
            i = i + 1;
        }
        proof {
            assert(r@.map_values(|f: &AnyFrame| *f) =~= self.spec_entries().map_values(
                |e: (Seq<char>, AnyFrame)| e.1,
            ));
        }
        r
    }

    /// Removes every frame from this map.
    pub fn clear(&mut self)
        ensures
            final(self).spec_entries() == Seq::<(Seq<char>, AnyFrame)>::empty(),
    {
        self.entries = Vec::new();
        proof {
            assert(self.spec_entries() =~= Seq::<(Seq<char>, AnyFrame)>::empty());
        }
    }

    /// Removes the frames that have the Frame ID `id` and returns them, in the order of their
    /// keys.
    pub fn remove_all(&mut self, id: &[u8; 4]) -> (r: Vec<AnyFrame>)
        ensures
            keys_sorted(final(self).spec_entries()),
            exists|pick: Seq<bool>|
                {
                    &&& marks_id(old(self).spec_entries(), id@, pick)
                    &&& r@ == #[trigger] picked(old(self).spec_entries(), pick)
                    &&& final(self).spec_entries() == kept(
                        old(self).spec_entries(),
                        pick.map_values(|b: bool| !b),
                    )
                },
    {
        proof {
            use_type_invariant(&*self);
        }
        let ghost all = self.spec_entries();
        let mut rest: Vec<(String, AnyFrame)> = Vec::new();
        std::mem::swap(&mut rest, &mut self.entries);
        let mut keep: Vec<(String, AnyFrame)> = Vec::new();
        let mut r: Vec<AnyFrame> = Vec::new();
        let ghost mut pick: Seq<bool> = Seq::empty();
        let ghost mut i: int = 0;
        while rest.len() > 0
            invariant
                0 <= i <= all.len(),
                pick.len() == i,
                rest@.map_values(|e: (String, AnyFrame)| (e.0@, e.1)) == all.skip(i),
                forall|j: int|
                    0 <= j < i && !(#[trigger] all[j].1).is_custom() ==> pick[j] == (all[j].1.spec_id() == id@),
                r@ == picked(all.take(i), pick),
                keep@.map_values(|e: (String, AnyFrame)| (e.0@, e.1)) == kept(
                    all.take(i),
                    pick.map_values(|b: bool| !b),
                ),
            decreases rest.len(),
        {
            proof {
                assert(rest@.map_values(|e: (String, AnyFrame)| (e.0@, e.1)).len() == rest@.len());
                assert(all.skip(i).len() > 0);
                assert(i < all.len());
            }
            let ghost rest_before = rest@;
            let entry = rest.remove(0);
            proof {
                assert(all.skip(i)[0] == all[i]);
                assert(rest_before.map_values(|e: (String, AnyFrame)| (e.0@, e.1))[0] == all[i]);
                assert forall|j: int| 0 <= j < rest@.len() implies rest@[j] == rest_before[j + 1] by {}
                let rv = rest@.map_values(|e: (String, AnyFrame)| (e.0@, e.1));
                let bv = rest_before.map_values(|e: (String, AnyFrame)| (e.0@, e.1));
                assert forall|j: int| 0 <= j < rv.len() implies #[trigger] rv[j] == all.skip(i + 1)[j] by {
                    assert(bv[j + 1] == all.skip(i)[j + 1]);
                }
                assert(rv =~= all.skip(i + 1));
            }
            let found = same_id(&entry.1.id().inner(), id);
            proof {
                lemma_kept_push(all, pick, i, found);
                lemma_kept_push(all, pick.map_values(|b: bool| !b), i, !found);
                assert(pick.push(found).map_values(|b: bool| !b) =~= pick.map_values(|b: bool| !b).push(!found));
            }
            let ghost r_before = r@;
            let ghost keep_before = keep@;
            let ghost e = (entry.0@, entry.1);
            if found {
                r.push(entry.1);
            } else {
                keep.push(entry);
            }
            proof {
                let old_picked = kept(all.take(i), pick);
                let old_kept = kept(all.take(i), pick.map_values(|b: bool| !b));
                assert(e == all[i]);
                if found {
                    assert(old_picked.push(all[i]).map_values(|e: (Seq<char>, AnyFrame)| e.1)
                        =~= old_picked.map_values(|e: (Seq<char>, AnyFrame)| e.1).push(all[i].1));
                } else {
                    assert(keep@ =~= keep_before.push(entry));
                }
                pick = pick.push(found);
                i = i + 1;
                assert(r@ =~= picked(all.take(i), pick));
                assert(keep@.map_values(|e: (String, AnyFrame)| (e.0@, e.1)) =~= kept(
                    all.take(i),
                    pick.map_values(|b: bool| !b),
                ));
            }
        }
        proof {
            assert(all.skip(i).len() == 0);
            assert(all.take(i) =~= all);
            lemma_kept_sorted(all, pick.map_values(|b: bool| !b));
        }
        self.entries = keep;
        proof {
            assert(marks_id(all, id@, pick));
        }
        r
    }

    /// Removes the frames that have one of the Frame IDs `ids`.
    pub fn drop_ids(&mut self, ids: &[[u8; 4]])
        ensures
            keys_sorted(final(self).spec_entries()),
            exists|pick: Seq<bool>|
                #[trigger] marks_ids(old(self).spec_entries(), id_list(ids@), pick) && final(self).spec_entries()
                    == kept(old(self).spec_entries(), pick.map_values(|b: bool| !b)),
    {
        proof {
            use_type_invariant(&*self);
        }
        let ghost all = self.spec_entries();
        let mut rest: Vec<(String, AnyFrame)> = Vec::new();
        std::mem::swap(&mut rest, &mut self.entries);
        let mut keep: Vec<(String, AnyFrame)> = Vec::new();
        let ghost mut pick: Seq<bool> = Seq::empty();
        let ghost mut i: int = 0;
        while rest.len() > 0
            invariant
                0 <= i <= all.len(),
                pick.len() == i,
                rest@.map_values(|e: (String, AnyFrame)| (e.0@, e.1)) == all.skip(i),
                forall|j: int|
                    0 <= j < i && !(#[trigger] all[j].1).is_custom() ==> pick[j] == id_list(ids@).contains(
                        all[j].1.spec_id(),
                    ),
                keep@.map_values(|e: (String, AnyFrame)| (e.0@, e.1)) == kept(
                    all.take(i),
                    pick.map_values(|b: bool| !b),
                ),
            decreases rest.len(),
        {
            proof {
                assert(rest@.map_values(|e: (String, AnyFrame)| (e.0@, e.1)).len() == rest@.len());
                assert(all.skip(i).len() > 0);
            }
            let ghost rest_before = rest@;
            let entry = rest.remove(0);
            proof {
                assert(all.skip(i)[0] == all[i]);
                assert(rest_before.map_values(|e: (String, AnyFrame)| (e.0@, e.1))[0] == all[i]);
                let rv = rest@.map_values(|e: (String, AnyFrame)| (e.0@, e.1));
                let bv = rest_before.map_values(|e: (String, AnyFrame)| (e.0@, e.1));
                assert forall|j: int| 0 <= j < rv.len() implies #[trigger] rv[j] == all.skip(i + 1)[j] by {
                    assert(rest@[j] == rest_before[j + 1]);
                    assert(bv[j + 1] == all.skip(i)[j + 1]);
                }
                assert(rv =~= all.skip(i + 1));
            }
            let found = id_in(&entry.1.id().inner(), ids);
            proof {
                lemma_kept_push(all, pick.map_values(|b: bool| !b), i, !found);
                assert(pick.push(found).map_values(|b: bool| !b) =~= pick.map_values(|b: bool| !b).push(!found));
            }
            let ghost keep_before = keep@;
            if !found {
                keep.push(entry);
            }
            proof {
                if !found {
                    assert(keep@ =~= keep_before.push(entry));
                }
                pick = pick.push(found);
                i = i + 1;
                assert(keep@.map_values(|e: (String, AnyFrame)| (e.0@, e.1)) =~= kept(
                    all.take(i),
                    pick.map_values(|b: bool| !b),
                ));
            }
        }
        proof {
            assert(all.skip(i).len() == 0);
            assert(all.take(i) =~= all);
            lemma_kept_sorted(all, pick.map_values(|b: bool| !b));
        }
        self.entries = keep;
        proof {
            assert(marks_ids(all, id_list(ids@), pick));
        }
    }

    /// Renders the frames of this map, each with its header, for a tag with `tag_header`.
    ///
    /// Empty frames and frames too large for their header are left out. The frames `TIT2`,
    /// `TPE1`, `TALB`, `TRCK`, `TPOS`, `TDRC` and `TCON` are written first, in that order; all
    /// other frames follow in the order of their size and then their key.
    pub fn render(&self, tag_header: &TagHeader) -> (r: Vec<u8>)
        requires
            tag_header.version() != Version::V22,
        ensures
            renders_frames(self.spec_entries(), tag_header.version(), r@),
    {
        proof {
            use_type_invariant(self);
        }
        let ghost all = self.spec_entries();
        let ghost version = tag_header.version();
        let ghost mut outcomes: Seq<Option<(Seq<u8>, Seq<u8>)>> = Seq::empty();
        let mut items: Vec<RenderedFrame> = Vec::new();
        let mut i: usize = 0;
        proof {
            assert(views(items@) =~= Seq::<(Seq<char>, Seq<u8>, Seq<u8>)>::empty());
            assert(collect_rendered(all.take(0), outcomes) =~= Seq::<(Seq<char>, Seq<u8>, Seq<u8>)>::empty());
        }
        while i < self.entries.len()
            invariant
                all == self.spec_entries(),
                keys_sorted(all),
                version == tag_header.version(),
                version != Version::V22,
                i <= all.len(),
                outcomes.len() == i,
                forall|j: int|
                    0 <= j < i && !(#[trigger] all[j].1).is_custom() ==> outcomes[j] == render_outcome(
                        all[j].1,
                        version,
                    ),
                views(items@).to_multiset() == collect_rendered(all.take(i as int), outcomes).to_multiset(),
                rendered_in_order(views(items@)),
                forall|j: int, m: int|
                    0 <= j < items@.len() && i <= m < all.len() ==> key_lt(
                        (#[trigger] items@[j]).key@,
                        #[trigger] all[m].0,
                    ),
            decreases self.entries.len() - i,
        {
            let frame = &self.entries[i].1;
            let ghost entry = all[i as int];
            let ghost old_outcomes = outcomes;
            proof {
                assert(entry == (self.entries@[i as int].0@, *frame));
                assert(all.take(i + 1).drop_last() =~= all.take(i as int));
                assert(all.take(i + 1).last() == entry);
            }
            let mut outcome_made = false;
            if !frame.is_empty() {
                match frames::render(tag_header, frame) {
                    Ok(data) => {
                        let item = RenderedFrame { key: self.entries[i].0.clone(), id: frame.id().inner(), data };
                        let ghost o = (item.id@, item.data@);
                        let ghost x = item.view();
                        let ghost old_items = items@;
                        proof {
                            assert forall|j: int| 0 <= j < items@.len() implies (#[trigger] items@[j]).key@ != item.key@ by {
                                assert(key_lt(items@[j].key@, all[i as int].0));
                                lemma_key_lt_irreflexive(all[i as int].0);
                            }
                        }
                        insert_in_order(&mut items, item);
                        proof {
                            let q = choose|q: int| 0 <= q <= old_items.len() && items@ == old_items.insert(q, item);
                            assert forall|j: int, m: int|
                                0 <= j < items@.len() && i + 1 <= m < all.len() implies key_lt(
                                (#[trigger] items@[j]).key@,
                                #[trigger] all[m].0,
                            ) by {
                                if j < q {
                                    assert(items@[j] == old_items[j]);
                                } else if j == q {
                                    assert(items@[j].key@ == all[i as int].0);
                                } else {
                                    assert(items@[j] == old_items[j - 1]);
                                }
                            }
                            vstd::seq_lib::to_multiset_build(collect_rendered(all.take(i as int), outcomes), x);
                            assert(!frame.is_custom() ==> Some(o) == render_outcome(*frame, version));
                            outcomes = outcomes.push(Some(o));
                            assert(outcomes.drop_last() =~= outcomes.take(i as int));
                            assert(outcomes.take(i as int) =~= old_outcomes);
                            assert(collect_rendered(all.take(i + 1), outcomes) == collect_rendered(
                                all.take(i as int),
                                outcomes.take(i as int),
                            ).push(x));
                        }
                        outcome_made = true;
                    },
                    Err(_) => {},
                }
            }
            if !outcome_made {
                proof {
                    assert(!frame.is_custom() ==> render_outcome(*frame, version) is None);
                    outcomes = outcomes.push(None);
                    assert(outcomes.drop_last() =~= outcomes.take(i as int));
                    assert(outcomes.take(i as int) =~= old_outcomes);
                    assert(collect_rendered(all.take(i + 1), outcomes) == collect_rendered(
                        all.take(i as int),
                        outcomes.take(i as int),
                    ));
                    assert forall|j: int, m: int|
                        0 <= j < items@.len() && i + 1 <= m < all.len() implies key_lt(
                        (#[trigger] items@[j]).key@,
                        #[trigger] all[m].0,
                    ) by {
                        assert(key_lt(items@[j].key@, all[m].0));
                    }
                }
            }
            proof {
                assert(outcomes.take(i as int) =~= outcomes.drop_last());
                assert forall|j: int|
                    0 <= j < i + 1 && !(#[trigger] all[j].1).is_custom() implies outcomes[j] == render_outcome(
                    all[j].1,
                    version,
                ) by {
                    if j < i {
                        assert(outcomes[j] == outcomes.drop_last()[j]);
                    }
                }
            }
            i = i + 1;
        }
        let mut r: Vec<u8> = Vec::new();
        let mut j: usize = 0;
        while j < items.len()
            invariant
                j <= items@.len(),
                r@ == rendered_bytes(views(items@).take(j as int)),
            decreases items.len() - j,
        {
            let mut data = items[j].data.clone();
            proof {
                assert(views(items@).take(j + 1).drop_last() =~= views(items@).take(j as int));
            }
            r.append(&mut data);
            j = j + 1;
        }
        proof {
            assert(views(items@).take(j as int) =~= views(items@));
            assert(all.take(i as int) =~= all);
            assert(outcomes_of(all, version, outcomes));
        }
        r
    }

    /// Removes the frame under `key` and returns it, if there is one.
    pub fn remove(&mut self, key: &str) -> (r: Option<AnyFrame>)
        ensures
            keys_sorted(final(self).spec_entries()),
            final(self).spec_entries() == entries_remove(old(self).spec_entries(), key@),
            r == lookup(old(self).spec_entries(), key@),
    {
        proof {
            use_type_invariant(&*self);
        }
        let ghost before = self.spec_entries();
        let mut entries: Vec<(String, AnyFrame)> = Vec::new();
        std::mem::swap(&mut entries, &mut self.entries);
        let p = position_from(&entries, key);
        let r = if p < entries.len() && same_key(entries[p].0.as_str(), key) {
            let (_, frame) = entries.remove(p);
            proof {
                lemma_remove_sorted(before, p as int);
                assert(entries@.map_values(|e: (String, AnyFrame)| (e.0@, e.1)) =~= before.remove(p as int));
            }
            Some(frame)
        } else {
            None
        };
        self.entries = entries;
        r
    }
}

/// The unknown frames of a tag, kept apart from the known frames together with the version of
/// the tag they were read from, as they cannot be upgraded.
#[derive(Debug, Clone)]
pub struct UnknownFrames {
    version: Version,
    frames: Vec<UnknownFrame>,
}

impl UnknownFrames {
    /// The version of the tag the frames were read from.
    pub closed spec fn spec_version(&self) -> Version {
        self.version
    }

    /// The frames.
    pub closed spec fn spec_frames(&self) -> Seq<UnknownFrame> {
        self.frames@
    }

    /// Creates a collection of frames read from a tag of `version`.
    pub fn new(version: Version, frames: Vec<UnknownFrame>) -> (r: Self)
        ensures
            r.spec_version() == version,
            r.spec_frames() == frames@,
    {
        Self { version, frames }
    }

    /// Returns the version of the tag the frames were read from.
    pub fn version(&self) -> (r: Version)
        ensures
            r == self.spec_version(),
    {
        self.version
    }

    /// Returns the frames.
    pub fn frames(&self) -> (r: &[UnknownFrame])
        ensures
            r@ == self.spec_frames(),
    {
        self.frames.as_slice()
    }
}

} // verus!
