//! Reversible state diffs: the changes between a desired and a latest
//! state of a vector or a map, and their inversion.
use crate::storage::{KeyEq, LogMap};
use vstd::prelude::*;

verus! {

/// The element at `i`, or `None` past the end.
pub open spec fn at<T>(s: Seq<T>, i: int) -> Option<T> {
    if 0 <= i < s.len() {
        Some(s[i])
    } else {
        None
    }
}

/// One position where two vectors differ: the element of the desired one
/// (`from`) and of the latest one (`to`), `None` past an end.
#[derive(Clone, Copy, Debug, PartialEq, Eq)]
pub struct VecDelta<T> {
    pub index: usize,
    pub from: Option<T>,
    pub to: Option<T>,
}

/// A value to restore at one position of a vector; `None` truncates there.
#[derive(Clone, Copy, Debug, PartialEq, Eq)]
pub struct VecState<T> {
    pub index: usize,
    pub value: Option<T>,
}

/// The positions from `i` to `end` where `d` and `l` differ, in order.
pub open spec fn vec_deltas<T>(d: Seq<T>, l: Seq<T>, i: int, end: int) -> Seq<VecDelta<T>>
    decreases end - i,
{
    if i >= end {
        Seq::empty()
    } else {
        let rest = vec_deltas(d, l, i + 1, end);
        if at(d, i) != at(l, i) {
            seq![VecDelta { index: i as usize, from: at(d, i), to: at(l, i) }] + rest
        } else {
            rest
        }
    }
}

pub open spec fn max_len(a: nat, b: nat) -> nat {
    if a >= b {
        a
    } else {
        b
    }
}

/// Every position where `desired` and `latest` differ, in increasing order.
pub open spec fn capture_vec_spec<T>(desired: Seq<T>, latest: Seq<T>) -> Seq<VecDelta<T>> {
    vec_deltas(desired, latest, 0, max_len(desired.len(), latest.len()) as int)
}

/// `v` after restoring `value` at `index`: a value past the end extends the
/// vector up to it with copies of the value; `None` truncates at `index`.
pub open spec fn invert_vec_spec<T>(v: Seq<T>, index: nat, value: Option<T>) -> Seq<T> {
    match value {
        Some(x) => if index < v.len() {
            v.update(index as int, x)
        } else {
            v + Seq::new((index + 1 - v.len()) as nat, |_i: int| x)
        },
        None => if index < v.len() {
            v.subrange(0, index as int)
        } else {
            v
        },
    }
}

/// `v` after restoring the `from` side of each delta in turn.
pub open spec fn reset_vec_spec<T>(v: Seq<T>, deltas: Seq<VecDelta<T>>) -> Seq<T>
    decreases deltas.len(),
{
    if deltas.len() == 0 {
        v
    } else {
        let d = deltas.last();
        invert_vec_spec(reset_vec_spec(v, deltas.drop_last()), d.index as nat, d.from)
    }
}

/// The deltas with their two sides swapped.
pub open spec fn invert_deltas_spec<T>(deltas: Seq<VecDelta<T>>) -> Seq<VecDelta<T>> {
    deltas.map_values(|d: VecDelta<T>| VecDelta { index: d.index, from: d.to, to: d.from })
}

/// The positions where `desired` and `latest` differ.
pub fn capture_vec_state<T: KeyEq>(desired: &[T], latest: &[T]) -> (r: Vec<VecDelta<T>>)
    ensures
        r@ == capture_vec_spec(desired@, latest@),
{
    let end: usize = if desired.len() >= latest.len() {
        desired.len()
    } else {
        latest.len()
    };
    let mut out: Vec<VecDelta<T>> = Vec::new();
    let mut i: usize = 0;
    while i < end
        invariant
            i <= end,
            end == max_len(desired@.len(), latest@.len()),
            out@ + vec_deltas(desired@, latest@, i as int, end as int) == capture_vec_spec(
                desired@,
                latest@,
            ),
        decreases end - i,
    {
        let a: Option<T> = if i < desired.len() {
            Some(desired[i])
        } else {
            None
        };
        let b: Option<T> = if i < latest.len() {
            Some(latest[i])
        } else {
            None
        };
        let same = match (a, b) {
            (Some(x), Some(y)) => x.key_eq(&y),
            (None, None) => true,
            _ => false,
        };
        assert(a == at(desired@, i as int) && b == at(latest@, i as int));
        if !same {
            let ghost before = out@;
            out.push(VecDelta { index: i, from: a, to: b });
            assert(out@ + vec_deltas(desired@, latest@, i + 1, end as int) =~= before
                + vec_deltas(desired@, latest@, i as int, end as int));
        }
        i = i + 1;
    }
    assert(out@ =~= out@ + vec_deltas(desired@, latest@, i as int, end as int));
    out
}

/// Restores `state.value` at `state.index` of `v`.
pub fn invert_vec<T: Copy>(v: &mut Vec<T>, state: &VecState<T>)
    ensures
        final(v)@ == invert_vec_spec(old(v)@, state.index as nat, state.value),
{
    let index = state.index;
    match state.value {
        Some(x) => {
            if index < v.len() {
                v.set(index, x);
            } else {
                let ghost start = v@;
                while v.len() <= index
                    invariant
                        start.len() <= v@.len() <= index + 1,
                        v@ == start + Seq::new((v@.len() - start.len()) as nat, |_i: int| x),
                    decreases index + 1 - v@.len(),
                {
                    v.push(x);
                    assert(v@ =~= start + Seq::new((v@.len() - start.len()) as nat, |_i: int| x));
                }
            }
        },
        None => {
            if index < v.len() {
                v.truncate(index);
            }
        },
    }
}

/// Restores the `from` side of every delta in turn.
pub fn reset_vec_state<T: Copy>(v: &mut Vec<T>, deltas: &[VecDelta<T>])
    ensures
        final(v)@ == reset_vec_spec(old(v)@, deltas@),
{
    let mut i: usize = 0;
    while i < deltas.len()
        invariant
            i <= deltas@.len(),
            v@ == reset_vec_spec(old(v)@, deltas@.subrange(0, i as int)),
        decreases deltas@.len() - i,
    {
        let d = deltas[i];
        invert_vec(v, &VecState { index: d.index, value: d.from });
        assert(deltas@.subrange(0, i + 1).drop_last() =~= deltas@.subrange(0, i as int));
        i = i + 1;
    }
    assert(deltas@.subrange(0, i as int) =~= deltas@);
}

/// The deltas with their two sides swapped: restoring them replays the change.
pub fn invert_deltas<T: Copy>(deltas: &[VecDelta<T>]) -> (r: Vec<VecDelta<T>>)
    ensures
        r@ == invert_deltas_spec(deltas@),
{
    let mut out: Vec<VecDelta<T>> = Vec::new();
    let mut i: usize = 0;
    while i < deltas.len()
        invariant
            i <= deltas@.len(),
            out@ == invert_deltas_spec(deltas@.subrange(0, i as int)),
        decreases deltas@.len() - i,
    {
        let d = deltas[i];
        out.push(VecDelta { index: d.index, from: d.to, to: d.from });
        i = i + 1;
        assert(out@ =~= invert_deltas_spec(deltas@.subrange(0, i as int)));
    }
    assert(deltas@.subrange(0, i as int) =~= deltas@);
    out
}

/// The state of `d` and `l` up to position `i`: what restoring the deltas
/// below `i` leaves.
pub open spec fn partial_reset<T>(d: Seq<T>, l: Seq<T>, i: int) -> Seq<T> {
    let ld = d.len() as int;
    let ll = l.len() as int;
    let head = d.subrange(0, if i <= ld { i } else { ld });
    if i <= ld {
        head + l.subrange(if i <= ll { i } else { ll }, ll)
    } else {
        head
    }
}

proof fn lemma_reset_concat<T>(v: Seq<T>, a: Seq<VecDelta<T>>, b: Seq<VecDelta<T>>)
    ensures
        reset_vec_spec(v, a + b) == reset_vec_spec(reset_vec_spec(v, a), b),
    decreases b.len(),
{
    if b.len() == 0 {
        assert(a + b =~= a);
    } else {
        assert((a + b).drop_last() =~= a + b.drop_last());
        lemma_reset_concat(v, a, b.drop_last());
    }
}

/// Restoring the deltas from position `i` on, starting from the partial
/// state at `i`, reaches `d`.
proof fn lemma_reset_from<T>(d: Seq<T>, l: Seq<T>, i: int)
    requires
        0 <= i <= max_len(d.len(), l.len()),
        d.len() <= usize::MAX,
        l.len() <= usize::MAX,
    ensures
        reset_vec_spec(
            partial_reset(d, l, i),
            vec_deltas(d, l, i, max_len(d.len(), l.len()) as int),
        ) == d,
    decreases max_len(d.len(), l.len()) - i,
{
    let end = max_len(d.len(), l.len()) as int;
    let ld = d.len() as int;
    let ll = l.len() as int;
    let c = partial_reset(d, l, i);
    if i >= end {
        if i <= ld {
            assert(c =~= d);
        } else {
            assert(c =~= d);
        }
    } else {
        let rest = vec_deltas(d, l, i + 1, end);
        let next = partial_reset(d, l, i + 1);
        if at(d, i) != at(l, i) {
            let one = seq![VecDelta { index: i as usize, from: at(d, i), to: at(l, i) }];
            assert(reset_vec_spec(c, one) == invert_vec_spec(c, i as nat, at(d, i))) by {
                assert(one.drop_last() =~= Seq::<VecDelta<T>>::empty());
                assert(reset_vec_spec(c, one.drop_last()) == c);
            }
            if i < ld && i < ll {
                assert(invert_vec_spec(c, i as nat, at(d, i)) =~= next);
            } else if i < ld {
                assert(invert_vec_spec(c, i as nat, at(d, i)) =~= next);
            } else if i == ld {
                assert(invert_vec_spec(c, i as nat, at(d, i)) =~= next);
            } else {
                assert(invert_vec_spec(c, i as nat, at(d, i)) =~= next);
            }
            lemma_reset_concat(c, one, rest);
        } else {
            assert(c =~= next);
        }
        lemma_reset_from(d, l, i + 1);
    }
}

/// Restoring the captured deltas between `desired` and `latest` on `latest`
/// yields `desired`.
pub proof fn lemma_reset_vec_state<T>(desired: Seq<T>, latest: Seq<T>)
    requires
        desired.len() <= usize::MAX,
        latest.len() <= usize::MAX,
    ensures
        reset_vec_spec(latest, capture_vec_spec(desired, latest)) == desired,
{
    assert(partial_reset(desired, latest, 0) =~= latest);
    lemma_reset_from(desired, latest, 0);
}

/// Capturing the latest state against the desired one and swapping the
/// sides is the same as capturing the other way round.
proof fn lemma_invert_capture<T>(d: Seq<T>, l: Seq<T>, i: int, end: int)
    ensures
        invert_deltas_spec(vec_deltas(d, l, i, end)) == vec_deltas(l, d, i, end),
    decreases end - i,
{
    if i < end {
        lemma_invert_capture(d, l, i + 1, end);
        let rest = vec_deltas(d, l, i + 1, end);
        if at(d, i) != at(l, i) {
            let one = seq![VecDelta { index: i as usize, from: at(d, i), to: at(l, i) }];
            assert(invert_deltas_spec(one + rest) =~= invert_deltas_spec(one) + invert_deltas_spec(
                rest,
            ));
            assert(invert_deltas_spec(one) =~= seq![
                VecDelta { index: i as usize, from: at(l, i), to: at(d, i) },
            ]);
        }
    } else {
        assert(invert_deltas_spec(Seq::<VecDelta<T>>::empty()) =~= Seq::<VecDelta<T>>::empty());
    }
}

/// Round trip: applying a diff from `s` to `t` (restoring its swapped
/// sides) and then undoing it (restoring its own sides) gives `s` back.
pub proof fn lemma_diff_round_trip<T>(s: Seq<T>, t: Seq<T>)
    requires
        s.len() <= usize::MAX,
        t.len() <= usize::MAX,
    ensures
        reset_vec_spec(t, capture_vec_spec(s, t)) == s,
        reset_vec_spec(s, invert_deltas_spec(capture_vec_spec(s, t))) == t,
        reset_vec_spec(
            reset_vec_spec(s, invert_deltas_spec(capture_vec_spec(s, t))),
            capture_vec_spec(s, t),
        ) == s,
{
    let end = max_len(s.len(), t.len()) as int;
    lemma_invert_capture(s, t, 0, end);
    assert(max_len(t.len(), s.len()) == end);
    lemma_reset_vec_state(s, t);
    lemma_reset_vec_state(t, s);
}

/// The entry under `k`, if any.
pub open spec fn opt_get<K, V>(m: Map<K, V>, k: K) -> Option<V> {
    if m.contains_key(k) {
        Some(m[k])
    } else {
        None
    }
}

/// One key under which two maps differ: the entry of the desired map
/// (`from`) and of the latest one (`to`).
#[derive(Clone, Copy, Debug, PartialEq, Eq)]
pub struct MapDelta<K, V> {
    pub key: K,
    pub from: Option<V>,
    pub to: Option<V>,
}

/// `ds` lists keys under which `d` and `l` differ, each with both entries,
/// and lists every such key.
pub open spec fn is_map_diff<K, V>(ds: Seq<MapDelta<K, V>>, d: Map<K, V>, l: Map<K, V>) -> bool {
    &&& forall|i: int|
        0 <= i < ds.len() ==> {
            &&& (#[trigger] ds[i]).from == opt_get(d, ds[i].key)
            &&& ds[i].to == opt_get(l, ds[i].key)
            &&& ds[i].from != ds[i].to
        }
    &&& forall|k: K|
        #[trigger] opt_get(d, k) != opt_get(l, k) ==> exists|i: int|
            0 <= i < ds.len() && (#[trigger] ds[i]).key == k
}

/// `m` with the entry under `k` set to `value`, or removed for `None`.
pub open spec fn invert_map_spec<K, V>(m: Map<K, V>, k: K, value: Option<V>) -> Map<K, V> {
    match value {
        Some(v) => m.insert(k, v),
        None => m.remove(k),
    }
}

/// `m` after restoring the `from` side of each delta in turn.
pub open spec fn reset_map_spec<K, V>(m: Map<K, V>, ds: Seq<MapDelta<K, V>>) -> Map<K, V>
    decreases ds.len(),
{
    if ds.len() == 0 {
        m
    } else {
        let last = ds.last();
        invert_map_spec(reset_map_spec(m, ds.drop_last()), last.key, last.from)
    }
}

/// Whether the entries under one key differ.
fn entries_differ<V: KeyEq>(a: Option<V>, b: Option<V>) -> (r: bool)
    ensures
        r == (a != b),
{
    match (a, b) {
        (Some(x), Some(y)) => !x.key_eq(&y),
        (None, None) => false,
        _ => true,
    }
}

/// Some delta of `ds` is for key `k`.
pub open spec fn has_key<K, V>(ds: Seq<MapDelta<K, V>>, k: K) -> bool {
    exists|t: int| 0 <= t < ds.len() && (#[trigger] ds[t]).key == k
}

/// Every delta of `ds` holds the entries of `d` and `l` under its key, and
/// they differ.
pub open spec fn deltas_sound<K, V>(ds: Seq<MapDelta<K, V>>, d: Map<K, V>, l: Map<K, V>) -> bool {
    forall|i: int|
        0 <= i < ds.len() ==> {
            &&& (#[trigger] ds[i]).from == opt_get(d, ds[i].key)
            &&& ds[i].to == opt_get(l, ds[i].key)
            &&& ds[i].from != ds[i].to
        }
}

proof fn lemma_has_key_push<K, V>(ds: Seq<MapDelta<K, V>>, x: MapDelta<K, V>, k: K)
    requires
        has_key(ds, k) || x.key == k,
    ensures
        has_key(ds.push(x), k),
{
    if x.key == k {
        assert(ds.push(x)[ds.len() as int].key == k);
    } else {
        let t = choose|t: int| 0 <= t < ds.len() && (#[trigger] ds[t]).key == k;
        assert(ds.push(x)[t].key == k);
    }
}

/// The keys under which `desired` and `latest` differ, given keys that list
/// each map's entries.
pub fn capture_map_state<K: KeyEq, V: KeyEq>(
    desired: &LogMap<K, V>,
    desired_keys: &[K],
    latest: &LogMap<K, V>,
    latest_keys: &[K],
) -> (r: Vec<MapDelta<K, V>>)
    requires
        forall|k: K| desired@.contains_key(k) ==> desired_keys@.contains(k),
        forall|k: K| latest@.contains_key(k) ==> latest_keys@.contains(k),
    ensures
        is_map_diff(r@, desired@, latest@),
{
    let mut out: Vec<MapDelta<K, V>> = Vec::new();
    let mut i: usize = 0;
    while i < desired_keys.len()
        invariant
            i <= desired_keys@.len(),
            deltas_sound(out@, desired@, latest@),
            forall|j: int|
                0 <= j < i && opt_get(desired@, #[trigger] desired_keys@[j]) != opt_get(
                    latest@,
                    desired_keys@[j],
                ) ==> has_key(out@, desired_keys@[j]),
        decreases desired_keys@.len() - i,
    {
        let k = desired_keys[i];
        let a = desired.get(&k);
        let b = latest.get(&k);
        if entries_differ(a, b) {
            let ghost before = out@;
            let x = MapDelta { key: k, from: a, to: b };
            out.push(x);
            proof {
                assert forall|j: int|
                    0 <= j <= i && opt_get(desired@, #[trigger] desired_keys@[j]) != opt_get(
                        latest@,
                        desired_keys@[j],
                    ) implies has_key(out@, desired_keys@[j]) by {
                    lemma_has_key_push(before, x, desired_keys@[j]);
                }
                assert forall|t: int| 0 <= t < out@.len() implies {
                    &&& (#[trigger] out@[t]).from == opt_get(desired@, out@[t].key)
                    &&& out@[t].to == opt_get(latest@, out@[t].key)
                    &&& out@[t].from != out@[t].to
                } by {
                    if t < before.len() {
                        assert(out@[t] == before[t]);
                    }
                }
            }
        }
        i = i + 1;
    }
    let mut i: usize = 0;
    while i < latest_keys.len()
        invariant
            i <= latest_keys@.len(),
            deltas_sound(out@, desired@, latest@),
            forall|j: int|
                0 <= j < desired_keys@.len() && opt_get(desired@, #[trigger] desired_keys@[j])
                    != opt_get(latest@, desired_keys@[j]) ==> has_key(out@, desired_keys@[j]),
            forall|j: int|
                0 <= j < i && !desired@.contains_key(#[trigger] latest_keys@[j]) && opt_get(
                    desired@,
                    latest_keys@[j],
                ) != opt_get(latest@, latest_keys@[j]) ==> has_key(out@, latest_keys@[j]),
        decreases latest_keys@.len() - i,
    {
        let k = latest_keys[i];
        let a = desired.get(&k);
        if a.is_none() {
            let b = latest.get(&k);
            if b.is_some() {
                let ghost before = out@;
                let x = MapDelta { key: k, from: a, to: b };
                out.push(x);
                proof {
                    assert forall|j: int|
                        0 <= j < desired_keys@.len() && opt_get(
                            desired@,
                            #[trigger] desired_keys@[j],
                        ) != opt_get(latest@, desired_keys@[j]) implies has_key(
                        out@,
                        desired_keys@[j],
                    ) by {
                        lemma_has_key_push(before, x, desired_keys@[j]);
                    }
                    assert forall|j: int|
                        0 <= j <= i && !desired@.contains_key(#[trigger] latest_keys@[j])
                            && opt_get(desired@, latest_keys@[j]) != opt_get(
                            latest@,
                            latest_keys@[j],
                        ) implies has_key(out@, latest_keys@[j]) by {
                        lemma_has_key_push(before, x, latest_keys@[j]);
                    }
                    assert forall|t: int| 0 <= t < out@.len() implies {
                        &&& (#[trigger] out@[t]).from == opt_get(desired@, out@[t].key)
                        &&& out@[t].to == opt_get(latest@, out@[t].key)
                        &&& out@[t].from != out@[t].to
                    } by {
                        if t < before.len() {
                            assert(out@[t] == before[t]);
                        }
                    }
                }
            }
        }
        i = i + 1;
    }
    proof {
        assert forall|k: K| #[trigger] opt_get(desired@, k) != opt_get(latest@, k) implies exists|
            t: int,
        | 0 <= t < out@.len() && (#[trigger] out@[t]).key == k by {
            if desired@.contains_key(k) {
                assert(desired_keys@.contains(k));
                let j = choose|j: int| 0 <= j < desired_keys@.len() && desired_keys@[j] == k;
                assert(has_key(out@, desired_keys@[j]));
            } else {
                assert(latest@.contains_key(k));
                assert(latest_keys@.contains(k));
                let j = choose|j: int| 0 <= j < latest_keys@.len() && latest_keys@[j] == k;
                assert(has_key(out@, latest_keys@[j]));
            }
        }
    }
    out
}

/// Sets the entry under `key` to `value`, or removes it for `None`.
pub fn invert_map<K: KeyEq, V: KeyEq>(m: &mut LogMap<K, V>, key: K, value: Option<V>)
    ensures
        final(m)@ == invert_map_spec(old(m)@, key, value),
{
    match value {
        Some(v) => m.insert(key, v),
        None => m.remove(key),
    }
}

/// Restores the `from` side of every delta in turn.
pub fn reset_map_state<K: KeyEq, V: KeyEq>(m: &mut LogMap<K, V>, deltas: &[MapDelta<K, V>])
    ensures
        final(m)@ == reset_map_spec(old(m)@, deltas@),
{
    let mut i: usize = 0;
    while i < deltas.len()
        invariant
            i <= deltas@.len(),
            m@ == reset_map_spec(old(m)@, deltas@.subrange(0, i as int)),
        decreases deltas@.len() - i,
    {
        let d = deltas[i];
        invert_map(m, d.key, d.from);
        assert(deltas@.subrange(0, i + 1).drop_last() =~= deltas@.subrange(0, i as int));
        i = i + 1;
    }
    assert(deltas@.subrange(0, i as int) =~= deltas@);
}

proof fn lemma_reset_map_key<K, V>(l: Map<K, V>, ds: Seq<MapDelta<K, V>>, d: Map<K, V>, k: K)
    requires
        forall|i: int| 0 <= i < ds.len() ==> (#[trigger] ds[i]).from == opt_get(d, ds[i].key),
    ensures
        opt_get(reset_map_spec(l, ds), k) == if exists|i: int|
            0 <= i < ds.len() && (#[trigger] ds[i]).key == k {
            opt_get(d, k)
        } else {
            opt_get(l, k)
        },
    decreases ds.len(),
{
    if ds.len() > 0 {
        let init = ds.drop_last();
        let last = ds.last();
        assert forall|i: int| 0 <= i < init.len() implies (#[trigger] init[i]).from == opt_get(
            d,
            init[i].key,
        ) by {
            assert(init[i] == ds[i]);
        }
        lemma_reset_map_key(l, init, d, k);
        if last.key == k {
            assert(ds[ds.len() - 1].key == k);
        } else {
            if exists|i: int| 0 <= i < ds.len() && (#[trigger] ds[i]).key == k {
                let i = choose|i: int| 0 <= i < ds.len() && (#[trigger] ds[i]).key == k;
                assert(init[i].key == k);
            }
            if exists|i: int| 0 <= i < init.len() && (#[trigger] init[i]).key == k {
                let i = choose|i: int| 0 <= i < init.len() && (#[trigger] init[i]).key == k;
                assert(ds[i].key == k);
            }
        }
    }
}

/// Restoring a diff between `desired` and `latest` on `latest` yields
/// `desired`.
pub proof fn lemma_reset_map_state<K, V>(desired: Map<K, V>, latest: Map<K, V>, ds: Seq<MapDelta<K, V>>)
    requires
        is_map_diff(ds, desired, latest),
    ensures
        reset_map_spec(latest, ds) == desired,
{
    let m = reset_map_spec(latest, ds);
    assert forall|k: K| opt_get(m, k) == opt_get(desired, k) by {
        lemma_reset_map_key(latest, ds, desired, k);
        if !(exists|i: int| 0 <= i < ds.len() && (#[trigger] ds[i]).key == k) {
            assert(!(opt_get(desired, k) != opt_get(latest, k)));
        }
    }
    assert forall|k: K| m.contains_key(k) == desired.contains_key(k) by {
        assert(opt_get(m, k) == opt_get(desired, k));
    }
    assert forall|k: K| m.contains_key(k) implies m[k] == desired[k] by {
        assert(opt_get(m, k) == opt_get(desired, k));
    }
    assert(m =~= desired);
}

} // verus!
