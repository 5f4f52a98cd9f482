//! Properties of a pass that relate several events, proved over the model of
//! `mem_boxes`.
use vstd::prelude::*;
use crate::event_log::{Event, EventDetails};
use crate::mem_boxes::{
    all_fit, dangling, fits, last_index_of, lemma_last_index_absent, lemma_last_index_found,
    lemma_last_index_is_last, lemma_pop_ok, new_box, pass_through, popped, popped_either,
    reconstruction, stack_ok, step, type_size, vec_capacity, Diagnostic, MemBox, MemDetails,
    OpenBox, PassState, BOGUS_VEC_PTR,
};

verus! {

/// The address of an open entry's key.
pub open spec fn key_address(k: OpenBox) -> u64 {
    match k {
        OpenBox::Allocate(p) => p,
        OpenBox::Reallocate(p) => p,
        OpenBox::BoxCreate(p) => p,
        OpenBox::RcCreate(p) => p,
        OpenBox::ArcCreate(p) => p,
        OpenBox::VecCreate(p) => p,
        OpenBox::VecResize(p) => p,
    }
}

/// Whether event details name address `p` in any pointer field.
pub open spec fn mentions(d: EventDetails, p: u64) -> bool {
    match d {
        EventDetails::Allocate { ptr, .. } => ptr == p,
        EventDetails::Reallocate { inptr, outptr, .. } => inptr == p || outptr == p,
        EventDetails::ReallocateInplace { ptr, .. } => ptr == p,
        EventDetails::Deallocate { ptr, .. } => ptr == p,
        EventDetails::BoxCreate { ptr, .. } => ptr == p,
        EventDetails::BoxDrop { ptr, .. } => ptr == p,
        EventDetails::RcCreate { ptr, .. } => ptr == p,
        EventDetails::RcDrop { ptr, .. } => ptr == p,
        EventDetails::ArcCreate { ptr, .. } => ptr == p,
        EventDetails::ArcDrop { ptr, .. } => ptr == p,
        EventDetails::VecCreate { ptr, .. } => ptr == p,
        EventDetails::VecResize { old_ptr, new_ptr, .. } => old_ptr == p || new_ptr == p,
        EventDetails::VecDrop { ptr, .. } => ptr == p,
    }
}

/// The key that an opening event opens, if it is one.
pub open spec fn opener_key(d: EventDetails) -> Option<OpenBox> {
    match d {
        EventDetails::Allocate { ptr, .. } => Some(OpenBox::Allocate(ptr)),
        EventDetails::BoxCreate { ptr, .. } => Some(OpenBox::BoxCreate(ptr)),
        EventDetails::RcCreate { ptr, .. } => Some(OpenBox::RcCreate(ptr)),
        EventDetails::ArcCreate { ptr, .. } => Some(OpenBox::ArcCreate(ptr)),
        EventDetails::VecCreate { ptr, .. } => Some(OpenBox::VecCreate(ptr)),
        _ => None,
    }
}

/// The box that closing event `close` makes of the region that `open` opened,
/// if the two form a pair: the times are those of the two events, and the
/// size is the one carried by whichever of them carries it.
pub open spec fn pair_box(open: Event, close: Event) -> Option<MemBox> {
    let (s, t) = (open.timestamp, close.timestamp);
    match (open.details, close.details) {
        (EventDetails::Allocate { ptr: p, .. }, EventDetails::Deallocate { ptr, old_size, .. }) => if p
            == ptr {
            Some(new_box(s, t, p, old_size as int, MemDetails::Allocation))
        } else {
            None
        },
        (
            EventDetails::Allocate { ptr: p, .. },
            EventDetails::Reallocate { inptr, old_size, .. },
        ) => if p == inptr {
            Some(new_box(s, t, p, old_size as int, MemDetails::Allocation))
        } else {
            None
        },
        (EventDetails::BoxCreate { ptr: p, .. }, EventDetails::BoxDrop { t: ty, ptr }) => if p
            == ptr {
            Some(new_box(s, t, p, ty.size as int, MemDetails::Box))
        } else {
            None
        },
        (EventDetails::BoxCreate { ptr: p, .. }, EventDetails::Deallocate { ptr, old_size, .. }) => if p
            == ptr {
            Some(new_box(s, t, p, old_size as int, MemDetails::Box))
        } else {
            None
        },
        (EventDetails::RcCreate { t: ty, ptr: p }, EventDetails::RcDrop { ptr, .. }) => if p
            == ptr {
            Some(new_box(s, t, p, ty.size as int, MemDetails::Rc))
        } else {
            None
        },
        (EventDetails::ArcCreate { t: ty, ptr: p }, EventDetails::ArcDrop { ptr, .. }) => if p
            == ptr {
            Some(new_box(s, t, p, ty.size as int, MemDetails::Arc))
        } else {
            None
        },
        (
            EventDetails::VecCreate { t: ty, len, capacity, ptr: p },
            EventDetails::VecResize { old_ptr, .. },
        ) => if p == old_ptr {
            Some(
                new_box(
                    s,
                    t,
                    p,
                    ty.size * capacity,
                    MemDetails::Vec { fill: (ty.size * len) as u64 },
                ),
            )
        } else {
            None
        },
        (
            EventDetails::VecCreate { ptr: p, .. },
            EventDetails::VecDrop { t: ty, len, capacity, ptr },
        ) => if p == ptr && ptr != BOGUS_VEC_PTR {
            Some(
                new_box(
                    s,
                    t,
                    p,
                    ty.size * capacity,
                    MemDetails::Vec { fill: (ty.size * len) as u64 },
                ),
            )
        } else {
            None
        },
        _ => None,
    }
}

/// No open entry is at address `p`.
pub open spec fn none_at(s: Seq<(OpenBox, usize)>, p: u64) -> bool {
    forall|k: int| 0 <= k < s.len() ==> key_address(#[trigger] s[k].0) != p
}

/// Entry `x`, at address `p`, is open, and it is the one open entry there.
pub open spec fn only_at(s: Seq<(OpenBox, usize)>, p: u64, x: (OpenBox, usize)) -> bool {
    &&& key_address(x.0) == p
    &&& exists|i: int|
        0 <= i < s.len() && s[i] == x && forall|k: int|
            0 <= k < s.len() && k != i ==> key_address(#[trigger] s[k].0) != p
}

proof fn lemma_pop_elsewhere(s: Seq<(OpenBox, usize)>, ob: OpenBox, p: u64, x: (OpenBox, usize))
    requires
        key_address(ob) != p,
    ensures
        none_at(s, p) ==> none_at(popped(s, ob).0, p),
        only_at(s, p, x) ==> only_at(popped(s, ob).0, p, x),
{
    lemma_last_index_is_last(s, ob);
    if let Some(i) = last_index_of(s, ob) {
        s.remove_ensures(i);
        let r = s.remove(i);
        assert(forall|k: int| 0 <= k < i ==> r[k] == s[k]);
        assert(forall|k: int| i <= k < r.len() ==> r[k] == s[k + 1]);
        if none_at(s, p) {
            assert forall|k: int| 0 <= k < r.len() implies key_address(#[trigger] r[k].0) != p by {
                if k >= i {
                    assert(r[k] == s[k + 1]);
                }
            }
        }
        if only_at(s, p, x) {
            let w = choose|w: int|
                0 <= w < s.len() && s[w] == x && forall|k: int|
                    0 <= k < s.len() && k != w ==> key_address(#[trigger] s[k].0) != p;
            assert(w != i);
            let w2 = if w < i {
                w
            } else {
                w - 1
            };
            assert(r[w2] == x);
            assert forall|k: int| 0 <= k < r.len() && k != w2 implies key_address(
                #[trigger] r[k].0,
            ) != p by {
                if k >= i {
                    assert(r[k] == s[k + 1]);
                } else {
                    assert(r[k] == s[k]);
                }
            }
        }
    }
}

proof fn lemma_push_elsewhere(s: Seq<(OpenBox, usize)>, y: (OpenBox, usize), p: u64, x: (
    OpenBox,
    usize,
))
    requires
        key_address(y.0) != p,
    ensures
        none_at(s, p) ==> none_at(s.push(y), p),
        only_at(s, p, x) ==> only_at(s.push(y), p, x),
{
    let r = s.push(y);
    assert(forall|k: int| 0 <= k < s.len() ==> r[k] == s[k]);
    if only_at(s, p, x) {
        let w = choose|w: int|
            0 <= w < s.len() && s[w] == x && forall|k: int|
                0 <= k < s.len() && k != w ==> key_address(#[trigger] s[k].0) != p;
        assert(r[w] == x);
        assert forall|k: int| 0 <= k < r.len() && k != w implies key_address(#[trigger] r[k].0)
            != p by {
            if k < s.len() {
                assert(r[k] == s[k]);
            }
        }
    }
}

/// An event that names no pointer `p` leaves the entries at `p` as they were:
/// none stays none, and a single entry stays the single one.
pub proof fn lemma_step_elsewhere(
    st: PassState,
    events: Seq<Event>,
    i: int,
    p: u64,
    x: (OpenBox, usize),
)
    requires
        0 <= i < events.len(),
        !mentions(events[i].details, p),
    ensures
        none_at(st.open, p) ==> none_at(step(st, events, i).open, p),
        only_at(st.open, p, x) ==> only_at(step(st, events, i).open, p, x),
{
    let s = st.open;
    match events[i].details {
        EventDetails::Allocate { ptr, .. } => {
            lemma_push_elsewhere(s, (OpenBox::Allocate(ptr), i as usize), p, x);
        },
        EventDetails::Reallocate { inptr, outptr, .. } => {
            lemma_pop_elsewhere(s, OpenBox::Allocate(inptr), p, x);
            lemma_pop_elsewhere(s, OpenBox::Reallocate(inptr), p, x);
            let (rest, found) = popped_either(
                s,
                OpenBox::Allocate(inptr),
                OpenBox::Reallocate(inptr),
            );
            let anchor = match found {
                Some(j) => j,
                None => i as usize,
            };
            lemma_push_elsewhere(rest, (OpenBox::Reallocate(outptr), anchor), p, x);
        },
        EventDetails::Deallocate { ptr, .. } => {
            lemma_pop_elsewhere(s, OpenBox::Allocate(ptr), p, x);
            lemma_pop_elsewhere(s, OpenBox::Reallocate(ptr), p, x);
            lemma_pop_elsewhere(s, OpenBox::BoxCreate(ptr), p, x);
        },
        EventDetails::BoxCreate { ptr, .. } => {
            lemma_push_elsewhere(s, (OpenBox::BoxCreate(ptr), i as usize), p, x);
        },
        EventDetails::BoxDrop { ptr, .. } => {
            lemma_pop_elsewhere(s, OpenBox::BoxCreate(ptr), p, x);
        },
        EventDetails::RcCreate { ptr, .. } => {
            lemma_push_elsewhere(s, (OpenBox::RcCreate(ptr), i as usize), p, x);
        },
        EventDetails::RcDrop { ptr, .. } => {
            lemma_pop_elsewhere(s, OpenBox::RcCreate(ptr), p, x);
        },
        EventDetails::ArcCreate { ptr, .. } => {
            lemma_push_elsewhere(s, (OpenBox::ArcCreate(ptr), i as usize), p, x);
        },
        EventDetails::ArcDrop { ptr, .. } => {
            lemma_pop_elsewhere(s, OpenBox::ArcCreate(ptr), p, x);
        },
        EventDetails::VecCreate { ptr, .. } => {
            lemma_push_elsewhere(s, (OpenBox::VecCreate(ptr), i as usize), p, x);
        },
        EventDetails::VecResize { old_ptr, new_ptr, .. } => {
            lemma_pop_elsewhere(s, OpenBox::VecCreate(old_ptr), p, x);
            lemma_pop_elsewhere(s, OpenBox::VecResize(old_ptr), p, x);
            let (rest, found) = popped_either(
                s,
                OpenBox::VecCreate(old_ptr),
                OpenBox::VecResize(old_ptr),
            );
            let after = match found {
                Some(j) => rest,
                None => s,
            };
            lemma_push_elsewhere(after, (OpenBox::VecResize(new_ptr), i as usize), p, x);
        },
        EventDetails::VecDrop { ptr, .. } => {
            lemma_pop_elsewhere(s, OpenBox::VecCreate(ptr), p, x);
            lemma_pop_elsewhere(s, OpenBox::VecResize(ptr), p, x);
        },
        EventDetails::ReallocateInplace { .. } => {},
    }
}

/// Every open entry at address `p` has key `k`.
pub open spec fn keyed_at(s: Seq<(OpenBox, usize)>, p: u64, k: OpenBox) -> bool {
    forall|j: int| 0 <= j < s.len() && key_address(#[trigger] s[j].0) == p ==> s[j].0 == k
}

/// Whether closing this event also opens a new entry.
pub open spec fn reopens(d: EventDetails) -> bool {
    d is Reallocate || d is VecResize
}

proof fn lemma_other_keys_absent(s: Seq<(OpenBox, usize)>, k: OpenBox)
    requires
        keyed_at(s, key_address(k), k),
    ensures
        forall|ob: OpenBox|
            key_address(ob) == key_address(k) && ob != k ==> #[trigger] last_index_of(s, ob) is None,
{
    assert forall|ob: OpenBox| key_address(ob) == key_address(k) && ob != k implies #[trigger] last_index_of(
        s,
        ob,
    ) is None by {
        assert forall|j: int| 0 <= j < s.len() implies s[j].0 != ob by {
            if key_address(s[j].0) == key_address(k) {
                assert(s[j].0 == k);
            }
        }
        lemma_last_index_absent(s, ob);
    }
}

/// A closing event at `b` whose key's latest entry was opened at `a`, with no
/// other key open at that address, emits the pair's box and reports nothing.
proof fn lemma_close(st: PassState, events: Seq<Event>, a: int, b: int)
    requires
        0 <= a < b < events.len(),
        pair_box(events[a], events[b]) is Some,
        opener_key(events[a].details)->Some_0 is BoxCreate ==> keyed_at(
            st.open,
            key_address(opener_key(events[a].details)->Some_0),
            opener_key(events[a].details)->Some_0,
        ),
        last_index_of(st.open, opener_key(events[a].details)->Some_0) is Some,
        st.open[last_index_of(st.open, opener_key(events[a].details)->Some_0)->Some_0].1 as int
            == a,
    ensures
        step(st, events, b).boxes == st.boxes.push(pair_box(events[a], events[b])->Some_0),
        step(st, events, b).diagnostics == st.diagnostics,
        !reopens(events[b].details) ==> step(st, events, b).open == st.open.remove(
            last_index_of(st.open, opener_key(events[a].details)->Some_0)->Some_0,
        ),
        reopens(events[b].details) ==> step(st, events, b).open.drop_last() == st.open.remove(
            last_index_of(st.open, opener_key(events[a].details)->Some_0)->Some_0,
        ),
        reopens(events[b].details) ==> step(st, events, b).open.last().0 != opener_key(
            events[a].details,
        )->Some_0,
{
    let k = opener_key(events[a].details)->Some_0;
    if k is BoxCreate {
        lemma_other_keys_absent(st.open, k);
    }
    lemma_last_index_is_last(st.open, k);
}

proof fn lemma_run_elsewhere(events: Seq<Event>, from: nat, to: nat, p: u64, x: (OpenBox, usize))
    requires
        from <= to <= events.len(),
        only_at(pass_through(events, from).open, p, x),
        forall|m: int| from <= m < to ==> !mentions(#[trigger] events[m].details, p),
    ensures
        only_at(pass_through(events, to).open, p, x),
    decreases to - from,
{
    if from < to {
        lemma_run_elsewhere(events, from, (to - 1) as nat, p, x);
        lemma_step_elsewhere(pass_through(events, (to - 1) as nat), events, to - 1, p, x);
    }
}

proof fn lemma_only_at_lookup(s: Seq<(OpenBox, usize)>, p: u64, x: (OpenBox, usize))
    requires
        only_at(s, p, x),
    ensures
        keyed_at(s, p, x.0),
        last_index_of(s, x.0) is Some,
        s[last_index_of(s, x.0)->Some_0] == x,
{
    let w = choose|w: int|
        0 <= w < s.len() && s[w] == x && forall|k: int|
            0 <= k < s.len() && k != w ==> key_address(#[trigger] s[k].0) != p;
    lemma_last_index_found(s, x.0, w);
}

/// An opening event at `a` and a closing event at `b` that form a pair, where
/// nothing was open at their address before `a` and no event between them
/// names it: closing emits one box, from the opening's time to the closing's,
/// over the address and size the pair carries, and reports nothing.
pub proof fn lemma_pairing(events: Seq<Event>, a: int, b: int)
    requires
        events.len() <= usize::MAX,
        0 <= a < b < events.len(),
        pair_box(events[a], events[b]) is Some,
        none_at(
            pass_through(events, a as nat).open,
            key_address(opener_key(events[a].details)->Some_0),
        ),
        forall|m: int|
            a < m < b ==> !mentions(
                #[trigger] events[m].details,
                key_address(opener_key(events[a].details)->Some_0),
            ),
    ensures
        pass_through(events, (b + 1) as nat).boxes == pass_through(events, b as nat).boxes.push(
            pair_box(events[a], events[b])->Some_0,
        ),
        pass_through(events, (b + 1) as nat).diagnostics == pass_through(
            events,
            b as nat,
        ).diagnostics,
{
    let k = opener_key(events[a].details)->Some_0;
    let p = key_address(k);
    let x = (k, a as usize);
    let s0 = pass_through(events, a as nat).open;
    let s1 = pass_through(events, (a + 1) as nat).open;
    lemma_last_index_absent(s0, k);
    assert(s1 == s0.push(x));
    assert(s1[s0.len() as int] == x);
    assert(only_at(s1, p, x));
    lemma_run_elsewhere(events, (a + 1) as nat, b as nat, p, x);
    let sb = pass_through(events, b as nat);
    lemma_only_at_lookup(sb.open, p, x);
    lemma_close(sb, events, a, b);
}

/// Two opening events of one key at `a` and `a + 1`, then two closing events:
/// the first closing takes the newer opening, the second the older one, and
/// the second opening is reported once, as a reopening.
pub proof fn lemma_lifo_reuse(events: Seq<Event>, a: int)
    requires
        events.len() <= usize::MAX,
        0 <= a && a + 3 < events.len(),
        opener_key(events[a].details) is Some,
        opener_key(events[a + 1].details) == opener_key(events[a].details),
        pair_box(events[a + 1], events[a + 2]) is Some,
        pair_box(events[a], events[a + 3]) is Some,
        none_at(
            pass_through(events, a as nat).open,
            key_address(opener_key(events[a].details)->Some_0),
        ),
    ensures
        pass_through(events, (a + 4) as nat).boxes == pass_through(events, a as nat).boxes.push(
            pair_box(events[a + 1], events[a + 2])->Some_0,
        ).push(pair_box(events[a], events[a + 3])->Some_0),
        pass_through(events, (a + 4) as nat).diagnostics == pass_through(
            events,
            a as nat,
        ).diagnostics.push(Diagnostic::Reopened { event: (a + 1) as usize }),
{
    let k = opener_key(events[a].details)->Some_0;
    let p = key_address(k);
    let s0 = pass_through(events, a as nat).open;
    let n = s0.len() as int;
    let s1 = s0.push((k, a as usize));
    let s2 = s1.push((k, (a + 1) as usize));
    lemma_last_index_absent(s0, k);
    lemma_last_index_found(s1, k, n);
    lemma_last_index_found(s2, k, n + 1);
    assert(pass_through(events, (a + 1) as nat).open == s1);
    assert(pass_through(events, (a + 2) as nat).open == s2);
    assert(keyed_at(s2, p, k)) by {
        assert forall|j: int| 0 <= j < s2.len() && key_address(#[trigger] s2[j].0) == p implies s2[j].0
            == k by {
            if j < n {
                assert(s2[j] == s0[j]);
            }
        }
    }
    lemma_close(pass_through(events, (a + 2) as nat), events, a + 1, a + 2);
    assert(s2.remove(n + 1) =~= s1);
    let s3 = pass_through(events, (a + 3) as nat).open;
    if reopens(events[a + 2].details) {
        assert(s3 =~= s1.push(s3.last()));
        lemma_last_index_found(s3, k, n);
    } else {
        assert(s3 == s1);
    }
    lemma_close(pass_through(events, (a + 3) as nat), events, a, a + 3);
}

/// Whether `d` is a `VecDrop` that carries the bogus pointer.
pub open spec fn is_bogus_drop(d: EventDetails) -> bool {
    match d {
        EventDetails::VecDrop { ptr, .. } => ptr == BOGUS_VEC_PTR,
        _ => false,
    }
}

/// A `VecDrop` that carries the bogus pointer changes nothing: no box, no
/// report, no entry opened or closed.
pub proof fn lemma_sentinel_skip(st: PassState, events: Seq<Event>, i: int)
    requires
        0 <= i < events.len(),
        is_bogus_drop(events[i].details),
    ensures
        step(st, events, i) == st,
{
}

/// Whether `d` reports an entry left open at address `p`.
pub open spec fn dangling_at(d: Diagnostic, p: u64) -> bool {
    match d {
        Diagnostic::DanglingOpen { key, .. } => key_address(key) == p,
        _ => false,
    }
}

proof fn lemma_pass_reports_no_dangling(events: Seq<Event>, n: nat)
    requires
        n <= events.len(),
    ensures
        forall|i: int|
            0 <= i < pass_through(events, n).diagnostics.len() ==> !(
            #[trigger] pass_through(events, n).diagnostics[i] is DanglingOpen),
    decreases n,
{
    if n > 0 {
        lemma_pass_reports_no_dangling(events, (n - 1) as nat);
        let before = pass_through(events, (n - 1) as nat).diagnostics;
        let after = pass_through(events, n).diagnostics;
        assert forall|i: int| 0 <= i < after.len() implies !(#[trigger] after[i] is DanglingOpen) by {
            if i < before.len() {
                assert(after[i] == before[i]);
            }
        }
    }
}

/// Whether `d` is an allocation at address `p`.
pub open spec fn allocates_at(d: EventDetails, p: u64) -> bool {
    match d {
        EventDetails::Allocate { ptr, .. } => ptr == p,
        _ => false,
    }
}

/// `diags` holds a report of `x` left open, and no other report of an entry
/// left open at address `p`.
pub open spec fn reported_once(diags: Seq<Diagnostic>, p: u64, x: (OpenBox, usize)) -> bool {
    exists|i: int|
        0 <= i < diags.len() && diags[i] == (Diagnostic::DanglingOpen { key: x.0, event: x.1 })
            && forall|j: int| 0 <= j < diags.len() && j != i ==> !dangling_at(#[trigger] diags[j], p)
}

/// An allocation at `a` whose address nothing was open at before, and that no
/// later event names, is the one entry left open at that address when the
/// pass ends, and the outcome reports it exactly once.
pub proof fn lemma_leak_reported_once(events: Seq<Event>, a: int, p: u64)
    requires
        events.len() <= usize::MAX,
        0 <= a < events.len(),
        allocates_at(events[a].details, p),
        none_at(pass_through(events, a as nat).open, p),
        forall|m: int| a < m < events.len() ==> !mentions(#[trigger] events[m].details, p),
    ensures
        only_at(reconstruction(events).open, p, (OpenBox::Allocate(p), a as usize)),
        reported_once(reconstruction(events).diagnostics, p, (OpenBox::Allocate(p), a as usize)),
{
    let x = (OpenBox::Allocate(p), a as usize);
    let s0 = pass_through(events, a as nat).open;
    let s1 = pass_through(events, (a + 1) as nat).open;
    assert(s1 == s0.push(x));
    assert(s1[s0.len() as int] == x);
    assert(only_at(s1, p, x));
    lemma_run_elsewhere(events, (a + 1) as nat, events.len(), p, x);
    let open = reconstruction(events).open;
    let d = pass_through(events, events.len()).diagnostics;
    let dd = dangling(open);
    let all = reconstruction(events).diagnostics;
    lemma_pass_reports_no_dangling(events, events.len());
    let w = choose|w: int|
        0 <= w < open.len() && open[w] == x && forall|k: int|
            0 <= k < open.len() && k != w ==> key_address(#[trigger] open[k].0) != p;
    let i = d.len() + w;
    assert(all == d + dd);
    assert(all[i] == dd[w]);
    assert forall|j: int| 0 <= j < all.len() && j != i implies !dangling_at(#[trigger] all[j], p) by {
        if j < d.len() {
            assert(all[j] == d[j]);
        } else {
            assert(all[j] == dd[j - d.len()]);
            assert(key_address(open[j - d.len()].0) != p);
        }
    }
}

/// The events' timestamps never decrease in trace order.
pub open spec fn times_ordered(events: Seq<Event>) -> bool {
    forall|i: int, j: int|
        0 <= i <= j < events.len() ==> (#[trigger] events[i].timestamp).spec_le(
            #[trigger] events[j].timestamp,
        )
}

/// A box ends no earlier than it starts, in time and in address.
pub open spec fn box_ok(b: MemBox) -> bool {
    b.start_time.spec_le(b.end_time) && b.start_address <= b.end_address
}

/// Every entry a pass leaves open refers to an earlier event, and agrees with it.
pub proof fn lemma_pass_stack_ok(events: Seq<Event>, n: nat)
    requires
        events.len() <= usize::MAX,
        n <= events.len(),
    ensures
        stack_ok(events, n as int, pass_through(events, n).open),
    decreases n,
{
    if n > 0 {
        let i = n - 1;
        lemma_pass_stack_ok(events, i as nat);
        let s = pass_through(events, i as nat).open;
        assert(stack_ok(events, n as int, s));
        lemma_step_stack_ok(pass_through(events, i as nat), events, i);
    }
}

proof fn lemma_step_stack_ok(st: PassState, events: Seq<Event>, i: int)
    requires
        events.len() <= usize::MAX,
        0 <= i < events.len(),
        stack_ok(events, i + 1, st.open),
    ensures
        stack_ok(events, i + 1, step(st, events, i).open),
{
    let s = st.open;
    let n = i + 1;
    match events[i].details {
        EventDetails::Reallocate { inptr, .. } => {
            lemma_pop_ok(events, n, s, OpenBox::Allocate(inptr));
            lemma_pop_ok(events, n, s, OpenBox::Reallocate(inptr));
        },
        EventDetails::Deallocate { ptr, .. } => {
            lemma_pop_ok(events, n, s, OpenBox::Allocate(ptr));
            lemma_pop_ok(events, n, s, OpenBox::Reallocate(ptr));
            lemma_pop_ok(events, n, s, OpenBox::BoxCreate(ptr));
        },
        EventDetails::BoxDrop { ptr, .. } => {
            lemma_pop_ok(events, n, s, OpenBox::BoxCreate(ptr));
        },
        EventDetails::RcDrop { ptr, .. } => {
            lemma_pop_ok(events, n, s, OpenBox::RcCreate(ptr));
        },
        EventDetails::ArcDrop { ptr, .. } => {
            lemma_pop_ok(events, n, s, OpenBox::ArcCreate(ptr));
        },
        EventDetails::VecResize { old_ptr, .. } => {
            lemma_pop_ok(events, n, s, OpenBox::VecCreate(old_ptr));
            lemma_pop_ok(events, n, s, OpenBox::VecResize(old_ptr));
        },
        EventDetails::VecDrop { ptr, .. } => {
            lemma_pop_ok(events, n, s, OpenBox::VecCreate(ptr));
            lemma_pop_ok(events, n, s, OpenBox::VecResize(ptr));
        },
        _ => {},
    }
}

/// On a trace whose timestamps never decrease and whose events all fit,
/// every box a pass emits ends no earlier than it starts, in time and in
/// address.
pub proof fn lemma_boxes_ok(events: Seq<Event>, n: nat)
    requires
        events.len() <= usize::MAX,
        n <= events.len(),
        all_fit(events),
        times_ordered(events),
    ensures
        forall|k: int|
            0 <= k < pass_through(events, n).boxes.len() ==> box_ok(
                #[trigger] pass_through(events, n).boxes[k],
            ),
    decreases n,
{
    if n > 0 {
        let i = n - 1;
        lemma_boxes_ok(events, i as nat);
        lemma_pass_stack_ok(events, i as nat);
        let st = pass_through(events, i as nat);
        let s = st.open;
        let next = pass_through(events, n).boxes;
        assert(fits(events[i].details));
        match events[i].details {
            EventDetails::Reallocate { inptr, .. } => {
                lemma_pop_ok(events, i, s, OpenBox::Allocate(inptr));
                lemma_pop_ok(events, i, s, OpenBox::Reallocate(inptr));
            },
            EventDetails::Deallocate { ptr, .. } => {
                lemma_pop_ok(events, i, s, OpenBox::Allocate(ptr));
                lemma_pop_ok(events, i, s, OpenBox::Reallocate(ptr));
                lemma_pop_ok(events, i, s, OpenBox::BoxCreate(ptr));
            },
            EventDetails::BoxDrop { ptr, .. } => {
                lemma_pop_ok(events, i, s, OpenBox::BoxCreate(ptr));
            },
            EventDetails::RcDrop { ptr, .. } => {
                lemma_pop_ok(events, i, s, OpenBox::RcCreate(ptr));
                if let Some(j) = popped(s, OpenBox::RcCreate(ptr)).1 {
                    assert(fits(events[j as int].details));
                }
            },
            EventDetails::ArcDrop { ptr, .. } => {
                lemma_pop_ok(events, i, s, OpenBox::ArcCreate(ptr));
                if let Some(j) = popped(s, OpenBox::ArcCreate(ptr)).1 {
                    assert(fits(events[j as int].details));
                }
            },
            EventDetails::VecResize { old_ptr, .. } => {
                lemma_pop_ok(events, i, s, OpenBox::VecCreate(old_ptr));
                lemma_pop_ok(events, i, s, OpenBox::VecResize(old_ptr));
                if let Some(j) = popped_either(
                    s,
                    OpenBox::VecCreate(old_ptr),
                    OpenBox::VecResize(old_ptr),
                ).1 {
                    let d = events[j as int].details;
                    assert(fits(d));
                    assert(type_size(d) * vec_capacity(d) >= 0) by (nonlinear_arith);
                }
            },
            EventDetails::VecDrop { t, capacity, ptr, .. } => {
                lemma_pop_ok(events, i, s, OpenBox::VecCreate(ptr));
                lemma_pop_ok(events, i, s, OpenBox::VecResize(ptr));
                assert(t.size * capacity >= 0) by (nonlinear_arith);
            },
            _ => {},
        }
        assert forall|k: int| 0 <= k < next.len() implies box_ok(#[trigger] next[k]) by {
            if k < st.boxes.len() {
                assert(next[k] == st.boxes[k]);
            }
        }
    }
}

} // verus!
