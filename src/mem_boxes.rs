//! Reconstruction of the lifetimes of memory regions ("boxes") from a trace.
//!
//! Events are read in trace order. An opening event pushes an entry keyed by
//! its kind and address; a closing event takes the most recent entry for its
//! key and emits one box. What does not pair up is reported as a diagnostic.
use vstd::prelude::*;
use crate::event_log::{Event, EventDetails, Timestamp};

verus! {

pub type Address = u64;

/// A pointer that `VecDrop` events sometimes carry though no vector lives
/// there. Such events are skipped without a report.
pub const BOGUS_VEC_PTR: u64 = 0x1d1d1d1d1d1d1d1d;

/// The lifetime and address range of one memory region.
#[derive(Clone, Copy, Debug, PartialEq, Eq, Structural)]
pub struct MemBox {
    pub start_time: Timestamp,
    pub end_time: Timestamp,
    pub start_address: Address,
    pub end_address: Address,
    pub details: MemDetails,
}

/// What kind of allocation a box was; a vector's box also records how many
/// of its bytes were filled.
#[derive(Clone, Copy, Debug, PartialEq, Eq, Structural)]
pub enum MemDetails {
    Allocation,
    Box,
    Rc,
    Arc,
    Vec { fill: u64 },
}

/// The key of an open entry: the kind of event that opened it, and its address.
#[derive(Clone, Copy, Debug, PartialEq, Eq, Structural)]
pub enum OpenBox {
    Allocate(Address),
    Reallocate(Address),
    BoxCreate(Address),
    RcCreate(Address),
    ArcCreate(Address),
    VecCreate(Address),
    VecResize(Address),
}

/// Something in the trace that did not pair up, by the index of its event.
#[derive(Clone, Copy, Debug, PartialEq, Eq, Structural)]
pub enum Diagnostic {
    /// An opening event whose key was already open.
    Reopened { event: usize },
    /// A closing event with no open entry to close.
    UnmatchedClose { event: usize },
    /// An event that neither opens nor closes a box.
    Unhandled { event: usize },
    /// An entry still open when the trace ended, with the event that opened it.
    DanglingOpen { key: OpenBox, event: usize },
}

/// The open entries, oldest first: each a key and the index of the event
/// that stands for its opening.
pub struct OpenBoxStack(pub Vec<(OpenBox, usize)>);

impl View for OpenBoxStack {
    type V = Seq<(OpenBox, usize)>;

    open spec fn view(&self) -> Seq<(OpenBox, usize)> {
        self.0@
    }
}

/// The position of the most recent entry with key `ob`.
pub open spec fn last_index_of(s: Seq<(OpenBox, usize)>, ob: OpenBox) -> Option<int>
    decreases s.len(),
{
    if s.len() == 0 {
        None
    } else if s.last().0 == ob {
        Some(s.len() - 1)
    } else {
        last_index_of(s.drop_last(), ob)
    }
}

/// The entries left after closing key `ob`, and the event index of the entry
/// that was closed, if one was open.
pub open spec fn popped(s: Seq<(OpenBox, usize)>, ob: OpenBox) -> (Seq<(OpenBox, usize)>, Option<usize>) {
    match last_index_of(s, ob) {
        Some(i) => (s.remove(i), Some(s[i].1)),
        None => (s, None),
    }
}

/// Closing by `first`, or else by `second`.
pub open spec fn popped_either(s: Seq<(OpenBox, usize)>, first: OpenBox, second: OpenBox) -> (Seq<
    (OpenBox, usize),
>, Option<usize>) {
    if popped(s, first).1 is Some {
        popped(s, first)
    } else {
        popped(s, second)
    }
}

/// One report per entry still open.
pub open spec fn dangling(s: Seq<(OpenBox, usize)>) -> Seq<Diagnostic> {
    s.map_values(|e: (OpenBox, usize)| Diagnostic::DanglingOpen { key: e.0, event: e.1 })
}

pub proof fn lemma_last_index_found(s: Seq<(OpenBox, usize)>, ob: OpenBox, i: int)
    requires
        0 <= i < s.len(),
        s[i].0 == ob,
        forall|j: int| i < j < s.len() ==> s[j].0 != ob,
    ensures
        last_index_of(s, ob) == Some(i),
    decreases s.len(),
{
    if i < s.len() - 1 {
        lemma_last_index_found(s.drop_last(), ob, i);
    }
}

pub proof fn lemma_last_index_absent(s: Seq<(OpenBox, usize)>, ob: OpenBox)
    requires
        forall|j: int| 0 <= j < s.len() ==> s[j].0 != ob,
    ensures
        last_index_of(s, ob) is None,
    decreases s.len(),
{
    if s.len() > 0 {
        lemma_last_index_absent(s.drop_last(), ob);
    }
}

/// What `last_index_of` finds is an entry with that key, and none after it has it.
pub proof fn lemma_last_index_is_last(s: Seq<(OpenBox, usize)>, ob: OpenBox)
    ensures
        match last_index_of(s, ob) {
            Some(i) => 0 <= i < s.len() && s[i].0 == ob && forall|j: int|
                i < j < s.len() ==> s[j].0 != ob,
            None => forall|j: int| 0 <= j < s.len() ==> s[j].0 != ob,
        },
    decreases s.len(),
{
    if s.len() > 0 {
        let t = s.drop_last();
        lemma_last_index_is_last(t, ob);
        assert(forall|j: int| 0 <= j < t.len() ==> t[j] == s[j]);
    }
}

impl OpenBoxStack {
    pub fn new() -> (r: OpenBoxStack)
        ensures
            r@ == Seq::<(OpenBox, usize)>::empty(),
    {
        OpenBoxStack(Vec::new())
    }

    fn find_last(&self, ob: OpenBox) -> (r: Option<usize>)
        ensures
            match r {
                Some(i) => i < self@.len() && last_index_of(self@, ob) == Some(i as int),
                None => last_index_of(self@, ob) is None,
            },
    {
        let mut k: usize = self.0.len();
        while k > 0
            invariant
                k <= self@.len(),
                forall|j: int| k <= j < self@.len() ==> self@[j].0 != ob,
            decreases k,
        {
            if self.0[k - 1].0 == ob {
                proof {
                    lemma_last_index_found(self@, ob, k - 1);
                }
                return Some(k - 1);
            }
            k = k - 1;
        }
        proof {
            lemma_last_index_absent(self@, ob);
        }
        None
    }

    /// Opens an entry with key `ob` for the event at index `e`.
    pub fn push(&mut self, ob: OpenBox, e: usize)
        ensures
            final(self)@ == old(self)@.push((ob, e)),
    {
        self.0.push((ob, e));
    }

    /// Closes the most recent entry with key `ob` and returns its event index.
    pub fn pop(&mut self, ob: OpenBox) -> (r: Option<usize>)
        ensures
            (final(self)@, r) == popped(old(self)@, ob),
    {
        match self.find_last(ob) {
            Some(index) => {
                let (_, e) = self.0.remove(index);
                Some(e)
            },
            None => None,
        }
    }

    /// Whether no entry with key `ob` is open.
    pub fn assert_dont_know(&self, ob: OpenBox) -> (r: bool)
        ensures
            r == (last_index_of(self@, ob) is None),
    {
        self.find_last(ob).is_none()
    }

    /// One report for each entry still open, oldest first.
    pub fn assert_empty(&self) -> (r: Vec<Diagnostic>)
        ensures
            r@ == dangling(self@),
    {
        let mut r: Vec<Diagnostic> = Vec::new();
        let mut k: usize = 0;
        while k < self.0.len()
            invariant
                k <= self@.len(),
                r@ == dangling(self@.take(k as int)),
            decreases self@.len() - k,
        {
            let (key, event) = self.0[k];
            r.push(Diagnostic::DanglingOpen { key, event });
            proof {
                assert(self@.take(k + 1) == self@.take(k as int).push(self@[k as int]));
                assert(dangling(self@.take(k + 1)) =~= dangling(self@.take(k as int)).push(
                    Diagnostic::DanglingOpen { key, event },
                ));
            }
            k = k + 1;
        }
        proof {
            assert(self@.take(k as int) == self@);
        }
        r
    }
}

/// What a pass has built so far: the open entries, the boxes emitted and the
/// diagnostics reported, each in order.
pub struct PassState {
    pub open: Seq<(OpenBox, usize)>,
    pub boxes: Seq<MemBox>,
    pub diagnostics: Seq<Diagnostic>,
}

/// The box of a region at `lo` of `extent` bytes, open from `start` to `end`.
pub open spec fn new_box(
    start: Timestamp,
    end: Timestamp,
    lo: u64,
    extent: int,
    details: MemDetails,
) -> MemBox {
    MemBox {
        start_time: start,
        end_time: end,
        start_address: lo,
        end_address: (lo + extent) as u64,
        details,
    }
}

/// The element size that an event's type information carries, if any.
pub open spec fn type_size(d: EventDetails) -> u64 {
    match d {
        EventDetails::BoxCreate { t, .. } => t.size,
        EventDetails::BoxDrop { t, .. } => t.size,
        EventDetails::RcCreate { t, .. } => t.size,
        EventDetails::ArcCreate { t, .. } => t.size,
        EventDetails::VecCreate { t, .. } => t.size,
        EventDetails::VecResize { t, .. } => t.size,
        EventDetails::VecDrop { t, .. } => t.size,
        _ => 0,
    }
}

/// The length a vector event reports.
pub open spec fn vec_len(d: EventDetails) -> u64 {
    match d {
        EventDetails::VecCreate { len, .. } => len,
        EventDetails::VecResize { len, .. } => len,
        EventDetails::VecDrop { len, .. } => len,
        _ => 0,
    }
}

/// The capacity a vector event reports.
pub open spec fn vec_capacity(d: EventDetails) -> u64 {
    match d {
        EventDetails::VecCreate { capacity, .. } => capacity,
        EventDetails::VecResize { capacity, .. } => capacity,
        EventDetails::VecDrop { capacity, .. } => capacity,
        _ => 0,
    }
}

/// Every address and byte count that a box built from this event would hold
/// fits in 64 bits.
pub open spec fn fits(d: EventDetails) -> bool {
    match d {
        EventDetails::Reallocate { inptr, old_size, .. } => inptr + old_size <= u64::MAX,
        EventDetails::Deallocate { ptr, old_size, .. } => ptr + old_size <= u64::MAX,
        EventDetails::BoxCreate { t, ptr } => ptr + t.size <= u64::MAX,
        EventDetails::BoxDrop { t, ptr } => ptr + t.size <= u64::MAX,
        EventDetails::RcCreate { t, ptr } => ptr + t.size <= u64::MAX,
        EventDetails::ArcCreate { t, ptr } => ptr + t.size <= u64::MAX,
        EventDetails::VecCreate { t, len, capacity, ptr } => ptr + t.size * capacity <= u64::MAX
            && t.size * len <= u64::MAX,
        EventDetails::VecResize { t, len, capacity, new_ptr, .. } => new_ptr + t.size * capacity
            <= u64::MAX && t.size * len <= u64::MAX,
        EventDetails::VecDrop { t, len, capacity, ptr } => ptr == BOGUS_VEC_PTR || (ptr + t.size
            * capacity <= u64::MAX && t.size * len <= u64::MAX),
        _ => true,
    }
}

/// The state after opening `key` for the event at `anchor`, while handling the
/// event at `i`; with `check`, a key already open is reported.
pub open spec fn opened(st: PassState, key: OpenBox, i: int, anchor: int, check: bool) -> PassState {
    PassState {
        open: st.open.push((key, anchor as usize)),
        boxes: st.boxes,
        diagnostics: if check && last_index_of(st.open, key) is Some {
            st.diagnostics.push(Diagnostic::Reopened { event: i as usize })
        } else {
            st.diagnostics
        },
    }
}

/// The state after an entry was closed, leaving `open`, and box `b` emitted.
pub open spec fn closed(st: PassState, open: Seq<(OpenBox, usize)>, b: MemBox) -> PassState {
    PassState { open, boxes: st.boxes.push(b), diagnostics: st.diagnostics }
}

/// The state after reporting `d`.
pub open spec fn reported(st: PassState, d: Diagnostic) -> PassState {
    PassState { open: st.open, boxes: st.boxes, diagnostics: st.diagnostics.push(d) }
}

/// The box that a vector's entry, opened by event `opener`, stands for when
/// it is closed by event `closer`: its capacity and fill are those `opener`
/// reported.
pub open spec fn vec_box(opener: Event, closer: Event, lo: u64) -> MemBox {
    let d = opener.details;
    new_box(
        opener.timestamp,
        closer.timestamp,
        lo,
        type_size(d) * vec_capacity(d),
        MemDetails::Vec { fill: (type_size(d) * vec_len(d)) as u64 },
    )
}

/// The state after handling the event at index `i`.
pub open spec fn step(st: PassState, events: Seq<Event>, i: int) -> PassState {
    let e = events[i];
    let unmatched = reported(st, Diagnostic::UnmatchedClose { event: i as usize });
    match e.details {
        EventDetails::Allocate { ptr, .. } => opened(st, OpenBox::Allocate(ptr), i, i, true),
        EventDetails::Reallocate { inptr, old_size, outptr, .. } => {
            let (rest, found) = popped_either(
                st.open,
                OpenBox::Allocate(inptr),
                OpenBox::Reallocate(inptr),
            );
            match found {
                Some(j) => opened(
                    closed(
                        st,
                        rest,
                        new_box(
                            events[j as int].timestamp,
                            e.timestamp,
                            inptr,
                            old_size as int,
                            MemDetails::Allocation,
                        ),
                    ),
                    OpenBox::Reallocate(outptr),
                    i,
                    j as int,
                    false,
                ),
                None => opened(unmatched, OpenBox::Reallocate(outptr), i, i, false),
            }
        },
        EventDetails::Deallocate { ptr, old_size, .. } => {
            let (rest, found) = popped_either(
                st.open,
                OpenBox::Allocate(ptr),
                OpenBox::Reallocate(ptr),
            );
            let (box_rest, box_found) = popped(st.open, OpenBox::BoxCreate(ptr));
            match (found, box_found) {
                (Some(j), _) => closed(
                    st,
                    rest,
                    new_box(
                        events[j as int].timestamp,
                        e.timestamp,
                        ptr,
                        old_size as int,
                        MemDetails::Allocation,
                    ),
                ),
                (None, Some(j)) => closed(
                    st,
                    box_rest,
                    new_box(
                        events[j as int].timestamp,
                        e.timestamp,
                        ptr,
                        old_size as int,
                        MemDetails::Box,
                    ),
                ),
                (None, None) => unmatched,
            }
        },
        EventDetails::BoxCreate { ptr, .. } => opened(st, OpenBox::BoxCreate(ptr), i, i, true),
        EventDetails::BoxDrop { t, ptr } => match popped(st.open, OpenBox::BoxCreate(ptr)) {
            (rest, Some(j)) => closed(
                st,
                rest,
                new_box(events[j as int].timestamp, e.timestamp, ptr, t.size as int, MemDetails::Box),
            ),
            (_, None) => unmatched,
        },
        EventDetails::RcCreate { ptr, .. } => opened(st, OpenBox::RcCreate(ptr), i, i, true),
        EventDetails::RcDrop { ptr, .. } => match popped(st.open, OpenBox::RcCreate(ptr)) {
            (rest, Some(j)) => closed(
                st,
                rest,
                new_box(
                    events[j as int].timestamp,
                    e.timestamp,
                    ptr,
                    type_size(events[j as int].details) as int,
                    MemDetails::Rc,
                ),
            ),
            (_, None) => unmatched,
        },
        EventDetails::ArcCreate { ptr, .. } => opened(st, OpenBox::ArcCreate(ptr), i, i, true),
        EventDetails::ArcDrop { ptr, .. } => match popped(st.open, OpenBox::ArcCreate(ptr)) {
            (rest, Some(j)) => closed(
                st,
                rest,
                new_box(
                    events[j as int].timestamp,
                    e.timestamp,
                    ptr,
                    type_size(events[j as int].details) as int,
                    MemDetails::Arc,
                ),
            ),
            (_, None) => unmatched,
        },
        EventDetails::VecCreate { ptr, .. } => opened(st, OpenBox::VecCreate(ptr), i, i, true),
        EventDetails::VecResize { old_ptr, new_ptr, .. } => {
            let (rest, found) = popped_either(
                st.open,
                OpenBox::VecCreate(old_ptr),
                OpenBox::VecResize(old_ptr),
            );
            let after = match found {
                Some(j) => closed(st, rest, vec_box(events[j as int], e, old_ptr)),
                None => unmatched,
            };
            opened(after, OpenBox::VecResize(new_ptr), i, i, false)
        },
        EventDetails::VecDrop { t, len, capacity, ptr } => {
            if ptr == BOGUS_VEC_PTR {
                st
            } else {
                match popped_either(st.open, OpenBox::VecCreate(ptr), OpenBox::VecResize(ptr)) {
                    (rest, Some(j)) => closed(
                        st,
                        rest,
                        new_box(
                            events[j as int].timestamp,
                            e.timestamp,
                            ptr,
                            t.size * capacity,
                            MemDetails::Vec { fill: (t.size * len) as u64 },
                        ),
                    ),
                    (_, None) => unmatched,
                }
            }
        },
        EventDetails::ReallocateInplace { .. } => reported(
            st,
            Diagnostic::Unhandled { event: i as usize },
        ),
    }
}

/// The state after handling the first `n` events.
pub open spec fn pass_through(events: Seq<Event>, n: nat) -> PassState
    decreases n,
{
    if n == 0 {
        PassState { open: Seq::empty(), boxes: Seq::empty(), diagnostics: Seq::empty() }
    } else {
        step(pass_through(events, (n - 1) as nat), events, n - 1)
    }
}

/// The outcome of a whole pass: what the last step left, with one report
/// added for each entry still open.
pub open spec fn reconstruction(events: Seq<Event>) -> PassState {
    let st = pass_through(events, events.len());
    PassState {
        open: st.open,
        boxes: st.boxes,
        diagnostics: st.diagnostics + dangling(st.open),
    }
}

/// An open entry's key agrees with the event it was opened for, where a box
/// built on closing it reads that event.
pub open spec fn anchored(key: OpenBox, d: EventDetails) -> bool {
    match key {
        OpenBox::RcCreate(p) => match d {
            EventDetails::RcCreate { ptr, .. } => ptr == p,
            _ => false,
        },
        OpenBox::ArcCreate(p) => match d {
            EventDetails::ArcCreate { ptr, .. } => ptr == p,
            _ => false,
        },
        OpenBox::VecCreate(p) => match d {
            EventDetails::VecCreate { ptr, .. } => ptr == p,
            _ => false,
        },
        OpenBox::VecResize(p) => match d {
            EventDetails::VecResize { new_ptr, .. } => new_ptr == p,
            _ => false,
        },
        _ => true,
    }
}

/// Every open entry refers to one of the first `n` events, and agrees with it.
pub open spec fn stack_ok(events: Seq<Event>, n: int, s: Seq<(OpenBox, usize)>) -> bool {
    forall|k: int|
        0 <= k < s.len() ==> #[trigger] s[k].1 < n && anchored(s[k].0, events[s[k].1 as int].details)
}

/// Every event of the trace fits in 64-bit addresses.
pub open spec fn all_fit(events: Seq<Event>) -> bool {
    forall|k: int| 0 <= k < events.len() ==> fits(#[trigger] events[k].details)
}

pub proof fn lemma_pop_ok(events: Seq<Event>, n: int, s: Seq<(OpenBox, usize)>, ob: OpenBox)
    requires
        stack_ok(events, n, s),
    ensures
        stack_ok(events, n, popped(s, ob).0),
        match popped(s, ob).1 {
            Some(j) => j < n && anchored(ob, events[j as int].details),
            None => true,
        },
{
    lemma_last_index_is_last(s, ob);
    if let Some(i) = last_index_of(s, ob) {
        s.remove_ensures(i);
        let r = s.remove(i);
        assert forall|k: int| 0 <= k < r.len() implies #[trigger] r[k].1 < n && anchored(
            r[k].0,
            events[r[k].1 as int].details,
        ) by {
            if k >= i {
                assert(r[k] == s[k + 1]);
            } else {
                assert(r[k] == s[k]);
            }
        }
        assert(s[i].1 < n);
    }
}

/// The result of a pass: the boxes emitted, in order, the diagnostics, and the
/// entries never closed.
pub struct Reconstruction {
    pub boxes: Vec<MemBox>,
    pub diagnostics: Vec<Diagnostic>,
    pub open: OpenBoxStack,
}

fn open_entry(
    stack: &mut OpenBoxStack,
    diagnostics: &mut Vec<Diagnostic>,
    key: OpenBox,
    i: usize,
    anchor: usize,
    check: bool,
)
    ensures
        final(stack)@ == old(stack)@.push((key, anchor)),
        final(diagnostics)@ == if check && last_index_of(old(stack)@, key) is Some {
            old(diagnostics)@.push(Diagnostic::Reopened { event: i })
        } else {
            old(diagnostics)@
        },
{
    if check && !stack.assert_dont_know(key) {
        diagnostics.push(Diagnostic::Reopened { event: i });
    }
    stack.push(key, anchor);
}

fn pop_either(stack: &mut OpenBoxStack, first: OpenBox, second: OpenBox) -> (r: Option<usize>)
    ensures
        (final(stack)@, r) == popped_either(old(stack)@, first, second),
{
    let found = stack.pop(first);
    if found.is_some() {
        found
    } else {
        stack.pop(second)
    }
}

/// Handles the event at index `i`: opens or closes an entry, and emits a box
/// or reports what did not pair up.
#[verifier::rlimit(40)]
fn step_event(
    stack: &mut OpenBoxStack,
    boxes: &mut Vec<MemBox>,
    diagnostics: &mut Vec<Diagnostic>,
    events: &[Event],
    i: usize,
)
    requires
        i < events@.len(),
        all_fit(events@),
        stack_ok(events@, i as int, old(stack)@),
    ensures
        stack_ok(events@, i + 1, final(stack)@),
        (PassState {
            open: final(stack)@,
            boxes: final(boxes)@,
            diagnostics: final(diagnostics)@,
        }) == step(
            PassState { open: old(stack)@, boxes: old(boxes)@, diagnostics: old(diagnostics)@ },
            events@,
            i as int,
        ),
{
    let ghost s0 = stack@;
    let e = &events[i];
    let now = e.timestamp;
    proof {
        assert(fits(events@[i as int].details));
    }
    match &e.details {
        EventDetails::Allocate { ptr, .. } => {
            open_entry(stack, diagnostics, OpenBox::Allocate(*ptr), i, i, true);
        },
        EventDetails::Reallocate { inptr, old_size, outptr, .. } => {
            let found = pop_either(stack, OpenBox::Allocate(*inptr), OpenBox::Reallocate(*inptr));
            proof {
                lemma_pop_ok(events@, i as int, s0, OpenBox::Allocate(*inptr));
                lemma_pop_ok(events@, i as int, s0, OpenBox::Reallocate(*inptr));
            }
            match found {
                Some(j) => {
                    boxes.push(
                        MemBox {
                            start_time: events[j].timestamp,
                            end_time: now,
                            start_address: *inptr,
                            end_address: *inptr + *old_size,
                            details: MemDetails::Allocation,
                        },
                    );
                    open_entry(stack, diagnostics, OpenBox::Reallocate(*outptr), i, j, false);
                },
                None => {
                    diagnostics.push(Diagnostic::UnmatchedClose { event: i });
                    open_entry(stack, diagnostics, OpenBox::Reallocate(*outptr), i, i, false);
                },
            }
        },
        EventDetails::Deallocate { ptr, old_size, .. } => {
            let found = pop_either(stack, OpenBox::Allocate(*ptr), OpenBox::Reallocate(*ptr));
            proof {
                lemma_pop_ok(events@, i as int, s0, OpenBox::Allocate(*ptr));
                lemma_pop_ok(events@, i as int, s0, OpenBox::Reallocate(*ptr));
            }
            match found {
                Some(j) => {
                    boxes.push(
                        MemBox {
                            start_time: events[j].timestamp,
                            end_time: now,
                            start_address: *ptr,
                            end_address: *ptr + *old_size,
                            details: MemDetails::Allocation,
                        },
                    );
                },
                None => {
                    proof {
                        lemma_pop_ok(events@, i as int, s0, OpenBox::BoxCreate(*ptr));
                    }
                    match stack.pop(OpenBox::BoxCreate(*ptr)) {
                        Some(j) => {
                            boxes.push(
                                MemBox {
                                    start_time: events[j].timestamp,
                                    end_time: now,
                                    start_address: *ptr,
                                    end_address: *ptr + *old_size,
                                    details: MemDetails::Box,
                                },
                            );
                        },
                        None => {
                            diagnostics.push(Diagnostic::UnmatchedClose { event: i });
                        },
                    }
                },
            }
        },
        EventDetails::BoxCreate { ptr, .. } => {
            open_entry(stack, diagnostics, OpenBox::BoxCreate(*ptr), i, i, true);
        },
        EventDetails::BoxDrop { t, ptr } => {
            proof {
                lemma_pop_ok(events@, i as int, s0, OpenBox::BoxCreate(*ptr));
            }
            match stack.pop(OpenBox::BoxCreate(*ptr)) {
                Some(j) => {
                    boxes.push(
                        MemBox {
                            start_time: events[j].timestamp,
                            end_time: now,
                            start_address: *ptr,
                            end_address: *ptr + t.size,
                            details: MemDetails::Box,
                        },
                    );
                },
                None => {
                    diagnostics.push(Diagnostic::UnmatchedClose { event: i });
                },
            }
        },
        EventDetails::RcCreate { ptr, .. } => {
            open_entry(stack, diagnostics, OpenBox::RcCreate(*ptr), i, i, true);
        },
        EventDetails::RcDrop { ptr, .. } => {
            proof {
                lemma_pop_ok(events@, i as int, s0, OpenBox::RcCreate(*ptr));
            }
            match stack.pop(OpenBox::RcCreate(*ptr)) {
                Some(j) => {
                    // the drop carries no size: it is read back from the creation
                    let size = match &events[j].details {
                        EventDetails::RcCreate { t, .. } => t.size,
                        _ => 0,
                    };
                    proof {
                        assert(fits(events@[j as int].details));
                    }
                    boxes.push(
                        MemBox {
                            start_time: events[j].timestamp,
                            end_time: now,
                            start_address: *ptr,
                            end_address: *ptr + size,
                            details: MemDetails::Rc,
                        },
                    );
                },
                None => {
                    diagnostics.push(Diagnostic::UnmatchedClose { event: i });
                },
            }
        },
        EventDetails::ArcCreate { ptr, .. } => {
            open_entry(stack, diagnostics, OpenBox::ArcCreate(*ptr), i, i, true);
        },
        EventDetails::ArcDrop { ptr, .. } => {
            proof {
                lemma_pop_ok(events@, i as int, s0, OpenBox::ArcCreate(*ptr));
            }
            match stack.pop(OpenBox::ArcCreate(*ptr)) {
                Some(j) => {
                    let size = match &events[j].details {
                        EventDetails::ArcCreate { t, .. } => t.size,
                        _ => 0,
                    };
                    proof {
                        assert(fits(events@[j as int].details));
                    }
                    boxes.push(
                        MemBox {
                            start_time: events[j].timestamp,
                            end_time: now,
                            start_address: *ptr,
                            end_address: *ptr + size,
                            details: MemDetails::Arc,
                        },
                    );
                },
                None => {
                    diagnostics.push(Diagnostic::UnmatchedClose { event: i });
                },
            }
        },
        EventDetails::VecCreate { ptr, .. } => {
            open_entry(stack, diagnostics, OpenBox::VecCreate(*ptr), i, i, true);
        },
        EventDetails::VecResize { old_ptr, new_ptr, .. } => {
            let found = pop_either(stack, OpenBox::VecCreate(*old_ptr), OpenBox::VecResize(*old_ptr));
            proof {
                lemma_pop_ok(events@, i as int, s0, OpenBox::VecCreate(*old_ptr));
                lemma_pop_ok(events@, i as int, s0, OpenBox::VecResize(*old_ptr));
            }
            match found {
                Some(j) => {
                    // the old buffer is described by the event that opened it
                    let (size, len, capacity) = match &events[j].details {
                        EventDetails::VecCreate { t, len, capacity, .. } => (t.size, *len, *capacity),
                        EventDetails::VecResize { t, len, capacity, .. } => (t.size, *len, *capacity),
                        _ => (0, 0, 0),
                    };
                    proof {
                        assert(fits(events@[j as int].details));
                    }
                    boxes.push(
                        MemBox {
                            start_time: events[j].timestamp,
                            end_time: now,
                            start_address: *old_ptr,
                            end_address: *old_ptr + size * capacity,
                            details: MemDetails::Vec { fill: size * len },
                        },
                    );
                },
                None => {
                    diagnostics.push(Diagnostic::UnmatchedClose { event: i });
                },
            }
            open_entry(stack, diagnostics, OpenBox::VecResize(*new_ptr), i, i, false);
        },
        EventDetails::VecDrop { t, len, capacity, ptr } => {
            if *ptr != BOGUS_VEC_PTR {
                let found = pop_either(stack, OpenBox::VecCreate(*ptr), OpenBox::VecResize(*ptr));
                proof {
                    lemma_pop_ok(events@, i as int, s0, OpenBox::VecCreate(*ptr));
                    lemma_pop_ok(events@, i as int, s0, OpenBox::VecResize(*ptr));
                }
                match found {
                    Some(j) => {
                        boxes.push(
                            MemBox {
                                start_time: events[j].timestamp,
                                end_time: now,
                                start_address: *ptr,
                                end_address: *ptr + t.size * *capacity,
                                details: MemDetails::Vec { fill: t.size * *len },
                            },
                        );
                    },
                    None => {
                        diagnostics.push(Diagnostic::UnmatchedClose { event: i });
                    },
                }
            }
        },
        EventDetails::ReallocateInplace { .. } => {
            diagnostics.push(Diagnostic::Unhandled { event: i });
        },
    }
}

/// Runs one pass over `events` in trace order: the boxes, the diagnostics and
/// the entries left open are exactly those of `reconstruction`.
pub fn reconstruct(events: &[Event]) -> (r: Reconstruction)
    requires
        all_fit(events@),
    ensures
        r.boxes@ == reconstruction(events@).boxes,
        r.diagnostics@ == reconstruction(events@).diagnostics,
        r.open@ == reconstruction(events@).open,
{
    let mut open = OpenBoxStack::new();
    let mut boxes: Vec<MemBox> = Vec::new();
    let mut diagnostics: Vec<Diagnostic> = Vec::new();
    let mut i: usize = 0;
    while i < events.len()
        invariant
            i <= events@.len(),
            all_fit(events@),
            stack_ok(events@, i as int, open@),
            (PassState { open: open@, boxes: boxes@, diagnostics: diagnostics@ }) == pass_through(
                events@,
                i as nat,
            ),
        decreases events@.len() - i,
    {
        step_event(&mut open, &mut boxes, &mut diagnostics, events, i);
        i = i + 1;
    }
    let mut dangling_reports = open.assert_empty();
    diagnostics.append(&mut dangling_reports);
    Reconstruction { boxes, diagnostics, open }
}

/// The boxes of one pass over `events`, in the order they were closed.
pub fn build_mem_boxes(events: &[Event]) -> (r: Vec<MemBox>)
    requires
        all_fit(events@),
    ensures
        r@ == reconstruction(events@).boxes,
{
    reconstruct(events).boxes
}

fn sum_fits(lo: u64, size: u64, count: u64) -> (r: bool)
    ensures
        r == (lo + size * count <= u64::MAX),
{
    match size.checked_mul(count) {
        Some(bytes) => lo.checked_add(bytes).is_some(),
        None => false,
    }
}

/// Whether every box that `e` could produce has its addresses and fill in 64 bits.
pub fn event_fits(e: &Event) -> (r: bool)
    ensures
        r == fits(e.details),
{
    match &e.details {
        EventDetails::Reallocate { inptr, old_size, .. } => sum_fits(*inptr, *old_size, 1),
        EventDetails::Deallocate { ptr, old_size, .. } => sum_fits(*ptr, *old_size, 1),
        EventDetails::BoxCreate { t, ptr } => sum_fits(*ptr, t.size, 1),
        EventDetails::BoxDrop { t, ptr } => sum_fits(*ptr, t.size, 1),
        EventDetails::RcCreate { t, ptr } => sum_fits(*ptr, t.size, 1),
        EventDetails::ArcCreate { t, ptr } => sum_fits(*ptr, t.size, 1),
        EventDetails::VecCreate { t, len, capacity, ptr } => sum_fits(*ptr, t.size, *capacity)
            && sum_fits(0, t.size, *len),
        EventDetails::VecResize { t, len, capacity, new_ptr, .. } => sum_fits(
            *new_ptr,
            t.size,
            *capacity,
        ) && sum_fits(0, t.size, *len),
        EventDetails::VecDrop { t, len, capacity, ptr } => *ptr == BOGUS_VEC_PTR || (sum_fits(
            *ptr,
            t.size,
            *capacity,
        ) && sum_fits(0, t.size, *len)),
        _ => true,
    }
}

/// Whether every event of the trace fits, as `reconstruct` requires.
pub fn events_fit(events: &[Event]) -> (r: bool)
    ensures
        r == all_fit(events@),
{
    let mut k: usize = 0;
    while k < events.len()
        invariant
            k <= events@.len(),
            forall|m: int| 0 <= m < k ==> fits(#[trigger] events@[m].details),
        decreases events@.len() - k,
    {
        if !event_fits(&events[k]) {
            return false;
        }
        k = k + 1;
    }
    true
}

} // verus!
