use memprof::event_log::{Event, EventDetails, Timestamp, TypeInfo, UnsizedTypeInfo};
use memprof::mem_boxes::{
    build_mem_boxes, event_fits, events_fit, reconstruct, Diagnostic, MemBox, MemDetails, OpenBox,
    OpenBoxStack, BOGUS_VEC_PTR,
};

fn ts(secs: u64) -> Timestamp {
    Timestamp { secs, nanos: 0 }
}

fn ev(secs: u64, details: EventDetails) -> Event {
    Event { thread: 1, timestamp: ts(secs), details }
}

fn ty(size: u64) -> TypeInfo {
    TypeInfo { name: "T".to_string(), size }
}

fn unsized_ty() -> UnsizedTypeInfo {
    UnsizedTypeInfo { name: "T".to_string() }
}

fn mb(start: u64, end: u64, lo: u64, hi: u64, details: MemDetails) -> MemBox {
    MemBox { start_time: ts(start), end_time: ts(end), start_address: lo, end_address: hi, details }
}

#[test]
fn rc_size_is_read_from_creation() {
    let events = vec![
        ev(1, EventDetails::RcCreate { t: ty(24), ptr: 0x1000 }),
        ev(2, EventDetails::RcDrop { t: unsized_ty(), ptr: 0x1000 }),
    ];
    let r = reconstruct(&events);
    assert_eq!(r.boxes, vec![mb(1, 2, 0x1000, 0x1018, MemDetails::Rc)]);
    assert!(r.diagnostics.is_empty());
}

#[test]
fn arc_size_is_read_from_creation() {
    let events = vec![
        ev(1, EventDetails::ArcCreate { t: ty(16), ptr: 0x1000 }),
        ev(3, EventDetails::ArcDrop { t: unsized_ty(), ptr: 0x1000 }),
    ];
    assert_eq!(build_mem_boxes(&events), vec![mb(1, 3, 0x1000, 0x1010, MemDetails::Arc)]);
}

#[test]
fn vec_resize_chain_gives_two_boxes() {
    let events = vec![
        ev(1, EventDetails::VecCreate { t: ty(8), len: 2, capacity: 4, ptr: 0x2000 }),
        ev(2, EventDetails::VecResize { t: ty(8), len: 3, capacity: 8, old_ptr: 0x2000, new_ptr: 0x3000 }),
        ev(3, EventDetails::VecDrop { t: ty(8), len: 3, capacity: 8, ptr: 0x3000 }),
    ];
    let r = reconstruct(&events);
    assert_eq!(
        r.boxes,
        vec![
            mb(1, 2, 0x2000, 0x2020, MemDetails::Vec { fill: 16 }),
            mb(2, 3, 0x3000, 0x3040, MemDetails::Vec { fill: 24 }),
        ]
    );
    assert!(r.diagnostics.is_empty());
    assert!(r.open.0.is_empty());
}

#[test]
fn vec_drop_with_bogus_pointer_is_skipped() {
    let events = vec![ev(1, EventDetails::VecDrop { t: ty(8), len: 1, capacity: 1, ptr: BOGUS_VEC_PTR })];
    let r = reconstruct(&events);
    assert!(r.boxes.is_empty());
    assert!(r.diagnostics.is_empty());
}

#[test]
fn unclosed_allocation_is_reported_once() {
    let events = vec![
        ev(1, EventDetails::Allocate { size: 16, align: 8, ptr: 0x500 }),
        ev(2, EventDetails::Allocate { size: 16, align: 8, ptr: 0x600 }),
        ev(3, EventDetails::Deallocate { ptr: 0x600, old_size: 16, align: 8 }),
    ];
    let r = reconstruct(&events);
    assert_eq!(r.open.0, vec![(OpenBox::Allocate(0x500), 0)]);
    assert_eq!(r.diagnostics, vec![Diagnostic::DanglingOpen { key: OpenBox::Allocate(0x500), event: 0 }]);
    assert_eq!(r.boxes, vec![mb(2, 3, 0x600, 0x610, MemDetails::Allocation)]);
}

#[test]
fn reopened_key_is_matched_newest_first() {
    let events = vec![
        ev(1, EventDetails::BoxCreate { t: ty(8), ptr: 0x700 }),
        ev(2, EventDetails::BoxCreate { t: ty(8), ptr: 0x700 }),
        ev(3, EventDetails::BoxDrop { t: ty(8), ptr: 0x700 }),
        ev(4, EventDetails::BoxDrop { t: ty(8), ptr: 0x700 }),
    ];
    let r = reconstruct(&events);
    assert_eq!(
        r.boxes,
        vec![mb(2, 3, 0x700, 0x708, MemDetails::Box), mb(1, 4, 0x700, 0x708, MemDetails::Box)]
    );
    assert_eq!(r.diagnostics, vec![Diagnostic::Reopened { event: 1 }]);
}

#[test]
fn allocation_pairs_with_deallocation() {
    let events = vec![
        ev(5, EventDetails::Allocate { size: 32, align: 8, ptr: 0x100 }),
        ev(7, EventDetails::BoxCreate { t: ty(4), ptr: 0x900 }),
        ev(9, EventDetails::Deallocate { ptr: 0x100, old_size: 32, align: 8 }),
    ];
    let boxes = build_mem_boxes(&events);
    assert_eq!(boxes, vec![mb(5, 9, 0x100, 0x120, MemDetails::Allocation)]);
}

#[test]
fn deallocation_closes_a_box_without_drop() {
    let events = vec![
        ev(1, EventDetails::BoxCreate { t: ty(12), ptr: 0x800 }),
        ev(2, EventDetails::Deallocate { ptr: 0x800, old_size: 16, align: 8 }),
    ];
    let r = reconstruct(&events);
    assert_eq!(r.boxes, vec![mb(1, 2, 0x800, 0x810, MemDetails::Box)]);
    assert!(r.diagnostics.is_empty());
}

#[test]
fn deallocation_prefers_raw_allocation_over_box() {
    let events = vec![
        ev(1, EventDetails::Allocate { size: 16, align: 8, ptr: 0x800 }),
        ev(2, EventDetails::BoxCreate { t: ty(16), ptr: 0x800 }),
        ev(3, EventDetails::Deallocate { ptr: 0x800, old_size: 16, align: 8 }),
    ];
    let r = reconstruct(&events);
    assert_eq!(r.boxes, vec![mb(1, 3, 0x800, 0x810, MemDetails::Allocation)]);
    assert_eq!(r.open.0, vec![(OpenBox::BoxCreate(0x800), 1)]);
}

#[test]
fn reallocation_chain_keeps_first_start_time() {
    let events = vec![
        ev(1, EventDetails::Allocate { size: 8, align: 8, ptr: 0x100 }),
        ev(2, EventDetails::Reallocate { inptr: 0x100, old_size: 8, size: 16, align: 8, outptr: 0x200 }),
        ev(3, EventDetails::Reallocate { inptr: 0x200, old_size: 16, size: 32, align: 8, outptr: 0x200 }),
        ev(4, EventDetails::Deallocate { ptr: 0x200, old_size: 32, align: 8 }),
    ];
    let r = reconstruct(&events);
    assert_eq!(
        r.boxes,
        vec![
            mb(1, 2, 0x100, 0x108, MemDetails::Allocation),
            mb(1, 3, 0x200, 0x210, MemDetails::Allocation),
            mb(1, 4, 0x200, 0x220, MemDetails::Allocation),
        ]
    );
    assert!(r.diagnostics.is_empty());
}

#[test]
fn unmatched_reallocation_still_opens_its_output() {
    let events = vec![
        ev(1, EventDetails::Reallocate { inptr: 0x100, old_size: 8, size: 16, align: 8, outptr: 0x200 }),
        ev(2, EventDetails::Deallocate { ptr: 0x200, old_size: 16, align: 8 }),
    ];
    let r = reconstruct(&events);
    assert_eq!(r.diagnostics, vec![Diagnostic::UnmatchedClose { event: 0 }]);
    assert_eq!(r.boxes, vec![mb(1, 2, 0x200, 0x210, MemDetails::Allocation)]);
}

#[test]
fn unmatched_closes_are_reported() {
    let events = vec![
        ev(1, EventDetails::Deallocate { ptr: 0x10, old_size: 8, align: 8 }),
        ev(2, EventDetails::BoxDrop { t: ty(8), ptr: 0x20 }),
        ev(3, EventDetails::RcDrop { t: unsized_ty(), ptr: 0x30 }),
        ev(4, EventDetails::ArcDrop { t: unsized_ty(), ptr: 0x40 }),
        ev(5, EventDetails::VecDrop { t: ty(8), len: 0, capacity: 0, ptr: 0x50 }),
    ];
    let r = reconstruct(&events);
    assert!(r.boxes.is_empty());
    assert_eq!(
        r.diagnostics,
        (0..5).map(|event| Diagnostic::UnmatchedClose { event }).collect::<Vec<_>>()
    );
}

#[test]
fn in_place_reallocation_is_unhandled() {
    let events = vec![ev(1, EventDetails::ReallocateInplace { ptr: 0x10, old_size: 8, size: 16, align: 8 })];
    let r = reconstruct(&events);
    assert!(r.boxes.is_empty());
    assert_eq!(r.diagnostics, vec![Diagnostic::Unhandled { event: 0 }]);
}

#[test]
fn unmatched_vec_resize_opens_new_side() {
    let events = vec![
        ev(1, EventDetails::VecResize { t: ty(4), len: 1, capacity: 2, old_ptr: 0x10, new_ptr: 0x20 }),
        ev(2, EventDetails::VecDrop { t: ty(4), len: 2, capacity: 4, ptr: 0x20 }),
    ];
    let r = reconstruct(&events);
    assert_eq!(r.diagnostics, vec![Diagnostic::UnmatchedClose { event: 0 }]);
    assert_eq!(r.boxes, vec![mb(1, 2, 0x20, 0x30, MemDetails::Vec { fill: 8 })]);
}

#[test]
fn open_box_stack_is_last_in_first_out() {
    let mut s = OpenBoxStack::new();
    s.push(OpenBox::Allocate(1), 0);
    s.push(OpenBox::BoxCreate(1), 1);
    s.push(OpenBox::Allocate(1), 2);
    assert!(!s.assert_dont_know(OpenBox::Allocate(1)));
    assert!(s.assert_dont_know(OpenBox::RcCreate(1)));
    assert_eq!(s.pop(OpenBox::Allocate(1)), Some(2));
    assert_eq!(s.pop(OpenBox::Allocate(1)), Some(0));
    assert_eq!(s.pop(OpenBox::Allocate(1)), None);
    assert_eq!(s.0, vec![(OpenBox::BoxCreate(1), 1)]);
    assert_eq!(s.assert_empty(), vec![Diagnostic::DanglingOpen { key: OpenBox::BoxCreate(1), event: 1 }]);
}

#[test]
fn overflowing_events_do_not_fit() {
    let big = ev(1, EventDetails::Deallocate { ptr: u64::MAX, old_size: 1, align: 1 });
    let edge = ev(1, EventDetails::Deallocate { ptr: u64::MAX - 1, old_size: 1, align: 1 });
    let vec_big = ev(1, EventDetails::VecCreate { t: ty(1 << 33), len: 1, capacity: 1 << 31, ptr: 0 });
    assert!(!event_fits(&big));
    assert!(event_fits(&edge));
    assert!(!event_fits(&vec_big));
    assert!(events_fit(&[edge.clone()]));
    assert!(!events_fit(&[edge, big]));
}
