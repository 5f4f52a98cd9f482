use memprof::event_log::Timestamp;
use memprof::mem_boxes::{MemBox, MemDetails};
use memprof::profile::{build_profile, compute_metrics, without_placeholders, Metrics};

fn b(start: (u64, u32), end: (u64, u32), lo: u64, hi: u64) -> MemBox {
    MemBox {
        start_time: Timestamp { secs: start.0, nanos: start.1 },
        end_time: Timestamp { secs: end.0, nanos: end.1 },
        start_address: lo,
        end_address: hi,
        details: MemDetails::Allocation,
    }
}

#[test]
fn placeholder_boxes_are_left_out() {
    let boxes = vec![b((1, 0), (2, 0), 0x100, 0x110), b((0, 5), (9, 0), 1, 0x9000), b((3, 0), (4, 0), 0x50, 0x60)];
    let kept = without_placeholders(&boxes);
    assert_eq!(kept, vec![boxes[0], boxes[2]]);
    let p = build_profile(&boxes).unwrap();
    assert_eq!(p.mem_boxes, kept);
    assert_eq!(
        p.metrics,
        Metrics {
            min_address: 0x50,
            max_address: 0x110,
            min_time: Timestamp { secs: 1, nanos: 0 },
            max_time: Timestamp { secs: 4, nanos: 0 },
        }
    );
}

#[test]
fn metrics_compare_nanoseconds_within_a_second() {
    let boxes = vec![b((2, 500), (3, 10), 0x10, 0x20), b((2, 40), (3, 900), 0x30, 0x38)];
    let m = compute_metrics(&boxes).unwrap();
    assert_eq!(m.min_time, Timestamp { secs: 2, nanos: 40 });
    assert_eq!(m.max_time, Timestamp { secs: 3, nanos: 900 });
    assert_eq!(m.min_address, 0x10);
    assert_eq!(m.max_address, 0x38);
}

#[test]
fn no_boxes_give_no_metrics() {
    assert!(compute_metrics(&[]).is_none());
    assert!(build_profile(&[b((0, 0), (1, 0), 1, 8)]).is_none());
}
