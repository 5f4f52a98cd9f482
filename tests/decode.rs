use memprof::event_log::{parse_details, parse_event, EventDetails, Timestamp, TypeInfo, UnsizedTypeInfo};

#[test]
fn allocate_record_is_read() {
    assert_eq!(
        parse_details("Allocate { size: 16, align: 8, ptr: 4096 }"),
        Some(EventDetails::Allocate { size: 16, align: 8, ptr: 4096 })
    );
}

#[test]
fn records_with_type_descriptions_are_read() {
    assert_eq!(
        parse_details("RcCreate { t: TypeInfo { name: \"alloc::rc::RcBox<u32>\", size: 24 }, ptr: 4096 }"),
        Some(EventDetails::RcCreate {
            t: TypeInfo { name: "alloc::rc::RcBox<u32>".to_string(), size: 24 },
            ptr: 4096
        })
    );
    assert_eq!(
        parse_details("ArcDrop { t: UnsizedTypeInfo { name: \"str\" }, ptr: 7 }"),
        Some(EventDetails::ArcDrop { t: UnsizedTypeInfo { name: "str".to_string() }, ptr: 7 })
    );
    assert_eq!(
        parse_details(
            "VecResize { t: TypeInfo { name: \"u64\", size: 8 }, len: 3, capacity: 8, old_ptr: 8192, new_ptr: 12288 }"
        ),
        Some(EventDetails::VecResize {
            t: TypeInfo { name: "u64".to_string(), size: 8 },
            len: 3,
            capacity: 8,
            old_ptr: 8192,
            new_ptr: 12288
        })
    );
}

#[test]
fn malformed_records_are_refused() {
    assert_eq!(parse_details(""), None);
    assert_eq!(parse_details("Allocate { size: 16, align: 8 }"), None);
    assert_eq!(parse_details("Allocate { align: 8, size: 16, ptr: 1 }"), None);
    assert_eq!(parse_details("Allocate { size: 16, align: 8, ptr: 1 } "), None);
    assert_eq!(parse_details("Frobnicate { size: 16 }"), None);
    assert_eq!(parse_details("Deallocate { ptr: 18446744073709551616, old_size: 1, align: 1 }"), None);
    assert_eq!(parse_details("RcDrop { t: TypeInfo { name: \"x\", size: 1 }, ptr: 1 }"), None);
}

#[test]
fn largest_number_is_read() {
    assert_eq!(
        parse_details("Deallocate { ptr: 18446744073709551615, old_size: 1, align: 1 }"),
        Some(EventDetails::Deallocate { ptr: u64::MAX, old_size: 1, align: 1 })
    );
}

#[test]
fn trace_line_is_read() {
    let e = parse_event("RTINST [3][12.000000500] BoxDrop { t: TypeInfo { name: \"T\", size: 4 }, ptr: 64 }").unwrap();
    assert_eq!(e.thread, 3);
    assert_eq!(e.timestamp, Timestamp { secs: 12, nanos: 500 });
    assert_eq!(e.details, EventDetails::BoxDrop { t: TypeInfo { name: "T".to_string(), size: 4 }, ptr: 64 });
}

#[test]
fn malformed_lines_are_refused() {
    assert!(parse_event("RTINST [3][12.5] ").is_none());
    assert!(parse_event("RTINST [][12.5] Allocate { size: 1, align: 1, ptr: 1 }").is_none());
    assert!(parse_event("RTINST [1][12.1000000000] Allocate { size: 1, align: 1, ptr: 1 }").is_none());
    assert!(parse_event("hello").is_none());
    assert!(parse_event("RTINST [1][2.3] Allocate { size: 1, align: 1, ptr: 1 }").is_some());
}
