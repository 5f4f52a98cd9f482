//! The records of a trace: one event per line, each from one thread at one time.
//!
//! A line reads `RTINST [thread][secs.nanos] details`, where the details are
//! a record `Name { label: value, ... }` of one `EventDetails` variant, its
//! fields in the order of declaration. A value is a decimal number, or a type
//! description `TypeInfo { name: "..", size: N }` or
//! `UnsizedTypeInfo { name: ".." }`.
use vstd::prelude::*;
use vstd::string::StrSliceExecFns;
use crate::text::{
    literal_at, number_at, run_end, scan_literal, scan_number, scan_run, text_is, CharClass,
};

verus! {

/// A point in time, as seconds and nanoseconds since the start of a trace.
#[derive(Clone, Copy, Debug, PartialEq, Eq, Structural)]
pub struct Timestamp {
    pub secs: u64,
    pub nanos: u32,
}

impl Timestamp {
    /// Timestamps are ordered by seconds, then by nanoseconds.
    pub open spec fn spec_le(self, other: Timestamp) -> bool {
        self.secs < other.secs || (self.secs == other.secs && self.nanos <= other.nanos)
    }

    /// Whether `self` comes no later than `other`.
    pub fn le(&self, other: &Timestamp) -> (r: bool)
        ensures
            r == self.spec_le(*other),
    {
        self.secs < other.secs || (self.secs == other.secs && self.nanos <= other.nanos)
    }
}

/// One record of the trace.
#[derive(Clone, Debug, PartialEq, Eq)]
pub struct Event {
    pub thread: u64,
    pub timestamp: Timestamp,
    pub details: EventDetails,
}

/// What happened: a call of the allocator, or a step in the life of a container.
#[derive(Clone, Debug, PartialEq, Eq)]
pub enum EventDetails {
    Allocate { size: u64, align: u64, ptr: u64 },
    Reallocate { inptr: u64, old_size: u64, size: u64, align: u64, outptr: u64 },
    ReallocateInplace { ptr: u64, old_size: u64, size: u64, align: u64 },
    Deallocate { ptr: u64, old_size: u64, align: u64 },
    BoxCreate { t: TypeInfo, ptr: u64 },
    BoxDrop { t: TypeInfo, ptr: u64 },
    RcCreate { t: TypeInfo, ptr: u64 },
    RcDrop { t: UnsizedTypeInfo, ptr: u64 },
    ArcCreate { t: TypeInfo, ptr: u64 },
    ArcDrop { t: UnsizedTypeInfo, ptr: u64 },
    VecCreate { t: TypeInfo, len: u64, capacity: u64, ptr: u64 },
    VecResize { t: TypeInfo, len: u64, capacity: u64, old_ptr: u64, new_ptr: u64 },
    VecDrop { t: TypeInfo, len: u64, capacity: u64, ptr: u64 },
}

/// A type's name and the size in bytes of one value of it.
#[derive(Clone, Debug, PartialEq, Eq)]
pub struct TypeInfo {
    pub name: String,
    pub size: u64,
}

/// A type's name alone, for a type whose size is not known statically.
#[derive(Clone, Debug, PartialEq, Eq)]
pub struct UnsizedTypeInfo {
    pub name: String,
}

/// The value of one field of a record, as written: a number, or a type's
/// description with or without its size.
pub enum FieldText {
    Num(u64),
    Sized(Seq<char>, u64),
    Unsized(Seq<char>),
}

/// The type description at `pos`, `TypeInfo { name: "..", size: N }` or
/// `UnsizedTypeInfo { name: ".." }`, and where it ends.
pub open spec fn type_info_at(s: Seq<char>, pos: int) -> Option<(FieldText, int)> {
    match literal_at(s, pos, "TypeInfo { name: \""@) {
        Some(p) => {
            let e = run_end(s, p, CharClass::Text);
            match literal_at(s, e, "\", size: "@) {
                Some(q) => match number_at(s, q) {
                    Some((v, r)) => match literal_at(s, r, " }"@) {
                        Some(z) => Some((FieldText::Sized(s.subrange(p, e), v), z)),
                        None => None,
                    },
                    None => None,
                },
                None => None,
            }
        },
        None => match literal_at(s, pos, "UnsizedTypeInfo { name: \""@) {
            Some(p) => {
                let e = run_end(s, p, CharClass::Text);
                match literal_at(s, e, "\" }"@) {
                    Some(z) => Some((FieldText::Unsized(s.subrange(p, e)), z)),
                    None => None,
                }
            },
            None => None,
        },
    }
}

/// The field value at `pos` and where it ends.
pub open spec fn value_at(s: Seq<char>, pos: int) -> Option<(FieldText, int)> {
    match number_at(s, pos) {
        Some((v, e)) => Some((FieldText::Num(v), e)),
        None => type_info_at(s, pos),
    }
}

/// The field `label: value` at `pos` and where it ends.
pub open spec fn field_at(s: Seq<char>, pos: int) -> Option<((Seq<char>, FieldText), int)> {
    let e = run_end(s, pos, CharClass::Ident);
    if pos < e {
        match literal_at(s, e, ": "@) {
            Some(p) => match value_at(s, p) {
                Some((v, q)) => Some(((s.subrange(pos, e), v), q)),
                None => None,
            },
            None => None,
        }
    } else {
        None
    }
}

/// The fields at `pos`, at most `fuel` of them, separated by `, ` and closed
/// by ` }`, and where the closing ends.
pub open spec fn fields_from(s: Seq<char>, pos: int, fuel: nat) -> Option<
    (Seq<(Seq<char>, FieldText)>, int),
>
    decreases fuel,
{
    if fuel == 0 {
        None
    } else {
        match field_at(s, pos) {
            Some((f, p)) => match literal_at(s, p, " }"@) {
                Some(q) => Some((seq![f], q)),
                None => match literal_at(s, p, ", "@) {
                    Some(q) => match fields_from(s, q, (fuel - 1) as nat) {
                        Some((rest, e)) => Some((seq![f] + rest, e)),
                        None => None,
                    },
                    None => None,
                },
            },
            None => None,
        }
    }
}

/// The most fields a record has.
pub const MAX_FIELDS: usize = 5;

/// The record that `s` is, `Name { label: value, ... }`, as its name and its
/// fields, where `s` is one.
pub open spec fn record_of(s: Seq<char>) -> Option<(Seq<char>, Seq<(Seq<char>, FieldText)>)> {
    let e = run_end(s, 0, CharClass::Ident);
    if 0 < e {
        match literal_at(s, e, " { "@) {
            Some(p) => match fields_from(s, p, MAX_FIELDS as nat) {
                Some((fs, end)) => if end == s.len() {
                    Some((s.subrange(0, e), fs))
                } else {
                    None
                },
                None => None,
            },
            None => None,
        }
    } else {
        None
    }
}

pub open spec fn sized_text(t: TypeInfo) -> FieldText {
    FieldText::Sized(t.name@, t.size)
}

pub open spec fn unsized_text(t: UnsizedTypeInfo) -> FieldText {
    FieldText::Unsized(t.name@)
}

/// The record that stands for `d`: its variant's name, and its fields in
/// the order of declaration.
pub open spec fn fields_of(d: EventDetails) -> (Seq<char>, Seq<(Seq<char>, FieldText)>) {
    match d {
        EventDetails::Allocate { size, align, ptr } => (
            "Allocate"@,
            seq![("size"@, FieldText::Num(size)), ("align"@, FieldText::Num(align)), ("ptr"@, FieldText::Num(ptr))],
        ),
        EventDetails::Reallocate { inptr, old_size, size, align, outptr } => (
            "Reallocate"@,
            seq![
                ("inptr"@, FieldText::Num(inptr)),
                ("old_size"@, FieldText::Num(old_size)),
                ("size"@, FieldText::Num(size)),
                ("align"@, FieldText::Num(align)),
                ("outptr"@, FieldText::Num(outptr)),
            ],
        ),
        EventDetails::ReallocateInplace { ptr, old_size, size, align } => (
            "ReallocateInplace"@,
            seq![
                ("ptr"@, FieldText::Num(ptr)),
                ("old_size"@, FieldText::Num(old_size)),
                ("size"@, FieldText::Num(size)),
                ("align"@, FieldText::Num(align)),
            ],
        ),
        EventDetails::Deallocate { ptr, old_size, align } => (
            "Deallocate"@,
            seq![("ptr"@, FieldText::Num(ptr)), ("old_size"@, FieldText::Num(old_size)), ("align"@, FieldText::Num(align))],
        ),
        EventDetails::BoxCreate { t, ptr } => ("BoxCreate"@, seq![("t"@, sized_text(t)), ("ptr"@, FieldText::Num(ptr))]),
        EventDetails::BoxDrop { t, ptr } => ("BoxDrop"@, seq![("t"@, sized_text(t)), ("ptr"@, FieldText::Num(ptr))]),
        EventDetails::RcCreate { t, ptr } => ("RcCreate"@, seq![("t"@, sized_text(t)), ("ptr"@, FieldText::Num(ptr))]),
        EventDetails::RcDrop { t, ptr } => ("RcDrop"@, seq![("t"@, unsized_text(t)), ("ptr"@, FieldText::Num(ptr))]),
        EventDetails::ArcCreate { t, ptr } => ("ArcCreate"@, seq![("t"@, sized_text(t)), ("ptr"@, FieldText::Num(ptr))]),
        EventDetails::ArcDrop { t, ptr } => ("ArcDrop"@, seq![("t"@, unsized_text(t)), ("ptr"@, FieldText::Num(ptr))]),
        EventDetails::VecCreate { t, len, capacity, ptr } => (
            "VecCreate"@,
            seq![
                ("t"@, sized_text(t)),
                ("len"@, FieldText::Num(len)),
                ("capacity"@, FieldText::Num(capacity)),
                ("ptr"@, FieldText::Num(ptr)),
            ],
        ),
        EventDetails::VecResize { t, len, capacity, old_ptr, new_ptr } => (
            "VecResize"@,
            seq![
                ("t"@, sized_text(t)),
                ("len"@, FieldText::Num(len)),
                ("capacity"@, FieldText::Num(capacity)),
                ("old_ptr"@, FieldText::Num(old_ptr)),
                ("new_ptr"@, FieldText::Num(new_ptr)),
            ],
        ),
        EventDetails::VecDrop { t, len, capacity, ptr } => (
            "VecDrop"@,
            seq![
                ("t"@, sized_text(t)),
                ("len"@, FieldText::Num(len)),
                ("capacity"@, FieldText::Num(capacity)),
                ("ptr"@, FieldText::Num(ptr)),
            ],
        ),
    }
}

/// A field's value as read.
enum FieldValue {
    Num(u64),
    Sized(TypeInfo),
    Unsized(UnsizedTypeInfo),
}

/// A field as read: where its label stands in the text, and its value.
struct Field {
    label_start: usize,
    label_end: usize,
    value: FieldValue,
}

spec fn value_text(v: FieldValue) -> FieldText {
    match v {
        FieldValue::Num(x) => FieldText::Num(x),
        FieldValue::Sized(t) => sized_text(t),
        FieldValue::Unsized(t) => unsized_text(t),
    }
}

spec fn field_text(s: Seq<char>, f: Field) -> (Seq<char>, FieldText) {
    (s.subrange(f.label_start as int, f.label_end as int), value_text(f.value))
}

spec fn fields_text(s: Seq<char>, fs: Seq<Field>) -> Seq<(Seq<char>, FieldText)> {
    fs.map_values(|f: Field| field_text(s, f))
}

/// Every label lies within a text of length `n`.
spec fn labels_within(fs: Seq<Field>, n: int) -> bool {
    forall|i: int| 0 <= i < fs.len() ==> #[trigger] fs[i].label_start <= fs[i].label_end <= n
}

fn read_type_info(s: &str, n: usize, pos: usize) -> (r: Option<(FieldValue, usize)>)
    requires
        n == s@.len(),
        pos <= n,
    ensures
        match r {
            Some((v, e)) => type_info_at(s@, pos as int) == Some((value_text(v), e as int)) && e <= n,
            None => type_info_at(s@, pos as int) is None,
        },
{
    match scan_literal(s, n, pos, "TypeInfo { name: \"") {
        Some(p) => {
            let e = scan_run(s, n, p, CharClass::Text);
            match scan_literal(s, n, e, "\", size: ") {
                Some(q) => match scan_number(s, n, q) {
                    Some((size, r)) => match scan_literal(s, n, r, " }") {
                        Some(z) => {
                            let name = s.substring_char(p, e).to_owned();
                            Some((FieldValue::Sized(TypeInfo { name, size }), z))
                        },
                        None => None,
                    },
                    None => None,
                },
                None => None,
            }
        },
        None => match scan_literal(s, n, pos, "UnsizedTypeInfo { name: \"") {
            Some(p) => {
                let e = scan_run(s, n, p, CharClass::Text);
                match scan_literal(s, n, e, "\" }") {
                    Some(z) => {
                        let name = s.substring_char(p, e).to_owned();
                        Some((FieldValue::Unsized(UnsizedTypeInfo { name }), z))
                    },
                    None => None,
                }
            },
            None => None,
        },
    }
}

fn read_field(s: &str, n: usize, pos: usize) -> (r: Option<(Field, usize)>)
    requires
        n == s@.len(),
        pos <= n,
    ensures
        match r {
            Some((f, e)) => field_at(s@, pos as int) == Some((field_text(s@, f), e as int)) && e
                <= n && f.label_start <= f.label_end <= n,
            None => field_at(s@, pos as int) is None,
        },
{
    let e = scan_run(s, n, pos, CharClass::Ident);
    if e == pos {
        return None;
    }
    match scan_literal(s, n, e, ": ") {
        Some(p) => {
            let v = match scan_number(s, n, p) {
                Some((x, q)) => Some((FieldValue::Num(x), q)),
                None => read_type_info(s, n, p),
            };
            match v {
                Some((value, q)) => Some((Field { label_start: pos, label_end: e, value }, q)),
                None => None,
            }
        },
        None => None,
    }
}

fn read_fields(s: &str, n: usize, pos: usize, fuel: usize) -> (r: Option<(Vec<Field>, usize)>)
    requires
        n == s@.len(),
        pos <= n,
    ensures
        match r {
            Some((fs, e)) => fields_from(s@, pos as int, fuel as nat) == Some(
                (fields_text(s@, fs@), e as int),
            ) && e <= n && labels_within(fs@, n as int),
            None => fields_from(s@, pos as int, fuel as nat) is None,
        },
    decreases fuel,
{
    if fuel == 0 {
        return None;
    }
    match read_field(s, n, pos) {
        Some((f, p)) => match scan_literal(s, n, p, " }") {
            Some(q) => {
                let mut fs: Vec<Field> = Vec::new();
                fs.push(f);
                proof {
                    assert(fields_text(s@, fs@) =~= seq![field_text(s@, f)]);
                }
                Some((fs, q))
            },
            None => match scan_literal(s, n, p, ", ") {
                Some(q) => match read_fields(s, n, q, fuel - 1) {
                    Some((rest, e)) => {
                        let ghost tail = rest@;
                        let ghost head = field_text(s@, f);
                        let mut fs = rest;
                        fs.insert(0, f);
                        proof {
                            assert(fields_text(s@, fs@) =~= seq![head] + fields_text(s@, tail));
                            assert forall|i: int| 0 <= i < fs@.len() implies #[trigger] fs@[i].label_start
                                <= fs@[i].label_end <= n by {
                                if i > 0 {
                                    assert(fs@[i] == tail[i - 1]);
                                }
                            }
                        }
                        Some((fs, e))
                    },
                    None => None,
                },
                None => None,
            },
        },
        None => None,
    }
}

fn num_of(s: &str, n: usize, f: &Field, label: &str) -> (r: Option<u64>)
    requires
        n == s@.len(),
        f.label_start <= f.label_end <= n,
    ensures
        match r {
            Some(v) => field_text(s@, *f) == (label@, FieldText::Num(v)),
            None => forall|v: u64| field_text(s@, *f) != (label@, FieldText::Num(v)),
        },
{
    if text_is(s, n, f.label_start, f.label_end, label) {
        match &f.value {
            FieldValue::Num(v) => Some(*v),
            _ => None,
        }
    } else {
        None
    }
}

fn sized_of(s: &str, n: usize, f: &Field, label: &str) -> (r: Option<TypeInfo>)
    requires
        n == s@.len(),
        f.label_start <= f.label_end <= n,
    ensures
        match r {
            Some(t) => field_text(s@, *f) == (label@, sized_text(t)),
            None => forall|t: TypeInfo| field_text(s@, *f) != (label@, sized_text(t)),
        },
{
    if text_is(s, n, f.label_start, f.label_end, label) {
        match &f.value {
            FieldValue::Sized(t) => Some(TypeInfo { name: t.name.clone(), size: t.size }),
            _ => None,
        }
    } else {
        None
    }
}

fn unsized_of(s: &str, n: usize, f: &Field, label: &str) -> (r: Option<UnsizedTypeInfo>)
    requires
        n == s@.len(),
        f.label_start <= f.label_end <= n,
    ensures
        match r {
            Some(t) => field_text(s@, *f) == (label@, unsized_text(t)),
            None => forall|t: UnsizedTypeInfo| field_text(s@, *f) != (label@, unsized_text(t)),
        },
{
    if text_is(s, n, f.label_start, f.label_end, label) {
        match &f.value {
            FieldValue::Unsized(t) => Some(UnsizedTypeInfo { name: t.name.clone() }),
            _ => None,
        }
    } else {
        None
    }
}

/// The event details whose record has the name `s[0..name_end]` and the
/// fields `fs`, if any variant's record has them.
#[verifier::rlimit(60)]
fn details_from(s: &str, n: usize, name_end: usize, fs: &Vec<Field>) -> (r: Option<EventDetails>)
    requires
        n == s@.len(),
        name_end <= n,
        labels_within(fs@, n as int),
    ensures
        match r {
            Some(d) => fields_of(d) == (s@.subrange(0, name_end as int), fields_text(s@, fs@)),
            None => forall|d: EventDetails|
                fields_of(d) != (s@.subrange(0, name_end as int), fields_text(s@, fs@)),
        },
{
    proof {
        assert forall|i: int| 0 <= i < fs@.len() implies #[trigger] fields_text(s@, fs@)[i]
            == field_text(s@, fs@[i]) by {}
    }
    if text_is(s, n, 0, name_end, "Allocate") && fs.len() == 3 {
        let size = num_of(s, n, &fs[0], "size");
        let align = num_of(s, n, &fs[1], "align");
        let ptr = num_of(s, n, &fs[2], "ptr");
        if let (Some(size), Some(align), Some(ptr)) = (size, align, ptr) {
            proof {
                assert(fields_text(s@, fs@) =~= fields_of(EventDetails::Allocate { size, align, ptr }).1);
            }
            return Some(EventDetails::Allocate { size, align, ptr });
        }
    }
    if text_is(s, n, 0, name_end, "Reallocate") && fs.len() == 5 {
        let inptr = num_of(s, n, &fs[0], "inptr");
        let old_size = num_of(s, n, &fs[1], "old_size");
        let size = num_of(s, n, &fs[2], "size");
        let align = num_of(s, n, &fs[3], "align");
        let outptr = num_of(s, n, &fs[4], "outptr");
        if let (Some(inptr), Some(old_size), Some(size), Some(align), Some(outptr)) = (inptr, old_size, size, align, outptr) {
            proof {
                assert(fields_text(s@, fs@) =~= fields_of(EventDetails::Reallocate { inptr, old_size, size, align, outptr }).1);
            }
            return Some(EventDetails::Reallocate { inptr, old_size, size, align, outptr });
        }
    }
    if text_is(s, n, 0, name_end, "ReallocateInplace") && fs.len() == 4 {
        let ptr = num_of(s, n, &fs[0], "ptr");
        let old_size = num_of(s, n, &fs[1], "old_size");
        let size = num_of(s, n, &fs[2], "size");
        let align = num_of(s, n, &fs[3], "align");
        if let (Some(ptr), Some(old_size), Some(size), Some(align)) = (ptr, old_size, size, align) {
            proof {
                assert(fields_text(s@, fs@) =~= fields_of(EventDetails::ReallocateInplace { ptr, old_size, size, align }).1);
            }
            return Some(EventDetails::ReallocateInplace { ptr, old_size, size, align });
        }
    }
    if text_is(s, n, 0, name_end, "Deallocate") && fs.len() == 3 {
        let ptr = num_of(s, n, &fs[0], "ptr");
        let old_size = num_of(s, n, &fs[1], "old_size");
        let align = num_of(s, n, &fs[2], "align");
        if let (Some(ptr), Some(old_size), Some(align)) = (ptr, old_size, align) {
            proof {
                assert(fields_text(s@, fs@) =~= fields_of(EventDetails::Deallocate { ptr, old_size, align }).1);
            }
            return Some(EventDetails::Deallocate { ptr, old_size, align });
        }
    }
    if text_is(s, n, 0, name_end, "BoxCreate") && fs.len() == 2 {
        let t = sized_of(s, n, &fs[0], "t");
        let ptr = num_of(s, n, &fs[1], "ptr");
        if let (Some(t), Some(ptr)) = (t, ptr) {
            proof {
                assert(fields_text(s@, fs@) =~= fields_of(EventDetails::BoxCreate { t, ptr }).1);
            }
            return Some(EventDetails::BoxCreate { t, ptr });
        }
    }
    if text_is(s, n, 0, name_end, "BoxDrop") && fs.len() == 2 {
        let t = sized_of(s, n, &fs[0], "t");
        let ptr = num_of(s, n, &fs[1], "ptr");
        if let (Some(t), Some(ptr)) = (t, ptr) {
            proof {
                assert(fields_text(s@, fs@) =~= fields_of(EventDetails::BoxDrop { t, ptr }).1);
            }
            return Some(EventDetails::BoxDrop { t, ptr });
        }
    }
    if text_is(s, n, 0, name_end, "RcCreate") && fs.len() == 2 {
        let t = sized_of(s, n, &fs[0], "t");
        let ptr = num_of(s, n, &fs[1], "ptr");
        if let (Some(t), Some(ptr)) = (t, ptr) {
            proof {
                assert(fields_text(s@, fs@) =~= fields_of(EventDetails::RcCreate { t, ptr }).1);
            }
            return Some(EventDetails::RcCreate { t, ptr });
        }
    }
    if text_is(s, n, 0, name_end, "RcDrop") && fs.len() == 2 {
        let t = unsized_of(s, n, &fs[0], "t");
        let ptr = num_of(s, n, &fs[1], "ptr");
        if let (Some(t), Some(ptr)) = (t, ptr) {
            proof {
                assert(fields_text(s@, fs@) =~= fields_of(EventDetails::RcDrop { t, ptr }).1);
            }
            return Some(EventDetails::RcDrop { t, ptr });
        }
    }
    if text_is(s, n, 0, name_end, "ArcCreate") && fs.len() == 2 {
        let t = sized_of(s, n, &fs[0], "t");
        let ptr = num_of(s, n, &fs[1], "ptr");
        if let (Some(t), Some(ptr)) = (t, ptr) {
            proof {
                assert(fields_text(s@, fs@) =~= fields_of(EventDetails::ArcCreate { t, ptr }).1);
            }
            return Some(EventDetails::ArcCreate { t, ptr });
        }
    }
    if text_is(s, n, 0, name_end, "ArcDrop") && fs.len() == 2 {
        let t = unsized_of(s, n, &fs[0], "t");
        let ptr = num_of(s, n, &fs[1], "ptr");
        if let (Some(t), Some(ptr)) = (t, ptr) {
            proof {
                assert(fields_text(s@, fs@) =~= fields_of(EventDetails::ArcDrop { t, ptr }).1);
            }
            return Some(EventDetails::ArcDrop { t, ptr });
        }
    }
    if text_is(s, n, 0, name_end, "VecCreate") && fs.len() == 4 {
        let t = sized_of(s, n, &fs[0], "t");
        let len = num_of(s, n, &fs[1], "len");
        let capacity = num_of(s, n, &fs[2], "capacity");
        let ptr = num_of(s, n, &fs[3], "ptr");
        if let (Some(t), Some(len), Some(capacity), Some(ptr)) = (t, len, capacity, ptr) {
            proof {
                assert(fields_text(s@, fs@) =~= fields_of(EventDetails::VecCreate { t, len, capacity, ptr }).1);
            }
            return Some(EventDetails::VecCreate { t, len, capacity, ptr });
        }
    }
    if text_is(s, n, 0, name_end, "VecResize") && fs.len() == 5 {
        let t = sized_of(s, n, &fs[0], "t");
        let len = num_of(s, n, &fs[1], "len");
        let capacity = num_of(s, n, &fs[2], "capacity");
        let old_ptr = num_of(s, n, &fs[3], "old_ptr");
        let new_ptr = num_of(s, n, &fs[4], "new_ptr");
        if let (Some(t), Some(len), Some(capacity), Some(old_ptr), Some(new_ptr)) = (t, len, capacity, old_ptr, new_ptr) {
            proof {
                assert(fields_text(s@, fs@) =~= fields_of(EventDetails::VecResize { t, len, capacity, old_ptr, new_ptr }).1);
            }
            return Some(EventDetails::VecResize { t, len, capacity, old_ptr, new_ptr });
        }
    }
    if text_is(s, n, 0, name_end, "VecDrop") && fs.len() == 4 {
        let t = sized_of(s, n, &fs[0], "t");
        let len = num_of(s, n, &fs[1], "len");
        let capacity = num_of(s, n, &fs[2], "capacity");
        let ptr = num_of(s, n, &fs[3], "ptr");
        if let (Some(t), Some(len), Some(capacity), Some(ptr)) = (t, len, capacity, ptr) {
            proof {
                assert(fields_text(s@, fs@) =~= fields_of(EventDetails::VecDrop { t, len, capacity, ptr }).1);
            }
            return Some(EventDetails::VecDrop { t, len, capacity, ptr });
        }
    }
    proof {
        let target = (s@.subrange(0, name_end as int), fields_text(s@, fs@));
        assert forall|d: EventDetails| fields_of(d) != target by {
            if fields_of(d) == target {
                assert(fields_text(s@, fs@).len() == fs@.len());
                match d {
                    EventDetails::Allocate { .. } => {
                        assert(fs@.len() == 3);
                    },
                    EventDetails::Reallocate { .. } => {
                        assert(fs@.len() == 5);
                    },
                    EventDetails::ReallocateInplace { .. } => {
                        assert(fs@.len() == 4);
                    },
                    EventDetails::Deallocate { .. } => {
                        assert(fs@.len() == 3);
                    },
                    EventDetails::BoxCreate { .. } => {
                        assert(fs@.len() == 2);
                    },
                    EventDetails::BoxDrop { .. } => {
                        assert(fs@.len() == 2);
                    },
                    EventDetails::RcCreate { .. } => {
                        assert(fs@.len() == 2);
                    },
                    EventDetails::RcDrop { .. } => {
                        assert(fs@.len() == 2);
                    },
                    EventDetails::ArcCreate { .. } => {
                        assert(fs@.len() == 2);
                    },
                    EventDetails::ArcDrop { .. } => {
                        assert(fs@.len() == 2);
                    },
                    EventDetails::VecCreate { .. } => {
                        assert(fs@.len() == 4);
                    },
                    EventDetails::VecResize { .. } => {
                        assert(fs@.len() == 5);
                    },
                    EventDetails::VecDrop { .. } => {
                        assert(fs@.len() == 4);
                    },
                }
            }
        }
    }
    None
}

/// Whether `s` is the record of `d`.
pub open spec fn is_details_text(s: Seq<char>, d: EventDetails) -> bool {
    record_of(s) == Some(fields_of(d))
}

/// Reads one event's details from its record, `Name { label: value, ... }`;
/// none where `s` is the record of no event.
pub fn parse_details(s: &str) -> (r: Option<EventDetails>)
    ensures
        r matches Some(d) ==> is_details_text(s@, d),
        r is None ==> (forall|d: EventDetails| !is_details_text(s@, d)),
{
    let n = s.unicode_len();
    let e = scan_run(s, n, 0, CharClass::Ident);
    if e == 0 {
        return None;
    }
    match scan_literal(s, n, e, " { ") {
        Some(p) => match read_fields(s, n, p, MAX_FIELDS) {
            Some((fs, end)) => if end == n {
                details_from(s, n, e, &fs)
            } else {
                None
            },
            None => None,
        },
        None => None,
    }
}

/// The framing of a trace line, `RTINST [thread][secs.nanos] `, as the
/// thread, the seconds, the nanoseconds and where the details start.
pub open spec fn line_header(s: Seq<char>) -> Option<(u64, u64, u64, int)> {
    match literal_at(s, 0, "RTINST ["@) {
        Some(q1) => match number_at(s, q1) {
            Some((thread, q2)) => match literal_at(s, q2, "]["@) {
                Some(q3) => match number_at(s, q3) {
                    Some((secs, q4)) => match literal_at(s, q4, "."@) {
                        Some(q5) => match number_at(s, q5) {
                            Some((nanos, q6)) => match literal_at(s, q6, "] "@) {
                                Some(q7) => Some((thread, secs, nanos, q7)),
                                None => None,
                            },
                            None => None,
                        },
                        None => None,
                    },
                    None => None,
                },
                None => None,
            },
            None => None,
        },
        None => None,
    }
}

/// Nanoseconds in a second.
pub const NANOS_PER_SEC: u64 = 1_000_000_000;

/// Whether `s` is the trace line of `e`: its framing gives `e`'s thread and
/// time, with fewer nanoseconds than a second, and the rest is the record of
/// `e`'s details.
pub open spec fn is_event_line(s: Seq<char>, e: Event) -> bool {
    match line_header(s) {
        Some((thread, secs, nanos, p)) => nanos < NANOS_PER_SEC && e.thread == thread
            && e.timestamp == (Timestamp { secs, nanos: nanos as u32 }) && is_details_text(
            s.subrange(p, s.len() as int),
            e.details,
        ),
        None => false,
    }
}

/// Reads one event from a trace line; none where the line is no event's.
pub fn parse_event(line: &str) -> (r: Option<Event>)
    ensures
        r matches Some(e) ==> is_event_line(line@, e),
        r is None ==> (forall|e: Event| !is_event_line(line@, e)),
{
    let n = line.unicode_len();
    let q1 = match scan_literal(line, n, 0, "RTINST [") {
        Some(p) => p,
        None => return None,
    };
    let (thread, q2) = match scan_number(line, n, q1) {
        Some(x) => x,
        None => return None,
    };
    let q3 = match scan_literal(line, n, q2, "][") {
        Some(p) => p,
        None => return None,
    };
    let (secs, q4) = match scan_number(line, n, q3) {
        Some(x) => x,
        None => return None,
    };
    let q5 = match scan_literal(line, n, q4, ".") {
        Some(p) => p,
        None => return None,
    };
    let (nanos, q6) = match scan_number(line, n, q5) {
        Some(x) => x,
        None => return None,
    };
    let q7 = match scan_literal(line, n, q6, "] ") {
        Some(p) => p,
        None => return None,
    };
    if nanos >= NANOS_PER_SEC {
        return None;
    }
    let rest = line.substring_char(q7, n);
    match parse_details(rest) {
        Some(details) => Some(
            Event { thread, timestamp: Timestamp { secs, nanos: nanos as u32 }, details },
        ),
        None => None,
    }
}

} // verus!
