//! The analysis result: the boxes worth showing, and the bounds of their
//! addresses and times.
use vstd::prelude::*;
use crate::event_log::Timestamp;
use crate::mem_boxes::MemBox;

verus! {

/// The start address of boxes that stand for zero-sized values: they have no
/// real address and are left out of a profile.
pub const PLACEHOLDER_ADDRESS: u64 = 1;

/// The bounds of a set of boxes.
#[derive(Clone, Copy, Debug, PartialEq, Eq, Structural)]
pub struct Metrics {
    pub min_address: u64,
    pub max_address: u64,
    pub min_time: Timestamp,
    pub max_time: Timestamp,
}

/// The boxes of a trace and their bounds.
pub struct Profile {
    pub metrics: Metrics,
    pub mem_boxes: Vec<MemBox>,
}

/// Whether `b` has a real address.
pub open spec fn is_real(b: MemBox) -> bool {
    b.start_address != PLACEHOLDER_ADDRESS
}

/// The boxes of `s` with a real address, in their order.
pub open spec fn real_boxes(s: Seq<MemBox>) -> Seq<MemBox> {
    s.filter(|b: MemBox| is_real(b))
}

/// `m` holds the least start address, the greatest end address, the earliest
/// start time and the latest end time of the boxes of `s`, each attained by a box.
pub open spec fn is_metrics_of(m: Metrics, s: Seq<MemBox>) -> bool {
    &&& forall|i: int| 0 <= i < s.len() ==> m.min_address <= #[trigger] s[i].start_address
    &&& forall|i: int| 0 <= i < s.len() ==> #[trigger] s[i].end_address <= m.max_address
    &&& forall|i: int| 0 <= i < s.len() ==> m.min_time.spec_le(#[trigger] s[i].start_time)
    &&& forall|i: int| 0 <= i < s.len() ==> (#[trigger] s[i].end_time).spec_le(m.max_time)
    &&& exists|i: int| 0 <= i < s.len() && #[trigger] s[i].start_address == m.min_address
    &&& exists|i: int| 0 <= i < s.len() && #[trigger] s[i].end_address == m.max_address
    &&& exists|i: int| 0 <= i < s.len() && #[trigger] s[i].start_time == m.min_time
    &&& exists|i: int| 0 <= i < s.len() && #[trigger] s[i].end_time == m.max_time
}

/// The boxes of `boxes` that have a real address, in their order.
pub fn without_placeholders(boxes: &[MemBox]) -> (r: Vec<MemBox>)
    ensures
        r@ == real_boxes(boxes@),
{
    let mut r: Vec<MemBox> = Vec::new();
    let mut k: usize = 0;
    while k < boxes.len()
        invariant
            k <= boxes@.len(),
            r@ == real_boxes(boxes@.take(k as int)),
        decreases boxes@.len() - k,
    {
        let b = boxes[k];
        if b.start_address != PLACEHOLDER_ADDRESS {
            r.push(b);
        }
        proof {
            let next = boxes@.take(k + 1);
            assert(next.drop_last() == boxes@.take(k as int));
            assert(next.last() == b);
            reveal(Seq::filter);
        }
        k = k + 1;
    }
    proof {
        assert(boxes@.take(k as int) == boxes@);
    }
    r
}

/// The bounds of `boxes`; none where there is no box.
pub fn compute_metrics(boxes: &[MemBox]) -> (r: Option<Metrics>)
    ensures
        r is None <==> boxes@.len() == 0,
        r matches Some(m) ==> is_metrics_of(m, boxes@),
{
    if boxes.len() == 0 {
        return None;
    }
    let mut m = Metrics {
        min_address: boxes[0].start_address,
        max_address: boxes[0].end_address,
        min_time: boxes[0].start_time,
        max_time: boxes[0].end_time,
    };
    let ghost mut wa: int = 0;
    let ghost mut wb: int = 0;
    let ghost mut wc: int = 0;
    let ghost mut wd: int = 0;
    let mut k: usize = 1;
    while k < boxes.len()
        invariant
            1 <= k <= boxes@.len(),
            forall|i: int| 0 <= i < k ==> m.min_address <= #[trigger] boxes@[i].start_address,
            forall|i: int| 0 <= i < k ==> #[trigger] boxes@[i].end_address <= m.max_address,
            forall|i: int| 0 <= i < k ==> m.min_time.spec_le(#[trigger] boxes@[i].start_time),
            forall|i: int| 0 <= i < k ==> (#[trigger] boxes@[i].end_time).spec_le(m.max_time),
            0 <= wa < k && boxes@[wa].start_address == m.min_address,
            0 <= wb < k && boxes@[wb].end_address == m.max_address,
            0 <= wc < k && boxes@[wc].start_time == m.min_time,
            0 <= wd < k && boxes@[wd].end_time == m.max_time,
        decreases boxes@.len() - k,
    {
        let b = boxes[k];
        if b.start_address < m.min_address {
            m.min_address = b.start_address;
            proof {
                wa = k as int;
            }
        }
        if b.end_address > m.max_address {
            m.max_address = b.end_address;
            proof {
                wb = k as int;
            }
        }
        if !m.min_time.le(&b.start_time) {
            m.min_time = b.start_time;
            proof {
                wc = k as int;
            }
        }
        if !b.end_time.le(&m.max_time) {
            m.max_time = b.end_time;
            proof {
                wd = k as int;
            }
        }
        k = k + 1;
    }
    Some(m)
}

/// The profile of a pass's boxes: those with a real address, in their order,
/// and their bounds; none where no box has a real address.
pub fn build_profile(boxes: &[MemBox]) -> (r: Option<Profile>)
    ensures
        r is None <==> real_boxes(boxes@).len() == 0,
        r matches Some(p) ==> p.mem_boxes@ == real_boxes(boxes@) && is_metrics_of(
            p.metrics,
            p.mem_boxes@,
        ),
{
    let mem_boxes = without_placeholders(boxes);
    match compute_metrics(mem_boxes.as_slice()) {
        Some(metrics) => Some(Profile { metrics, mem_boxes }),
        None => None,
    }
}

/// A profile keeps no placeholder box, and a placeholder box anywhere among
/// the boxes changes neither the boxes kept nor their bounds.
pub proof fn lemma_placeholders_excluded(before: Seq<MemBox>, b: MemBox, after: Seq<MemBox>, m: Metrics)
    requires
        b.start_address == PLACEHOLDER_ADDRESS,
    ensures
        forall|i: int|
            0 <= i < real_boxes(before).len() ==> (#[trigger] real_boxes(before)[i]).start_address
                != PLACEHOLDER_ADDRESS,
        real_boxes(before + seq![b] + after) == real_boxes(before + after),
        is_metrics_of(m, real_boxes(before + seq![b] + after)) == is_metrics_of(
            m,
            real_boxes(before + after),
        ),
{
    let pred = |x: MemBox| is_real(x);
    assert forall|i: int| 0 <= i < real_boxes(before).len() implies (#[trigger] real_boxes(
        before,
    )[i]).start_address != PLACEHOLDER_ADDRESS by {
        before.lemma_filter_pred(pred, i);
    }
    Seq::filter_distributes_over_add(before + seq![b], after, pred);
    Seq::filter_distributes_over_add(before, seq![b], pred);
    Seq::filter_distributes_over_add(before, after, pred);
    reveal_with_fuel(Seq::filter, 2);
    assert(seq![b].drop_last() =~= Seq::<MemBox>::empty());
    assert(seq![b].filter(pred) =~= Seq::<MemBox>::empty());
    assert(before.filter(pred) + Seq::<MemBox>::empty() =~= before.filter(pred));
}

} // verus!
