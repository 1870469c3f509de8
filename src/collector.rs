//! The terminal consumer of a trace.
use vstd::prelude::*;

use std::sync::atomic::{AtomicBool, Ordering};
use std::sync::Arc;

use crate::clock::{anchor, ticks_to_ns, Anchor};
use crate::collection::{receive_all, receive_ready, LocalSpans, SpanCollection};
use crate::reconcile::{all_emits, all_pending, col_emits, col_pending, batch_emits, runs_under, is_root, lemma_batch_parents_emitted, reconcile, reconciled};
use crate::span::{duration_ns_of, is_built_from, RawSpan, Span, SpanView};

verus! {

/// The property entries of one submission; a batch whose arrays are
/// inconsistent contributes none.
pub open spec fn col_props(c: SpanCollection) -> Seq<(u32, Seq<u8>)> {
    match c {
        SpanCollection::ScopeSpan(_) => Seq::empty(),
        SpanCollection::LocalSpans { spans, .. } => if spans.properties.wf() {
            spans.properties.entries()
        } else {
            Seq::empty()
        },
    }
}

pub open spec fn all_props(cols: Seq<SpanCollection>) -> Seq<(u32, Seq<u8>)>
    decreases cols.len(),
{
    if cols.len() == 0 {
        Seq::empty()
    } else {
        all_props(cols.drop_last()) + col_props(cols.last())
    }
}

/// The byte strings recorded under `id`, in order.
pub open spec fn props_for(entries: Seq<(u32, Seq<u8>)>, id: u32) -> Seq<Seq<u8>>
    decreases entries.len(),
{
    if entries.len() == 0 {
        Seq::empty()
    } else {
        props_for(entries.drop_last(), id) + if entries.last().0 == id {
            seq![entries.last().1]
        } else {
            Seq::<Seq<u8>>::empty()
        }
    }
}

/// The first root scope span among the submissions.
pub open spec fn first_root(cols: Seq<SpanCollection>) -> Option<RawSpan>
    decreases cols.len(),
{
    if cols.len() == 0 {
        None
    } else {
        match cols[0] {
            SpanCollection::ScopeSpan(s) if is_root(s) => Some(s),
            _ => first_root(cols.subrange(1, cols.len() as int)),
        }
    }
}

/// Whether the trace is cut short: a threshold is given and the root span
/// lasted less than it.
pub open spec fn below_threshold(cols: Seq<SpanCollection>, threshold: Option<u64>, anchor: Anchor) -> bool {
    &&& threshold is Some
    &&& first_root(cols) is Some
    &&& duration_ns_of(first_root(cols)->Some_0, anchor) < threshold->Some_0
}

/// A root span stitched under `parent_id_of_root` when one is given.
pub open spec fn stitched(s: RawSpan, parent_id_of_root: Option<u32>) -> RawSpan {
    match parent_id_of_root {
        Some(p) => if is_root(s) {
            RawSpan { parent_id: p, ..s }
        } else {
            s
        },
        None => s,
    }
}

/// The raw spans of the result, before stitching and timing.
pub open spec fn result_raw(cols: Seq<SpanCollection>, threshold: Option<u64>, anchor: Anchor) -> Seq<RawSpan> {
    if below_threshold(cols, threshold, anchor) {
        seq![first_root(cols)->Some_0]
    } else {
        reconciled(cols)
    }
}

/// `r` is the trace that the collector returns for `cols`: the reconciled
/// spans (or the root alone when it lasted less than the threshold), each
/// stitched, timed through `anchor` and carrying its properties (none on
/// the short path).
pub open spec fn is_result(
    r: Seq<SpanView>,
    cols: Seq<SpanCollection>,
    threshold: Option<u64>,
    parent_id_of_root: Option<u32>,
    anchor: Anchor,
) -> bool {
    let raw = result_raw(cols, threshold, anchor);
    &&& r.len() == raw.len()
    &&& forall|j: int|
        0 <= j < r.len() ==> #[trigger] is_built_from(
            r[j],
            stitched(raw[j], parent_id_of_root),
            anchor,
            result_props(cols, threshold, anchor, raw[j].id),
        )
}

/// The properties a returned span carries: none on the short path.
pub open spec fn result_props(cols: Seq<SpanCollection>, threshold: Option<u64>, anchor: Anchor, id: u32) -> Seq<Seq<u8>> {
    if below_threshold(cols, threshold, anchor) {
        Seq::empty()
    } else {
        props_for(all_props(cols), id)
    }
}

pub open spec fn views(r: Seq<Span>) -> Seq<SpanView> {
    r.map_values(|s: Span| s@)
}

fn copy_bytes(v: &Vec<u8>) -> (r: Vec<u8>)
    ensures
        r@ == v@,
{
    let mut r: Vec<u8> = Vec::new();
    let mut i: usize = 0;
    while i < v.len()
        invariant
            i <= v@.len(),
            r@ == v@.take(i as int),
        decreases v@.len() - i,
    {
        r.push(v[i]);
        i = i + 1;
        assert(r@ =~= v@.take(i as int));
    }
    assert(v@.take(i as int) =~= v@);
    r
}

pub open spec fn entry_views(entries: Seq<(u32, Vec<u8>)>) -> Seq<(u32, Seq<u8>)> {
    entries.map_values(|e: (u32, Vec<u8>)| (e.0, e.1@))
}

pub open spec fn byte_views(v: Seq<Vec<u8>>) -> Seq<Seq<u8>> {
    v.map_values(|p: Vec<u8>| p@)
}

/// The byte strings recorded under `id`.
fn props_of(entries: &Vec<(u32, Vec<u8>)>, id: u32) -> (r: Vec<Vec<u8>>)
    ensures
        byte_views(r@) == props_for(entry_views(entries@), id),
{
    let mut r: Vec<Vec<u8>> = Vec::new();
    let mut k: usize = 0;
    while k < entries.len()
        invariant
            k <= entries@.len(),
            byte_views(r@) == props_for(entry_views(entries@).take(k as int), id),
        decreases entries@.len() - k,
    {
        let ghost ev = entry_views(entries@);
        assert(ev.take(k + 1).drop_last() =~= ev.take(k as int));
        let ghost prev = r@;
        if entries[k].0 == id {
            let bytes = copy_bytes(&entries[k].1);
            r.push(bytes);
            assert(byte_views(r@) =~= byte_views(prev) + seq![bytes@]);
        } else {
            assert(byte_views(r@) =~= byte_views(prev) + Seq::<Seq<u8>>::empty());
        }
        k = k + 1;
    }
    assert(entry_views(entries@).take(k as int) =~= entry_views(entries@));
    r
}

/// All property entries of the submissions, in order.
fn gather_props(cols: &Vec<SpanCollection>) -> (r: Vec<(u32, Vec<u8>)>)
    ensures
        entry_views(r@) == all_props(cols@),
{
    let mut r: Vec<(u32, Vec<u8>)> = Vec::new();
    let mut i: usize = 0;
    while i < cols.len()
        invariant
            i <= cols@.len(),
            entry_views(r@) == all_props(cols@.take(i as int)),
        decreases cols@.len() - i,
    {
        let ghost next = cols@.take(i + 1);
        assert(next.drop_last() =~= cols@.take(i as int));
        assert(next.last() == cols@[i as int]);
        let ghost prev = r@;
        match &cols[i] {
            SpanCollection::ScopeSpan(_) => {
                assert(entry_views(r@) =~= all_props(next));
            },
            SpanCollection::LocalSpans { spans, .. } => {
                if spans.properties.check_wf() {
                    let mut more = spans.properties.to_entries();
                    r.append(&mut more);
                    assert(entry_views(r@) =~= entry_views(prev) + spans.properties.entries());
                } else {
                    assert(entry_views(r@) =~= all_props(next));
                }
            },
        }
        i = i + 1;
    }
    assert(cols@.take(i as int) =~= cols@);
    r
}

proof fn lemma_first_root_is_root(cols: Seq<SpanCollection>)
    requires
        first_root(cols) is Some,
    ensures
        is_root(first_root(cols)->Some_0),
    decreases cols.len(),
{
    if cols.len() > 0 {
        match cols[0] {
            SpanCollection::ScopeSpan(s) if is_root(s) => {},
            _ => lemma_first_root_is_root(cols.subrange(1, cols.len() as int)),
        }
    }
}

/// The first root scope span among the submissions.
fn find_root(cols: &Vec<SpanCollection>) -> (r: Option<RawSpan>)
    ensures
        r == first_root(cols@),
{
    let mut i: usize = 0;
    assert(cols@.subrange(0, cols@.len() as int) =~= cols@);
    while i < cols.len()
        invariant
            i <= cols@.len(),
            first_root(cols@) == first_root(cols@.subrange(i as int, cols@.len() as int)),
        decreases cols@.len() - i,
    {
        let ghost tail = cols@.subrange(i as int, cols@.len() as int);
        assert(tail[0] == cols@[i as int]);
        assert(tail.subrange(1, tail.len() as int) =~= cols@.subrange(i + 1, cols@.len() as int));
        match &cols[i] {
            SpanCollection::ScopeSpan(s) => {
                if s.parent_id == 0 {
                    return Some(*s);
                }
            },
            SpanCollection::LocalSpans { .. } => {},
        }
        i = i + 1;
    }
    None
}

/// Turns the drained submissions of a trace into its finished spans. With
/// a threshold, a trace whose root span lasted less than it yields the root
/// alone; otherwise the submissions are reconciled. A root is placed under
/// `parent_id_of_root` when one is given.
pub fn finish_spans(
    cols: &Vec<SpanCollection>,
    duration_threshold: Option<u64>,
    parent_id_of_root: Option<u32>,
    anchor: Anchor,
) -> (r: Vec<Span>)
    requires
        anchor.wf(),
    ensures
        is_result(views(r@), cols@, duration_threshold, parent_id_of_root, anchor),
{
    let root = find_root(cols);
    if let Some(t) = duration_threshold {
        if let Some(root_span) = root {
            let stitched_root = match parent_id_of_root {
                Some(p) => RawSpan { parent_id: p, ..root_span },
                None => root_span,
            };
            let built = root_span.build_span(anchor);
            if built.duration_ns < t {
                let s = stitched_root.build_span(anchor);
                let r = vec![s];
                proof {
                    lemma_first_root_is_root(cols@);
                    assert(below_threshold(cols@, duration_threshold, anchor));
                    let raw_r = result_raw(cols@, duration_threshold, anchor);
                    assert(raw_r =~= seq![root_span]);
                    assert(stitched(raw_r[0], parent_id_of_root) == stitched_root);
                    assert(views(r@)[0] == s@);
                    assert(result_props(cols@, duration_threshold, anchor, raw_r[0].id) == Seq::<Seq<u8>>::empty());
                    assert(is_built_from(views(r@)[0], stitched(raw_r[0], parent_id_of_root), anchor,
                        result_props(cols@, duration_threshold, anchor, raw_r[0].id)));
                }
                return r;
            }
        }
    }
    let raw = reconcile(cols);
    let entries = gather_props(cols);
    let mut r: Vec<Span> = Vec::new();
    let mut k: usize = 0;
    while k < raw.len()
        invariant
            anchor.wf(),
            !below_threshold(cols@, duration_threshold, anchor),
            raw@ == reconciled(cols@),
            entry_views(entries@) == all_props(cols@),
            k <= raw@.len(),
            r@.len() == k,
            forall|j: int|
                0 <= j < k ==> #[trigger] is_built_from(
                    r@[j]@,
                    stitched(raw@[j], parent_id_of_root),
                    anchor,
                    props_for(all_props(cols@), raw@[j].id),
                ),
        decreases raw@.len() - k,
    {
        let s = raw[k];
        let placed = match parent_id_of_root {
            Some(p) => if s.parent_id == 0 {
                RawSpan { parent_id: p, ..s }
            } else {
                s
            },
            None => s,
        };
        let props = props_of(&entries, s.id);
        let built = placed.build_span_with(anchor, props);
        r.push(built);
        k = k + 1;
    }
    proof {
        let raw_r = result_raw(cols@, duration_threshold, anchor);
        assert(raw_r == raw@);
        assert forall|j: int| 0 <= j < views(r@).len() implies #[trigger] is_built_from(
            views(r@)[j],
            stitched(raw_r[j], parent_id_of_root),
            anchor,
            result_props(cols@, duration_threshold, anchor, raw_r[j].id),
        ) by {
            assert(views(r@)[j] == r@[j]@);
        }
    }
    r
}

/// A counter reading lies after the Unix epoch as `anchor` maps it: it is
/// no earlier than the anchor, or the ticks back to it span less time than
/// the anchor's own Unix time.
pub open spec fn after_epoch(cycle: u64, anchor: Anchor) -> bool {
    cycle >= anchor.cycle || ticks_to_ns(anchor.cycle - cycle, anchor.cycles_per_second as int) < anchor.unix_time_ns
}

/// Every span the collector returns has a duration of at least zero, and
/// begins after the Unix epoch whenever its record began after it (with an
/// anchor taken after the epoch).
pub proof fn lemma_returned_spans_are_timed(
    r: Seq<SpanView>,
    cols: Seq<SpanCollection>,
    threshold: Option<u64>,
    parent_id_of_root: Option<u32>,
    anchor: Anchor,
)
    requires
        anchor.wf(),
        anchor.unix_time_ns > 0,
        is_result(r, cols, threshold, parent_id_of_root, anchor),
    ensures
        forall|j: int| 0 <= j < r.len() ==> #[trigger] r[j].duration_ns >= 0,
        forall|j: int|
            0 <= j < r.len() && after_epoch(result_raw(cols, threshold, anchor)[j].begin_cycle, anchor)
                ==> #[trigger] r[j].begin_unix_time_ns > 0,
{
    let raw = result_raw(cols, threshold, anchor);
    assert forall|j: int|
        0 <= j < r.len() && after_epoch(raw[j].begin_cycle, anchor) implies #[trigger] r[j].begin_unix_time_ns > 0 by {
        assert(is_built_from(r[j], stitched(raw[j], parent_id_of_root), anchor, result_props(cols, threshold, anchor, raw[j].id)));
        assert(stitched(raw[j], parent_id_of_root).begin_cycle == raw[j].begin_cycle);
        let c = raw[j].begin_cycle;
        if c >= anchor.cycle {
            assert(ticks_to_ns(c - anchor.cycle, anchor.cycles_per_second as int) >= 0) by (nonlinear_arith)
                requires c >= anchor.cycle, anchor.cycles_per_second > 0;
        }
    }
}

/// With a threshold, a trace whose root span lasted less than it comes back
/// as that root span alone, however many spans were submitted.
pub proof fn lemma_short_trace_is_root_alone(
    r: Seq<SpanView>,
    cols: Seq<SpanCollection>,
    threshold: u64,
    parent_id_of_root: Option<u32>,
    anchor: Anchor,
    root: RawSpan,
)
    requires
        is_result(r, cols, Some(threshold), parent_id_of_root, anchor),
        first_root(cols) == Some(root),
        duration_ns_of(root, anchor) < threshold,
    ensures
        r.len() == 1,
        r[0].id == root.id,
        r[0].event == root.event,
        r[0].duration_ns < threshold,
        r[0].properties.len() == 0,
{
    let raw = result_raw(cols, Some(threshold), anchor);
    assert(raw == seq![root]);
    assert(is_built_from(r[0], stitched(raw[0], parent_id_of_root), anchor, result_props(cols, Some(threshold), anchor, raw[0].id)));
}

/// The parent a returned root carries: the given one, or none.
pub open spec fn root_parent(parent_id_of_root: Option<u32>) -> u32 {
    match parent_id_of_root {
        Some(p) => p,
        None => 0,
    }
}

/// The returned spans include one with id `id`.
pub open spec fn is_returned(r: Seq<SpanView>, id: u32) -> bool {
    exists|t: int| 0 <= t < r.len() && (#[trigger] r[t]).id == id
}

/// For the trace of one thread (its root scope span, and the batch of spans
/// recorded under it, each nested span naming its enclosing span as
/// parent), every returned span hangs under another returned span, unless
/// it carries the parent given for the root.
pub proof fn lemma_parents_are_returned(
    r: Seq<SpanView>,
    spans: LocalSpans,
    root: RawSpan,
    parent_id_of_root: Option<u32>,
    anchor: Anchor,
)
    requires
        is_root(root),
        runs_under(spans.spans@, None),
        is_result(
            r,
            seq![SpanCollection::LocalSpans { spans, parent_scope_id: root.id }, SpanCollection::ScopeSpan(root)],
            None,
            parent_id_of_root,
            anchor,
        ),
    ensures
        forall|j: int|
            0 <= j < r.len() ==> (#[trigger] r[j]).parent_id == root_parent(parent_id_of_root) || is_returned(
                r,
                r[j].parent_id,
            ),
{
    let b = SpanCollection::LocalSpans { spans, parent_scope_id: root.id };
    let cols = seq![b, SpanCollection::ScopeSpan(root)];
    let local = batch_emits(spans.spans@, Some(root.id));
    lemma_batch_parents_emitted(spans.spans@, root.id);
    assert(cols.drop_last() =~= seq![b]);
    assert(seq![b].drop_last() =~= Seq::<SpanCollection>::empty());
    assert(seq![b].last() == b);
    assert(all_emits(Seq::<SpanCollection>::empty()) == Seq::<RawSpan>::empty());
    assert(all_pending(Seq::<SpanCollection>::empty()) == Seq::<RawSpan>::empty());
    assert(col_emits(b) == local);
    assert(col_pending(b) == Seq::<RawSpan>::empty());
    assert(all_emits(seq![b]) =~= local);
    assert(all_emits(cols) =~= local.push(root));
    assert(all_pending(seq![b]) =~= Seq::<RawSpan>::empty());
    assert(all_pending(cols) =~= Seq::<RawSpan>::empty());
    let raw = result_raw(cols, None, anchor);
    assert(raw =~= local.push(root));
    assert forall|j: int| 0 <= j < r.len() implies (#[trigger] r[j]).parent_id == root_parent(parent_id_of_root) || is_returned(
        r,
        r[j].parent_id,
    ) by {
        assert(is_built_from(r[j], stitched(raw[j], parent_id_of_root), anchor, result_props(cols, None, anchor, raw[j].id)));
        if raw[j].parent_id != 0 {
            if j == local.len() {
                assert(raw[j] == root);
            } else {
                assert(raw[j] == local[j]);
                if local[j].parent_id == root.id {
                    let last = local.len() as int;
                    assert(raw[last] == root);
                    assert(is_built_from(r[last], stitched(raw[last], parent_id_of_root), anchor,
                        result_props(cols, None, anchor, raw[last].id)));
                } else {
                    let t = choose|t: int| 0 <= t < local.len() && (#[trigger] local[t]).id == local[j].parent_id;
                    assert(raw[t] == local[t]);
                    assert(is_built_from(r[t], stitched(raw[t], parent_id_of_root), anchor,
                        result_props(cols, None, anchor, raw[t].id)));
                }
            }
        }
    }
}

/// The receiving end of a trace, owned by whoever started it.
pub struct Collector {
    receiver: crossbeam_channel::Receiver<SpanCollection>,
    closed: Arc<AtomicBool>,
}

impl Collector {
    pub fn new(receiver: crossbeam_channel::Receiver<SpanCollection>, closed: Arc<AtomicBool>) -> Collector {
        Collector { receiver, closed }
    }

    /// Drains the trace and returns its finished spans. With `need_sync` it
    /// waits until every producer has let go; otherwise it takes what has
    /// arrived. Producers that come later are turned away.
    pub fn collect(
        self,
        need_sync: bool,
        duration_threshold: Option<u64>,
        parent_id_of_root: Option<u32>,
    ) -> (r: Vec<Span>)
        ensures
            exists|cols: Seq<SpanCollection>, a: Anchor|
                a.wf() && #[trigger] is_result(views(r@), cols, duration_threshold, parent_id_of_root, a),
    {
        self.collect_with_anchor(need_sync, duration_threshold, parent_id_of_root, anchor())
    }

    /// `collect`, timing the spans through `anchor`, so that one anchor can
    /// serve a whole process.
    pub fn collect_with_anchor(
        self,
        need_sync: bool,
        duration_threshold: Option<u64>,
        parent_id_of_root: Option<u32>,
        anchor: Anchor,
    ) -> (r: Vec<Span>)
        requires
            anchor.wf(),
        ensures
            exists|cols: Seq<SpanCollection>|
                #[trigger] is_result(views(r@), cols, duration_threshold, parent_id_of_root, anchor),
    {
        let cols = if need_sync {
            receive_all(&self.receiver)
        } else {
            receive_ready(&self.receiver)
        };
        self.closed.store(true, Ordering::Release);
        let r = finish_spans(&cols, duration_threshold, parent_id_of_root, anchor);
        assert(is_result(views(r@), cols@, duration_threshold, parent_id_of_root, anchor));
        r
    }
}

} // verus!
