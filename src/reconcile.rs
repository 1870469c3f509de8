//! The collector's reconciliation: which submitted spans are emitted, and
//! under which parent.
use vstd::prelude::*;

use std::collections::HashMap;

use crate::collection::{LocalSpans, SpanCollection};
use crate::span::RawSpan;

verus! {

broadcast use vstd::std_specs::hash::group_hash_axioms;

/// A root span has no parent.
pub open spec fn is_root(s: RawSpan) -> bool {
    s.parent_id == 0
}

/// How many spans after the first of `spans` belong to its subtree.
pub open spec fn block_len(spans: Seq<RawSpan>) -> int
    recommends
        spans.len() > 0,
{
    if spans[0].descendant_count as int <= spans.len() - 1 {
        spans[0].descendant_count as int
    } else {
        spans.len() - 1
    }
}

/// A span placed under `parent` when one is given (a top-level span of a
/// batch), else left under its recorded parent.
pub open spec fn placed(s: RawSpan, parent: Option<u32>) -> RawSpan {
    match parent {
        Some(p) => RawSpan { parent_id: p, ..s },
        None => s,
    }
}

/// What a run of spans emits. It is read as a run of subtrees: a span
/// followed by its descendants, which form a run of their own. A subtree
/// whose top is unfinished is dropped whole, at any depth; otherwise its top
/// is placed (under `parent` at the top level, under its recorded parent
/// below), spawn placeholders are left out, and its descendants follow.
pub open spec fn batch_emits(spans: Seq<RawSpan>, parent: Option<u32>) -> Seq<RawSpan>
    decreases spans.len(),
{
    if spans.len() == 0 {
        Seq::empty()
    } else {
        let head = spans[0];
        let n = block_len(spans);
        let block = spans.subrange(1, n + 1);
        let rest = spans.subrange(n + 1, spans.len() as int);
        let here = if head.end_cycle == 0 {
            Seq::empty()
        } else if head.is_spawn_span {
            batch_emits(block, None)
        } else {
            seq![placed(head, parent)] + batch_emits(block, None)
        };
        here + batch_emits(rest, parent)
    }
}

/// The spawn placeholders of a run that are kept, in order, each with the
/// parent that replaces it: `parent` at the top level, else its recorded
/// parent.
pub open spec fn batch_spawns(spans: Seq<RawSpan>, parent: Option<u32>) -> Seq<(u32, u32)>
    decreases spans.len(),
{
    if spans.len() == 0 {
        Seq::empty()
    } else {
        let head = spans[0];
        let n = block_len(spans);
        let block = spans.subrange(1, n + 1);
        let rest = spans.subrange(n + 1, spans.len() as int);
        let here = if head.end_cycle == 0 {
            Seq::empty()
        } else if head.is_spawn_span {
            seq![(head.id, placed(head, parent).parent_id)] + batch_spawns(block, None)
        } else {
            batch_spawns(block, None)
        };
        here + batch_spawns(rest, parent)
    }
}

pub open spec fn col_emits(c: SpanCollection) -> Seq<RawSpan> {
    match c {
        SpanCollection::ScopeSpan(s) => if is_root(s) {
            seq![s]
        } else {
            Seq::empty()
        },
        SpanCollection::LocalSpans { spans, parent_scope_id } => batch_emits(spans.spans@, Some(parent_scope_id)),
    }
}

pub open spec fn col_pending(c: SpanCollection) -> Seq<RawSpan> {
    match c {
        SpanCollection::ScopeSpan(s) => if is_root(s) {
            Seq::empty()
        } else {
            seq![s]
        },
        SpanCollection::LocalSpans { .. } => Seq::empty(),
    }
}

pub open spec fn col_spawns(c: SpanCollection) -> Seq<(u32, u32)> {
    match c {
        SpanCollection::ScopeSpan(_) => Seq::empty(),
        SpanCollection::LocalSpans { spans, parent_scope_id } => batch_spawns(spans.spans@, Some(parent_scope_id)),
    }
}

/// Spans emitted straight away: root scope spans and batch spans, in order.
pub open spec fn all_emits(cols: Seq<SpanCollection>) -> Seq<RawSpan>
    decreases cols.len(),
{
    if cols.len() == 0 {
        Seq::empty()
    } else {
        all_emits(cols.drop_last()) + col_emits(cols.last())
    }
}

/// Non-root scope spans, whose parents are resolved after all batches.
pub open spec fn all_pending(cols: Seq<SpanCollection>) -> Seq<RawSpan>
    decreases cols.len(),
{
    if cols.len() == 0 {
        Seq::empty()
    } else {
        all_pending(cols.drop_last()) + col_pending(cols.last())
    }
}

pub open spec fn all_spawns(cols: Seq<SpanCollection>) -> Seq<(u32, u32)>
    decreases cols.len(),
{
    if cols.len() == 0 {
        Seq::empty()
    } else {
        all_spawns(cols.drop_last()) + col_spawns(cols.last())
    }
}

/// `m` with each pair of `entries` inserted in turn.
pub open spec fn insert_all(m: Map<u32, u32>, entries: Seq<(u32, u32)>) -> Map<u32, u32>
    decreases entries.len(),
{
    if entries.len() == 0 {
        m
    } else {
        insert_all(m, entries.drop_last()).insert(entries.last().0, entries.last().1)
    }
}

/// Placeholder id to the parent that replaces it; a later entry wins.
pub open spec fn spawn_map(cols: Seq<SpanCollection>) -> Map<u32, u32> {
    insert_all(Map::empty(), all_spawns(cols))
}

/// `s` with its parent resolved through `m` once.
pub open spec fn resolve(s: RawSpan, m: Map<u32, u32>) -> RawSpan {
    if m.contains_key(s.parent_id) {
        RawSpan { parent_id: m[s.parent_id], ..s }
    } else {
        s
    }
}

/// The reconciled trace: direct emissions, then the non-root scope spans
/// with their parents resolved.
pub open spec fn reconciled(cols: Seq<SpanCollection>) -> Seq<RawSpan> {
    all_emits(cols) + all_pending(cols).map_values(|s: RawSpan| resolve(s, spawn_map(cols)))
}

proof fn lemma_insert_all_concat(m: Map<u32, u32>, a: Seq<(u32, u32)>, b: Seq<(u32, u32)>)
    ensures
        insert_all(m, a + b) == insert_all(insert_all(m, a), b),
    decreases b.len(),
{
    if b.len() == 0 {
        assert(a + b =~= a);
    } else {
        assert((a + b).drop_last() =~= a + b.drop_last());
        lemma_insert_all_concat(m, a, b.drop_last());
    }
}

/// Every span of a run names its enclosing span as parent (the given one at
/// the top, when given), and only spans that are not placeholders have
/// descendants.
pub open spec fn runs_under(spans: Seq<RawSpan>, parent: Option<u32>) -> bool
    decreases spans.len(),
{
    if spans.len() == 0 {
        true
    } else {
        let head = spans[0];
        let n = block_len(spans);
        let block = spans.subrange(1, n + 1);
        let rest = spans.subrange(n + 1, spans.len() as int);
        &&& (parent matches Some(p) ==> head.parent_id == p)
        &&& (block.len() > 0 ==> !head.is_spawn_span)
        &&& runs_under(block, Some(head.id))
        &&& runs_under(rest, parent)
    }
}

/// The ids of `spans` include `id`.
pub open spec fn has_id(spans: Seq<RawSpan>, id: u32) -> bool {
    exists|t: int| 0 <= t < spans.len() && (#[trigger] spans[t]).id == id
}

proof fn lemma_has_id_shift(a: Seq<RawSpan>, b: Seq<RawSpan>, id: u32)
    ensures
        has_id(a, id) ==> has_id(a + b, id),
        has_id(b, id) ==> has_id(a + b, id),
{
    if has_id(a, id) {
        let t = choose|t: int| 0 <= t < a.len() && (#[trigger] a[t]).id == id;
        assert((a + b)[t] == a[t]);
    }
    if has_id(b, id) {
        let t = choose|t: int| 0 <= t < b.len() && (#[trigger] b[t]).id == id;
        assert((a + b)[a.len() + t] == b[t]);
    }
}

/// In a run whose spans name their enclosing span, placed at the top under
/// `parent` (or left under `q`, which all its top spans name), every emitted
/// span hangs under the top parent or under another emitted span.
proof fn lemma_run_parents(spans: Seq<RawSpan>, parent: Option<u32>, q: u32)
    requires
        runs_under(spans, if parent is Some { None } else { Some(q) }),
    ensures
        forall|j: int|
            0 <= j < batch_emits(spans, parent).len() ==> (#[trigger] batch_emits(spans, parent)[j]).parent_id == match parent {
                Some(p) => p,
                None => q,
            } || has_id(batch_emits(spans, parent), batch_emits(spans, parent)[j].parent_id),
    decreases spans.len(),
{
    let top = match parent {
        Some(p) => p,
        None => q,
    };
    if spans.len() > 0 {
        let head = spans[0];
        let n = block_len(spans);
        let block = spans.subrange(1, n + 1);
        let rest = spans.subrange(n + 1, spans.len() as int);
        lemma_run_parents(rest, parent, q);
        lemma_run_parents(block, None, head.id);
        let inner = batch_emits(block, None);
        let here = if head.end_cycle == 0 {
            Seq::<RawSpan>::empty()
        } else if head.is_spawn_span {
            inner
        } else {
            seq![placed(head, parent)] + inner
        };
        let later = batch_emits(rest, parent);
        let out = batch_emits(spans, parent);
        assert(out == here + later);
        assert forall|j: int| 0 <= j < out.len() implies (#[trigger] out[j]).parent_id == top || has_id(out, out[j].parent_id) by {
            if j >= here.len() {
                assert(out[j] == later[j - here.len()]);
                lemma_has_id_shift(here, later, out[j].parent_id);
            } else if head.end_cycle != 0 {
                assert(out[j] == here[j]);
                lemma_has_id_shift(here, later, out[j].parent_id);
                if head.is_spawn_span {
                    assert(block.len() == 0);
                    assert(inner.len() == 0);
                } else if j > 0 {
                    let x = inner[j - 1];
                    assert(here[j] == x);
                    assert(x.parent_id == head.id || has_id(inner, x.parent_id));
                    if x.parent_id == head.id {
                        assert(here[0].id == head.id);
                    } else {
                        lemma_has_id_shift(seq![placed(head, parent)], inner, x.parent_id);
                    }
                }
            }
        }
    }
}

/// In a batch whose spans name their enclosing spans, placed under
/// `parent`, every emitted span hangs under `parent` or under another
/// emitted span.
pub proof fn lemma_batch_parents_emitted(spans: Seq<RawSpan>, parent: u32)
    requires
        runs_under(spans, None),
    ensures
        forall|j: int|
            0 <= j < batch_emits(spans, Some(parent)).len() ==> (#[trigger] batch_emits(spans, Some(parent))[j]).parent_id
                == parent || has_id(batch_emits(spans, Some(parent)), batch_emits(spans, Some(parent))[j].parent_id),
{
    lemma_run_parents(spans, Some(parent), 0);
}

/// Emits the run `spans[from..to]`, placed under `parent` at its top, into
/// `emits`, and records its placeholders in `spawns`.
#[verifier::rlimit(40)]
fn reconcile_run(
    spans: &Vec<RawSpan>,
    from: usize,
    to: usize,
    parent: Option<u32>,
    emits: &mut Vec<RawSpan>,
    spawns: &mut HashMap<u32, u32>,
)
    requires
        from <= to <= spans@.len(),
    ensures
        final(emits)@ == old(emits)@ + batch_emits(spans@.subrange(from as int, to as int), parent),
        final(spawns)@ == insert_all(old(spawns)@, batch_spawns(spans@.subrange(from as int, to as int), parent)),
    decreases to - from,
{
    let mut i: usize = from;
    while i < to
        invariant
            from <= i <= to <= spans@.len(),
            old(emits)@ + batch_emits(spans@.subrange(from as int, to as int), parent) == emits@ + batch_emits(
                spans@.subrange(i as int, to as int),
                parent,
            ),
            insert_all(old(spawns)@, batch_spawns(spans@.subrange(from as int, to as int), parent)) == insert_all(
                spawns@,
                batch_spawns(spans@.subrange(i as int, to as int), parent),
            ),
        decreases to - i,
    {
        let ghost tail = spans@.subrange(i as int, to as int);
        let head = spans[i];
        let n: usize = if head.descendant_count <= to - i - 1 {
            head.descendant_count
        } else {
            to - i - 1
        };
        let ghost block = spans@.subrange(i + 1, i + 1 + n);
        let ghost rest = spans@.subrange(i + 1 + n, to as int);
        assert(tail[0] == head);
        assert(block_len(tail) == n);
        assert(tail.subrange(1, n + 1) =~= block);
        assert(tail.subrange(n + 1, tail.len() as int) =~= rest);
        let ghost emits0 = emits@;
        let ghost spawns0 = spawns@;
        let ghost here_e = if head.end_cycle == 0 {
            Seq::<RawSpan>::empty()
        } else if head.is_spawn_span {
            batch_emits(block, None)
        } else {
            seq![placed(head, parent)] + batch_emits(block, None)
        };
        let ghost here_s = if head.end_cycle == 0 {
            Seq::<(u32, u32)>::empty()
        } else if head.is_spawn_span {
            seq![(head.id, placed(head, parent).parent_id)] + batch_spawns(block, None)
        } else {
            batch_spawns(block, None)
        };
        assert(batch_emits(tail, parent) == here_e + batch_emits(rest, parent));
        assert(batch_spawns(tail, parent) == here_s + batch_spawns(rest, parent));
        if head.end_cycle != 0 {
            let placed_head = match parent {
                Some(p) => RawSpan { parent_id: p, ..head },
                None => head,
            };
            if head.is_spawn_span {
                spawns.insert(head.id, placed_head.parent_id);
                proof {
                    lemma_insert_one(spawns0, head.id, placed_head.parent_id);
                }
            } else {
                emits.push(placed_head);
            }
            reconcile_run(spans, i + 1, i + 1 + n, None, emits, spawns);
            proof {
                if head.is_spawn_span {
                    lemma_insert_all_concat(spawns0, seq![(head.id, placed_head.parent_id)], batch_spawns(block, None));
                }
                assert(emits@ =~= emits0 + here_e);
            }
        } else {
            assert(emits@ =~= emits0 + here_e);
        }
        proof {
            assert(emits0 + batch_emits(tail, parent) =~= emits@ + batch_emits(rest, parent));
            lemma_insert_all_concat(spawns0, here_s, batch_spawns(rest, parent));
        }
        i = i + 1 + n;
    }
    proof {
        assert(spans@.subrange(to as int, to as int) =~= Seq::<RawSpan>::empty());
        assert(emits@ + Seq::<RawSpan>::empty() =~= emits@);
    }
}

proof fn lemma_insert_one(m: Map<u32, u32>, k: u32, v: u32)
    ensures
        insert_all(m, seq![(k, v)]) == m.insert(k, v),
{
    assert(seq![(k, v)].drop_last() =~= Seq::<(u32, u32)>::empty());
    assert(insert_all(m, Seq::<(u32, u32)>::empty()) == m);
}

/// Reconciles the submissions of one trace: emits root scope spans and
/// batches in order, then the other scope spans with their parents resolved
/// through the spawn placeholders.
pub fn reconcile(cols: &Vec<SpanCollection>) -> (r: Vec<RawSpan>)
    ensures
        r@ == reconciled(cols@),
{
    let mut emits: Vec<RawSpan> = Vec::new();
    let mut pending: Vec<RawSpan> = Vec::new();
    let mut spawns: HashMap<u32, u32> = HashMap::new();
    let mut i: usize = 0;
    while i < cols.len()
        invariant
            i <= cols@.len(),
            emits@ == all_emits(cols@.take(i as int)),
            pending@ == all_pending(cols@.take(i as int)),
            spawns@ == spawn_map(cols@.take(i as int)),
        decreases cols@.len() - i,
    {
        let ghost prefix = cols@.take(i as int);
        let ghost next = cols@.take(i + 1);
        assert(next.drop_last() =~= prefix);
        assert(next.last() == cols@[i as int]);
        let ghost spawns0 = spawns@;
        match &cols[i] {
            SpanCollection::ScopeSpan(s) => {
                if s.parent_id == 0 {
                    emits.push(*s);
                } else {
                    pending.push(*s);
                }
                assert(all_spawns(next) =~= all_spawns(prefix));
            },
            SpanCollection::LocalSpans { spans, parent_scope_id } => {
                reconcile_run(&spans.spans, 0, spans.spans.len(), Some(*parent_scope_id), &mut emits, &mut spawns);
                assert(spans.spans@.subrange(0, spans.spans@.len() as int) =~= spans.spans@);
                proof {
                    lemma_insert_all_concat(Map::empty(), all_spawns(prefix), col_spawns(cols@[i as int]));
                }
                assert(all_pending(next) =~= all_pending(prefix));
            },
        }
        i = i + 1;
    }
    assert(cols@.take(i as int) =~= cols@);
    let ghost m = spawns@;
    let mut r = emits;
    let mut k: usize = 0;
    while k < pending.len()
        invariant
            k <= pending@.len(),
            m == spawn_map(cols@),
            spawns@ == m,
            pending@ == all_pending(cols@),
            r@ == all_emits(cols@) + pending@.take(k as int).map_values(|s: RawSpan| resolve(s, m)),
        decreases pending@.len() - k,
    {
        let s = pending[k];
        let resolved = match spawns.get(&s.parent_id) {
            Some(p) => RawSpan { parent_id: *p, ..s },
            None => s,
        };
        r.push(resolved);
        k = k + 1;
        assert(r@ =~= all_emits(cols@) + pending@.take(k as int).map_values(|s: RawSpan| resolve(s, m)));
    }
    assert(pending@.take(k as int) =~= pending@);
    r
}

} // verus!
