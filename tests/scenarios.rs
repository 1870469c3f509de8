use minitrace::{
    cycle_to_unix_time_ns, cycles_to_ns, finish_spans, new_span, property, property_closure, reconcile,
    trace_binder, trace_binder_fine, trace_enable, trace_may_enable, Anchor, IdEpochs, LocalCollector,
    LocalSpans, Properties, RawSpan, Scope, SettleGuard, Span, SpanCollection, SpanLine, State, TraceHandle,
};

fn line_with(epochs: &IdEpochs) -> SpanLine {
    SpanLine::new(epochs.clone())
}

fn find<'a>(spans: &'a [Span], id: u32) -> &'a Span {
    spans.iter().find(|s| s.id == id).unwrap()
}

fn raw(id: u32, parent_id: u32, begin: u64, end: u64, descendant_count: usize) -> RawSpan {
    RawSpan {
        id,
        parent_id,
        begin_cycle: begin,
        end_cycle: end,
        event: id,
        state: State::Local,
        is_spawn_span: false,
        descendant_count,
    }
}

fn batch(spans: Vec<RawSpan>, parent_scope_id: u32) -> SpanCollection {
    SpanCollection::LocalSpans {
        spans: LocalSpans { spans, properties: Properties::new(), end_time: 0 },
        parent_scope_id,
    }
}

#[test]
fn sync_nested_spans_hang_under_root() {
    let mut line = SpanLine::new(IdEpochs::new());
    let (root, collector) = trace_enable(&mut line, 100);
    let root_id = root.root_id_exec();
    for i in 1..=10u32 {
        let g = new_span(&mut line, i).unwrap();
        g.finish(&mut line);
    }
    root.finish(&mut line);
    let spans = collector.collect(false, None, None);
    assert_eq!(spans.len(), 11);
    let mut children: Vec<&Span> = spans.iter().filter(|s| s.id != root_id).collect();
    assert!(children.iter().all(|s| s.parent_id == root_id));
    children.sort_by_key(|s| s.event);
    for w in children.windows(2) {
        assert!(w[0].begin_unix_time_ns <= w[1].begin_unix_time_ns);
    }
}

#[test]
fn recursive_spans_form_a_chain() {
    let mut line = SpanLine::new(IdEpochs::new());
    let (root, collector) = trace_enable(&mut line, 100);
    let root_id = root.root_id_exec();
    let mut guards = vec![];
    for e in (1..=10u32).rev() {
        guards.push(new_span(&mut line, e).unwrap());
    }
    while let Some(g) = guards.pop() {
        g.finish(&mut line);
    }
    root.finish(&mut line);
    let spans = collector.collect(false, None, None);
    assert_eq!(spans.len(), 11);
    let by_event = |e: u32| spans.iter().find(|s| s.event == e).unwrap();
    assert_eq!(by_event(10).parent_id, root_id);
    for e in 1..10u32 {
        assert_eq!(by_event(e).parent_id, by_event(e + 1).id);
    }
}

#[test]
fn cross_thread_handoff() {
    let epochs = IdEpochs::new();
    let mut line_a = line_with(&epochs);
    let mut line_b = line_with(&epochs);
    let (root, collector) = trace_enable(&mut line_a, 1);
    let root_id = root.root_id_exec();
    let mut handle = trace_binder(&mut line_a, 2);

    let guard = handle.trace_enable(&mut line_b, 3).unwrap();
    let (pending, settle_id) = match &guard {
        SettleGuard::TraceGuard(g) => (g.pending_span(), g.settle_id().unwrap()),
        SettleGuard::SpanGuard(_) => panic!("expected an attachment"),
    };
    assert_eq!(pending.state, State::Spawning);
    guard.finish(&mut line_b, &mut handle);
    handle.finish();
    root.finish(&mut line_a);

    let spans = collector.collect(false, None, None);
    assert_eq!(spans.len(), 3);
    let p = find(&spans, pending.id);
    let s = find(&spans, settle_id);
    assert_eq!(p.state, State::Spawning);
    assert_eq!(s.state, State::Settle);
    assert_eq!(s.event, 3);
    assert_eq!(s.parent_id, p.id);
    assert_eq!(p.parent_id, root_id);
    assert_eq!(p.begin_unix_time_ns + p.duration_ns, s.begin_unix_time_ns);
    assert!(line_a.is_idle() && line_b.is_idle());
}

#[test]
fn fan_out_tasks() {
    let epochs = IdEpochs::new();
    let mut line = line_with(&epochs);
    let (root, collector) = trace_enable(&mut line, 0);
    let root_id = root.root_id_exec();
    let mut handles: Vec<TraceHandle> = (1..=10u32).map(|i| trace_binder(&mut line, i)).collect();
    root.finish(&mut line);

    let mut settle_ids = vec![];
    for (i, handle) in handles.iter_mut().enumerate() {
        let mut other = line_with(&epochs);
        let guard = handle.trace_enable(&mut other, i as u32 + 1).unwrap();
        if let SettleGuard::TraceGuard(g) = &guard {
            settle_ids.push(g.settle_id().unwrap());
        }
        guard.finish(&mut other, handle);
        assert!(other.is_idle());
    }
    for h in handles {
        h.finish();
    }

    let spans = collector.collect(false, None, None);
    assert_eq!(spans.len(), 21);
    let mut distinct = settle_ids.clone();
    distinct.sort();
    distinct.dedup();
    assert_eq!(distinct.len(), 10);
    let pendings: Vec<&Span> = spans.iter().filter(|s| s.state == State::Spawning).collect();
    assert_eq!(pendings.len(), 10);
    assert!(pendings.iter().all(|p| p.parent_id == root_id));
    let settles: Vec<&Span> = spans.iter().filter(|s| s.state == State::Settle).collect();
    assert_eq!(settles.len(), 10);
    assert!(settles.iter().all(|s| pendings.iter().any(|p| p.id == s.parent_id)));
}

#[test]
fn unfinished_child_is_dropped() {
    let mut line = SpanLine::new(IdEpochs::new());
    let (root, collector) = Scope::root(&mut line, 1);
    let root_id = root.id().unwrap();
    let child = root.child(&mut line, 2);
    let guard = child.attach(&mut line);
    let inner = new_span(&mut line, 3).unwrap();
    drop(inner);
    guard.finish(&mut line);
    child.finish();
    root.finish();

    let spans = collector.collect(false, None, None);
    assert_eq!(spans.len(), 2);
    assert!(spans.iter().all(|s| s.event != 3));
    let r = find(&spans, root_id);
    let c = spans.iter().find(|s| s.event == 2).unwrap();
    assert_eq!(c.parent_id, root_id);
    assert!(r.duration_ns >= c.duration_ns);
}

#[test]
fn property_attach() {
    let mut line = SpanLine::new(IdEpochs::new());
    let (root, collector) = trace_enable(&mut line, 0);
    let a = new_span(&mut line, 1).unwrap();
    property(&mut line, b"host:127.0.0.1");
    a.finish(&mut line);
    root.finish(&mut line);
    let spans = collector.collect(false, None, None);
    let span_a = spans.iter().find(|s| s.event == 1).unwrap();
    assert_eq!(span_a.properties, vec![b"host:127.0.0.1".to_vec()]);
    let root_span = spans.iter().find(|s| s.event == 0).unwrap();
    assert!(root_span.properties.is_empty());
}

#[test]
fn property_closure_runs_only_in_a_trace() {
    let mut line = SpanLine::new(IdEpochs::new());
    let mut ran = false;
    property_closure(&mut line, || {
        ran = true;
        b"x".to_vec()
    });
    assert!(!ran);
    let (root, collector) = trace_enable(&mut line, 0);
    property_closure(&mut line, || b"y".to_vec());
    root.finish(&mut line);
    let spans = collector.collect(false, None, None);
    assert_eq!(spans[0].properties, vec![b"y".to_vec()]);
}

#[test]
fn returned_spans_are_timed() {
    let mut line = SpanLine::new(IdEpochs::new());
    let (root, collector) = trace_enable(&mut line, 0);
    for i in 1..=3u32 {
        let g = new_span(&mut line, i).unwrap();
        g.finish(&mut line);
    }
    root.finish(&mut line);
    let spans = collector.collect(false, None, None);
    assert_eq!(spans.len(), 4);
    for s in spans.iter() {
        assert!(s.begin_unix_time_ns > 0);
        assert!(s.duration_ns < u64::MAX);
    }
}

#[test]
fn non_root_parents_are_emitted() {
    let epochs = IdEpochs::new();
    let mut line = line_with(&epochs);
    let (root, collector) = trace_enable(&mut line, 0);
    let outer = new_span(&mut line, 1).unwrap();
    let mut handle = trace_binder(&mut line, 2);
    let inner = new_span(&mut line, 3).unwrap();
    inner.finish(&mut line);
    outer.finish(&mut line);
    root.finish(&mut line);
    let mut other = line_with(&epochs);
    let g = handle.trace_enable(&mut other, 4).unwrap();
    let h = new_span(&mut other, 5).unwrap();
    h.finish(&mut other);
    g.finish(&mut other, &mut handle);
    handle.finish();

    let spans = collector.collect(false, None, Some(77));
    assert_eq!(spans.len(), 6);
    for s in spans.iter() {
        assert!(s.parent_id == 77 || spans.iter().any(|p| p.id == s.parent_id));
    }
    let pending = spans.iter().find(|s| s.state == State::Spawning).unwrap();
    assert_eq!(find(&spans, pending.parent_id).event, 1);
}

#[test]
fn children_fit_in_parent() {
    let mut line = SpanLine::new(IdEpochs::new());
    let (root, collector) = trace_enable(&mut line, 0);
    let root_id = root.root_id_exec();
    for i in 1..=10u32 {
        let g = new_span(&mut line, i).unwrap();
        g.finish(&mut line);
    }
    root.finish(&mut line);
    let spans = collector.collect(false, None, None);
    let parent = find(&spans, root_id);
    let total: u64 = spans.iter().filter(|s| s.parent_id == root_id).map(|s| s.duration_ns).sum();
    assert!(total <= parent.duration_ns + 1_000);
}

#[test]
fn close_order_is_post_order() {
    let mut line = SpanLine::new(IdEpochs::new());
    let collector = LocalCollector::try_start(&mut line).unwrap();
    let g1 = new_span(&mut line, 1).unwrap();
    let g2 = new_span(&mut line, 2).unwrap();
    let g3 = new_span(&mut line, 3).unwrap();
    g3.finish(&mut line);
    g2.finish(&mut line);
    let g4 = new_span(&mut line, 4).unwrap();
    g4.finish(&mut line);
    g1.finish(&mut line);
    let g5 = new_span(&mut line, 5).unwrap();
    g5.finish(&mut line);
    let local = collector.collect(&mut line);
    let events: Vec<u32> = local.spans.iter().map(|s| s.event).collect();
    assert_eq!(events, vec![1, 2, 3, 4, 5]);
    let counts: Vec<usize> = local.spans.iter().map(|s| s.descendant_count).collect();
    assert_eq!(counts, vec![3, 1, 0, 0, 0]);
    assert!(local.spans.iter().all(|s| s.end_cycle != 0));
    assert_eq!(local.spans[1].parent_id, local.spans[0].id);
    assert_eq!(local.spans[3].parent_id, local.spans[0].id);
    assert!(line.is_idle());
}

#[test]
fn mismatched_close_is_ignored() {
    let mut line = SpanLine::new(IdEpochs::new());
    let collector = LocalCollector::start(&mut line);
    let g1 = new_span(&mut line, 1).unwrap();
    let g2 = new_span(&mut line, 2).unwrap();
    g1.finish(&mut line);
    let local = collector.collect(&mut line);
    drop(g2);
    assert_eq!(local.spans.len(), 2);
    assert!(local.spans.iter().all(|s| s.end_cycle == 0));
    assert_eq!(local.spans[0].descendant_count, 1);
}

#[test]
fn handle_attached_three_times() {
    let epochs = IdEpochs::new();
    let mut line = line_with(&epochs);
    let (root, collector) = trace_enable(&mut line, 0);
    let mut handle = trace_binder_fine(&mut line, 1, 2);
    root.finish(&mut line);

    let mut pairs = vec![];
    for i in 0..3u32 {
        let mut other = line_with(&epochs);
        let guard = handle.trace_enable(&mut other, 10 + i).unwrap();
        if let SettleGuard::TraceGuard(g) = &guard {
            pairs.push((g.pending_span(), g.settle_id().unwrap()));
        }
        guard.finish(&mut other, &mut handle);
    }
    handle.finish();

    assert_eq!(pairs.len(), 3);
    assert_eq!(pairs[0].0.state, State::Spawning);
    assert_eq!(pairs[1].0.state, State::Scheduling);
    assert_eq!(pairs[2].0.state, State::Scheduling);
    assert_eq!(pairs[1].0.parent_id, pairs[0].1);
    assert_eq!(pairs[2].0.parent_id, pairs[1].1);
    assert!(pairs.iter().all(|(p, _)| p.event == 2));

    let spans = collector.collect(false, None, None);
    assert_eq!(spans.len(), 7);
    assert_eq!(spans.iter().filter(|s| s.state == State::Settle).count(), 3);
    assert_eq!(spans.iter().filter(|s| s.state == State::Spawning || s.state == State::Scheduling).count(), 3);
    assert_eq!(spans.iter().filter(|s| s.state == State::Pending).count(), 0);
}

#[test]
fn late_producer_is_turned_away() {
    let mut line = SpanLine::new(IdEpochs::new());
    let (root, collector) = Scope::root(&mut line, 1);
    let early = root.child(&mut line, 2);
    early.finish();
    let spans = collector.collect(false, None, None);
    assert_eq!(spans.len(), 1);
    let late = root.child(&mut line, 3);
    assert!(late.is_empty());
    root.finish();
}

#[test]
fn threshold_returns_root_alone() {
    let mut line = SpanLine::new(IdEpochs::new());
    let (root, collector) = trace_enable(&mut line, 0);
    let root_id = root.root_id_exec();
    for i in 1..=5u32 {
        let g = new_span(&mut line, i).unwrap();
        g.finish(&mut line);
    }
    root.finish(&mut line);
    let spans = collector.collect(false, Some(u64::MAX), None);
    assert_eq!(spans.len(), 1);
    assert_eq!(spans[0].id, root_id);
}

#[test]
fn threshold_zero_keeps_everything() {
    let mut line = SpanLine::new(IdEpochs::new());
    let (root, collector) = trace_enable(&mut line, 0);
    let g = new_span(&mut line, 1).unwrap();
    g.finish(&mut line);
    root.finish(&mut line);
    let spans = collector.collect(false, Some(0), None);
    assert_eq!(spans.len(), 2);
}

#[test]
fn cycle_conversion_values() {
    let anchor = Anchor { cycle: 1_000, unix_time_ns: 5_000_000_000, cycles_per_second: 2_000_000_000 };
    assert_eq!(cycle_to_unix_time_ns(3_000, anchor), 5_000_001_000);
    assert_eq!(cycle_to_unix_time_ns(1_000, anchor), 5_000_000_000);
    assert_eq!(cycle_to_unix_time_ns(0, anchor), 4_999_999_500);
    let early = Anchor { cycle: u64::MAX, unix_time_ns: 10, cycles_per_second: 1 };
    assert_eq!(cycle_to_unix_time_ns(0, early), 0);
    let late = Anchor { cycle: 0, unix_time_ns: u64::MAX - 5, cycles_per_second: 1 };
    assert_eq!(cycle_to_unix_time_ns(1, late), u64::MAX);
    assert_eq!(cycles_to_ns(3, 4), 750_000_000);
    assert_eq!(cycles_to_ns(u64::MAX, 1), u64::MAX);
}

#[test]
fn build_span_measures_duration() {
    let anchor = Anchor { cycle: 0, unix_time_ns: 1_000, cycles_per_second: 1_000_000_000 };
    let s = raw(7, 3, 100, 350, 0).build_span(anchor);
    assert_eq!(s.id, 7);
    assert_eq!(s.parent_id, 3);
    assert_eq!(s.begin_unix_time_ns, 1_100);
    assert_eq!(s.duration_ns, 250);
    let backwards = raw(7, 3, 350, 100, 0).build_span(anchor);
    assert_eq!(backwards.duration_ns, 0);
}

#[test]
fn reconcile_resolves_placeholders_and_drops_unfinished() {
    let mut spawn = raw(20, 0, 1, 2, 0);
    spawn.is_spawn_span = true;
    let cols = vec![
        SpanCollection::ScopeSpan(raw(1, 0, 1, 9, 0)),
        batch(vec![raw(10, 0, 2, 8, 2), raw(11, 10, 3, 4, 0), raw(12, 10, 5, 6, 0), spawn], 1),
        batch(vec![raw(30, 0, 2, 0, 1), raw(31, 30, 3, 4, 0), raw(32, 0, 5, 6, 0)], 1),
        SpanCollection::ScopeSpan(raw(40, 20, 3, 7, 0)),
        SpanCollection::ScopeSpan(raw(41, 99, 3, 7, 0)),
    ];
    let out = reconcile(&cols);
    let ids: Vec<(u32, u32)> = out.iter().map(|s| (s.id, s.parent_id)).collect();
    assert_eq!(ids, vec![(1, 0), (10, 1), (11, 10), (12, 10), (32, 1), (40, 1), (41, 99)]);
}

#[test]
fn finish_spans_assigns_properties_and_stitches_root() {
    let mut props = Properties::new();
    props.push(10, b"ab");
    props.push(1, b"");
    props.push(10, b"c");
    let cols = vec![
        SpanCollection::LocalSpans {
            spans: LocalSpans { spans: vec![raw(10, 0, 2, 4, 0)], properties: props, end_time: 5 },
            parent_scope_id: 1,
        },
        SpanCollection::ScopeSpan(raw(1, 0, 1, 9, 0)),
    ];
    let anchor = Anchor { cycle: 0, unix_time_ns: 1_000, cycles_per_second: 1_000_000_000 };
    let out = finish_spans(&cols, None, Some(55), anchor);
    assert_eq!(out.len(), 2);
    assert_eq!(out[0].id, 10);
    assert_eq!(out[0].properties, vec![b"ab".to_vec(), b"c".to_vec()]);
    assert_eq!(out[1].parent_id, 55);
    assert_eq!(out[1].properties, vec![Vec::<u8>::new()]);
    assert_eq!(out[1].duration_ns, 8);
    let short = finish_spans(&cols, Some(9), None, anchor);
    assert_eq!(short.len(), 1);
    assert_eq!(short[0].id, 1);
    assert!(short[0].properties.is_empty());
}

#[test]
fn occupied_thread_refuses_attachment() {
    let mut line = SpanLine::new(IdEpochs::new());
    let (root, collector) = trace_enable(&mut line, 0);
    let (other, _other_collector) = Scope::root(&mut line, 1);
    assert!(other.try_attach(&mut line).is_none());
    assert!(LocalCollector::try_start(&mut line).is_none());
    other.finish();
    root.finish(&mut line);
    assert_eq!(collector.collect(false, None, None).len(), 1);
}

#[test]
fn dormant_handle_does_nothing() {
    let mut line = SpanLine::new(IdEpochs::new());
    let mut handle = trace_binder(&mut line, 1);
    assert!(handle.trace_enable(&mut line, 2).is_none());
    let mut dormant = TraceHandle::dormant();
    assert!(dormant.trace_enable(&mut line, 2).is_none());
    handle.finish();
    assert!(line.is_idle());
}

#[test]
fn handle_on_busy_thread_opens_plain_span() {
    let epochs = IdEpochs::new();
    let mut line = line_with(&epochs);
    let (root, collector) = trace_enable(&mut line, 0);
    let root_id = root.root_id_exec();
    let mut handle = trace_binder(&mut line, 1);
    let guard = handle.trace_enable(&mut line, 2).unwrap();
    assert!(matches!(guard, SettleGuard::SpanGuard(_)));
    guard.finish(&mut line, &mut handle);
    handle.finish();
    root.finish(&mut line);
    let spans = collector.collect(false, None, None);
    assert_eq!(spans.len(), 2);
    assert_eq!(spans.iter().find(|s| s.event == 2).unwrap().parent_id, root_id);
}

#[test]
fn trace_may_enable_respects_flag() {
    let mut line = SpanLine::new(IdEpochs::new());
    let (g, c) = trace_may_enable(false, &mut line, 0);
    assert!(g.is_none() && c.is_none());
    assert!(line.is_idle());
    let (g, c) = trace_may_enable(true, &mut line, 0);
    g.unwrap().finish(&mut line);
    assert_eq!(c.unwrap().collect(false, None, None).len(), 1);
}

#[test]
fn merged_scope_joins_two_traces() {
    let mut line = SpanLine::new(IdEpochs::new());
    let (a, ca) = Scope::root(&mut line, 1);
    let (b, cb) = Scope::root(&mut line, 2);
    let m = Scope::merge(&vec![&a, &b, &Scope::empty()], &mut line, 3);
    let mid = m.id().unwrap();
    m.finish();
    let a_id = a.id().unwrap();
    let b_id = b.id().unwrap();
    a.finish();
    b.finish();
    let sa = ca.collect(false, None, None);
    let sb = cb.collect(false, None, None);
    assert_eq!(find(&sa, mid).parent_id, a_id);
    assert_eq!(find(&sb, mid).parent_id, b_id);
}

#[test]
fn child_from_local_hangs_under_current_span() {
    let mut line = SpanLine::new(IdEpochs::new());
    let (root, collector) = trace_enable(&mut line, 0);
    let outer = new_span(&mut line, 1).unwrap();
    let child = Scope::child_from_local(&mut line, 2);
    outer.finish(&mut line);
    root.finish(&mut line);
    child.finish();
    let spans = collector.collect(false, None, None);
    assert_eq!(spans.len(), 3);
    let outer_span = spans.iter().find(|s| s.event == 1).unwrap();
    let child_span = spans.iter().find(|s| s.event == 2).unwrap();
    assert_eq!(child_span.parent_id, outer_span.id);
    assert!(Scope::child_from_local(&mut line, 9).is_empty());
}

#[test]
fn submit_raw_spans_goes_under_scope() {
    let mut line = SpanLine::new(IdEpochs::new());
    let lc = LocalCollector::start(&mut line);
    let g = new_span(&mut line, 5).unwrap();
    property(&mut line, b"p");
    g.finish(&mut line);
    let local = lc.collect(&mut line);
    let (root, collector) = Scope::root(&mut line, 1);
    root.submit_raw_spans(local);
    let root_id = root.id().unwrap();
    root.finish();
    let spans = collector.collect(false, None, None);
    assert_eq!(spans.len(), 2);
    let s = spans.iter().find(|s| s.event == 5).unwrap();
    assert_eq!(s.parent_id, root_id);
    assert_eq!(s.properties, vec![b"p".to_vec()]);
}

#[test]
fn trace_enable_fine_records_wait_and_settle() {
    let mut line = SpanLine::new(IdEpochs::new());
    let (root, collector) = minitrace::trace_enable_fine(&mut line, 1, 2, 3);
    let root_id = root.root_id_exec();
    let g = new_span(&mut line, 4).unwrap();
    g.finish(&mut line);
    root.finish(&mut line);
    assert!(line.is_idle());
    let spans = collector.collect(false, None, None);
    assert_eq!(spans.len(), 4);
    let wait = spans.iter().find(|s| s.event == 2).unwrap();
    let settle = spans.iter().find(|s| s.event == 3).unwrap();
    let child = spans.iter().find(|s| s.event == 4).unwrap();
    assert_eq!(wait.state, State::Spawning);
    assert_eq!(wait.parent_id, root_id);
    assert_eq!(settle.state, State::Settle);
    assert_eq!(settle.parent_id, wait.id);
    assert_eq!(child.parent_id, settle.id);
    let (g, c) = minitrace::trace_may_enable_fine(false, &mut line, 1, 2, 3);
    assert!(g.is_none() && c.is_none());
}

#[test]
fn discarded_local_collector_frees_thread() {
    let mut line = SpanLine::new(IdEpochs::new());
    let lc = LocalCollector::start(&mut line);
    let g = new_span(&mut line, 1).unwrap();
    property(&mut line, b"q");
    g.finish(&mut line);
    lc.discard(&mut line);
    assert!(line.is_idle());
    assert!(LocalCollector::try_start(&mut line).is_some());
}

#[test]
fn nested_unfinished_subtree_is_dropped() {
    // A (finished) holds B (unfinished), which holds C (finished); D follows.
    let cols = vec![
        SpanCollection::ScopeSpan(raw(1, 0, 1, 9, 0)),
        batch(vec![raw(10, 0, 2, 8, 3), raw(11, 10, 3, 0, 1), raw(12, 11, 4, 5, 0), raw(13, 10, 6, 7, 0)], 1),
    ];
    let out = reconcile(&cols);
    let ids: Vec<(u32, u32)> = out.iter().map(|s| (s.id, s.parent_id)).collect();
    assert_eq!(ids, vec![(1, 0), (10, 1), (13, 10)]);
}

#[test]
fn nested_unfinished_span_leaves_siblings() {
    let cols = vec![batch(vec![raw(10, 0, 2, 8, 3), raw(11, 10, 3, 4, 0), raw(12, 10, 5, 0, 0), raw(13, 10, 6, 7, 0)], 1)];
    let out = reconcile(&cols);
    let ids: Vec<u32> = out.iter().map(|s| s.id).collect();
    assert_eq!(ids, vec![10, 11, 13]);
}

#[test]
fn finishing_returns_what_was_sent() {
    let mut line = SpanLine::new(IdEpochs::new());
    let (root, collector) = Scope::root(&mut line, 1);
    let root_id = root.id().unwrap();
    let local = LocalSpans { spans: vec![raw(50, 0, 1, 2, 0)], properties: Properties::new(), end_time: 3 };
    match root.submit_raw_spans(local) {
        Some(SpanCollection::LocalSpans { spans, parent_scope_id }) => {
            assert_eq!(parent_scope_id, root_id);
            assert_eq!(spans.spans.len(), 1);
        }
        _ => panic!("expected a batch"),
    }
    assert!(Scope::empty().submit_raw_spans(LocalSpans {
        spans: vec![],
        properties: Properties::new(),
        end_time: 0
    })
    .is_none());

    let guard = root.attach(&mut line);
    let g = new_span(&mut line, 7).unwrap();
    g.finish(&mut line);
    let mut handle = trace_binder(&mut line, 8);
    match guard.finish(&mut line) {
        Some(SpanCollection::LocalSpans { spans, parent_scope_id }) => {
            assert_eq!(parent_scope_id, root_id);
            assert_eq!(spans.spans.len(), 1);
            assert_eq!(spans.spans[0].event, 7);
        }
        _ => panic!("expected a batch"),
    }
    assert!(line.is_idle());
    let mut other = SpanLine::new(IdEpochs::new());
    let sg = handle.trace_enable(&mut other, 9).unwrap();
    sg.finish(&mut other, &mut handle);
    match handle.finish() {
        Some(SpanCollection::LocalSpans { spans, parent_scope_id }) => {
            assert_eq!(parent_scope_id, root_id);
            assert!(spans.spans[0].is_spawn_span);
            assert_eq!(spans.spans[0].state, State::Pending);
        }
        _ => panic!("expected a batch"),
    }
    let ended = root.finish_at(42);
    assert_eq!(ended.len(), 1);
    assert_eq!(ended[0].end_cycle, 42);
    assert_eq!(ended[0].id, root_id);
    let spans = collector.collect(false, None, None);
    assert_eq!(spans.len(), 5);
}

#[test]
fn next_wait_begins_at_settle_exit() {
    let epochs = IdEpochs::new();
    let mut line = line_with(&epochs);
    let (root, collector) = trace_enable(&mut line, 0);
    let mut handle = trace_binder(&mut line, 1);
    root.finish(&mut line);
    let mut other = line_with(&epochs);
    let first = handle.trace_enable(&mut other, 2).unwrap();
    let ended = first.finish(&mut other, &mut handle);
    assert_eq!(ended.len(), 1);
    assert_eq!(ended[0].state, State::Settle);
    assert!(ended[0].end_cycle > 0);
    let second = handle.trace_enable(&mut other, 3).unwrap();
    match &second {
        SettleGuard::TraceGuard(g) => {
            let wait = g.pending_span();
            assert_eq!(wait.state, State::Scheduling);
            assert_eq!(wait.begin_cycle, ended[0].end_cycle);
            assert_eq!(wait.parent_id, ended[0].id);
        }
        SettleGuard::SpanGuard(_) => panic!("expected an attachment"),
    }
    second.finish(&mut other, &mut handle);
    handle.finish();
    assert_eq!(collector.collect(false, None, None).len(), 5);
}

#[test]
fn merged_and_child_scopes_get_fresh_ids() {
    let mut line = SpanLine::new(IdEpochs::new());
    let (root, _collector) = Scope::root(&mut line, 1);
    let child = root.child(&mut line, 2);
    let grandchild = child.child(&mut line, 3);
    let ids = [root.id().unwrap(), child.id().unwrap(), grandchild.id().unwrap()];
    assert!(ids[0] != ids[1] && ids[1] != ids[2] && ids[0] != ids[2]);
    assert!(ids.iter().all(|i| *i != 0));
}
