use std::collections::HashMap;

use minitrace::{new_span, property, trace_enable, IdEpochs, Span, SpanGuard, SpanLine};

// Pairs each span's event with its parent's event, sorted by event.
// Events of distinct spans must differ for the relation to be read back.
fn rebuild_relation_by_event(spans: Vec<Span>) -> Vec<(u32, Option<u32>)> {
    let events: HashMap<u32, u32> = spans.iter().map(|s| (s.id, s.event)).collect();
    let mut res: Vec<(u32, Option<u32>)> = spans
        .iter()
        .map(|s| {
            if s.parent_id == 0 {
                (s.event, None)
            } else {
                (s.event, Some(events[&s.parent_id]))
            }
        })
        .collect();
    res.sort();
    res
}

fn check_clear(line: &SpanLine) {
    assert!(line.is_idle());
}

fn close(guard: Option<SpanGuard>, line: &mut SpanLine) {
    if let Some(g) = guard {
        g.finish(line);
    }
}

#[test]
fn trace_basic() {
    let mut line = SpanLine::new(IdEpochs::new());
    let (root, collector) = trace_enable(&mut line, 0u32);
    {
        let guard = new_span(&mut line, 1u32);
        close(guard, &mut line);
    }
    root.finish(&mut line);

    let spans = collector.collect(false, None, None);
    let spans = rebuild_relation_by_event(spans);

    assert_eq!(spans.len(), 2);
    assert_eq!(&spans, &[(0, None), (1, Some(0))]);
    check_clear(&line);
}

#[test]
fn trace_not_enable() {
    let mut line = SpanLine::new(IdEpochs::new());
    {
        let guard = new_span(&mut line, 1u32);
        assert!(guard.is_none());
        close(guard, &mut line);
    }

    check_clear(&line);
}

#[test]
fn trace_wide_function() {
    let mut line = SpanLine::new(IdEpochs::new());
    let (root, collector) = trace_enable(&mut line, 0u32);

    for i in 1..=10u32 {
        let guard = new_span(&mut line, i);
        close(guard, &mut line);
    }
    root.finish(&mut line);

    let spans = collector.collect(false, None, None);
    let spans = rebuild_relation_by_event(spans);

    assert_eq!(spans.len(), 11);
    assert_eq!(
        &spans,
        &[
            (0, None),
            (1, Some(0)),
            (2, Some(0)),
            (3, Some(0)),
            (4, Some(0)),
            (5, Some(0)),
            (6, Some(0)),
            (7, Some(0)),
            (8, Some(0)),
            (9, Some(0)),
            (10, Some(0))
        ]
    );
    check_clear(&line);
}

fn sync_spanned_rec_event_step_to_1(line: &mut SpanLine, step: u32) {
    let guard = new_span(line, step);

    if step > 1 {
        sync_spanned_rec_event_step_to_1(line, step - 1);
    }
    close(guard, line);
}

#[test]
fn trace_deep_function() {
    let mut line = SpanLine::new(IdEpochs::new());
    let (root, collector) = trace_enable(&mut line, 0u32);

    sync_spanned_rec_event_step_to_1(&mut line, 10);
    root.finish(&mut line);

    let spans = collector.collect(false, None, None);
    let spans = rebuild_relation_by_event(spans);

    assert_eq!(spans.len(), 11);
    assert_eq!(
        &spans,
        &[
            (0, None),
            (1, Some(2)),
            (2, Some(3)),
            (3, Some(4)),
            (4, Some(5)),
            (5, Some(6)),
            (6, Some(7)),
            (7, Some(8)),
            (8, Some(9)),
            (9, Some(10)),
            (10, Some(0))
        ]
    );
    check_clear(&line);
}

#[test]
fn test_property_sync() {
    let mut line = SpanLine::new(IdEpochs::new());
    let (root, collector) = trace_enable(&mut line, 0u32);
    let root_id = root.root_id_exec();
    property(&mut line, b"123");

    let g1 = new_span(&mut line, 1u32);
    let g2 = new_span(&mut line, 2u32);
    property(&mut line, b"abc");
    property(&mut line, b"");

    let g3 = new_span(&mut line, 2u32);
    property(&mut line, b"edf");

    close(g3, &mut line);
    close(g2, &mut line);
    close(g1, &mut line);
    root.finish(&mut line);

    let spans = collector.collect(false, None, None);
    assert_eq!(spans.len(), 4);

    // The spans in the order they were opened: root, g1, g2, g3.
    let root_span = spans.iter().find(|s| s.id == root_id).unwrap();
    let s1 = spans.iter().find(|s| s.parent_id == root_id).unwrap();
    let s2 = spans.iter().find(|s| s.parent_id == s1.id).unwrap();
    let s3 = spans.iter().find(|s| s.parent_id == s2.id).unwrap();
    let ordered = [root_span, s1, s2, s3];

    let mut span_ids = vec![];
    let mut span_lens = vec![];
    let mut payload = vec![];
    for s in ordered.iter() {
        for p in s.properties.iter() {
            span_ids.push(s.id);
            span_lens.push(p.len());
            payload.extend_from_slice(p);
        }
    }
    assert_eq!(span_ids.len(), 4);
    assert_eq!(span_lens.len(), 4);
    assert_eq!(payload.len(), 9);
    assert_eq!(payload, b"123abcedf");

    for (x, y) in [ordered[0].id, ordered[2].id, ordered[2].id, ordered[3].id]
        .iter()
        .zip(span_ids)
    {
        assert_eq!(*x, y);
    }
    for (x, y) in [3, 3, 0, 3].iter().zip(span_lens) {
        assert_eq!(*x, y);
    }

    check_clear(&line);
}
