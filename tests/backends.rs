use statsrelay::backends::{BackendError, Backends, StatsdBackend, StatsdDuplicateTo};
use statsrelay::pdu::Pdu;
use statsrelay::sender::{
    connect_decision, trim_to_next_newline, CombineBuffer, ConnectAction, ConnectOutcome,
    PendingWrite, SenderAction, SenderEvent, WriteOutcome, WriteStep, SEND_THRESHOLD,
};
use statsrelay::shard::{hash_name, statsrelay_compat_hash, Ring};

fn pdu(s: &str) -> Pdu {
    Pdu::new(s.as_bytes().to_vec()).unwrap()
}

fn eps(v: &[&str]) -> Vec<String> {
    v.iter().map(|s| s.to_string()).collect()
}

#[test]
fn hash_vectors_are_pinned() {
    assert_eq!(hash_name(b""), 2166136261);
    assert_eq!(hash_name(b"foo"), 2851307223);
    assert_eq!(hash_name(b"bar"), 1991736602);
    assert_eq!(statsrelay_compat_hash(&pdu("foo:1|c")), 2851307223);
    assert_eq!(statsrelay_compat_hash(&pdu("foo:99|ms|#a:b")), 2851307223);
}

#[test]
fn two_shard_placement() {
    let mut ring: Ring<&str> = Ring::new();
    ring.push("E0");
    ring.push("E1");
    assert_eq!(*ring.pick(&pdu("foo:1|c")), "E1");
    assert_eq!(*ring.pick(&pdu("bar:1|c")), "E0");
    assert_eq!(ring.slot_of(&pdu("foo:2|g")), 1);
    let mut three: Ring<&str> = Ring::new();
    three.push("E0");
    three.push("E1");
    three.push("E2");
    assert_eq!(*three.pick(&pdu("bar:1|c")), "E2");
    let mut one: Ring<&str> = Ring::new();
    one.push("only");
    assert_eq!(*one.pick(&pdu("foo:1|c")), "only");
    assert_eq!(*ring.pick_from(7), "E1");
}

#[test]
fn prefix_suffix_scenario() {
    let mut conf = StatsdDuplicateTo::from_shards(eps(&["127.0.0.1:8125"]));
    conf.prefix = Some("p.".to_string());
    conf.suffix = Some(".s".to_string());
    let b = StatsdBackend::new(&conf).unwrap();
    let d = b.route_statsd_pdu(&pdu("x:1|c")).unwrap();
    assert_eq!(d.pdu.as_bytes(), b"p.x.s:1|c");
    assert_eq!(d.endpoint, "127.0.0.1:8125");
    assert_eq!(d.slot, 0);
}

#[test]
fn routing_without_affixes_and_empty_ring() {
    let b = StatsdBackend::new(&StatsdDuplicateTo::from_shards(eps(&["a:1", "b:2"]))).unwrap();
    let d = b.route_statsd_pdu(&pdu("foo:1|c")).unwrap();
    assert_eq!(d.pdu.as_bytes(), b"foo:1|c");
    assert_eq!(d.endpoint, "b:2");
    let d = b.route_statsd_pdu(&pdu("bar:1|c")).unwrap();
    assert_eq!(d.endpoint, "a:1");
    let empty = StatsdBackend::new(&StatsdDuplicateTo::from_shards(Vec::new())).unwrap();
    assert!(empty.route_statsd_pdu(&pdu("foo:1|c")).is_none());
}

#[test]
fn input_filter_admits_on_any_match() {
    let mut conf = StatsdDuplicateTo::from_shards(eps(&["a:1"]));
    conf.input_filter = Some("^keep\\.".to_string());
    conf.input_blacklist = Some("^also$".to_string());
    let b = StatsdBackend::new(&conf).unwrap();
    assert!(b.route_statsd_pdu(&pdu("keep.me:1|c")).is_some());
    assert!(b.route_statsd_pdu(&pdu("also:1|c")).is_some());
    assert!(b.route_statsd_pdu(&pdu("drop.me:1|c")).is_none());
}

#[test]
fn bad_input_filter_is_an_error() {
    let mut conf = StatsdDuplicateTo::from_shards(eps(&["a:1"]));
    conf.input_filter = Some("(unclosed".to_string());
    assert_eq!(StatsdBackend::new(&conf).err(), Some(BackendError::BadInputFilter));
    let mut all = Backends::new();
    assert_eq!(all.add_statsd_backend(&conf), Err(BackendError::BadInputFilter));
    assert_eq!(all.len(), 0);
}

#[test]
fn reload_scenario() {
    let mut b = StatsdBackend::new(&StatsdDuplicateTo::from_shards(eps(&["A", "B"]))).unwrap();
    let mut started = b.distinct_endpoints();
    started.sort();
    assert_eq!(started, eps(&["A", "B"]));
    for i in 0..100 {
        assert!(b.route_statsd_pdu(&pdu(&format!("m{}:1|c", i))).is_some());
    }
    let plan = b.reload_backends(eps(&["B", "C"]));
    assert_eq!(plan.start, eps(&["C"]));
    assert_eq!(plan.retire, eps(&["A"]));
    let mut seen_c = false;
    for i in 0..100 {
        let d = b.route_statsd_pdu(&pdu(&format!("m{}:1|c", i))).unwrap();
        assert!(d.endpoint == "B" || d.endpoint == "C");
        seen_c |= d.endpoint == "C";
    }
    assert!(seen_c);
}

#[test]
fn reload_dedups_endpoints() {
    let mut b = StatsdBackend::new(&StatsdDuplicateTo::from_shards(eps(&["A", "A", "B"]))).unwrap();
    assert_eq!(b.distinct_endpoints(), eps(&["A", "B"]));
    let plan = b.reload_backends(eps(&["C", "C", "A", "A"]));
    assert_eq!(plan.start, eps(&["C"]));
    assert_eq!(plan.retire, eps(&["B"]));
}

#[test]
fn backpressure_warning_counter() {
    let mut all = Backends::new();
    all.add_statsd_backend(&StatsdDuplicateTo::from_shards(eps(&["nowhere:1"]))).unwrap();
    let mut logged = Vec::new();
    for i in 0..2001u32 {
        if all.note_queue_full(0) {
            logged.push(i);
        }
    }
    assert_eq!(logged, vec![0, 1000, 2000]);
}

#[test]
fn every_target_gets_the_line() {
    let mut all = Backends::new();
    all.add_statsd_backend(&StatsdDuplicateTo::from_shards(eps(&["a:1"]))).unwrap();
    let mut conf = StatsdDuplicateTo::from_shards(eps(&["b:1", "b:2"]));
    conf.prefix = Some("dc.".to_string());
    all.add_statsd_backend(&conf).unwrap();
    let out = all.provide_statsd_pdu(&pdu("foo:1|c"));
    assert_eq!(out.len(), 2);
    let first = out[0].as_ref().unwrap();
    assert_eq!(first.endpoint, "a:1");
    assert_eq!(first.pdu.as_bytes(), b"foo:1|c");
    let second = out[1].as_ref().unwrap();
    assert_eq!(second.endpoint, "b:2");
    assert_eq!(second.pdu.as_bytes(), b"dc.foo:1|c");
    let plan = all.reload_backends(1, eps(&["b:1"]));
    assert_eq!(plan.retire, eps(&["b:2"]));
    assert_eq!(all.target_endpoints(1), eps(&["b:1"]));
}

#[test]
fn write_combining_waits_then_tick_flushes_once() {
    let mut buf = CombineBuffer::new();
    for i in 0..10 {
        match buf.on_event(SenderEvent::Line(pdu(&format!("m{}:1|c", i)))) {
            SenderAction::Wait => {}
            _ => panic!("flushed too early"),
        }
    }
    match buf.on_event(SenderEvent::Tick) {
        SenderAction::Flush(v) => {
            let expected: String = (0..10).map(|i| format!("m{}:1|c\n", i)).collect();
            assert_eq!(v, expected.into_bytes());
        }
        _ => panic!("tick did not flush"),
    }
    assert!(matches!(buf.on_event(SenderEvent::Tick), SenderAction::Wait));
    assert!(matches!(buf.on_event(SenderEvent::Closed), SenderAction::Exit));
}

#[test]
fn write_combining_flushes_at_threshold() {
    let mut buf = CombineBuffer::new();
    let big = format!("big:{}|c", "9".repeat(SEND_THRESHOLD));
    match buf.on_event(SenderEvent::Line(pdu(&big))) {
        SenderAction::Flush(v) => assert_eq!(v.len(), big.len() + 1),
        _ => panic!("no flush at threshold"),
    }
    assert!(matches!(buf.on_event(SenderEvent::Line(pdu("a:1|c"))), SenderAction::Wait));
    match buf.on_event(SenderEvent::Closed) {
        SenderAction::FlushAndExit(v) => assert_eq!(v, b"a:1|c\n".to_vec()),
        _ => panic!("closed queue lost bytes"),
    }
}

#[test]
fn trim_drops_partial_line() {
    let mut b: Vec<u8> = b"rtial:1|c\nnext:2|c\n".to_vec();
    trim_to_next_newline(&mut b);
    assert_eq!(b, b"next:2|c\n".to_vec());
    let mut b: Vec<u8> = b"no newline".to_vec();
    trim_to_next_newline(&mut b);
    assert_eq!(b, b"no newline".to_vec());
}

#[test]
fn pending_write_steps() {
    let mut w = PendingWrite::new(b"a:1|c\nb:2|c\n".to_vec());
    assert_eq!(w.on_write(WriteOutcome::Wrote(3)), WriteStep::Continue);
    assert_eq!(w.remaining(), b"|c\nb:2|c\n");
    assert_eq!(w.on_write(WriteOutcome::Failed), WriteStep::Reconnect);
    assert_eq!(w.remaining(), b"b:2|c\n");
    assert_eq!(w.on_write(WriteOutcome::Wrote(0)), WriteStep::Reconnect);
    assert!(w.is_done());
    let mut w = PendingWrite::new(b"x:1|c\n".to_vec());
    assert_eq!(w.on_write(WriteOutcome::Wrote(6)), WriteStep::Done);
    assert!(w.is_done());
}

#[test]
fn connect_loop_decisions() {
    assert_eq!(connect_decision(ConnectOutcome::Connected), ConnectAction::Use);
    assert_eq!(connect_decision(ConnectOutcome::TimedOut), ConnectAction::RetryAfterDelay);
    assert_eq!(connect_decision(ConnectOutcome::Refused), ConnectAction::RetryAfterDelay);
    assert_eq!(connect_decision(ConnectOutcome::Shutdown), ConnectAction::Abort);
}

#[test]
fn route_admitted_skips_the_filter() {
    let mut conf = StatsdDuplicateTo::from_shards(eps(&["a:1", "b:2"]));
    conf.input_filter = Some("^keep".to_string());
    let b = StatsdBackend::new(&conf).unwrap();
    assert!(b.route_statsd_pdu(&pdu("foo:1|c")).is_none());
    let d = b.route_admitted(&pdu("foo:1|c")).unwrap();
    assert_eq!(d.endpoint, "b:2");
    assert_eq!(d.slot, 1);
    assert!(b.fits_affixes(&pdu("foo:1|c")));
}
