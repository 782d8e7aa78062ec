use statsrelay::framing::process_buffer_newlines;
use statsrelay::ingress::{on_read, process_datagram, IngressAction, ReadEvent};
use statsrelay::pdu::Pdu;

fn lines(ps: &[Pdu]) -> Vec<Vec<u8>> {
    ps.iter().map(|p| p.as_bytes().to_vec()).collect()
}

#[test]
fn test_process_buffer_no_newlines() {
    let mut b: Vec<u8> = b"hello".to_vec();
    let r = process_buffer_newlines(&mut b);
    assert!(r.len() == 0);
    assert!(b.as_slice() == b"hello");
}

#[test]
fn test_process_buffer_newlines() {
    let mut b: Vec<u8> = b"hello:1|c\nhello:1|c\nhello2".to_vec();
    let r = process_buffer_newlines(&mut b);
    assert!(r.len() == 2);
    assert!(b.as_slice() == b"hello2");
}

#[test]
fn test_process_buffer_cr_newlines() {
    let mut found = 0;
    let mut b: Vec<u8> = b"hello:1|c\r\nhello:1|c\nhello2".to_vec();
    let r = process_buffer_newlines(&mut b);
    for w in r {
        assert!(w.pdu_type() == b"c");
        assert!(w.name() == b"hello");
        found += 1
    }
    assert_eq!(2, found);
    assert!(b.as_slice() == b"hello2");
}

#[test]
fn framing_with_cr_scenario() {
    let mut b: Vec<u8> = b"a:1|c\r\nb:2|c\nc:3".to_vec();
    let r = process_buffer_newlines(&mut b);
    assert_eq!(lines(&r), vec![b"a:1|c".to_vec(), b"b:2|c".to_vec()]);
    assert_eq!(b, b"c:3".to_vec());
}

#[test]
fn framing_drops_empty_and_malformed_lines() {
    let mut b: Vec<u8> = b"\n\r\nnocolon\n:1|c\na:|c\na:1|\na:1\nok:5|g|@0.5\n".to_vec();
    let r = process_buffer_newlines(&mut b);
    assert_eq!(lines(&r), vec![b"ok:5|g|@0.5".to_vec()]);
    assert!(b.is_empty());
}

#[test]
fn framing_split_anywhere_gives_same_lines() {
    let whole: &[u8] = b"a:1|c\r\nbb:2|ms|@0.1\nc:3|g\r\nd:4";
    let mut all = whole.to_vec();
    let expected = lines(&process_buffer_newlines(&mut all));
    for cut in 0..=whole.len() {
        let mut first = whole[..cut].to_vec();
        let mut got = lines(&process_buffer_newlines(&mut first));
        first.extend_from_slice(&whole[cut..]);
        got.extend(lines(&process_buffer_newlines(&mut first)));
        assert_eq!(got, expected, "cut at {}", cut);
        assert_eq!(first, all);
    }
}

#[test]
fn datagram_keeps_last_line() {
    let r = process_datagram(b"a:1|c\nb:2|c");
    assert_eq!(lines(&r), vec![b"a:1|c".to_vec(), b"b:2|c".to_vec()]);
    let r = process_datagram(b"a:1|c\n");
    assert_eq!(lines(&r), vec![b"a:1|c".to_vec()]);
}

#[test]
fn ingress_read_steps() {
    let mut buf: Vec<u8> = b"a:1|c\nb:2".to_vec();
    let (r, act) = on_read(&mut buf, ReadEvent::Data);
    assert_eq!(lines(&r), vec![b"a:1|c".to_vec()]);
    assert_eq!(act, IngressAction::Continue);
    assert_eq!(buf, b"b:2".to_vec());
    buf.extend_from_slice(b"|c");
    let (r, act) = on_read(&mut buf, ReadEvent::Eof);
    assert_eq!(lines(&r), vec![b"b:2|c".to_vec()]);
    assert_eq!(act, IngressAction::Close);
    assert!(buf.is_empty());
    let mut buf: Vec<u8> = b"x:1|c\n".to_vec();
    let (r, act) = on_read(&mut buf, ReadEvent::Shutdown);
    assert!(r.is_empty());
    assert_eq!(act, IngressAction::NotifyAndClose);
    let (_, act) = on_read(&mut buf, ReadEvent::TimedOut);
    assert_eq!(act, IngressAction::Close);
}

#[test]
fn pdu_fields_and_affixes() {
    let p = Pdu::new(b"x:1|c".to_vec()).unwrap();
    assert_eq!(p.name(), b"x");
    assert_eq!(p.value(), b"1");
    assert_eq!(p.pdu_type(), b"c");
    let q = p.with_prefix_suffix(b"p.", b".s");
    assert_eq!(q.as_bytes(), b"p.x.s:1|c");
    assert_eq!(q.name(), b"p.x.s");
    assert_eq!(q.pdu_type(), b"c");
    assert!(Pdu::new(b"x:1".to_vec()).is_none());
    assert!(Pdu::new(Vec::new()).is_none());
}
