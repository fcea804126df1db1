use ureq::readers::{ComboReader, ConsumingReadIterator, ReadIterator, ReadToEndIterator};
use ureq::Cause;

fn failed(r: Option<Result<usize, Cause>>) -> String {
    match r {
        Some(Err(c)) => c.to_text(),
        _ => panic!("no failure"),
    }
}

fn taken(r: Option<Result<usize, Cause>>) -> usize {
    match r {
        Some(Ok(n)) => n,
        _ => panic!("nothing taken"),
    }
}

#[test]
fn combo_reader_hands_on_each_byte_once() {
    let mut r = ComboReader::new(b"hello world".to_vec());
    let mut buf = b">".to_vec();
    assert_eq!(r.read(&mut buf, 5), 5);
    assert_eq!(buf, b">hello".to_vec());
    assert_eq!(r.read(&mut buf, 0), 0);
    assert_eq!(r.read(&mut buf, 100), 6);
    assert_eq!(buf, b">hello world".to_vec());
    assert_eq!(r.read(&mut buf, 100), 0);
    assert_eq!(buf, b">hello world".to_vec());
    assert!(r.into_remaining().is_empty());
}

#[test]
fn combo_reader_remaining() {
    let mut r = ComboReader::new(b"abcdef".to_vec());
    let mut buf = Vec::new();
    assert_eq!(r.read(&mut buf, 2), 2);
    assert_eq!(r.into_remaining(), b"cdef".to_vec());
    assert!(ComboReader::new(Vec::new()).into_remaining().is_empty());
}

#[test]
fn read_iterator() {
    let mut it = ReadIterator::new(8);
    assert_eq!(it.room(), 8);
    assert_eq!(taken(it.next(Ok(b"abc"))), 3);
    assert_eq!(it.bytes(), &b"abc"[..]);
    assert_eq!(taken(it.next(Ok(b"defghijk"))), 8);
    assert_eq!(it.bytes(), &b"defghijk"[..]);
    assert_eq!(failed(it.next(Err(Cause::Io("reset".to_string())))), "reset");
    assert_eq!(it.bytes(), &b"defghijk"[..]);
    assert!(it.next(Ok(b"")).is_none());
    assert_eq!(it.bytes(), &b"defghijk"[..]);
    assert_eq!(it.room(), 8);
}

#[test]
fn read_to_end_iterator() {
    let mut it = ReadToEndIterator::new(8);
    assert_eq!(it.room(), 8);
    assert_eq!(taken(it.next(Ok(b"abc"))), 3);
    assert_eq!(it.room(), 5);
    assert_eq!(failed(it.next(Err(Cause::Io("reset".to_string())))), "reset");
    assert_eq!(taken(it.next(Ok(b"defgh"))), 5);
    assert_eq!(it.room(), 0);
    assert_eq!(it.bytes(), &b"abcdefgh"[..]);
    assert!(it.next(Ok(b"")).is_none());
    assert_eq!(it.into_bytes(), b"abcdefgh".to_vec());
}

#[test]
fn consuming_read_iterator() {
    let lines = |d: &[u8]| match d.iter().rposition(|b| *b == b'\n') {
        Some(i) => i + 1,
        None => 0,
    };
    let mut it = ConsumingReadIterator::new(16, lines);
    assert_eq!(it.room(), 16);
    assert_eq!(taken(it.next(Ok(b"ab\ncd"))), 3);
    assert_eq!(it.bytes(), &b"cd"[..]);
    assert_eq!(it.room(), 14);
    assert_eq!(taken(it.next(Ok(b"ef"))), 0);
    assert_eq!(it.bytes(), &b"cdef"[..]);
    assert_eq!(failed(it.next(Err(Cause::Io("reset".to_string())))), "reset");
    assert_eq!(it.bytes(), &b"cdef"[..]);
    assert_eq!(taken(it.next(Ok(b"\n\ngh\n"))), 9);
    assert_eq!(it.bytes(), &b""[..]);
    assert!(it.next(Ok(b"")).is_none());
}

#[test]
fn consuming_read_iterator_with_a_greedy_consumer() {
    let mut it = ConsumingReadIterator::new(4, |_d: &[u8]| 1000usize);
    assert_eq!(taken(it.next(Ok(b"abcd"))), 4);
    assert_eq!(it.bytes(), &b""[..]);
    assert_eq!(it.room(), 4);
}
