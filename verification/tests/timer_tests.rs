use joulex::timer::{read_until_chunks, TailBuffer, UntilScanner};

fn read_tail(data: &[u8], limit: usize) -> Vec<u8> {
    let mut tail = TailBuffer::new(limit);
    for chunk in data.chunks(4096) {
        tail.feed(chunk);
    }
    tail.into_tail()
}

#[test]
fn read_tail_keeps_the_last_bytes() {
    let data: Vec<u8> = (0..100_000u32).map(|i| (i % 251) as u8).collect();
    assert_eq!(read_tail(&data[..], 1000), &data[data.len() - 1000..]);
    assert_eq!(read_tail(&data[..10], 1000), &data[..10]);
    assert!(read_tail(&[][..], 1000).is_empty());
}

#[test]
fn test_read_until_exact_match() {
    let input = b"Hello world! Server is READY for connections.".as_slice();
    assert!(read_until_chunks(&[input], b"READY"));
}

#[test]
fn test_read_until_split_across_reads() {
    assert!(read_until_chunks(&[b"Starting up system... REA".as_slice(), b"DY to serve".as_slice()], b"READY"));
    assert!(read_until_chunks(&[b"abc R".as_slice(), b"EADY xyz".as_slice()], b"READY"));
    assert!(read_until_chunks(&[b"READ".as_slice(), b"Y!".as_slice()], b"READY"));
}

#[test]
fn test_read_until_not_found() {
    let input = b"Starting up... initializing... done.".as_slice();
    assert!(!read_until_chunks(&[input], b"READY"));
}

#[test]
fn test_read_until_empty_needle() {
    let input = b"any data".as_slice();
    assert!(read_until_chunks(&[input], b""));
}

#[test]
fn test_read_until_empty_stream() {
    let input = b"".as_slice();
    assert!(!read_until_chunks(&[input], b"READY"));
    assert!(!read_until_chunks(&[], b"READY"));
}

#[test]
fn test_read_until_partial_then_full() {
    assert!(read_until_chunks(&[b"REA".as_slice(), b"RE-".as_slice(), b"REA".as_slice(), b"READY!".as_slice()], b"READY"));
}

#[test]
fn scanner_finds_a_needle_split_over_many_chunks() {
    let mut scanner = UntilScanner::new(b"abcdef");
    assert!(!scanner.feed(b"xxa"));
    assert!(!scanner.feed(b"b"));
    assert!(!scanner.feed(b"cd"));
    assert!(scanner.feed(b"efyy"));
}

#[test]
fn an_empty_pattern_is_found_at_once() {
    let mut s = joulex::timer::UntilScanner::new(b"");
    assert!(s.feed(b""));
    assert!(s.feed(b"abc"));
    let mut t = joulex::timer::UntilScanner::new(b"bc");
    assert!(!t.feed(b"ab"));
    assert!(t.feed(b"c"));
}
