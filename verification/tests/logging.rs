use weaveflow::server::logging::{RingWriter, MAX_RING_BYTES};

#[test]
fn read_since_absolute_offset() {
    let mut ring = RingWriter::new();
    ring.write_all(b"hello\n").unwrap();
    let chunk = ring.read_since(0);
    assert_eq!(chunk.bytes, b"hello\n");
    assert_eq!(chunk.next_offset, 6);
    assert!(!chunk.truncated);

    let chunk = ring.read_since(3);
    assert_eq!(chunk.bytes, b"lo\n");
    assert_eq!(chunk.next_offset, 6);
    assert!(!chunk.truncated);

    let chunk = ring.read_since(6);
    assert!(chunk.bytes.is_empty());
    assert_eq!(chunk.next_offset, 6);
    assert!(!chunk.truncated);

    // an offset past everything written: empty, not truncated
    let chunk = ring.read_since(999);
    assert!(chunk.bytes.is_empty());
    assert_eq!(chunk.next_offset, 6);
    assert!(!chunk.truncated);
}

#[test]
fn trim_marks_truncated_and_preserves_absolute_offsets() {
    let mut ring = RingWriter::new();
    let line = vec![b'x'; 1000];
    let mut written = 0u64;
    while written < (MAX_RING_BYTES + 5000) as u64 {
        ring.write_all(&line).unwrap();
        ring.write_all(b"\n").unwrap();
        written += 1001;
    }
    let total = {
        assert!(ring.total_trimmed() > 0, "a trim should have happened");
        assert_eq!(ring.buffered_len() as u64, ring.total_written() - ring.total_trimmed());
        (ring.total_written(), ring.total_trimmed())
    };
    let chunk = ring.read_since(0);
    assert!(chunk.truncated);
    assert_eq!(chunk.next_offset, total.0);
    assert!(!chunk.bytes.is_empty());
    let chunk = ring.read_since(total.1);
    assert!(!chunk.truncated);
    assert_eq!(chunk.next_offset, total.0);
}

#[test]
fn trim_cuts_after_a_newline() {
    let mut ring = RingWriter::new();
    let big = vec![b'a'; MAX_RING_BYTES];
    ring.write_all(&big).unwrap();
    ring.write_all(b"xy\nz").unwrap();
    // the excess is 4 bytes; the cut goes on past the next newline
    let chunk = ring.read_since(0);
    assert!(chunk.truncated);
    assert!(ring.buffered_len() <= MAX_RING_BYTES);
    assert_eq!(ring.total_written(), (MAX_RING_BYTES + 4) as u64);
}

#[test]
fn write_reports_length_and_reads_follow() {
    let mut ring = RingWriter::new();
    assert_eq!(ring.write(b"abc\n"), Ok(4));
    let first = ring.read_since(0);
    assert_eq!(first.bytes, b"abc\n".to_vec());
    assert_eq!(ring.write(b"de"), Ok(2));
    let next = ring.read_since(first.next_offset);
    assert_eq!(next.bytes, b"de".to_vec());
    assert_eq!(next.next_offset, 6);
    assert!(!next.truncated);
}
