use claude_code_agent_sdk::ring_buffer::CircularBuffer;

#[test]
fn test_circular_buffer_basic() {
    let mut cb = CircularBuffer::new(100);
    assert_eq!(cb.write(b"hello\n"), 6);
    let result = cb.read_line().unwrap();
    assert_eq!(result, Some(b"hello".to_vec()));
}

#[test]
fn test_circular_buffer_partial_line() {
    let mut cb = CircularBuffer::new(100);
    assert_eq!(cb.write(b"hello"), 5);
    assert_eq!(cb.read_line().unwrap(), None);
    assert_eq!(cb.write(b"\n"), 1);
    assert_eq!(cb.read_line().unwrap(), Some(b"hello".to_vec()));
}

#[test]
fn test_circular_buffer_partial_line_preserved() {
    let mut cb = CircularBuffer::new(100);
    assert_eq!(cb.write(b"hello"), 5);
    assert_eq!(cb.read_line().unwrap(), None);
    assert_eq!(cb.write(b" world\n"), 7);
    assert_eq!(cb.read_line().unwrap(), Some(b"hello world".to_vec()));
}

#[test]
fn test_circular_buffer_empty() {
    let mut cb = CircularBuffer::new(100);
    assert_eq!(cb.read_line().unwrap(), None);
}

#[test]
fn test_circular_buffer_multi_line() {
    let mut cb = CircularBuffer::new(100);
    cb.write(b"line1\nline2\nline3\n");
    assert_eq!(cb.read_line().unwrap(), Some(b"line1".to_vec()));
    assert_eq!(cb.read_line().unwrap(), Some(b"line2".to_vec()));
    assert_eq!(cb.read_line().unwrap(), Some(b"line3".to_vec()));
    assert_eq!(cb.read_line().unwrap(), None);
}

#[test]
fn test_circular_buffer_small_buffer() {
    let mut cb = CircularBuffer::new(10);
    cb.write(b"0123456789");
    cb.write(b"AB");
    let result = cb.read_line().unwrap();
    assert!(result.is_some() || result.is_none());
}

#[test]
fn overwrite_keeps_most_recent_bytes() {
    let mut cb = CircularBuffer::new(10);
    assert_eq!(cb.write(b"0123456789"), 10);
    assert_eq!(cb.write(b"AB\n"), 3);
    // The oldest three bytes were overwritten.
    assert_eq!(cb.read_line().unwrap(), Some(b"3456789AB".to_vec()));
    assert_eq!(cb.read_line().unwrap(), None);
}

#[test]
fn write_larger_than_capacity_keeps_tail() {
    let mut cb = CircularBuffer::new(4);
    assert_eq!(cb.write(b"abcdefg\n"), 8);
    assert_eq!(cb.read_line().unwrap(), Some(b"efg".to_vec()));
}

#[test]
fn write_then_read_line_law_example() {
    let mut cb = CircularBuffer::new(16);
    cb.write(b"ab");
    assert_eq!(cb.read_line().unwrap(), None);
    cb.write(b"cd");
    cb.write(b"ef\n");
    assert_eq!(cb.read_line().unwrap(), Some(b"abcdef".to_vec()));
    assert_eq!(cb.read_line().unwrap(), None);
}

#[test]
fn empty_line() {
    let mut cb = CircularBuffer::new(8);
    cb.write(b"\n\n");
    assert_eq!(cb.read_line().unwrap(), Some(Vec::new()));
    assert_eq!(cb.read_line().unwrap(), Some(Vec::new()));
    assert_eq!(cb.read_line().unwrap(), None);
}

#[test]
fn reading_until_none_gives_every_complete_line() {
    let mut cb = CircularBuffer::new(64);
    let writes: [&[u8]; 4] = [b"alpha\nbe", b"ta\n", b"\ngam", b"ma\ndel"];
    for w in writes.iter() {
        assert_eq!(cb.write(w), w.len());
    }
    let mut lines: Vec<Vec<u8>> = Vec::new();
    while let Some(line) = cb.read_line().unwrap() {
        lines.push(line);
    }
    let all: Vec<u8> = writes.iter().flat_map(|w| w.iter().copied()).collect();
    assert_eq!(lines.len(), all.iter().filter(|b| **b == b'\n').count());
    assert_eq!(lines, vec![b"alpha".to_vec(), b"beta".to_vec(), Vec::new(), b"gamma".to_vec()]);
    let mut joined: Vec<u8> = Vec::new();
    for l in &lines {
        assert!(!l.contains(&b'\n'));
        joined.extend_from_slice(l);
        joined.push(b'\n');
    }
    assert!(all.starts_with(&joined));
    assert_eq!(cb.read_line().unwrap(), None);
    cb.write(b"ta\n");
    assert_eq!(cb.read_line().unwrap(), Some(b"delta".to_vec()));
}
