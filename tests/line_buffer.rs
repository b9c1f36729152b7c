use nginx_dashboard::line_buffer::LineBuffer;

fn contents(b: &LineBuffer<String>) -> Vec<String> {
    b.snapshot()
}

#[test]
fn push_keeps_last_capacity_items_in_order() {
    for n in 0..25usize {
        let mut b: LineBuffer<String> = LineBuffer::new(7);
        for i in 0..n {
            b.push(format!("line {}", i));
        }
        let expected_len = if n < 7 { n } else { 7 };
        assert_eq!(b.len(), expected_len);
        let got = contents(&b);
        let expected: Vec<String> = (n - expected_len..n).map(|i| format!("line {}", i)).collect();
        assert_eq!(got, expected);
    }
}

#[test]
fn fifteen_lines_over_several_cycles_leave_the_last_ten() {
    let mut b: LineBuffer<String> = LineBuffer::new(10);
    assert!(b.is_empty());
    let mut next = 1;
    for per_cycle in [1usize, 4, 0, 3, 7] {
        let mut batch = Vec::new();
        for _ in 0..per_cycle {
            batch.push(format!("L{}", next));
            next += 1;
        }
        b.push_all(batch);
    }
    assert_eq!(next, 16);
    let expected: Vec<String> = (6..=15).map(|i| format!("L{}", i)).collect();
    assert_eq!(contents(&b), expected);
}

#[test]
fn zero_capacity_keeps_nothing() {
    let mut b: LineBuffer<String> = LineBuffer::new(0);
    b.push("a".to_string());
    b.push_all(vec!["b".to_string(), "c".to_string()]);
    assert_eq!(b.len(), 0);
    assert_eq!(b.capacity(), 0);
}

#[test]
fn get_counts_from_oldest() {
    let mut b: LineBuffer<String> = LineBuffer::new(2);
    b.push("x".to_string());
    b.push("y".to_string());
    b.push("z".to_string());
    assert_eq!(b.get(0), "y");
    assert_eq!(b.get(1), "z");
}

#[test]
fn snapshot_leaves_buffer_unchanged() {
    let mut b: LineBuffer<String> = LineBuffer::new(3);
    b.push("one".to_string());
    let first = b.snapshot();
    let second = b.snapshot();
    assert_eq!(first, second);
    assert_eq!(b.len(), 1);
}
