use nginx_dashboard::usage::{
    average_usage, parse_milli, parse_row, resource_usage, usable_rows, ResourceUsage,
};

#[test]
fn mean_of_two_rows() {
    let listing = b"%CPU %MEM\n 10.0 20.0\n 30.0 40.0\n";
    let u = resource_usage(listing);
    assert_eq!(u, ResourceUsage { cpu_milli: 20000, mem_milli: 30000 });
}

#[test]
fn no_matching_rows_gives_zero() {
    assert_eq!(resource_usage(b"%CPU %MEM\n"), ResourceUsage { cpu_milli: 0, mem_milli: 0 });
    assert_eq!(resource_usage(b""), ResourceUsage { cpu_milli: 0, mem_milli: 0 });
}

#[test]
fn header_is_skipped_even_when_numeric() {
    let u = resource_usage(b"90.0 90.0\n1.5 2.5\n");
    assert_eq!(u, ResourceUsage { cpu_milli: 1500, mem_milli: 2500 });
}

#[test]
fn malformed_rows_are_skipped() {
    let listing = b"%CPU %MEM\n0.3 1.2\nbogus row\n1 2 3\n\n0.5 x\n0.1 0.4\r\n";
    assert_eq!(usable_rows(listing), vec![(300, 1200), (100, 400)]);
    assert_eq!(resource_usage(listing), ResourceUsage { cpu_milli: 200, mem_milli: 800 });
}

#[test]
fn mean_rounds_down() {
    let rows = vec![(1, 0), (2, 1)];
    assert_eq!(average_usage(&rows), ResourceUsage { cpu_milli: 1, mem_milli: 0 });
    assert_eq!(average_usage(&vec![]), ResourceUsage { cpu_milli: 0, mem_milli: 0 });
    let big = vec![(u64::MAX, u64::MAX), (u64::MAX, 1)];
    assert_eq!(average_usage(&big), ResourceUsage { cpu_milli: u64::MAX, mem_milli: u64::MAX / 2 + 1 });
}

#[test]
fn fields_read_as_thousandths() {
    assert_eq!(parse_milli(b"12"), Some(12000));
    assert_eq!(parse_milli(b"12.5"), Some(12500));
    assert_eq!(parse_milli(b".5"), Some(500));
    assert_eq!(parse_milli(b"5."), Some(5000));
    assert_eq!(parse_milli(b"0.07"), Some(70));
    assert_eq!(parse_milli(b"1.2345"), Some(1234));
    assert_eq!(parse_milli(b"18446744073709551"), Some(18446744073709551000));
    assert_eq!(parse_milli(b"18446744073709552"), None);
    assert_eq!(parse_milli(b"99999999999999999999999"), None);
    assert_eq!(parse_milli(b""), None);
    assert_eq!(parse_milli(b"."), None);
    assert_eq!(parse_milli(b"1.2.3"), None);
    assert_eq!(parse_milli(b"-1.0"), None);
    assert_eq!(parse_milli(b"1e3"), None);
}

#[test]
fn rows_need_exactly_two_numbers() {
    assert_eq!(parse_row(b"  0.0\t 3.1 "), Some((0, 3100)));
    assert_eq!(parse_row(b"0.0"), None);
    assert_eq!(parse_row(b"0.0 1.0 2.0"), None);
    assert_eq!(parse_row(b"%CPU %MEM"), None);
}
