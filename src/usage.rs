use crate::text::{fields_of, lines_of, split_fields, split_lines, views};
use vstd::prelude::*;

verus! {

pub open spec fn is_digit(b: u8) -> bool {
    48u8 <= b <= 57u8
}

pub open spec fn all_digits(s: Seq<u8>) -> bool {
    forall|i: int| 0 <= i < s.len() ==> is_digit(#[trigger] s[i])
}

/// The number written by the decimal digits `s` (zero for no digits).
pub open spec fn digits_value(s: Seq<u8>) -> nat
    decreases s.len(),
{
    if s.len() == 0 {
        0
    } else {
        digits_value(s.drop_last()) * 10 + (s.last() - 48) as nat
    }
}

/// The first three digits after a decimal point, in thousandths; missing
/// digits count as zeros and later ones are dropped.
pub open spec fn fraction_milli(f: Seq<u8>) -> nat {
    if f.len() >= 3 {
        digits_value(f.subrange(0, 3))
    } else if f.len() == 2 {
        digits_value(f) * 10
    } else if f.len() == 1 {
        digits_value(f) * 100
    } else {
        0
    }
}

/// `s` has its decimal point at `k`, digits on both sides, and at least one digit.
pub open spec fn point_at(s: Seq<u8>, k: int) -> bool {
    &&& 0 <= k < s.len()
    &&& s[k] == 46u8
    &&& s.len() > 1
    &&& all_digits(s.subrange(0, k))
    &&& all_digits(s.subrange(k + 1, s.len() as int))
}

/// The unsigned decimal number `s` ("12", "12.5", ".5", "12.") in
/// thousandths, truncated after the third fractional digit; `None` where
/// `s` is not of that form.
pub open spec fn decimal_milli(s: Seq<u8>) -> Option<nat> {
    if s.len() > 0 && all_digits(s) {
        Some(digits_value(s) * 1000)
    } else if exists|k: int| point_at(s, k) {
        let k = choose|k: int| point_at(s, k);
        Some(
            digits_value(s.subrange(0, k)) * 1000 + fraction_milli(
                s.subrange(k + 1, s.len() as int),
            ),
        )
    } else {
        None
    }
}

/// A field read as a percentage in thousandths, where it is a decimal number
/// that fits in a `u64`.
pub open spec fn field_milli(s: Seq<u8>) -> Option<u64> {
    match decimal_milli(s) {
        Some(v) => if v <= u64::MAX {
            Some(v as u64)
        } else {
            None
        },
        None => None,
    }
}

/// A row of the listing: exactly two fields, CPU and memory, both numbers.
pub open spec fn row_usage(line: Seq<u8>) -> Option<(u64, u64)> {
    let f = fields_of(line);
    if f.len() == 2 {
        match (field_milli(f[0]), field_milli(f[1])) {
            (Some(c), Some(m)) => Some((c, m)),
            _ => None,
        }
    } else {
        None
    }
}

/// The usable rows among `lines`, in order.
pub open spec fn rows_of(lines: Seq<Seq<u8>>) -> Seq<(u64, u64)>
    decreases lines.len(),
{
    if lines.len() == 0 {
        Seq::empty()
    } else {
        let r = rows_of(lines.drop_last());
        match row_usage(lines.last()) {
            Some(p) => r.push(p),
            None => r,
        }
    }
}

/// The usable rows of a process listing, its first line being a header.
pub open spec fn listing_rows(listing: Seq<u8>) -> Seq<(u64, u64)> {
    let lines = lines_of(listing);
    if lines.len() == 0 {
        Seq::empty()
    } else {
        rows_of(lines.subrange(1, lines.len() as int))
    }
}

pub open spec fn cpu_total(rows: Seq<(u64, u64)>) -> nat
    decreases rows.len(),
{
    if rows.len() == 0 {
        0
    } else {
        cpu_total(rows.drop_last()) + rows.last().0 as nat
    }
}

pub open spec fn mem_total(rows: Seq<(u64, u64)>) -> nat
    decreases rows.len(),
{
    if rows.len() == 0 {
        0
    } else {
        mem_total(rows.drop_last()) + rows.last().1 as nat
    }
}

/// The mean of `total` over `count` items, rounded down; zero for no items.
pub open spec fn mean(total: nat, count: nat) -> nat {
    if count == 0 {
        0
    } else {
        total / count
    }
}

/// Mean CPU and memory use of the server's processes, each as a percentage
/// in thousandths (20.5% is 20500).
#[derive(Clone, Copy, Debug, PartialEq, Eq, Structural)]
pub struct ResourceUsage {
    pub cpu_milli: u64,
    pub mem_milli: u64,
}

/// The mean use over the usable rows of a process listing.
pub open spec fn usage_of(listing: Seq<u8>) -> ResourceUsage {
    let rows = listing_rows(listing);
    ResourceUsage {
        cpu_milli: mean(cpu_total(rows), rows.len()) as u64,
        mem_milli: mean(mem_total(rows), rows.len()) as u64,
    }
}

proof fn lemma_digits_value_prefix(t: Seq<u8>, j: int)
    requires
        0 <= j <= t.len(),
    ensures
        digits_value(t.subrange(0, j)) <= digits_value(t),
    decreases t.len(),
{
    if j < t.len() {
        lemma_digits_value_prefix(t.drop_last(), j);
        assert(t.drop_last().subrange(0, j) =~= t.subrange(0, j));
    } else {
        assert(t.subrange(0, j) =~= t);
    }
}

proof fn lemma_digits_value_bound(t: Seq<u8>)
    requires
        all_digits(t),
    ensures
        t.len() <= 3 ==> digits_value(t) <= 999,
        t.len() <= 2 ==> digits_value(t) <= 99,
        t.len() <= 1 ==> digits_value(t) <= 9,
    decreases t.len(),
{
    if t.len() > 0 {
        let u = t.drop_last();
        assert(all_digits(u)) by {
            assert forall|i: int| 0 <= i < u.len() implies is_digit(#[trigger] u[i]) by {
                assert(u[i] == t[i]);
            }
        }
        lemma_digits_value_bound(u);
        assert(is_digit(t[t.len() - 1]));
    }
}

/// Reads the digits `s[lo..hi]` as a number, `None` where it exceeds `u64`.
fn read_digits(s: &[u8], lo: usize, hi: usize) -> (r: Option<u64>)
    requires
        lo <= hi <= s@.len(),
        all_digits(s@.subrange(lo as int, hi as int)),
    ensures
        r == (if digits_value(s@.subrange(lo as int, hi as int)) <= u64::MAX {
            Some(digits_value(s@.subrange(lo as int, hi as int)) as u64)
        } else {
            None
        }),
{
    let ghost t = s@.subrange(lo as int, hi as int);
    let mut v: u64 = 0;
    let mut i: usize = lo;
    while i < hi
        invariant
            lo <= i <= hi <= s@.len(),
            t == s@.subrange(lo as int, hi as int),
            all_digits(t),
            v == digits_value(s@.subrange(lo as int, i as int)),
        decreases hi - i,
    {
        let ghost p = s@.subrange(lo as int, i as int);
        let ghost q = s@.subrange(lo as int, i + 1);
        assert(q.drop_last() =~= p);
        assert(q =~= t.subrange(0, i + 1 - lo));
        assert(t[i - lo] == s@[i as int]);
        assert(is_digit(s@[i as int]));
        let d = (s[i] - 48u8) as u64;
        proof {
            lemma_digits_value_prefix(t, i + 1 - lo);
        }
        if v > (u64::MAX - d) / 10 {
            assert(digits_value(q) > u64::MAX) by (nonlinear_arith)
                requires
                    digits_value(q) == v * 10 + d,
                    v > (u64::MAX - d) / 10,
                    d <= 9,
            ;
            return None;
        }
        assert(v * 10 + d <= u64::MAX) by (nonlinear_arith)
            requires
                v <= (u64::MAX - d) / 10,
                d <= 9,
        ;
        v = v * 10 + d;
        i = i + 1;
    }
    assert(s@.subrange(lo as int, i as int) =~= t);
    Some(v)
}

fn is_digit_byte(b: u8) -> (r: bool)
    ensures
        r == is_digit(b),
{
    48u8 <= b && b <= 57u8
}

/// Reads one field of the listing as a percentage in thousandths.
pub fn parse_milli(s: &[u8]) -> (r: Option<u64>)
    ensures
        r == field_milli(s@),
{
    let n = s.len();
    if n == 0 {
        return None;
    }
    // Position of the decimal point, or `n` where there is none.
    let mut k: usize = n;
    let mut i: usize = 0;
    while i < n
        invariant
            n == s@.len(),
            i <= n,
            k <= n,
            k == n ==> forall|j: int| 0 <= j < i ==> is_digit(#[trigger] s@[j]),
            k < n ==> k < i && s@[k as int] == 46u8 && forall|j: int|
                0 <= j < i && j != k ==> is_digit(#[trigger] s@[j]),
        decreases n - i,
    {
        let b = s[i];
        if b == 46u8 {
            if k < n {
                proof {
                    assert(!is_digit(s@[k as int]));
                    assert forall|p: int| !point_at(s@, p) by {
                        if point_at(s@, p) {
                            if p != k {
                                assert(k < p ==> s@.subrange(0, p)[k as int] == s@[k as int]);
                                assert(k > p ==> s@.subrange(p + 1, n as int)[k - p - 1]
                                    == s@[k as int]);
                            } else {
                                assert(s@.subrange(k + 1, n as int)[i - k - 1] == s@[i as int]);
                            }
                        }
                    }
                }
                return None;
            }
            assert(forall|j: int| 0 <= j < i + 1 && j != i ==> is_digit(#[trigger] s@[j]));
            k = i;
        } else if !is_digit_byte(b) {
            proof {
                assert forall|p: int| !point_at(s@, p) by {
                    if point_at(s@, p) {
                        if i < p {
                            assert(s@.subrange(0, p)[i as int] == s@[i as int]);
                        } else {
                            assert(s@.subrange(p + 1, n as int)[i - p - 1] == s@[i as int]);
                        }
                    }
                }
            }
            return None;
        }
        i = i + 1;
    }
    if k == n {
        assert(s@.subrange(0, n as int) =~= s@);
        match read_digits(s, 0, n) {
            Some(v) => {
                if v > u64::MAX / 1000 {
                    return None;
                }
                return Some(v * 1000);
            },
            None => {
                return None;
            },
        }
    }
    if n == 1 {
        assert(k == 0 && s@[0] == 46u8);
        assert(!is_digit(s@[0]));
        return None;
    }
    assert(all_digits(s@.subrange(0, k as int))) by {
        assert forall|j: int| 0 <= j < k implies is_digit(#[trigger] s@.subrange(0, k as int)[j]) by {
            assert(s@.subrange(0, k as int)[j] == s@[j]);
        }
    }
    assert(all_digits(s@.subrange(k + 1, n as int))) by {
        assert forall|j: int| 0 <= j < n - k - 1 implies is_digit(
            #[trigger] s@.subrange(k + 1, n as int)[j],
        ) by {
            assert(s@.subrange(k + 1, n as int)[j] == s@[k + 1 + j]);
        }
    }
    assert(point_at(s@, k as int));
    proof {
        assert(!all_digits(s@)) by {
            assert(!is_digit(s@[k as int]));
        }
        assert forall|p: int| point_at(s@, p) implies p == k by {
            if p != k {
                if p < k {
                    assert(s@.subrange(p + 1, n as int)[k - p - 1] == s@[k as int]);
                } else {
                    assert(s@.subrange(0, p)[k as int] == s@[k as int]);
                }
            }
        }
    }
    let ghost frac = s@.subrange(k + 1, n as int);
    let m: usize = if n - k - 1 >= 3 {
        3
    } else {
        n - k - 1
    };
    assert(all_digits(s@.subrange(k + 1, k + 1 + m))) by {
        assert forall|j: int| 0 <= j < m implies is_digit(
            #[trigger] s@.subrange(k + 1, k + 1 + m)[j],
        ) by {
            assert(s@.subrange(k + 1, k + 1 + m)[j] == frac[j]);
        }
    }
    let f = read_digits(s, k + 1, k + 1 + m);
    proof {
        lemma_digits_value_bound(s@.subrange(k + 1, k + 1 + m));
        if m == 3 {
            assert(frac.subrange(0, 3) =~= s@.subrange(k + 1, k + 1 + m));
        } else {
            assert(frac =~= s@.subrange(k + 1, k + 1 + m));
        }
    }
    let f = f.unwrap();
    let frac_milli: u64 = if m == 3 {
        f
    } else if m == 2 {
        f * 10
    } else if m == 1 {
        f * 100
    } else {
        0
    };
    assert(frac_milli == fraction_milli(frac));
    match read_digits(s, 0, k) {
        Some(v) => {
            if v > (u64::MAX - frac_milli) / 1000 {
                assert(v * 1000 + frac_milli > u64::MAX) by (nonlinear_arith)
                    requires
                        v > (u64::MAX - frac_milli) / 1000,
                        frac_milli <= 999,
                ;
                return None;
            }
            assert(v * 1000 + frac_milli <= u64::MAX) by (nonlinear_arith)
                requires
                    v <= (u64::MAX - frac_milli) / 1000,
                    frac_milli <= 999,
            ;
            Some(v * 1000 + frac_milli)
        },
        None => None,
    }
}

/// Reads one row of the listing as (CPU, memory), both in thousandths of a percent.
pub fn parse_row(line: &[u8]) -> (r: Option<(u64, u64)>)
    ensures
        r == row_usage(line@),
{
    let fields = split_fields(line);
    if fields.len() != 2 {
        return None;
    }
    assert(fields[0]@ == fields_of(line@)[0]);
    assert(fields[1]@ == fields_of(line@)[1]);
    let cpu = parse_milli(fields[0].as_slice());
    let mem = parse_milli(fields[1].as_slice());
    match (cpu, mem) {
        (Some(c), Some(m)) => Some((c, m)),
        _ => None,
    }
}

/// The rows of a process listing that carry two readable numbers, skipping
/// its header line.
pub fn usable_rows(listing: &[u8]) -> (r: Vec<(u64, u64)>)
    ensures
        r@ == listing_rows(listing@),
{
    let lines = split_lines(listing);
    let mut rows: Vec<(u64, u64)> = Vec::new();
    if lines.len() == 0 {
        return rows;
    }
    let ghost body = views(lines@).subrange(1, lines@.len() as int);
    let mut i: usize = 1;
    while i < lines.len()
        invariant
            1 <= i <= lines@.len(),
            body == views(lines@).subrange(1, lines@.len() as int),
            rows@ == rows_of(body.subrange(0, i - 1)),
        decreases lines.len() - i,
    {
        assert(body.subrange(0, i as int).drop_last() =~= body.subrange(0, i - 1));
        assert(body.subrange(0, i as int).last() == lines[i as int]@);
        match parse_row(lines[i].as_slice()) {
            Some(p) => {
                rows.push(p);
            },
            None => {},
        }
        i = i + 1;
    }
    assert(body.subrange(0, i - 1) =~= body);
    rows
}

/// The mean CPU and memory use over `rows`, rounded down; zero for no rows.
pub fn average_usage(rows: &Vec<(u64, u64)>) -> (r: ResourceUsage)
    ensures
        r.cpu_milli == mean(cpu_total(rows@), rows@.len()),
        r.mem_milli == mean(mem_total(rows@), rows@.len()),
{
    let n = rows.len();
    if n == 0 {
        return ResourceUsage { cpu_milli: 0, mem_milli: 0 };
    }
    let mut cpu: u128 = 0;
    let mut mem: u128 = 0;
    let mut i: usize = 0;
    while i < n
        invariant
            n == rows@.len(),
            i <= n,
            cpu == cpu_total(rows@.subrange(0, i as int)),
            mem == mem_total(rows@.subrange(0, i as int)),
            cpu <= i * (u64::MAX as int),
            mem <= i * (u64::MAX as int),
        decreases n - i,
    {
        let (c, m) = rows[i];
        assert(rows@.subrange(0, i + 1).drop_last() =~= rows@.subrange(0, i as int));
        assert(cpu + c <= (i + 1) * (u64::MAX as int)) by (nonlinear_arith)
            requires
                cpu <= i * (u64::MAX as int),
                c <= u64::MAX,
        ;
        assert(mem + m <= (i + 1) * (u64::MAX as int)) by (nonlinear_arith)
            requires
                mem <= i * (u64::MAX as int),
                m <= u64::MAX,
        ;
        assert((i + 1) * (u64::MAX as int) < u128::MAX) by (nonlinear_arith)
            requires
                i < n,
                n <= usize::MAX,
        ;
        cpu = cpu + c as u128;
        mem = mem + m as u128;
        i = i + 1;
    }
    assert(rows@.subrange(0, n as int) =~= rows@);
    let count = n as u128;
    assert(cpu / count <= u64::MAX) by (nonlinear_arith)
        requires
            cpu <= count * (u64::MAX as int),
            count > 0,
    ;
    assert(mem / count <= u64::MAX) by (nonlinear_arith)
        requires
            mem <= count * (u64::MAX as int),
            count > 0,
    ;
    ResourceUsage { cpu_milli: (cpu / count) as u64, mem_milli: (mem / count) as u64 }
}

/// The mean CPU and memory use over the usable rows of a process listing
/// (its first line being a header); zero where no row is usable.
pub fn resource_usage(listing: &[u8]) -> (r: ResourceUsage)
    ensures
        r.cpu_milli == mean(cpu_total(listing_rows(listing@)), listing_rows(listing@).len()),
        r.mem_milli == mean(mem_total(listing_rows(listing@)), listing_rows(listing@).len()),
        r == usage_of(listing@),
{
    let rows = usable_rows(listing);
    average_usage(&rows)
}

} // verus!
