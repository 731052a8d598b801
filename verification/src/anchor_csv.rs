//! Parsing of the tile-adjacency input table.
//!
//! The table is line-oriented text: one row per tile mapping, four
//! comma-separated columns — tile id, anchor tile id, and the two planar
//! translation components. Ids are decimal; translations are decimal
//! numbers with an optional sign and up to three fractional digits, read
//! as fixed-point thousandths. Blank lines (a trailing carriage return is
//! tolerated) and lines opening with `#` are skipped. A malformed line or
//! an oversized table refuses the whole file; the caller falls back to the
//! empty table, which degrades conversion but never fails outright.

use vstd::prelude::*;
use crate::transformer::{row_ok, MapAnchorRow, WorldPositionTransformer, ROW_LIMIT, TRANS_LIMIT};

verus! {

/// A decimal digit byte.
pub open spec fn is_digit(b: u8) -> bool {
    0x30 <= b <= 0x39
}

/// Every byte is a decimal digit.
pub open spec fn all_digits(s: Seq<u8>) -> bool {
    forall|i: int| 0 <= i < s.len() ==> is_digit(#[trigger] s[i])
}

/// The number the digit bytes spell, most significant first.
pub open spec fn dec_val(s: Seq<u8>) -> int
    decreases s.len(),
{
    if s.len() == 0 {
        0
    } else {
        dec_val(s.drop_last()) * 10 + s.last() - 0x30
    }
}

/// The first position of `b`, or the length when `b` does not occur.
pub open spec fn first_index(s: Seq<u8>, b: u8) -> int
    decreases s.len(),
{
    if s.len() == 0 {
        0
    } else if s[0] == b {
        0
    } else {
        1 + first_index(s.skip(1), b)
    }
}

/// A digit string's value is not negative.
proof fn lemma_dec_val_nonneg(s: Seq<u8>)
    requires
        all_digits(s),
    ensures
        dec_val(s) >= 0,
    decreases s.len(),
{
    if s.len() > 0 {
        assert(all_digits(s.drop_last())) by {
            assert(forall|i: int|
                0 <= i < s.len() - 1 ==> #[trigger] s.drop_last()[i] == s[i]);
        }
        lemma_dec_val_nonneg(s.drop_last());
        assert(is_digit(s[s.len() - 1]));
    }
}

/// A digit string's value only grows as digits are appended.
proof fn lemma_dec_val_prefix(s: Seq<u8>, i: int)
    requires
        all_digits(s),
        0 <= i <= s.len(),
    ensures
        dec_val(s) >= dec_val(s.take(i)),
    decreases s.len(),
{
    lemma_dec_val_nonneg(s);
    if i < s.len() {
        assert(all_digits(s.drop_last())) by {
            assert(forall|j: int|
                0 <= j < s.len() - 1 ==> #[trigger] s.drop_last()[j] == s[j]);
        }
        lemma_dec_val_prefix(s.drop_last(), i);
        assert(s.drop_last().take(i) =~= s.take(i));
        lemma_dec_val_nonneg(s.drop_last());
        assert(is_digit(s[s.len() - 1]));
        assert(dec_val(s) >= dec_val(s.drop_last()));
    } else {
        assert(s.take(i) =~= s);
    }
}

/// The first position is within the string.
proof fn lemma_first_index_bounds(s: Seq<u8>, b: u8)
    ensures
        0 <= first_index(s, b) <= s.len(),
    decreases s.len(),
{
    if s.len() > 0 && s[0] != b {
        lemma_first_index_bounds(s.skip(1), b);
    }
}

/// A scan that found no `b` before `k`, and `b` at `k` if `k` is inside,
/// has found the first position.
proof fn lemma_first_index_at(s: Seq<u8>, b: u8, k: int)
    requires
        0 <= k <= s.len(),
        forall|j: int| 0 <= j < k ==> s[j] != b,
        k < s.len() ==> s[k] == b,
    ensures
        first_index(s, b) == k,
    decreases s.len(),
{
    if s.len() > 0 {
        if k == 0 {
            if s.len() == 0 {
            }
        } else {
            assert(s[0] != b);
            lemma_first_index_at(s.skip(1), b, k - 1);
            assert(forall|j: int| 0 <= j < k - 1 ==> #[trigger] s.skip(1)[j] == s[j + 1]);
        }
    }
}

/// The decimal id a column spells, when it is all digits and fits.
pub open spec fn parse_u32_field(s: Seq<u8>) -> Option<u32> {
    if s.len() > 0 && all_digits(s) && dec_val(s) <= u32::MAX {
        Some(dec_val(s) as u32)
    } else {
        None
    }
}

/// The fractional digits' contribution in thousandths.
pub open spec fn frac_milli(s: Seq<u8>) -> int {
    if s.len() == 1 {
        dec_val(s) * 100
    } else if s.len() == 2 {
        dec_val(s) * 10
    } else {
        dec_val(s)
    }
}

/// The fixed-point translation a column spells: an optional sign, digits,
/// and an optional point with one to three fractional digits, within the
/// table's translation limit.
pub open spec fn parse_milli_field(s: Seq<u8>) -> Option<i64> {
    let neg = s.len() > 0 && s[0] == 0x2D;
    let t = if neg {
        s.skip(1)
    } else {
        s
    };
    let d = first_index(t, 0x2E);
    let ip = t.take(d);
    if d == t.len() {
        if ip.len() > 0 && all_digits(ip) && dec_val(ip) * 1000 <= TRANS_LIMIT {
            Some(
                (if neg {
                    -(dec_val(ip) * 1000)
                } else {
                    dec_val(ip) * 1000
                }) as i64,
            )
        } else {
            None
        }
    } else {
        let fp = t.skip(d + 1);
        if ip.len() > 0 && all_digits(ip) && 1 <= fp.len() <= 3 && all_digits(fp) && dec_val(ip)
            * 1000 + frac_milli(fp) <= TRANS_LIMIT {
            Some(
                (if neg {
                    -(dec_val(ip) * 1000 + frac_milli(fp))
                } else {
                    dec_val(ip) * 1000 + frac_milli(fp)
                }) as i64,
            )
        } else {
            None
        }
    }
}

/// The columns of a line, split on commas, empties kept.
pub open spec fn split_fields(s: Seq<u8>) -> Seq<Seq<u8>>
    decreases s.len(),
    via split_fields_decreases
{
    let k = first_index(s, 0x2C);
    if k == s.len() {
        seq![s]
    } else {
        seq![s.take(k)] + split_fields(s.skip(k + 1))
    }
}

#[via_fn]
proof fn split_fields_decreases(s: Seq<u8>) {
    lemma_first_index_bounds(s, 0x2C);
}

/// A split has at least one column.
proof fn lemma_split_fields_len(s: Seq<u8>)
    ensures
        split_fields(s).len() >= 1,
{
}

/// What one line contributes: nothing to say (blank or comment), one row,
/// or a refusal of the file.
pub open spec fn parse_line(line: Seq<u8>) -> Option<Option<MapAnchorRow>> {
    let l = if line.len() > 0 && line.last() == 0x0D {
        line.drop_last()
    } else {
        line
    };
    if l.len() == 0 || l[0] == 0x23 {
        Some(None)
    } else {
        let fs = split_fields(l);
        if fs.len() != 4 {
            None
        } else {
            match (parse_u32_field(fs[0]), parse_u32_field(fs[1])) {
                (Some(map_id), Some(anchor_id)) => match (
                    parse_milli_field(fs[2]),
                    parse_milli_field(fs[3]),
                ) {
                    (Some(dx), Some(dz)) => Some(Some(MapAnchorRow { map_id, anchor_id, dx, dz })),
                    _ => None,
                },
                _ => None,
            }
        }
    }
}

/// The lines of the input, split on line feeds.
pub open spec fn split_lines(s: Seq<u8>) -> Seq<Seq<u8>>
    decreases s.len(),
    via split_lines_decreases
{
    if s.len() == 0 {
        Seq::empty()
    } else {
        let k = first_index(s, 0x0A);
        if k == s.len() {
            seq![s]
        } else {
            seq![s.take(k)] + split_lines(s.skip(k + 1))
        }
    }
}

#[via_fn]
proof fn split_lines_decreases(s: Seq<u8>) {
    lemma_first_index_bounds(s, 0x0A);
}

/// The rows of a line sequence, or nothing when some line is malformed.
pub open spec fn rows_of_lines(lines: Seq<Seq<u8>>) -> Option<Seq<MapAnchorRow>>
    decreases lines.len(),
{
    if lines.len() == 0 {
        Some(Seq::empty())
    } else {
        match parse_line(lines[0]) {
            None => None,
            Some(row) => match rows_of_lines(lines.skip(1)) {
                None => None,
                Some(rest) => match row {
                    None => Some(rest),
                    Some(r) => Some(seq![r] + rest),
                },
            },
        }
    }
}

/// The rows of the whole input, in source order.
pub open spec fn csv_rows(data: Seq<u8>) -> Option<Seq<MapAnchorRow>> {
    rows_of_lines(split_lines(data))
}

/// Why a table was refused: the first malformed line (counted from one),
/// or a table over the row limit.
#[derive(Clone, Copy, PartialEq, Eq, Structural, Debug)]
pub enum AnchorTableError {
    BadLine(usize),
    TooManyRows,
}

/// The position of the next `b` at or after `from`, or `to` when none is
/// left in the range.
fn find_byte(s: &[u8], from: usize, to: usize, b: u8) -> (r: usize)
    requires
        from <= to <= s@.len(),
    ensures
        from <= r <= to,
        forall|j: int| from <= j < r ==> s@[j] != b,
        r < to ==> s@[r as int] == b,
{
    let mut i = from;
    while i < to
        invariant
            from <= i <= to <= s@.len(),
            forall|j: int| from <= j < i ==> s@[j] != b,
        decreases to - i,
    {
        if s[i] == b {
            return i;
        }
        i += 1;
    }
    to
}

/// Parse a decimal id column.
fn parse_u32_range(s: &[u8], from: usize, to: usize) -> (r: Option<u32>)
    requires
        from <= to <= s@.len(),
    ensures
        r == parse_u32_field(s@.subrange(from as int, to as int)),
{
    let ghost f = s@.subrange(from as int, to as int);
    if from == to {
        return None;
    }
    let mut val: u32 = 0;
    let mut i = from;
    proof {
        assert(f.take(0) =~= Seq::<u8>::empty());
    }
    while i < to
        invariant
            from <= i <= to <= s@.len(),
            f == s@.subrange(from as int, to as int),
            all_digits(f.take(i - from)),
            val == dec_val(f.take(i - from)),
        decreases to - i,
    {
        let b = s[i];
        proof {
            assert(f[i - from] == s@[i as int]);
        }
        if b < 0x30 || b > 0x39 {
            proof {
                assert(!is_digit(f[i - from]));
                assert(!all_digits(f));
            }
            return None;
        }
        let digit = (b - 0x30) as u32;
        if val > (u32::MAX - digit) / 10 {
            proof {
                assert(f.take(i - from + 1).drop_last() =~= f.take(i - from));
                assert(f.take(i - from + 1).last() == f[i - from]);
                assert(dec_val(f.take(i - from + 1)) == val * 10 + digit);
                assert(val * 10 + digit > u32::MAX) by {
                    assert(val >= (u32::MAX - digit) / 10 + 1);
                    assert(((u32::MAX - digit) / 10 + 1) * 10 >= u32::MAX - digit + 1) by (nonlinear_arith);
                    assert(val * 10 >= ((u32::MAX - digit) / 10 + 1) * 10) by (nonlinear_arith)
                        requires
                            val >= (u32::MAX - digit) / 10 + 1,
                    ;
                }
                if all_digits(f) {
                    lemma_dec_val_prefix(f, i - from + 1);
                }
            }
            return None;
        }
        proof {
            assert(val * 10 + digit <= u32::MAX) by {
                assert(val <= (u32::MAX - digit) / 10);
                assert(val * 10 <= ((u32::MAX - digit) / 10) * 10) by (nonlinear_arith)
                    requires
                        val <= (u32::MAX - digit) / 10,
                ;
                assert(((u32::MAX - digit) / 10) * 10 <= u32::MAX - digit) by (nonlinear_arith);
            }
            assert(f.take(i - from + 1).drop_last() =~= f.take(i - from));
            assert(f.take(i - from + 1).last() == f[i - from]);
            assert(is_digit(f[i - from]));
            assert(all_digits(f.take(i - from + 1))) by {
                assert(forall|j: int|
                    0 <= j < i - from ==> #[trigger] f.take(i - from + 1)[j] == f.take(
                        i - from,
                    )[j]);
            }
        }
        val = val * 10 + digit;
        i += 1;
    }
    proof {
        assert(f.take(to - from) =~= f);
    }
    Some(val)
}

/// Parse a fixed-point translation column.
fn parse_milli_range(s: &[u8], from: usize, to: usize) -> (r: Option<i64>)
    requires
        from <= to <= s@.len(),
    ensures
        r == parse_milli_field(s@.subrange(from as int, to as int)),
        r matches Some(v) ==> -TRANS_LIMIT <= v <= TRANS_LIMIT,
{
    let ghost whole = s@.subrange(from as int, to as int);
    let neg = from < to && s[from] == 0x2D;
    let start = if neg {
        from + 1
    } else {
        from
    };
    let ghost t = if neg {
        whole.skip(1)
    } else {
        whole
    };
    proof {
        assert(t =~= s@.subrange(start as int, to as int));
        lemma_dec_val_nonneg(Seq::<u8>::empty());
    }
    let d = find_byte(s, start, to, 0x2E);
    proof {
        assert(forall|j: int| 0 <= j < d - start ==> t[j] == s@[j + start]);
        if d < to {
            assert(t[d - start] == s@[d as int]);
        }
        lemma_first_index_at(t, 0x2E, d - start);
        assert(t.take(d - start) =~= s@.subrange(start as int, d as int));
    }
    let ip = parse_u32_range(s, start, d);
    let ipv: u32 = match ip {
        None => {
            proof {
                let tip = t.take(d - start);
                if tip.len() > 0 && all_digits(tip) {
                    assert(dec_val(tip) > u32::MAX);
                    lemma_dec_val_nonneg(tip);
                    assert(dec_val(tip) * 1000 >= dec_val(tip)) by (nonlinear_arith)
                        requires
                            dec_val(tip) >= 0,
                    ;
                    if d < to {
                        let fp = t.skip(d - start + 1);
                        if 1 <= fp.len() <= 3 && all_digits(fp) {
                            lemma_dec_val_nonneg(fp);
                        }
                    }
                }
            }
            return None;
        },
        Some(v) => v,
    };
    proof {
        lemma_dec_val_nonneg(t.take(d - start));
    }
    let mut m: u64 = (ipv as u64) * 1000;
    if d < to {
        let flen = to - d - 1;
        if flen < 1 || flen > 3 {
            proof {
                assert(t.skip(d - start + 1) =~= s@.subrange(d + 1 as int, to as int));
            }
            return None;
        }
        proof {
            assert(t.skip(d - start + 1) =~= s@.subrange(d + 1 as int, to as int));
        }
        let fv = match parse_u32_range(s, d + 1, to) {
            None => {
                return None;
            },
            Some(v) => v,
        };
        proof {
            lemma_dec_val_nonneg(t.skip(d - start + 1));
        }
        let scale: u64 = if flen == 1 {
            100
        } else if flen == 2 {
            10
        } else {
            1
        };
        proof {
            let fp = t.skip(d - start + 1);
            assert(fv * scale == frac_milli(fp));
            assert(fv as int * scale as int <= 0xFFFF_FFFFu64 * 100) by (nonlinear_arith)
                requires
                    0 <= fv <= u32::MAX,
                    0 < scale <= 100,
            ;
        }
        m = m + (fv as u64) * scale;
    }
    if m > TRANS_LIMIT as u64 {
        return None;
    }
    let v: i64 = if neg {
        -(m as i64)
    } else {
        m as i64
    };
    Some(v)
}

/// Parse one line: a skipped line, a row, or a refusal.
#[verifier::rlimit(100)]
fn parse_line_range(s: &[u8], from: usize, to: usize) -> (r: Option<Option<MapAnchorRow>>)
    requires
        from <= to <= s@.len(),
    ensures
        r == parse_line(s@.subrange(from as int, to as int)),
        r matches Some(Some(rr)) ==> row_ok(rr),
{
    let ghost line = s@.subrange(from as int, to as int);
    let mut end = to;
    if end > from && s[end - 1] == 0x0D {
        end -= 1;
        proof {
            assert(line.last() == 0x0D);
            assert(line.drop_last() =~= s@.subrange(from as int, end as int));
        }
    } else {
        proof {
            if line.len() > 0 {
                assert(line.last() == s@[to - 1]);
            }
        }
    }
    let ghost l = s@.subrange(from as int, end as int);
    if end == from {
        return Some(None);
    }
    proof {
        assert(l[0] == s@[from as int]);
    }
    if s[from] == 0x23 {
        return Some(None);
    }
    let c1 = find_byte(s, from, end, 0x2C);
    proof {
        assert(forall|j: int| 0 <= j < c1 - from ==> l[j] == s@[j + from]);
        if c1 < end {
            assert(l[c1 - from] == s@[c1 as int]);
        }
        lemma_first_index_at(l, 0x2C, c1 - from);
    }
    if c1 == end {
        proof {
            assert(split_fields(l).len() == 1);
        }
        return None;
    }
    let ghost l1 = l.skip(c1 - from + 1);
    proof {
        assert(l1 =~= s@.subrange(c1 + 1 as int, end as int));
        assert(split_fields(l) == seq![l.take(c1 - from)] + split_fields(l1));
    }
    let c2 = find_byte(s, c1 + 1, end, 0x2C);
    proof {
        assert(forall|j: int| 0 <= j < c2 - (c1 + 1) ==> l1[j] == s@[j + c1 + 1]);
        if c2 < end {
            assert(l1[c2 - (c1 + 1)] == s@[c2 as int]);
        }
        lemma_first_index_at(l1, 0x2C, c2 - (c1 + 1));
    }
    if c2 == end {
        proof {
            assert(split_fields(l1) =~= seq![l1]);
            assert(split_fields(l).len() == 2);
        }
        return None;
    }
    let ghost l2 = l1.skip(c2 - (c1 + 1) + 1);
    proof {
        assert(l2 =~= s@.subrange(c2 + 1 as int, end as int));
        assert(split_fields(l1) == seq![l1.take(c2 - (c1 + 1))] + split_fields(l2));
    }
    let c3 = find_byte(s, c2 + 1, end, 0x2C);
    proof {
        assert(forall|j: int| 0 <= j < c3 - (c2 + 1) ==> l2[j] == s@[j + c2 + 1]);
        if c3 < end {
            assert(l2[c3 - (c2 + 1)] == s@[c3 as int]);
        }
        lemma_first_index_at(l2, 0x2C, c3 - (c2 + 1));
    }
    if c3 == end {
        proof {
            assert(split_fields(l2) =~= seq![l2]);
            assert(split_fields(l).len() == 3);
        }
        return None;
    }
    let ghost l3 = l2.skip(c3 - (c2 + 1) + 1);
    proof {
        assert(l3 =~= s@.subrange(c3 + 1 as int, end as int));
        assert(split_fields(l2) == seq![l2.take(c3 - (c2 + 1))] + split_fields(l3));
    }
    let c4 = find_byte(s, c3 + 1, end, 0x2C);
    proof {
        assert(forall|j: int| 0 <= j < c4 - (c3 + 1) ==> l3[j] == s@[j + c3 + 1]);
        if c4 < end {
            assert(l3[c4 - (c3 + 1)] == s@[c4 as int]);
        }
        lemma_first_index_at(l3, 0x2C, c4 - (c3 + 1));
    }
    if c4 < end {
        proof {
            let l4 = l3.skip(c4 - (c3 + 1) + 1);
            lemma_split_fields_len(l4);
            assert(split_fields(l3) == seq![l3.take(c4 - (c3 + 1))] + split_fields(l4));
            assert(split_fields(l).len() >= 5);
        }
        return None;
    }
    proof {
        assert(split_fields(l3) =~= seq![l3]);
        assert(split_fields(l) =~= seq![
            l.take(c1 - from),
            l1.take(c2 - (c1 + 1)),
            l2.take(c3 - (c2 + 1)),
            l3,
        ]);
        assert(l.take(c1 - from) =~= s@.subrange(from as int, c1 as int));
        assert(l1.take(c2 - (c1 + 1)) =~= s@.subrange(c1 + 1 as int, c2 as int));
        assert(l2.take(c3 - (c2 + 1)) =~= s@.subrange(c2 + 1 as int, c3 as int));
    }
    let map_id = match parse_u32_range(s, from, c1) {
        None => {
            return None;
        },
        Some(v) => v,
    };
    let anchor_id = match parse_u32_range(s, c1 + 1, c2) {
        None => {
            return None;
        },
        Some(v) => v,
    };
    let dx = match parse_milli_range(s, c2 + 1, c3) {
        None => {
            return None;
        },
        Some(v) => v,
    };
    let dz = match parse_milli_range(s, c3 + 1, end) {
        None => {
            return None;
        },
        Some(v) => v,
    };
    Some(Some(MapAnchorRow { map_id, anchor_id, dx, dz }))
}

impl WorldPositionTransformer {
    /// Parse the tile-adjacency table from the input text, preserving
    /// source order — and with it the first-row tie-break for tiles with
    /// duplicate mappings. The whole file is refused on the first
    /// malformed line (named by its one-based number) or when the table
    /// exceeds the row limit.
    pub fn from_csv(data: &[u8]) -> (r: Result<Self, AnchorTableError>)
        requires
            data@.len() < usize::MAX,
        ensures
            r is Ok <==> (csv_rows(data@) matches Some(rows) && rows.len() <= ROW_LIMIT),
            r matches Ok(t) ==> csv_rows(data@) == Some(t.rows@) && t.wf(),
            r matches Err(e) ==> (e is TooManyRows <==> csv_rows(data@) is Some),
            r matches Err(AnchorTableError::BadLine(b)) ==> {
                &&& 1 <= b <= split_lines(data@).len()
                &&& parse_line(split_lines(data@)[b - 1]) is None
                &&& forall|j: int|
                    0 <= j < b - 1 ==> parse_line(#[trigger] split_lines(data@)[j]) is Some
            },
    {
        let n = data.len();
        let mut rows: Vec<MapAnchorRow> = Vec::new();
        let mut pos: usize = 0;
        let mut lineno: usize = 1;
        let ghost mut done: Seq<Seq<u8>> = Seq::empty();
        proof {
            assert(data@.skip(0) =~= data@);
            let ro = rows_of_lines(split_lines(data@));
            if ro is Some {
                assert(Seq::<MapAnchorRow>::empty() + ro->0 =~= ro->0);
            }
            assert(done + split_lines(data@) =~= split_lines(data@));
        }
        while pos < n
            invariant
                n == data@.len(),
                n < usize::MAX,
                0 <= pos <= n,
                forall|i: int| 0 <= i < rows@.len() ==> row_ok(#[trigger] rows@[i]),
                rows@.len() <= pos,
                csv_rows(data@) == match rows_of_lines(split_lines(data@.skip(pos as int))) {
                    Option::<Seq<MapAnchorRow>>::None => Option::<Seq<MapAnchorRow>>::None,
                    Some(rest) => Some(rows@ + rest),
                },
                split_lines(data@) == done + split_lines(data@.skip(pos as int)),
                lineno - 1 == done.len(),
                done.len() <= pos,
                forall|j: int| 0 <= j < done.len() ==> parse_line(#[trigger] done[j]) is Some,
            decreases n - pos,
        {
            let k = find_byte(data, pos, n, 0x0A);
            let ghost tail = data@.skip(pos as int);
            proof {
                assert(forall|j: int| 0 <= j < k - pos ==> tail[j] == data@[j + pos]);
                if k < n {
                    assert(tail[k - pos] == data@[k as int]);
                }
                lemma_first_index_at(tail, 0x0A, k - pos);
                assert(tail.take(k - pos) =~= data@.subrange(pos as int, k as int));
            }
            let parsed = parse_line_range(data, pos, k);
            let newpos = if k == n {
                n
            } else {
                k + 1
            };
            proof {
                if k == n {
                    assert(split_lines(tail) =~= seq![tail]);
                    assert(tail =~= data@.subrange(pos as int, k as int));
                    assert(seq![tail].skip(1) =~= Seq::<Seq<u8>>::empty());
                    assert(data@.skip(n as int) =~= Seq::<u8>::empty());
                } else {
                    assert(tail.skip(k - pos + 1) =~= data@.skip(newpos as int));
                    assert(split_lines(tail) == seq![tail.take(k - pos)] + split_lines(
                        data@.skip(newpos as int),
                    ));
                    assert((seq![tail.take(k - pos)] + split_lines(data@.skip(newpos as int)))[0]
                        =~= data@.subrange(pos as int, k as int));
                    assert((seq![tail.take(k - pos)] + split_lines(data@.skip(newpos as int))).skip(
                        1,
                    ) =~= split_lines(data@.skip(newpos as int)));
                }
            }
            let ghost line = data@.subrange(pos as int, k as int);
            proof {
                assert(split_lines(data@.skip(pos as int))[0] == line);
                assert((done + split_lines(data@.skip(pos as int)))[done.len() as int] == line);
            }
            match parsed {
                None => {
                    return Err(AnchorTableError::BadLine(lineno));
                },
                Some(None) => {},
                Some(Some(row)) => {
                    proof {
                        let ro = rows_of_lines(split_lines(data@.skip(newpos as int)));
                        if ro is Some {
                            let rest = ro->0;
                            assert(rows@.push(row) + rest =~= rows@ + (seq![row] + rest));
                        }
                    }
                    rows.push(row);
                },
            }
            proof {
                assert(done + split_lines(data@.skip(pos as int)) =~= done.push(line)
                    + split_lines(data@.skip(newpos as int)));
                done = done.push(line);
            }
            pos = newpos;
            lineno += 1;
        }
        proof {
            assert(done + split_lines(data@.skip(pos as int)) =~= done);
        }
        proof {
            assert(data@.skip(n as int) =~= Seq::<u8>::empty());
            assert(rows@ + Seq::<MapAnchorRow>::empty() =~= rows@);
        }
        if rows.len() > ROW_LIMIT {
            return Err(AnchorTableError::TooManyRows);
        }
        Ok(WorldPositionTransformer { rows })
    }
}

} // verus!
