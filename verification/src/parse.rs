//! The record parser: one delimited log file in, three typed collections out.
//!
//! The input is delimited text with a header row; quoting is disabled
//! (an embedded quote character is literal) and rows may have any width.
//! Each data row is classified by its column count: width 12 is a tile
//! record, width 2 with an allow-listed first cell is a key/value record,
//! width 6 is the stats record (the last one in the file wins), and any
//! other width is silently skipped.

use vstd::prelude::*;
use vstd::string::*;

use crate::records::{Data, DataV, KeyValueRecord, KeyValueV, Stats, StatsV, TileRowV,
    TilesRecords};

verus! {

/// The one hard failure a file can produce: a width-6 row whose required
/// cells do not decode. Everything else degrades to absent fields or a
/// skipped row.
#[derive(Clone, Copy, Debug, PartialEq, Eq, Structural)]
pub enum ParseError {
    MalformedStatsRow,
}

// ---------------------------------------------------------------------------
// Splitting the text into rows of cells
// ---------------------------------------------------------------------------

pub open spec fn is_row_term(c: char) -> bool {
    c == '\n' || c == '\r'
}

/// Scanner state: finished rows, the open row, the open cell, and whether
/// a line feed right after a carriage return is still to be swallowed.
pub struct ScanV {
    pub rows: Seq<Seq<Seq<char>>>,
    pub row: Seq<Seq<char>>,
    pub cell: Seq<char>,
    pub skip_lf: bool,
}

pub open spec fn scan_init() -> ScanV {
    ScanV {
        rows: Seq::empty(),
        row: Seq::empty(),
        cell: Seq::empty(),
        skip_lf: false,
    }
}

/// Close the open row. A fully empty row (a blank line) yields no record.
pub open spec fn finish_row(st: ScanV) -> ScanV {
    if st.row.len() == 0 && st.cell.len() == 0 {
        ScanV { rows: st.rows, row: Seq::empty(), cell: Seq::empty(), skip_lf: st.skip_lf }
    } else {
        ScanV {
            rows: st.rows.push(st.row.push(st.cell)),
            row: Seq::empty(),
            cell: Seq::empty(),
            skip_lf: st.skip_lf,
        }
    }
}

pub open spec fn scan_step(st: ScanV, c: char) -> ScanV {
    if c == '\n' {
        if st.skip_lf {
            ScanV { rows: st.rows, row: st.row, cell: st.cell, skip_lf: false }
        } else {
            let f = finish_row(st);
            ScanV { rows: f.rows, row: f.row, cell: f.cell, skip_lf: false }
        }
    } else if c == '\r' {
        let f = finish_row(st);
        ScanV { rows: f.rows, row: f.row, cell: f.cell, skip_lf: true }
    } else if c == ',' {
        ScanV { rows: st.rows, row: st.row.push(st.cell), cell: Seq::empty(), skip_lf: false }
    } else {
        ScanV { rows: st.rows, row: st.row, cell: st.cell.push(c), skip_lf: false }
    }
}

pub open spec fn scan_text(s: Seq<char>) -> ScanV
    decreases s.len(),
{
    if s.len() == 0 {
        scan_init()
    } else {
        scan_step(scan_text(s.drop_last()), s.last())
    }
}

/// Every record of the text, as rows of cells. A final row without a
/// terminator still counts.
pub open spec fn rows_of(s: Seq<char>) -> Seq<Seq<Seq<char>>> {
    finish_row(scan_text(s)).rows
}

pub open spec fn row_views(rows: Seq<Vec<String>>) -> Seq<Seq<Seq<char>>> {
    rows.map_values(|r: Vec<String>| r@.map_values(|c: String| c@))
}

/// Split the text into records of cells: rows end at a line feed, a
/// carriage return, or the pair of both; cells are separated by commas.
pub fn split_records(s: &str) -> (rows: Vec<Vec<String>>)
    ensures
        row_views(rows@) == rows_of(s@),
{
    let n = s.unicode_len();
    let mut rows: Vec<Vec<String>> = Vec::new();
    let mut row: Vec<String> = Vec::new();
    let mut cell_start: usize = 0;
    let mut skip_lf: bool = false;
    let mut i: usize = 0;
    proof {
        assert(s@.take(0) =~= Seq::<char>::empty());
        assert(row_views(rows@) =~= scan_text(s@.take(0)).rows);
        assert(row@.map_values(|c: String| c@) =~= scan_text(s@.take(0)).row);
        assert(s@.subrange(0, 0) =~= scan_text(s@.take(0)).cell);
    }
    while i < n
        invariant
            n == s@.len(),
            cell_start <= i <= n,
            skip_lf ==> cell_start == i,
            row_views(rows@) == scan_text(s@.take(i as int)).rows,
            row@.map_values(|c: String| c@) == scan_text(s@.take(i as int)).row,
            s@.subrange(cell_start as int, i as int) == scan_text(s@.take(i as int)).cell,
            skip_lf == scan_text(s@.take(i as int)).skip_lf,
        decreases n - i,
    {
        let ghost st = scan_text(s@.take(i as int));
        let ghost old_rows_v = row_views(rows@);
        let ghost old_row_v = row@.map_values(|c2: String| c2@);
        let ghost cell_v = s@.subrange(cell_start as int, i as int);
        let c = s.get_char(i);
        proof {
            assert(s@.take(i + 1).drop_last() =~= s@.take(i as int));
            assert(s@.take(i + 1).last() == s@[i as int]);
            assert(scan_text(s@.take(i + 1)) == scan_step(st, s@[i as int]));
        }
        if c == '\n' || c == '\r' {
            if c == '\n' && skip_lf {
                skip_lf = false;
                cell_start = i + 1;
                proof {
                    assert(s@.subrange(i + 1, i + 1) =~= scan_step(st, c).cell);
                }
            } else {
                if !(row.len() == 0 && cell_start == i) {
                    let cell = String::from_str(s.substring_char(cell_start, i));
                    row.push(cell);
                    rows.push(row);
                    row = Vec::new();
                    proof {
                        assert(cell_v.len() != 0 || old_row_v.len() != 0);
                        assert(row_views(rows@) =~~= old_rows_v.push(old_row_v.push(cell_v)));
                        assert(row@.map_values(|c2: String| c2@) =~= Seq::<Seq<char>>::empty());
                    }
                } else {
                    proof {
                        assert(cell_v =~= Seq::<char>::empty());
                        assert(st.row.len() == 0 && st.cell.len() == 0);
                    }
                }
                skip_lf = c == '\r';
                cell_start = i + 1;
                proof {
                    assert(s@.subrange(i + 1, i + 1) =~= scan_step(st, c).cell);
                }
            }
        } else if c == ',' {
            let cell = String::from_str(s.substring_char(cell_start, i));
            row.push(cell);
            skip_lf = false;
            cell_start = i + 1;
            proof {
                assert(row@.map_values(|c2: String| c2@) =~~= old_row_v.push(cell_v));
                assert(s@.subrange(i + 1, i + 1) =~= scan_step(st, c).cell);
            }
        } else {
            skip_lf = false;
            proof {
                assert(s@.subrange(cell_start as int, i + 1) =~= cell_v.push(s@[i as int]));
            }
        }
        i = i + 1;
    }
    proof {
        assert(s@.take(n as int) =~= s@);
    }
    let ghost st = scan_text(s@);
    let ghost old_rows_v = row_views(rows@);
    let ghost old_row_v = row@.map_values(|c2: String| c2@);
    let ghost cell_v = s@.subrange(cell_start as int, n as int);
    if !(row.len() == 0 && cell_start == n) {
        let cell = String::from_str(s.substring_char(cell_start, n));
        row.push(cell);
        rows.push(row);
        proof {
            assert(cell_v.len() != 0 || old_row_v.len() != 0);
            assert(row_views(rows@) =~~= old_rows_v.push(old_row_v.push(cell_v)));
        }
    } else {
        proof {
            assert(cell_v =~= Seq::<char>::empty());
            assert(st.row.len() == 0 && st.cell.len() == 0);
        }
    }
    rows
}

// ---------------------------------------------------------------------------
// Cell grammars
// ---------------------------------------------------------------------------

pub open spec fn is_digit(c: char) -> bool {
    48 <= c as u32 && c as u32 <= 57
}

pub open spec fn digit_val(c: char) -> nat {
    (c as u32 - 48) as nat
}

pub open spec fn all_digits(s: Seq<char>) -> bool {
    forall|k: int| 0 <= k < s.len() ==> is_digit(#[trigger] s[k])
}

/// The number the digit string denotes.
pub open spec fn digits_val(s: Seq<char>) -> nat
    decreases s.len(),
{
    if s.len() == 0 {
        0
    } else {
        digits_val(s.drop_last()) * 10 + digit_val(s.last())
    }
}

/// The unsigned-integer grammar: an optional plus sign, then digits.
pub open spec fn uint_body(s: Seq<char>) -> Seq<char> {
    if s.len() > 0 && s[0] == '+' {
        s.drop_first()
    } else {
        s
    }
}

pub open spec fn is_uint_text(s: Seq<char>) -> bool {
    uint_body(s).len() > 0 && all_digits(uint_body(s))
}

pub open spec fn uint_text_val(s: Seq<char>) -> nat {
    digits_val(uint_body(s))
}

/// How a width-12 row's optional integer cell decodes.
pub open spec fn opt_u16_of(s: Seq<char>) -> Option<u16> {
    if is_uint_text(s) && uint_text_val(s) <= u16::MAX {
        Some(uint_text_val(s) as u16)
    } else {
        None
    }
}

pub open spec fn opt_u8_of(s: Seq<char>) -> Option<u8> {
    if is_uint_text(s) && uint_text_val(s) <= u8::MAX {
        Some(uint_text_val(s) as u8)
    } else {
        None
    }
}

/// An optional text cell: an empty cell is an absent value.
pub open spec fn opt_text_of(s: Seq<char>) -> Option<Seq<char>> {
    if s.len() == 0 {
        None
    } else {
        Some(s)
    }
}

pub open spec fn opt_bool_of(s: Seq<char>) -> Option<bool> {
    if s == "true"@ {
        Some(true)
    } else if s == "false"@ {
        Some(false)
    } else {
        None
    }
}

/// Count of leading decimal digits.
pub open spec fn digits_len(s: Seq<char>) -> nat
    decreases s.len(),
{
    if s.len() == 0 || !is_digit(s[0]) {
        0
    } else {
        (1 + digits_len(s.drop_first())) as nat
    }
}

pub open spec fn strip_sign(s: Seq<char>) -> Seq<char> {
    if s.len() > 0 && (s[0] == '+' || s[0] == '-') {
        s.drop_first()
    } else {
        s
    }
}

pub open spec fn ci(c: char, lower: char, upper: char) -> bool {
    c == lower || c == upper
}

pub open spec fn is_inf_text(b: Seq<char>) -> bool {
    b.len() == 3 && ci(b[0], 'i', 'I') && ci(b[1], 'n', 'N') && ci(b[2], 'f', 'F')
}

pub open spec fn is_infinity_text(b: Seq<char>) -> bool {
    b.len() == 8 && ci(b[0], 'i', 'I') && ci(b[1], 'n', 'N') && ci(b[2], 'f', 'F') && ci(
        b[3],
        'i',
        'I',
    ) && ci(b[4], 'n', 'N') && ci(b[5], 'i', 'I') && ci(b[6], 't', 'T') && ci(b[7], 'y', 'Y')
}

pub open spec fn is_nan_text(b: Seq<char>) -> bool {
    b.len() == 3 && ci(b[0], 'n', 'N') && ci(b[1], 'a', 'A') && ci(b[2], 'n', 'N')
}

/// An exponent part: `e` or `E`, an optional sign, then digits.
pub open spec fn is_exp_text(s: Seq<char>) -> bool {
    s.len() > 0 && (s[0] == 'e' || s[0] == 'E') && {
        let b = strip_sign(s.drop_first());
        b.len() > 0 && digits_len(b) == b.len()
    }
}

/// The number part of the float grammar: `digits [. digits] [exp]` or
/// `. digits [exp]`.
pub open spec fn is_float_number_text(b: Seq<char>) -> bool {
    let d1 = digits_len(b);
    if d1 > 0 {
        let r1 = b.skip(d1 as int);
        let r2 = if r1.len() > 0 && r1[0] == '.' {
            r1.drop_first().skip(digits_len(r1.drop_first()) as int)
        } else {
            r1
        };
        r2.len() == 0 || is_exp_text(r2)
    } else {
        b.len() > 0 && b[0] == '.' && {
            let m = b.drop_first();
            let d2 = digits_len(m);
            d2 > 0 && {
                let r = m.skip(d2 as int);
                r.len() == 0 || is_exp_text(r)
            }
        }
    }
}

/// The float-literal grammar: an optional sign, then an infinity, a
/// not-a-number, or a number.
pub open spec fn is_float_text(s: Seq<char>) -> bool {
    let b = strip_sign(s);
    is_inf_text(b) || is_infinity_text(b) || is_nan_text(b) || is_float_number_text(b)
}

/// A float-valued cell keeps its exact text when it parses as a float
/// literal, and is absent otherwise.
pub open spec fn opt_float_of(s: Seq<char>) -> Option<Seq<char>> {
    if is_float_text(s) {
        Some(s)
    } else {
        None
    }
}

fn chars_vec(s: &str) -> (v: Vec<char>)
    ensures
        v@ == s@,
{
    let n = s.unicode_len();
    let mut v: Vec<char> = Vec::new();
    let mut i: usize = 0;
    while i < n
        invariant
            n == s@.len(),
            i <= n,
            v@ == s@.take(i as int),
        decreases n - i,
    {
        let c = s.get_char(i);
        v.push(c);
        proof {
            assert(s@.take(i + 1) =~= s@.take(i as int).push(s@[i as int]));
        }
        i = i + 1;
    }
    proof {
        assert(s@.take(n as int) =~= s@);
    }
    v
}

fn is_digit_exec(c: char) -> (r: bool)
    ensures
        r == is_digit(c),
{
    let u = c as u32;
    48 <= u && u <= 57
}

proof fn lemma_digits_len_step(s: Seq<char>, i: int)
    requires
        0 <= i < s.len(),
    ensures
        digits_len(s.skip(i)) == if is_digit(s[i]) {
            1 + digits_len(s.skip(i + 1))
        } else {
            0
        },
{
    assert(s.skip(i)[0] == s[i]);
    assert(s.skip(i).drop_first() =~= s.skip(i + 1));
}

/// First index at or past `from` that does not hold a digit.
fn digits_run(v: &Vec<char>, from: usize) -> (end: usize)
    requires
        from <= v@.len(),
    ensures
        from <= end <= v@.len(),
        end - from == digits_len(v@.skip(from as int)),
{
    let n = v.len();
    let mut j = from;
    while j < n && is_digit_exec(v[j])
        invariant
            from <= j <= n,
            n == v@.len(),
            digits_len(v@.skip(from as int)) == (j - from) + digits_len(v@.skip(j as int)),
        decreases n - j,
    {
        proof {
            lemma_digits_len_step(v@, j as int);
        }
        j = j + 1;
    }
    proof {
        if j < n {
            lemma_digits_len_step(v@, j as int);
        } else {
            assert(v@.skip(j as int) =~= Seq::<char>::empty());
        }
    }
    j
}

/// Does the tail starting at `from` read as an exponent part?
fn exp_run(v: &Vec<char>, from: usize) -> (r: bool)
    requires
        from <= v@.len(),
    ensures
        r == is_exp_text(v@.skip(from as int)),
{
    let n = v.len();
    let ghost s = v@.skip(from as int);
    if from == n {
        return false;
    }
    let c = v[from];
    if !(c == 'e' || c == 'E') {
        return false;
    }
    let mut b_start = from + 1;
    proof {
        assert(s[0] == v@[from as int]);
        assert(s.drop_first() =~= v@.skip(from + 1));
    }
    if b_start < n && (v[b_start] == '+' || v[b_start] == '-') {
        proof {
            assert(v@.skip(b_start as int)[0] == v@[b_start as int]);
            assert(strip_sign(v@.skip(b_start as int)) =~= v@.skip(b_start + 1));
        }
        b_start = b_start + 1;
    } else {
        proof {
            if b_start < n {
                assert(v@.skip(b_start as int)[0] == v@[b_start as int]);
            }
            assert(strip_sign(v@.skip(b_start as int)) =~= v@.skip(b_start as int));
        }
    }
    let ghost b = strip_sign(s.drop_first());
    proof {
        assert(b =~= v@.skip(b_start as int));
    }
    if b_start == n {
        return false;
    }
    let end = digits_run(v, b_start);
    end == n
}

/// Whether the text parses as a float literal.
#[verifier::rlimit(100)]
pub fn is_float_cell(s: &str) -> (r: bool)
    ensures
        r == is_float_text(s@),
{
    let v = chars_vec(s);
    let n = v.len();
    let mut b_start: usize = 0;
    if n > 0 && (v[0] == '+' || v[0] == '-') {
        b_start = 1;
    }
    let ghost b = strip_sign(s@);
    proof {
        assert(b =~= v@.skip(b_start as int));
    }
    let blen = n - b_start;
    // the three special spellings
    if blen == 3 {
        let c0 = v[b_start];
        let c1 = v[b_start + 1];
        let c2 = v[b_start + 2];
        if (c0 == 'i' || c0 == 'I') && (c1 == 'n' || c1 == 'N') && (c2 == 'f' || c2 == 'F') {
            proof {
                assert(is_inf_text(b));
            }
            return true;
        }
        if (c0 == 'n' || c0 == 'N') && (c1 == 'a' || c1 == 'A') && (c2 == 'n' || c2 == 'N') {
            proof {
                assert(is_nan_text(b));
            }
            return true;
        }
    }
    if blen == 8 {
        let c0 = v[b_start];
        let c1 = v[b_start + 1];
        let c2 = v[b_start + 2];
        let c3 = v[b_start + 3];
        let c4 = v[b_start + 4];
        let c5 = v[b_start + 5];
        let c6 = v[b_start + 6];
        let c7 = v[b_start + 7];
        if (c0 == 'i' || c0 == 'I') && (c1 == 'n' || c1 == 'N') && (c2 == 'f' || c2 == 'F') && (c3
            == 'i' || c3 == 'I') && (c4 == 'n' || c4 == 'N') && (c5 == 'i' || c5 == 'I') && (c6
            == 't' || c6 == 'T') && (c7 == 'y' || c7 == 'Y') {
            proof {
                assert(is_infinity_text(b));
            }
            return true;
        }
    }
    // the number grammar
    let d1_end = digits_run(&v, b_start);
    if d1_end > b_start {
        // digits [. digits] [exp]
        let ghost r1 = b.skip((d1_end - b_start) as int);
        proof {
            assert(r1 =~= v@.skip(d1_end as int));
        }
        let mut rest: usize = d1_end;
        if d1_end < n && v[d1_end] == '.' {
            proof {
                assert(r1[0] == v@[d1_end as int]);
                assert(r1.drop_first() =~= v@.skip(d1_end + 1));
            }
            let d2_end = digits_run(&v, d1_end + 1);
            proof {
                assert(r1.drop_first().skip(digits_len(r1.drop_first()) as int) =~= v@.skip(
                    d2_end as int,
                ));
            }
            rest = d2_end;
        } else {
            proof {
                if d1_end < n {
                    assert(r1[0] == v@[d1_end as int]);
                }
            }
        }
        let ghost r2 = v@.skip(rest as int);
        if rest == n {
            proof {
                assert(r2.len() == 0);
                assert(is_float_number_text(b));
            }
            true
        } else {
            let e = exp_run(&v, rest);
            proof {
                if e {
                    assert(is_float_number_text(b));
                } else {
                    assert(!is_float_number_text(b));
                    assert(!is_inf_text(b));
                    assert(!is_infinity_text(b));
                    assert(!is_nan_text(b));
                }
            }
            e
        }
    } else {
        // . digits [exp]
        if b_start < n && v[b_start] == '.' {
            proof {
                assert(b[0] == v@[b_start as int]);
                assert(b.drop_first() =~= v@.skip(b_start + 1));
            }
            let d2_end = digits_run(&v, b_start + 1);
            if d2_end == b_start + 1 {
                proof {
                    assert(!is_float_number_text(b));
                    assert(!is_inf_text(b) && !is_infinity_text(b) && !is_nan_text(b));
                }
                return false;
            }
            let ghost m = b.drop_first();
            let ghost r = m.skip(digits_len(m) as int);
            proof {
                assert(r =~= v@.skip(d2_end as int));
            }
            if d2_end == n {
                proof {
                    assert(is_float_number_text(b));
                }
                true
            } else {
                let e = exp_run(&v, d2_end);
                proof {
                    if e {
                        assert(is_float_number_text(b));
                    } else {
                        assert(!is_float_number_text(b));
                        assert(!is_inf_text(b) && !is_infinity_text(b) && !is_nan_text(b));
                    }
                }
                e
            }
        } else {
            proof {
                assert(!is_float_number_text(b));
                assert(!is_inf_text(b) && !is_infinity_text(b) && !is_nan_text(b));
            }
            false
        }
    }
}

proof fn lemma_digits_val_bound_grows(s: Seq<char>, i: int)
    requires
        0 <= i <= s.len(),
    ensures
        digits_val(s) >= digits_val(s.take(i)),
    decreases s.len() - i,
{
    if i < s.len() {
        lemma_digits_val_bound_grows(s, i + 1);
        assert(s.take(i + 1).drop_last() =~= s.take(i));
        assert(digits_val(s.take(i + 1)) == digits_val(s.take(i)) * 10 + digit_val(
            s.take(i + 1).last(),
        ));
    } else {
        assert(s.take(i) =~= s);
    }
}

/// Decode an unsigned cell with a 16-bit bound, as the optional integer
/// cells of a tile row require.
pub fn parse_u16_cell(s: &str) -> (r: Option<u16>)
    ensures
        r == opt_u16_of(s@),
{
    let v = chars_vec(s);
    let n = v.len();
    if n == 0 {
        return None;
    }
    let start: usize = if v[0] == '+' {
        1
    } else {
        0
    };
    let ghost b = uint_body(s@);
    proof {
        assert(b =~= v@.skip(start as int));
    }
    if start == n {
        return None;
    }
    let mut acc: u64 = 0;
    let mut i = start;
    proof {
        assert(v@.subrange(start as int, start as int) =~= Seq::<char>::empty());
    }
    while i < n
        invariant
            start <= i <= n,
            n == v@.len(),
            v@ == s@,
            b == uint_body(s@),
            b =~= v@.skip(start as int),
            forall|k: int| start <= k < i ==> is_digit(#[trigger] v@[k]),
            if digits_val(v@.subrange(start as int, i as int)) <= 65535 {
                acc == digits_val(v@.subrange(start as int, i as int))
            } else {
                acc == 65536
            },
        decreases n - i,
    {
        let c = v[i];
        if !is_digit_exec(c) {
            proof {
                assert(b[i - start] == v@[i as int]);
                assert(!all_digits(b));
            }
            return None;
        }
        let d = (c as u32 - 48) as u64;
        let t = acc * 10 + d;
        proof {
            assert(v@.subrange(start as int, i + 1).drop_last() =~= v@.subrange(
                start as int,
                i as int,
            ));
            assert(v@.subrange(start as int, i + 1).last() == v@[i as int]);
        }
        acc = if t > 65535 {
            65536
        } else {
            t
        };
        i = i + 1;
    }
    proof {
        assert(b =~= v@.subrange(start as int, n as int));
        assert(all_digits(b));
        assert(is_uint_text(s@));
    }
    if acc <= 65535 {
        Some(acc as u16)
    } else {
        None
    }
}

/// Decode an unsigned cell with an 8-bit bound.
pub fn parse_u8_cell(s: &str) -> (r: Option<u8>)
    ensures
        r == opt_u8_of(s@),
{
    let v = chars_vec(s);
    let n = v.len();
    if n == 0 {
        return None;
    }
    let start: usize = if v[0] == '+' {
        1
    } else {
        0
    };
    let ghost b = uint_body(s@);
    proof {
        assert(b =~= v@.skip(start as int));
    }
    if start == n {
        return None;
    }
    let mut acc: u64 = 0;
    let mut i = start;
    proof {
        assert(v@.subrange(start as int, start as int) =~= Seq::<char>::empty());
    }
    while i < n
        invariant
            start <= i <= n,
            n == v@.len(),
            v@ == s@,
            b == uint_body(s@),
            b =~= v@.skip(start as int),
            forall|k: int| start <= k < i ==> is_digit(#[trigger] v@[k]),
            if digits_val(v@.subrange(start as int, i as int)) <= 255 {
                acc == digits_val(v@.subrange(start as int, i as int))
            } else {
                acc == 256
            },
        decreases n - i,
    {
        let c = v[i];
        if !is_digit_exec(c) {
            proof {
                assert(b[i - start] == v@[i as int]);
                assert(!all_digits(b));
            }
            return None;
        }
        let d = (c as u32 - 48) as u64;
        let t = acc * 10 + d;
        proof {
            assert(v@.subrange(start as int, i + 1).drop_last() =~= v@.subrange(
                start as int,
                i as int,
            ));
            assert(v@.subrange(start as int, i + 1).last() == v@[i as int]);
        }
        acc = if t > 255 {
            256
        } else {
            t
        };
        i = i + 1;
    }
    proof {
        assert(b =~= v@.subrange(start as int, n as int));
        assert(all_digits(b));
        assert(is_uint_text(s@));
    }
    if acc <= 255 {
        Some(acc as u8)
    } else {
        None
    }
}

/// Character-wise equality of two text slices.
pub fn str_eq(a: &str, b: &str) -> (r: bool)
    ensures
        r == (a@ == b@),
{
    let na = a.unicode_len();
    let nb = b.unicode_len();
    if na != nb {
        proof {
            assert(a@ != b@);
        }
        return false;
    }
    let mut i: usize = 0;
    while i < na
        invariant
            na == a@.len(),
            na == b@.len(),
            i <= na,
            forall|k: int| 0 <= k < i ==> a@[k] == b@[k],
        decreases na - i,
    {
        if a.get_char(i) != b.get_char(i) {
            proof {
                assert(a@[i as int] != b@[i as int]);
            }
            return false;
        }
        i = i + 1;
    }
    proof {
        assert(a@ =~= b@);
    }
    true
}

// ---------------------------------------------------------------------------
// Classification
// ---------------------------------------------------------------------------

/// The fixed allow-list for the first cell of a two-column row.
pub open spec fn is_allowed_key(s: Seq<char>) -> bool {
    s == "Kills:"@ || s == "Score:"@ || s == "Hash:"@ || s == "Deaths:"@ || s == "Scenario:"@
        || s == "FOV:"@ || s == "Horiz Sens:"@
}

/// Whether the first cell of a two-column row is on the allow-list.
pub fn is_allowed_key_cell(s: &str) -> (r: bool)
    ensures
        r == is_allowed_key(s@),
{
    str_eq(s, "Kills:") || str_eq(s, "Score:") || str_eq(s, "Hash:") || str_eq(s, "Deaths:")
        || str_eq(s, "Scenario:") || str_eq(s, "FOV:") || str_eq(s, "Horiz Sens:")
}

/// How a width-12 row decodes: cell by cell, never failing. The twelfth
/// cell carries no field and is ignored.
pub open spec fn tile_of_row(r: Seq<Seq<char>>) -> TileRowV
    recommends
        r.len() >= 11,
{
    TileRowV {
        kill: opt_u16_of(r[0]),
        timestamp: opt_text_of(r[1]),
        bot: opt_text_of(r[2]),
        weapon: opt_text_of(r[3]),
        ttk: opt_text_of(r[4]),
        shots: opt_u8_of(r[5]),
        accuracy: opt_float_of(r[6]),
        damage_done: opt_u16_of(r[7]),
        damage_taken: opt_u16_of(r[8]),
        efficiency: opt_float_of(r[9]),
        cheated: opt_bool_of(r[10]),
    }
}

/// How a width-6 row decodes; `None` is the hard failure that aborts the
/// file. The sixth cell carries no field and is ignored.
pub open spec fn stats_of_row(r: Seq<Seq<char>>) -> Option<StatsV>
    recommends
        r.len() >= 5,
{
    if is_uint_text(r[1]) && uint_text_val(r[1]) <= u16::MAX && is_uint_text(r[2])
        && uint_text_val(r[2]) <= u16::MAX && is_float_text(r[3]) && is_float_text(r[4]) {
        Some(
            StatsV {
                weapon: r[0],
                shots: uint_text_val(r[1]) as u16,
                hits: uint_text_val(r[2]) as u16,
                damage_done: r[3],
                damage_possible: r[4],
            },
        )
    } else {
        None
    }
}

/// Classifier state: the three collections as they accumulate.
pub struct ClassifyV {
    pub tiles: Seq<TileRowV>,
    pub key_value: Seq<KeyValueV>,
    pub stats: Option<StatsV>,
}

pub open spec fn classify_init() -> ClassifyV {
    ClassifyV { tiles: Seq::empty(), key_value: Seq::empty(), stats: None }
}

/// Classify one data row by its width; any unmatched width is skipped.
pub open spec fn classify_row(acc: ClassifyV, r: Seq<Seq<char>>) -> Result<ClassifyV, ()> {
    if r.len() == 12 {
        Ok(ClassifyV { tiles: acc.tiles.push(tile_of_row(r)), key_value: acc.key_value, stats: acc.stats })
    } else if r.len() == 2 && is_allowed_key(r[0]) {
        Ok(
            ClassifyV {
                tiles: acc.tiles,
                key_value: acc.key_value.push(KeyValueV { key: r[0], value: r[1] }),
                stats: acc.stats,
            },
        )
    } else if r.len() == 6 {
        match stats_of_row(r) {
            Some(sv) => Ok(ClassifyV { tiles: acc.tiles, key_value: acc.key_value, stats: Some(sv) }),
            None => Err(()),
        }
    } else {
        Ok(acc)
    }
}

pub open spec fn classify_rows(acc: ClassifyV, rows: Seq<Seq<Seq<char>>>) -> Result<ClassifyV, ()>
    decreases rows.len(),
{
    if rows.len() == 0 {
        Ok(acc)
    } else {
        match classify_row(acc, rows[0]) {
            Ok(acc2) => classify_rows(acc2, rows.drop_first()),
            Err(e) => Err(e),
        }
    }
}

/// The records after the header row.
pub open spec fn data_rows(rows: Seq<Seq<Seq<char>>>) -> Seq<Seq<Seq<char>>> {
    if rows.len() == 0 {
        rows
    } else {
        rows.drop_first()
    }
}

/// What parsing a whole file means: split it into records, drop the
/// header, classify every data row, and fall back to the zero stats
/// record when no width-6 row appeared.
pub open spec fn spec_parse(s: Seq<char>) -> Result<DataV, ()> {
    match classify_rows(classify_init(), data_rows(rows_of(s))) {
        Ok(acc) => Ok(
            DataV {
                tiles: acc.tiles,
                key_value: acc.key_value,
                stats: match acc.stats {
                    Some(sv) => sv,
                    None => StatsV::zero(),
                },
            },
        ),
        Err(e) => Err(()),
    }
}

pub open spec fn view_opt_stats(o: Option<Stats>) -> Option<StatsV> {
    match o {
        Some(s) => Some(s@),
        None => None,
    }
}

fn opt_text_cell(s: &String) -> (r: Option<String>)
    ensures
        crate::records::view_opt_text(r) == opt_text_of(s@),
{
    if s.as_str().unicode_len() == 0 {
        None
    } else {
        Some(s.clone())
    }
}

fn opt_float_cell(s: &String) -> (r: Option<String>)
    ensures
        crate::records::view_opt_text(r) == opt_float_of(s@),
{
    if is_float_cell(s.as_str()) {
        Some(s.clone())
    } else {
        None
    }
}

fn opt_bool_cell(s: &String) -> (r: Option<bool>)
    ensures
        r == opt_bool_of(s@),
{
    if str_eq(s.as_str(), "true") {
        Some(true)
    } else if str_eq(s.as_str(), "false") {
        Some(false)
    } else {
        None
    }
}

/// Decode a width-12 row into a tile record. Never fails: each cell that
/// does not fit its field becomes an absent value.
pub fn decode_tile_row(row: &Vec<String>) -> (t: TilesRecords)
    requires
        row@.len() >= 11,
    ensures
        t@ == tile_of_row(row@.map_values(|c: String| c@)),
{
    let ghost rv = row@.map_values(|c: String| c@);
    let t = TilesRecords {
        kill: parse_u16_cell(row[0].as_str()),
        timestamp: opt_text_cell(&row[1]),
        bot: opt_text_cell(&row[2]),
        weapon: opt_text_cell(&row[3]),
        ttk: opt_text_cell(&row[4]),
        shots: parse_u8_cell(row[5].as_str()),
        accuracy: opt_float_cell(&row[6]),
        damage_done: parse_u16_cell(row[7].as_str()),
        damage_taken: parse_u16_cell(row[8].as_str()),
        efficiency: opt_float_cell(&row[9]),
        cheated: opt_bool_cell(&row[10]),
    };
    proof {
        assert(t@ =~= tile_of_row(rv));
    }
    t
}

/// Decode a width-6 row into the stats record; `None` when a required
/// cell does not fit its field.
pub fn decode_stats_row(row: &Vec<String>) -> (r: Option<Stats>)
    requires
        row@.len() >= 5,
    ensures
        view_opt_stats(r) == stats_of_row(row@.map_values(|c: String| c@)),
{
    let ghost rv = row@.map_values(|c: String| c@);
    let shots = parse_u16_cell(row[1].as_str());
    let hits = parse_u16_cell(row[2].as_str());
    let dd_ok = is_float_cell(row[3].as_str());
    let dp_ok = is_float_cell(row[4].as_str());
    match (shots, hits) {
        (Some(shots_v), Some(hits_v)) => {
            if dd_ok && dp_ok {
                let s = Stats {
                    weapon: row[0].clone(),
                    shots: shots_v,
                    hits: hits_v,
                    damage_done: row[3].clone(),
                    damage_possible: row[4].clone(),
                };
                proof {
                    assert(s@ =~= stats_of_row(rv).unwrap());
                }
                Some(s)
            } else {
                None
            }
        },
        _ => None,
    }
}

/// Parse one file's text into the three typed collections.
///
/// The first record is the header and carries no data. A width-6 row
/// whose required cells do not decode aborts the whole file; the last
/// width-6 row wins; a file without one yields the zero stats record.
pub fn read_file(content: &str) -> (r: Result<
    (Vec<TilesRecords>, Vec<KeyValueRecord>, Stats),
    ParseError,
>)
    ensures
        match r {
            Ok(t) => spec_parse(content@) == Ok::<DataV, ()>(
                DataV {
                    tiles: t.0@.map_values(|x: TilesRecords| x@),
                    key_value: t.1@.map_values(|x: KeyValueRecord| x@),
                    stats: t.2@,
                },
            ),
            Err(_) => spec_parse(content@) is Err,
        },
{
    let rows = split_records(content);
    let ghost rowsv = rows_of(content@);
    let ghost body = data_rows(rowsv);
    let mut tiles: Vec<TilesRecords> = Vec::new();
    let mut kvs: Vec<KeyValueRecord> = Vec::new();
    let mut stats_found: Option<Stats> = None;
    if rows.len() == 0 {
        proof {
            assert(body.len() == 0);
            assert(tiles@.map_values(|x: TilesRecords| x@) =~= Seq::<TileRowV>::empty());
            assert(kvs@.map_values(|x: KeyValueRecord| x@) =~= Seq::<KeyValueV>::empty());
        }
        return Ok((tiles, kvs, Stats::default()));
    }
    let mut i: usize = 1;
    proof {
        assert(body =~= rowsv.drop_first());
        assert(body.skip(0) =~= body);
        assert(tiles@.map_values(|x: TilesRecords| x@) =~= Seq::<TileRowV>::empty());
        assert(kvs@.map_values(|x: KeyValueRecord| x@) =~= Seq::<KeyValueV>::empty());
        assert(ClassifyV {
            tiles: tiles@.map_values(|x: TilesRecords| x@),
            key_value: kvs@.map_values(|x: KeyValueRecord| x@),
            stats: view_opt_stats(stats_found),
        } == classify_init());
    }
    while i < rows.len()
        invariant
            1 <= i <= rows@.len(),
            rows@.len() >= 1,
            row_views(rows@) == rowsv,
            rowsv == rows_of(content@),
            body == data_rows(rowsv),
            body.len() == rows@.len() - 1,
            classify_rows(
                ClassifyV {
                    tiles: tiles@.map_values(|x: TilesRecords| x@),
                    key_value: kvs@.map_values(|x: KeyValueRecord| x@),
                    stats: view_opt_stats(stats_found),
                },
                body.skip(i - 1),
            ) == classify_rows(classify_init(), body),
        decreases rows@.len() - i,
    {
        let ghost accv = ClassifyV {
            tiles: tiles@.map_values(|x: TilesRecords| x@),
            key_value: kvs@.map_values(|x: KeyValueRecord| x@),
            stats: view_opt_stats(stats_found),
        };
        let ghost rv = body.skip(i - 1)[0];
        proof {
            assert(body.skip(i - 1)[0] == body[i - 1]);
            assert(body[i - 1] == rowsv[i as int]);
            assert(rowsv[i as int] == rows@[i as int]@.map_values(|c: String| c@));
            assert(body.skip(i - 1).drop_first() =~= body.skip(i as int));
            assert(rv.len() == rows@[i as int]@.len());
        }
        let row = &rows[i];
        if row.len() == 12 {
            let t = decode_tile_row(row);
            tiles.push(t);
            proof {
                assert(tiles@.map_values(|x: TilesRecords| x@) =~= accv.tiles.push(
                    tile_of_row(rv),
                ));
            }
        } else if row.len() == 2 {
            if is_allowed_key_cell(row[0].as_str()) {
                let kv = KeyValueRecord { key: row[0].clone(), value: row[1].clone() };
                kvs.push(kv);
                proof {
                    assert(kvs@.map_values(|x: KeyValueRecord| x@) =~= accv.key_value.push(
                        KeyValueV { key: rv[0], value: rv[1] },
                    ));
                }
            }
        } else if row.len() == 6 {
            match decode_stats_row(row) {
                Some(s) => {
                    stats_found = Some(s);
                },
                None => {
                    proof {
                        assert(classify_row(accv, rv) is Err);
                        assert(classify_rows(accv, body.skip(i - 1)) is Err);
                        assert(classify_rows(classify_init(), body) is Err);
                        assert(spec_parse(content@) is Err);
                    }
                    return Err(ParseError::MalformedStatsRow);
                },
            }
        }
        i = i + 1;
    }
    proof {
        assert(body.skip(rows@.len() - 1) =~= Seq::<Seq<Seq<char>>>::empty());
    }
    let stats = match stats_found {
        Some(s) => s,
        None => Stats::default(),
    };
    Ok((tiles, kvs, stats))
}


} // verus!
