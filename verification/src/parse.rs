//! The probe-output adapter: parses the delimited text that the external
//! probe emits into typed readings, with all defaulting and skip rules in
//! one place, so the retention engine never sees malformed data.
//!
//! The text is handled as raw bytes. Numeric fields are modelled in plain
//! decimal notation (optional sign, digits, optional fraction), which is
//! what the probe emits; a field that does not fit the model defaults to
//! zero rather than failing its line.

use vstd::prelude::*;

verus! {

/// ASCII whitespace, as trimmed from the ends of every field.
pub open spec fn is_space(b: u8) -> bool {
    b == 32 || b == 9 || b == 13 || b == 10
}

/// An ASCII decimal digit.
pub open spec fn is_digit(b: u8) -> bool {
    48 <= b <= 57
}

/// `s` without its leading whitespace.
pub open spec fn trim_front(s: Seq<u8>) -> Seq<u8>
    decreases s.len(),
{
    if s.len() > 0 && is_space(s[0]) {
        trim_front(s.drop_first())
    } else {
        s
    }
}

/// `s` without its trailing whitespace.
pub open spec fn trim_back(s: Seq<u8>) -> Seq<u8>
    decreases s.len(),
{
    if s.len() > 0 && is_space(s.last()) {
        trim_back(s.drop_last())
    } else {
        s
    }
}

/// `s` without leading and trailing whitespace.
pub open spec fn spec_trim(s: Seq<u8>) -> Seq<u8> {
    trim_back(trim_front(s))
}

proof fn lemma_trim_front_range(s: Seq<u8>, a: int)
    requires
        0 <= a <= s.len(),
        forall|j: int| 0 <= j < a ==> is_space(s[j]),
        a < s.len() ==> !is_space(s[a]),
    ensures
        trim_front(s) == s.subrange(a, s.len() as int),
    decreases s.len(),
{
    if s.len() > 0 && is_space(s[0]) {
        let d = s.drop_first();
        lemma_trim_front_range(d, a - 1);
        assert(d.subrange(a - 1, d.len() as int) =~= s.subrange(a, s.len() as int));
    } else {
        assert(trim_front(s) =~= s.subrange(a, s.len() as int));
    }
}

proof fn lemma_trim_back_range(s: Seq<u8>, b: int)
    requires
        0 <= b <= s.len(),
        forall|j: int| b <= j < s.len() ==> is_space(s[j]),
        b > 0 ==> !is_space(s[b - 1]),
    ensures
        trim_back(s) == s.subrange(0, b),
    decreases s.len(),
{
    if s.len() > 0 && is_space(s.last()) {
        let d = s.drop_last();
        if b == s.len() {
            assert(!is_space(s[b - 1]));
            assert(false);
        }
        lemma_trim_back_range(d, b);
    } else {
        assert(trim_back(s) =~= s.subrange(0, b));
    }
}

/// Strips leading and trailing ASCII whitespace, as a fresh byte vector.
pub fn trim(s: &Vec<u8>) -> (r: Vec<u8>)
    ensures
        r@ == spec_trim(s@),
{
    let n = s.len();
    let mut a: usize = 0;
    while a < n && (s[a] == 32 || s[a] == 9 || s[a] == 13 || s[a] == 10)
        invariant
            n == s@.len(),
            0 <= a <= n,
            forall|j: int| 0 <= j < a ==> is_space(s@[j]),
        decreases n - a,
    {
        a += 1;
    }
    proof {
        lemma_trim_front_range(s@, a as int);
    }
    let mut b: usize = n;
    while b > a && (s[b - 1] == 32 || s[b - 1] == 9 || s[b - 1] == 13 || s[b - 1] == 10)
        invariant
            n == s@.len(),
            a <= b <= n,
            forall|j: int| b <= j < n ==> is_space(s@[j]),
        decreases b,
    {
        b -= 1;
    }
    proof {
        let f = trim_front(s@);
        assert(f == s@.subrange(a as int, n as int));
        assert forall|j: int| b - a <= j < f.len() implies is_space(f[j]) by {
            assert(f[j] == s@[a + j]);
        }
        if b > a {
            assert(f[b - a - 1] == s@[b - 1]);
        }
        lemma_trim_back_range(f, b - a);
    }
    let mut r: Vec<u8> = Vec::new();
    let mut j: usize = a;
    while j < b
        invariant
            a <= j <= b <= n,
            n == s@.len(),
            r@ == s@.subrange(a as int, j as int),
        decreases b - j,
    {
        r.push(s[j]);
        assert(r@ =~= s@.subrange(a as int, j + 1));
        j += 1;
    }
    proof {
        assert(trim_front(s@).subrange(0, b - a) =~= s@.subrange(a as int, b as int));
        assert(r@ =~= s@.subrange(a as int, b as int));
    }
    r
}

/// The value of a digit string read in decimal; non-digit bytes make the
/// value meaningless, callers guard with `is_digits`.
pub open spec fn dec_value(s: Seq<u8>) -> int
    decreases s.len(),
{
    if s.len() == 0 {
        0
    } else {
        dec_value(s.drop_last()) * 10 + (s.last() - 48)
    }
}

/// A non-empty, all-digit byte string.
pub open spec fn is_digits(s: Seq<u8>) -> bool {
    s.len() > 0 && forall|j: int| 0 <= j < s.len() ==> is_digit(#[trigger] s[j])
}

proof fn lemma_dec_value_nonneg(s: Seq<u8>)
    requires
        forall|j: int| 0 <= j < s.len() ==> is_digit(#[trigger] s[j]),
    ensures
        dec_value(s) >= 0,
    decreases s.len(),
{
    if s.len() > 0 {
        lemma_dec_value_nonneg(s.drop_last());
    }
}

proof fn lemma_dec_value_prefix(s: Seq<u8>, k: int)
    requires
        0 <= k <= s.len(),
        forall|j: int| 0 <= j < s.len() ==> is_digit(#[trigger] s[j]),
    ensures
        dec_value(s) >= dec_value(s.subrange(0, k)),
    decreases s.len(),
{
    lemma_dec_value_nonneg(s);
    if k < s.len() {
        let d = s.drop_last();
        assert(d.subrange(0, k) =~= s.subrange(0, k));
        lemma_dec_value_prefix(d, k);
        lemma_dec_value_nonneg(d);
    } else {
        assert(s.subrange(0, k) =~= s);
    }
}

/// Reads a device index: a non-empty digit string whose value fits in
/// `usize`; anything else is `None` and the caller falls back to the
/// position of the line in the probe output.
pub fn parse_usize(s: &Vec<u8>) -> (r: Option<usize>)
    ensures
        r == (if is_digits(s@) && dec_value(s@) <= usize::MAX {
            Some(dec_value(s@) as usize)
        } else {
            None::<usize>
        }),
{
    let n = s.len();
    if n == 0 {
        return None;
    }
    let mut acc: usize = 0;
    let mut i: usize = 0;
    while i < n
        invariant
            n == s@.len(),
            0 <= i <= n,
            forall|j: int| 0 <= j < i ==> is_digit(#[trigger] s@[j]),
            acc == dec_value(s@.subrange(0, i as int)),
        decreases n - i,
    {
        let b = s[i];
        if b < 48 || b > 57 {
            return None;
        }
        let d = (b - 48) as usize;
        if acc > (usize::MAX - d) / 10 {
            proof {
                assert(s@.subrange(0, i + 1).drop_last() =~= s@.subrange(0, i as int));
                assert(dec_value(s@.subrange(0, i + 1)) == acc * 10 + d);
                assert(acc * 10 + d > usize::MAX) by {
                    assert(acc >= (usize::MAX - d) / 10 + 1);
                    assert(((usize::MAX - d) / 10 + 1) * 10 + d > usize::MAX) by (nonlinear_arith);
                    assert(acc * 10 >= ((usize::MAX - d) / 10 + 1) * 10) by (nonlinear_arith)
                        requires
                            acc >= (usize::MAX - d) / 10 + 1,
                    ;
                }
                if is_digits(s@) {
                    lemma_dec_value_prefix(s@, i + 1);
                }
            }
            return None;
        }
        proof {
            assert(acc * 10 + d <= usize::MAX) by {
                assert(acc <= (usize::MAX - d) / 10);
                assert(((usize::MAX - d) / 10) * 10 <= usize::MAX - d) by (nonlinear_arith);
                assert(acc * 10 <= ((usize::MAX - d) / 10) * 10) by (nonlinear_arith)
                    requires
                        acc <= (usize::MAX - d) / 10,
                ;
            }
            assert(s@.subrange(0, i + 1).drop_last() =~= s@.subrange(0, i as int));
        }
        acc = acc * 10 + d;
        i += 1;
    }
    proof {
        assert(s@.subrange(0, n as int) =~= s@);
    }
    Some(acc)
}

/// The segments of `s` between occurrences of `sep`, in order; an empty
/// string is one empty segment, and a trailing separator ends with one.
pub open spec fn split_on(s: Seq<u8>, sep: u8) -> Seq<Seq<u8>>
    decreases s.len(),
{
    if s.len() == 0 {
        seq![Seq::<u8>::empty()]
    } else if s.last() == sep {
        split_on(s.drop_last(), sep).push(Seq::<u8>::empty())
    } else {
        let r = split_on(s.drop_last(), sep);
        r.update(r.len() - 1, r.last().push(s.last()))
    }
}

pub proof fn lemma_split_on_len(s: Seq<u8>, sep: u8)
    ensures
        split_on(s, sep).len() >= 1,
    decreases s.len(),
{
    if s.len() > 0 {
        lemma_split_on_len(s.drop_last(), sep);
    }
}

/// Splits on a separator byte, each segment as a fresh vector.
pub fn split_bytes(s: &Vec<u8>, sep: u8) -> (r: Vec<Vec<u8>>)
    ensures
        r@.map_values(|f: Vec<u8>| f@) == split_on(s@, sep),
{
    let n = s.len();
    let mut fields: Vec<Vec<u8>> = Vec::new();
    let mut cur: Vec<u8> = Vec::new();
    let mut i: usize = 0;
    while i < n
        invariant
            n == s@.len(),
            0 <= i <= n,
            fields@.map_values(|f: Vec<u8>| f@).push(cur@) == split_on(
                s@.subrange(0, i as int),
                sep,
            ),
        decreases n - i,
    {
        proof {
            assert(s@.subrange(0, i + 1).drop_last() =~= s@.subrange(0, i as int));
            assert(s@.subrange(0, i + 1).last() == s@[i as int]);
        }
        let b = s[i];
        if b == sep {
            fields.push(cur);
            cur = Vec::new();
            proof {
                assert(fields@.map_values(|f: Vec<u8>| f@).push(cur@) =~~= split_on(
                    s@.subrange(0, i + 1),
                    sep,
                ));
            }
        } else {
            let ghost before = fields@.map_values(|f: Vec<u8>| f@).push(cur@);
            cur.push(b);
            proof {
                lemma_split_on_len(s@.subrange(0, i as int), sep);
                assert(fields@.map_values(|f: Vec<u8>| f@).push(cur@) =~~= before.update(
                    before.len() - 1,
                    before.last().push(s@[i as int]),
                ));
            }
        }
        i += 1;
    }
    proof {
        assert(s@.subrange(0, n as int) =~= s@);
    }
    fields.push(cur);
    proof {
        assert(fields@.map_values(|f: Vec<u8>| f@) =~~= split_on(s@, sep));
    }
    fields
}

/// One probe line without a trailing carriage return.
pub open spec fn strip_cr(l: Seq<u8>) -> Seq<u8> {
    if l.len() > 0 && l.last() == 13 {
        l.drop_last()
    } else {
        l
    }
}

/// The lines of the probe output: split on newlines, one trailing newline
/// tolerated, every line without its trailing carriage return.
pub open spec fn spec_lines(s: Seq<u8>) -> Seq<Seq<u8>> {
    if s.len() == 0 {
        Seq::<Seq<u8>>::empty()
    } else {
        let t = if s.last() == 10 {
            s.drop_last()
        } else {
            s
        };
        split_on(t, 10).map_values(|l: Seq<u8>| strip_cr(l))
    }
}

/// Splits probe output into lines, each as a fresh vector.
pub fn split_lines(s: &Vec<u8>) -> (r: Vec<Vec<u8>>)
    ensures
        r@.map_values(|l: Vec<u8>| l@) == spec_lines(s@),
{
    let n = s.len();
    if n == 0 {
        let r: Vec<Vec<u8>> = Vec::new();
        proof {
            assert(r@.map_values(|l: Vec<u8>| l@) =~~= spec_lines(s@));
        }
        return r;
    }
    let m = if s[n - 1] == 10 {
        n - 1
    } else {
        n
    };
    let mut t: Vec<u8> = Vec::new();
    let mut i: usize = 0;
    while i < m
        invariant
            m <= n == s@.len(),
            0 <= i <= m,
            t@ == s@.subrange(0, i as int),
        decreases m - i,
    {
        t.push(s[i]);
        assert(t@ =~= s@.subrange(0, i + 1));
        i += 1;
    }
    proof {
        if s@.last() == 10 {
            assert(t@ =~= s@.drop_last());
        } else {
            assert(t@ =~= s@);
        }
    }
    let raw = split_bytes(&t, 10);
    let mut r: Vec<Vec<u8>> = Vec::new();
    let mut j: usize = 0;
    let ghost target = split_on(t@, 10).map_values(|l: Seq<u8>| strip_cr(l));
    while j < raw.len()
        invariant
            raw@.map_values(|l: Vec<u8>| l@) == split_on(t@, 10),
            target == split_on(t@, 10).map_values(|l: Seq<u8>| strip_cr(l)),
            0 <= j <= raw@.len(),
            r@.map_values(|l: Vec<u8>| l@) == target.subrange(0, j as int),
        decreases raw@.len() - j,
    {
        proof {
            assert(raw@.map_values(|l: Vec<u8>| l@).len() == raw@.len());
            assert(target.len() == raw@.len());
        }
        let k = raw[j].len();
        let kk = if k > 0 && raw[j][k - 1] == 13 {
            k - 1
        } else {
            k
        };
        let mut line: Vec<u8> = Vec::new();
        let mut p: usize = 0;
        while p < kk
            invariant
                0 <= p <= kk <= raw@[j as int]@.len(),
                j < raw@.len(),
                line@ == raw@[j as int]@.subrange(0, p as int),
            decreases kk - p,
        {
            line.push(raw[j][p]);
            assert(line@ =~= raw@[j as int]@.subrange(0, p + 1));
            p += 1;
        }
        proof {
            assert(line@ =~= strip_cr(raw@[j as int]@));
            assert(raw@.map_values(|l: Vec<u8>| l@)[j as int] == raw@[j as int]@);
        }
        proof {
            assert(r@.map_values(|l: Vec<u8>| l@).len() == j as int);
            assert(r@.len() == j as int);
        }
        let ghost prev = r@.map_values(|l: Vec<u8>| l@);
        let ghost line_m = line@;
        r.push(line);
        proof {
            let rv = r@.map_values(|l: Vec<u8>| l@);
            assert(rv.len() == j + 1);
            assert(rv[j as int] == line_m);
            assert(target[j as int] == strip_cr(split_on(t@, 10)[j as int]));
            assert(rv[j as int] == target[j as int]);
            assert forall|i: int| 0 <= i < j implies rv[i] == target[i] by {
                assert(rv[i] == r@[i]@);
                assert(rv[i] == prev[i]);
                assert(prev[i] == target.subrange(0, j as int)[i]);
            }
            assert(rv =~~= target.subrange(0, j + 1));
        }
        j += 1;
    }
    proof {
        assert(target.subrange(0, raw@.len() as int) =~= target);
        if s@.last() != 10 {
            assert(t@ == s@);
        }
    }
    r
}

/// A digit-only (possibly empty) byte string.
pub open spec fn all_digits(s: Seq<u8>) -> bool {
    forall|j: int| 0 <= j < s.len() ==> is_digit(#[trigger] s[j])
}

/// The milli-value of a fraction part: up to three digits count, further
/// digits are truncated.
pub open spec fn frac_milli(f: Seq<u8>) -> int {
    (if f.len() > 0 {
        (f[0] - 48) * 100
    } else {
        0
    }) + (if f.len() > 1 {
        (f[1] - 48) * 10
    } else {
        0
    }) + (if f.len() > 2 {
        (f[2] - 48) as int
    } else {
        0
    })
}

/// The numeral without its optional leading minus sign.
pub open spec fn numeral_body(s: Seq<u8>) -> Seq<u8> {
    if s.len() > 0 && s[0] == 45 {
        s.drop_first()
    } else {
        s
    }
}

/// A well-formed decimal numeral: optional minus sign, then digits with at
/// most one decimal point among them and at least one digit.
pub open spec fn numeral_ok(s: Seq<u8>) -> bool {
    let parts = split_on(numeral_body(s), 46);
    &&& parts.len() <= 2
    &&& forall|i: int| 0 <= i < parts.len() ==> all_digits(#[trigger] parts[i])
    &&& parts[0].len() + (if parts.len() == 2 {
        parts[1].len()
    } else {
        0
    }) > 0
}

/// The magnitude of a numeral in thousandths of a unit.
pub open spec fn numeral_magnitude_milli(s: Seq<u8>) -> int {
    let parts = split_on(numeral_body(s), 46);
    dec_value(parts[0]) * 1000 + (if parts.len() == 2 {
        frac_milli(parts[1])
    } else {
        0
    })
}

/// The signed value of a numeral in thousandths of a unit.
pub open spec fn numeral_milli(s: Seq<u8>) -> int {
    if s.len() > 0 && s[0] == 45 {
        -numeral_magnitude_milli(s)
    } else {
        numeral_magnitude_milli(s)
    }
}

/// What a numeric probe field is worth: its value in thousandths, or zero
/// when the field is malformed or out of range.
pub open spec fn field_milli(s: Seq<u8>) -> int {
    if numeral_ok(s) && numeral_magnitude_milli(s) <= i64::MAX {
        numeral_milli(s)
    } else {
        0
    }
}

/// Reports whether every byte is a decimal digit.
pub fn is_all_digits(s: &Vec<u8>) -> (r: bool)
    ensures
        r == all_digits(s@),
{
    let n = s.len();
    let mut i: usize = 0;
    while i < n
        invariant
            n == s@.len(),
            0 <= i <= n,
            forall|j: int| 0 <= j < i ==> is_digit(#[trigger] s@[j]),
        decreases n - i,
    {
        if s[i] < 48 || s[i] > 57 {
            assert(!is_digit(s@[i as int]));
            return false;
        }
        i += 1;
    }
    true
}

/// The decimal value of a digit string, or `None` when it exceeds `u64`.
fn digits_value_checked(s: &Vec<u8>) -> (r: Option<u64>)
    requires
        all_digits(s@),
    ensures
        r == (if dec_value(s@) <= u64::MAX {
            Some(dec_value(s@) as u64)
        } else {
            None::<u64>
        }),
{
    let n = s.len();
    let mut acc: u64 = 0;
    let mut i: usize = 0;
    while i < n
        invariant
            all_digits(s@),
            n == s@.len(),
            0 <= i <= n,
            acc == dec_value(s@.subrange(0, i as int)),
        decreases n - i,
    {
        let b = s[i];
        assert(is_digit(s@[i as int]));
        let d = (b - 48) as u64;
        if acc > (u64::MAX - d) / 10 {
            proof {
                assert(s@.subrange(0, i + 1).drop_last() =~= s@.subrange(0, i as int));
                assert(dec_value(s@.subrange(0, i + 1)) == acc * 10 + d);
                assert(acc * 10 + d > u64::MAX) by {
                    assert(acc >= (u64::MAX - d) / 10 + 1);
                    assert(((u64::MAX - d) / 10 + 1) * 10 + d > u64::MAX) by (nonlinear_arith);
                    assert(acc * 10 >= ((u64::MAX - d) / 10 + 1) * 10) by (nonlinear_arith)
                        requires
                            acc >= (u64::MAX - d) / 10 + 1,
                    ;
                }
                lemma_dec_value_prefix(s@, i + 1);
            }
            return None;
        }
        proof {
            assert(acc * 10 + d <= u64::MAX) by {
                assert(acc <= (u64::MAX - d) / 10);
                assert(((u64::MAX - d) / 10) * 10 <= u64::MAX - d) by (nonlinear_arith);
                assert(acc * 10 <= ((u64::MAX - d) / 10) * 10) by (nonlinear_arith)
                    requires
                        acc <= (u64::MAX - d) / 10,
                ;
            }
            assert(s@.subrange(0, i + 1).drop_last() =~= s@.subrange(0, i as int));
        }
        acc = acc * 10 + d;
        i += 1;
    }
    proof {
        assert(s@.subrange(0, n as int) =~= s@);
    }
    Some(acc)
}

/// Reads one numeric probe field in thousandths of a unit; a field that is
/// not a plain decimal numeral, or does not fit, is worth zero.
pub fn parse_milli(s: &Vec<u8>) -> (r: i64)
    ensures
        r as int == field_milli(s@),
{
    let n = s.len();
    let neg = n > 0 && s[0] == 45;
    let start: usize = if neg {
        1
    } else {
        0
    };
    let mut body: Vec<u8> = Vec::new();
    let mut i: usize = start;
    while i < n
        invariant
            start <= i <= n,
            n == s@.len(),
            body@ == s@.subrange(start as int, i as int),
        decreases n - i,
    {
        body.push(s[i]);
        assert(body@ =~= s@.subrange(start as int, i + 1));
        i += 1;
    }
    proof {
        assert(body@ =~= numeral_body(s@));
    }
    let parts = split_bytes(&body, 46);
    let ghost sparts = split_on(numeral_body(s@), 46);
    proof {
        lemma_split_on_len(body@, 46);
        assert(parts@.map_values(|f: Vec<u8>| f@).len() == sparts.len());
    }
    if parts.len() > 2 {
        return 0;
    }
    proof {
        assert(parts@.map_values(|f: Vec<u8>| f@)[0] == parts@[0]@);
        assert(parts@[0]@ == sparts[0]);
        if sparts.len() == 2 {
            assert(parts@.map_values(|f: Vec<u8>| f@)[1] == parts@[1]@);
            assert(parts@[1]@ == sparts[1]);
        }
    }
    if !is_all_digits(&parts[0]) {
        return 0;
    }
    if parts.len() == 2 && !is_all_digits(&parts[1]) {
        return 0;
    }
    let frac_digits: usize = if parts.len() == 2 {
        parts[1].len()
    } else {
        0
    };
    if parts[0].len() == 0 && frac_digits == 0 {
        return 0;
    }
    assert(numeral_ok(s@));
    let iv = match digits_value_checked(&parts[0]) {
        Some(v) => v,
        None => {
            proof {
                lemma_dec_value_nonneg(sparts[0]);
                assert(dec_value(sparts[0]) * 1000 >= dec_value(sparts[0])) by (nonlinear_arith)
                    requires
                        dec_value(sparts[0]) >= 0,
                ;
                if sparts.len() == 2 {
                    assert(frac_milli(sparts[1]) >= 0);
                }
            }
            return 0;
        },
    };
    let mut fm: u64 = 0;
    if parts.len() == 2 {
        let f = &parts[1];
        if f.len() > 0 {
            assert(is_digit(f@[0]));
            fm = fm + 100 * ((f[0] - 48) as u64);
        }
        if f.len() > 1 {
            assert(is_digit(f@[1]));
            fm = fm + 10 * ((f[1] - 48) as u64);
        }
        if f.len() > 2 {
            assert(is_digit(f@[2]));
            fm = fm + ((f[2] - 48) as u64);
        }
        proof {
            assert(fm == frac_milli(sparts[1]));
        }
    }
    assert(fm <= 999);
    proof {
        if sparts.len() == 2 {
            assert(fm == frac_milli(sparts[1]));
        } else {
            assert(fm == 0);
        }
        assert(numeral_magnitude_milli(s@) == dec_value(sparts[0]) * 1000 + fm);
        lemma_dec_value_nonneg(sparts[0]);
        assert(iv == dec_value(sparts[0]));
    }
    let limit: u64 = i64::MAX as u64;
    if iv > (limit - fm) / 1000 {
        proof {
            assert(iv * 1000 + fm > limit) by {
                assert(iv >= (limit - fm) / 1000 + 1);
                assert(((limit - fm) / 1000 + 1) * 1000 + fm > limit) by (nonlinear_arith);
                assert(iv * 1000 >= ((limit - fm) / 1000 + 1) * 1000) by (nonlinear_arith)
                    requires
                        iv >= (limit - fm) / 1000 + 1,
                ;
            }
        }
        return 0;
    }
    proof {
        assert(iv * 1000 + fm <= limit) by {
            assert(iv <= (limit - fm) / 1000);
            assert(((limit - fm) / 1000) * 1000 <= limit - fm) by (nonlinear_arith);
            assert(iv * 1000 <= ((limit - fm) / 1000) * 1000) by (nonlinear_arith)
                requires
                    iv <= (limit - fm) / 1000,
            ;
        }
    }
    let mag = iv * 1000 + fm;
    proof {
        assert(mag as int == numeral_magnitude_milli(s@));
    }
    if neg {
        -(mag as i64)
    } else {
        mag as i64
    }
}

/// One parsed probe line: the reported device index, the raw name bytes,
/// and the five measurements in thousandths of their unit.
pub struct Reading {
    pub device_index: usize,
    pub name: Vec<u8>,
    pub utilization: i64,
    pub memory_used: i64,
    pub memory_total: i64,
    pub temperature: i64,
    pub power_draw: i64,
}

/// The trimmed comma-separated fields of one probe line.
pub open spec fn line_fields(line: Seq<u8>) -> Seq<Seq<u8>> {
    split_on(line, 44).map_values(|f: Seq<u8>| spec_trim(f))
}

/// The device index a line reports: its first field when that is a digit
/// string that fits, else the fallback position of the line.
pub open spec fn spec_device_index(f0: Seq<u8>, fallback: int) -> int {
    if is_digits(f0) && dec_value(f0) <= usize::MAX {
        dec_value(f0)
    } else {
        fallback
    }
}

/// Parses one probe line. A line with fewer than seven fields is dropped
/// whole; a numeric field that does not parse is worth zero; an index
/// field that does not parse falls back to the line position.
pub fn parse_line(line: &Vec<u8>, fallback: usize) -> (r: Option<Reading>)
    ensures
        r is Some <==> line_fields(line@).len() >= 7,
        r is Some ==> r.unwrap().device_index as int == spec_device_index(
            line_fields(line@)[0],
            fallback as int,
        ),
        r is Some ==> r.unwrap().name@ == line_fields(line@)[1],
        r is Some ==> r.unwrap().utilization as int == field_milli(line_fields(line@)[2]),
        r is Some ==> r.unwrap().memory_used as int == field_milli(line_fields(line@)[3]),
        r is Some ==> r.unwrap().memory_total as int == field_milli(line_fields(line@)[4]),
        r is Some ==> r.unwrap().temperature as int == field_milli(line_fields(line@)[5]),
        r is Some ==> r.unwrap().power_draw as int == field_milli(line_fields(line@)[6]),
{
    let fields = split_bytes(line, 44);
    proof {
        assert(line_fields(line@).len() == split_on(line@, 44).len());
        assert(fields@.map_values(|f: Vec<u8>| f@).len() == split_on(line@, 44).len());
    }
    if fields.len() < 7 {
        return None;
    }
    proof {
        assert forall|i: int| 0 <= i < 7 implies line_fields(line@)[i] == spec_trim(
            (#[trigger] fields@[i])@,
        ) by {
            assert(fields@.map_values(|f: Vec<u8>| f@)[i] == fields@[i]@);
            assert(line_fields(line@)[i] == spec_trim(split_on(line@, 44)[i]));
        }
    }
    let f0 = trim(&fields[0]);
    proof {
        assert(f0@ == line_fields(line@)[0]);
        if is_digits(f0@) {
            lemma_dec_value_nonneg(f0@);
        }
    }
    let device_index = match parse_usize(&f0) {
        Some(d) => d,
        None => fallback,
    };
    let name = trim(&fields[1]);
    proof {
        assert(name@ == line_fields(line@)[1]);
    }
    let t2 = trim(&fields[2]);
    proof {
        assert(t2@ == line_fields(line@)[2]);
    }
    let utilization = parse_milli(&t2);
    let t3 = trim(&fields[3]);
    proof {
        assert(t3@ == line_fields(line@)[3]);
    }
    let memory_used = parse_milli(&t3);
    let t4 = trim(&fields[4]);
    proof {
        assert(t4@ == line_fields(line@)[4]);
    }
    let memory_total = parse_milli(&t4);
    let t5 = trim(&fields[5]);
    proof {
        assert(t5@ == line_fields(line@)[5]);
    }
    let temperature = parse_milli(&t5);
    let t6 = trim(&fields[6]);
    proof {
        assert(t6@ == line_fields(line@)[6]);
    }
    let power_draw = parse_milli(&t6);
    Some(
        Reading {
            device_index,
            name,
            utilization,
            memory_used,
            memory_total,
            temperature,
            power_draw,
        },
    )
}

} // verus!
