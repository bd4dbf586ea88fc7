//! Facts about the host the linker runs on, read from what the operating system reports.

use vstd::prelude::*;
use vstd::string::StringSliceAdditionalSpecFns;

verus! {

pub open spec fn is_digit(b: u8) -> bool {
    48 <= b <= 57
}

/// The value of a string of decimal digits.
pub open spec fn decimal(d: Seq<u8>) -> nat
    decreases d.len(),
{
    if d.len() == 0 {
        0
    } else {
        decimal(d.drop_last()) * 10 + (d.last() - 48) as nat
    }
}

/// A field without its optional leading `+`.
pub open spec fn unsigned_digits(field: Seq<u8>) -> Seq<u8> {
    if field.len() > 0 && field[0] == 43 {
        field.skip(1)
    } else {
        field
    }
}

pub open spec fn all_digits(d: Seq<u8>) -> bool {
    forall|k: int| 0 <= k < d.len() ==> is_digit(#[trigger] d[k])
}

/// `u64::from_str`: an optional `+`, then one or more decimal digits whose value fits.
pub open spec fn parse_u64(field: Seq<u8>) -> Option<u64> {
    let digits = unsigned_digits(field);
    if digits.len() == 0 || !all_digits(digits) || decimal(digits) > u64::MAX {
        None
    } else {
        Some(decimal(digits) as u64)
    }
}

/// The end of the `.`-separated field starting at `j`.
pub open spec fn field_end(s: Seq<u8>, j: int) -> int
    decreases s.len() - j,
{
    if j >= s.len() || s[j] == 46 {
        j
    } else {
        field_end(s, j + 1)
    }
}

/// The major and minor version at the start of a kernel release string such as
/// `6.8.0-45-generic`: its first two `.`-separated fields, each a number.
pub open spec fn kernel_version_spec(release: Seq<u8>) -> Option<(u64, u64)> {
    let e1 = field_end(release, 0);
    match parse_u64(release.subrange(0, e1)) {
        None => None,
        Some(major) => if e1 >= release.len() {
            None
        } else {
            let e2 = field_end(release, e1 + 1);
            match parse_u64(release.subrange(e1 + 1, e2)) {
                None => None,
                Some(minor) => Some((major, minor)),
            }
        },
    }
}

proof fn lemma_field_end_bounds(s: Seq<u8>, j: int)
    requires
        0 <= j <= s.len(),
    ensures
        j <= field_end(s, j) <= s.len(),
        forall|k: int| j <= k < field_end(s, j) ==> #[trigger] s[k] != 46,
        field_end(s, j) < s.len() ==> s[field_end(s, j)] == 46,
    decreases s.len() - j,
{
    if j < s.len() && s[j] != 46 {
        lemma_field_end_bounds(s, j + 1);
    }
}

/// A longer string of digits is worth at least as much as its prefix.
proof fn lemma_decimal_prefix(d: Seq<u8>, k: int)
    requires
        0 <= k <= d.len(),
    ensures
        decimal(d.take(k)) <= decimal(d),
    decreases d.len() - k,
{
    if k < d.len() {
        lemma_decimal_prefix(d, k + 1);
        assert(d.take(k + 1).drop_last() =~= d.take(k));
    } else {
        assert(d.take(k) =~= d);
    }
}

/// `str::parse::<u64>` of `bytes[start..end]`.
fn parse_field(bytes: &[u8], start: usize, end: usize) -> (r: Option<u64>)
    requires
        start <= end <= bytes.len(),
    ensures
        r == parse_u64(bytes@.subrange(start as int, end as int)),
{
    let ghost field = bytes@.subrange(start as int, end as int);
    let mut i = start;
    if i < end && bytes[i] == 43 {
        i = i + 1;
    }
    let ghost ds = i;
    let ghost digits = bytes@.subrange(ds as int, end as int);
    assert(digits == unsigned_digits(field));
    if i >= end {
        return None;
    }
    let mut v: u64 = 0;
    while i < end
        invariant
            ds <= i <= end <= bytes.len(),
            start <= ds,
            ds < end,
            field == bytes@.subrange(start as int, end as int),
            digits == bytes@.subrange(ds as int, end as int),
            digits == unsigned_digits(field),
            forall|k: int| 0 <= k < i - ds ==> is_digit(#[trigger] digits[k]),
            v == decimal(digits.take(i - ds)),
        decreases end - i,
    {
        let b = bytes[i];
        if b < 48 || b > 57 {
            assert(!is_digit(digits[i - ds]));
            return None;
        }
        let d: u64 = (b - 48) as u64;
        assert(digits.take(i - ds + 1).drop_last() =~= digits.take(i - ds));
        if v > (0xffff_ffff_ffff_ffffu64 - d) / 10 {
            proof {
                assert(v * 10 + d > 0xffff_ffff_ffff_ffffu64) by (nonlinear_arith)
                    requires
                        v > (0xffff_ffff_ffff_ffffu64 - d) / 10,
                        d <= 9,
                ;
                lemma_decimal_prefix(digits, i - ds + 1);
            }
            return None;
        }
        assert(v * 10 + d <= 0xffff_ffff_ffff_ffffu64) by (nonlinear_arith)
            requires
                v <= (0xffff_ffff_ffff_ffffu64 - d) / 10,
                d <= 9,
        ;
        v = v * 10 + d;
        i = i + 1;
    }
    assert(digits.take(i - ds) =~= digits);
    Some(v)
}

/// `kernel_version`'s reading of a kernel release string (see `kernel_version_spec`).
pub fn kernel_version_from_release(release: &str) -> (r: Option<(u64, u64)>)
    ensures
        r == kernel_version_spec(release.spec_bytes()),
{
    let bytes = release.as_bytes();
    let mut e1: usize = 0;
    while e1 < bytes.len() && bytes[e1] != 46
        invariant
            e1 <= bytes.len(),
            field_end(bytes@, e1 as int) == field_end(bytes@, 0),
        decreases bytes.len() - e1,
    {
        e1 = e1 + 1;
    }
    let major = match parse_field(bytes, 0, e1) {
        Some(v) => v,
        None => return None,
    };
    if e1 >= bytes.len() {
        return None;
    }
    let mut e2: usize = e1 + 1;
    while e2 < bytes.len() && bytes[e2] != 46
        invariant
            e1 < e2 <= bytes.len(),
            field_end(bytes@, e2 as int) == field_end(bytes@, e1 + 1),
        decreases bytes.len() - e2,
    {
        e2 = e2 + 1;
    }
    match parse_field(bytes, e1 + 1, e2) {
        Some(minor) => Some((major, minor)),
        None => None,
    }
}

} // verus!
