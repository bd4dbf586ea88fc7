//! Blanking out comments, string literals and char literals of Rust source, and compacting the
//! remaining code so that spacing does not matter to the patterns the scanner looks for.
//!
//! The blanked text has one char per source byte: code bytes are kept, and every byte of a
//! comment or literal becomes a space (a newline stays a newline, except an escaped one inside a
//! string literal).

use vstd::prelude::*;
use crate::text::{is_ident_code, is_identifier_char, is_space_code, is_whitespace_char};

verus! {

pub open spec fn blank(b: u8) -> u8 {
    if b == 10 {
        10
    } else {
        32
    }
}

/// `s[a..b]` with every byte blanked.
pub open spec fn blanked(s: Seq<u8>, a: int, b: int) -> Seq<u8> {
    s.subrange(a, b).map_values(|x: u8| blank(x))
}

/// The number of `#` bytes starting at `j`.
pub open spec fn hash_run(s: Seq<u8>, j: int) -> nat
    decreases s.len() - j,
{
    if 0 <= j < s.len() && s[j] == 35 {
        1 + hash_run(s, j + 1)
    } else {
        0
    }
}

/// A raw string opener (`r"`, `r#"`, `br##"` …) at `i`: the opener's length and the number of
/// its `#`s.
pub open spec fn raw_prefix(s: Seq<u8>, i: int) -> Option<(int, int)> {
    let b: int = if 0 <= i && i + 1 < s.len() && s[i] == 98 && s[i + 1] == 114 {
        1
    } else {
        0
    };
    if !(0 <= i && i + b < s.len() && s[i + b] == 114) {
        None
    } else {
        let h = hash_run(s, i + b + 1);
        let q = i + b + 1 + h;
        if q < s.len() && s[q] == 34 {
            Some((q + 1 - i, h as int))
        } else {
            None
        }
    }
}

/// Where a raw string body starting at `j` with `h` hashes ends: just past a `"` followed by
/// `h` hashes, or at the end of the text.
pub open spec fn raw_end(s: Seq<u8>, j: int, h: int) -> int
    decreases s.len() - j,
{
    if j >= s.len() {
        s.len() as int
    } else if s[j] == 34 && s.len() - (j + 1) >= h && (forall|k: int|
        j + 1 <= k < j + 1 + h ==> #[trigger] s[k] == 35) {
        j + 1 + h
    } else {
        raw_end(s, j + 1, h)
    }
}

/// The newline that ends a line comment, or the end of the text.
pub open spec fn line_end(s: Seq<u8>, j: int) -> int
    decreases s.len() - j,
{
    if j >= s.len() || s[j] == 10 {
        j
    } else {
        line_end(s, j + 1)
    }
}

/// The end of a block comment whose body continues at `j` with nesting `depth`.
pub open spec fn block_end(s: Seq<u8>, j: int, depth: nat) -> int
    decreases s.len() - j,
{
    if j >= s.len() || depth == 0 {
        j
    } else if j + 1 < s.len() && s[j] == 47 && s[j + 1] == 42 {
        block_end(s, j + 2, depth + 1)
    } else if j + 1 < s.len() && s[j] == 42 && s[j + 1] == 47 {
        block_end(s, j + 2, (depth - 1) as nat)
    } else {
        block_end(s, j + 1, depth)
    }
}

/// The first `'` at or after `j`.
pub open spec fn first_quote(s: Seq<u8>, j: int) -> Option<int>
    decreases s.len() - j,
{
    if j >= s.len() {
        None
    } else if s[j] == 39 {
        Some(j)
    } else {
        first_quote(s, j + 1)
    }
}

/// The length of an ASCII or escaped char literal at `i`. Lifetimes and multi-byte char
/// literals have none; neither can hold a quote that would confuse the masking.
pub open spec fn char_lit_len(s: Seq<u8>, i: int) -> Option<int> {
    if !(0 <= i < s.len() && s[i] == 39) {
        None
    } else if i + 1 < s.len() && s[i + 1] == 92 {
        match first_quote(s, i + 3) {
            Some(p) => Some(p + 1 - i),
            None => None,
        }
    } else if i + 2 < s.len() && s[i + 2] == 39 && s[i + 1] != 39 {
        Some(3)
    } else {
        None
    }
}

/// Where a string literal whose body starts at `j` ends: just past its closing quote, or at
/// the end of the text. A backslash skips the byte after it.
pub open spec fn string_end(s: Seq<u8>, j: int) -> int
    decreases s.len() - j,
{
    if j >= s.len() {
        s.len() as int
    } else if s[j] == 92 && j + 1 < s.len() {
        string_end(s, j + 2)
    } else if s[j] == 34 {
        j + 1
    } else {
        string_end(s, j + 1)
    }
}

/// The blanked body of a string literal starting at `j`, closing quote included. An escaped
/// byte is always a space, even an escaped newline.
pub open spec fn string_body(s: Seq<u8>, j: int) -> Seq<u8>
    decreases s.len() - j,
{
    if j >= s.len() {
        seq![]
    } else if s[j] == 92 && j + 1 < s.len() {
        seq![32u8, 32u8] + string_body(s, j + 2)
    } else if s[j] == 34 {
        seq![32u8]
    } else {
        seq![blank(s[j])] + string_body(s, j + 1)
    }
}

/// The bytes `a` then `b` at `i`.
pub open spec fn two_at(s: Seq<u8>, i: int, a: u8, b: u8) -> bool {
    0 <= i && i + 1 < s.len() && s[i] == a && s[i + 1] == b
}

/// The blanked text from `i` on, where `i` is not inside a comment or literal.
pub open spec fn mask_from(s: Seq<u8>, i: int) -> Seq<u8>
    decreases s.len() - i,
{
    if i < 0 || i >= s.len() {
        seq![]
    } else if raw_prefix(s, i) is Some {
        let p = raw_prefix(s, i).unwrap().0;
        let h = raw_prefix(s, i).unwrap().1;
        proof {
            lemma_raw_prefix_bounds(s, i);
            lemma_raw_end_bounds(s, i + p, h);
        }
        let e = raw_end(s, i + p, h);
        blanked(s, i, e) + mask_from(s, e)
    } else if two_at(s, i, 47, 47) {
        proof {
            lemma_line_end_bounds(s, i + 2);
        }
        let e = line_end(s, i + 2);
        blanked(s, i, e) + mask_from(s, e)
    } else if two_at(s, i, 47, 42) {
        proof {
            lemma_block_end_bounds(s, i + 2, 1);
        }
        let e = block_end(s, i + 2, 1);
        blanked(s, i, e) + mask_from(s, e)
    } else if char_lit_len(s, i) is Some {
        let l = char_lit_len(s, i).unwrap();
        proof {
            lemma_char_lit_bounds(s, i);
        }
        blanked(s, i, i + l) + mask_from(s, i + l)
    } else if s[i] == 34 {
        proof {
            lemma_string_bounds(s, i + 1);
        }
        let e = string_end(s, i + 1);
        seq![32u8] + string_body(s, i + 1) + mask_from(s, e)
    } else {
        seq![s[i]] + mask_from(s, i + 1)
    }
}

/// The source with comments, string literals and char literals blanked out.
pub open spec fn masked(s: Seq<u8>) -> Seq<u8> {
    mask_from(s, 0)
}

pub proof fn lemma_hash_run_bounds(s: Seq<u8>, j: int)
    requires
        0 <= j,
    ensures
        j + hash_run(s, j) <= s.len() || hash_run(s, j) == 0,
        forall|k: int| j <= k < j + hash_run(s, j) ==> #[trigger] s[k] == 35,
    decreases s.len() - j,
{
    if 0 <= j < s.len() && s[j] == 35 {
        lemma_hash_run_bounds(s, j + 1);
    }
}

pub proof fn lemma_raw_prefix_bounds(s: Seq<u8>, i: int)
    ensures
        raw_prefix(s, i) matches Some((p, h)) ==> 2 <= p && i + p <= s.len() && 0 <= h,
{
    if 0 <= i {
        let b: int = if 0 <= i && i + 1 < s.len() && s[i] == 98 && s[i + 1] == 114 {
            1
        } else {
            0
        };
        lemma_hash_run_bounds(s, i + b + 1);
    }
}

pub proof fn lemma_raw_end_bounds(s: Seq<u8>, j: int, h: int)
    requires
        0 <= j <= s.len(),
        0 <= h,
    ensures
        j <= raw_end(s, j, h) <= s.len(),
    decreases s.len() - j,
{
    if j < s.len() {
        lemma_raw_end_bounds(s, j + 1, h);
    }
}

pub proof fn lemma_line_end_bounds(s: Seq<u8>, j: int)
    requires
        0 <= j,
    ensures
        j <= line_end(s, j),
        j <= s.len() ==> line_end(s, j) <= s.len(),
    decreases s.len() - j,
{
    if j < s.len() && s[j] != 10 {
        lemma_line_end_bounds(s, j + 1);
    }
}

pub proof fn lemma_block_end_bounds(s: Seq<u8>, j: int, depth: nat)
    requires
        0 <= j,
    ensures
        j <= block_end(s, j, depth),
        j <= s.len() ==> block_end(s, j, depth) <= s.len(),
    decreases s.len() - j,
{
    if j >= s.len() || depth == 0 {
    } else if j + 1 < s.len() && s[j] == 47 && s[j + 1] == 42 {
        lemma_block_end_bounds(s, j + 2, depth + 1);
    } else if j + 1 < s.len() && s[j] == 42 && s[j + 1] == 47 {
        lemma_block_end_bounds(s, j + 2, (depth - 1) as nat);
    } else {
        lemma_block_end_bounds(s, j + 1, depth);
    }
}

pub proof fn lemma_first_quote_bounds(s: Seq<u8>, j: int)
    requires
        0 <= j,
    ensures
        first_quote(s, j) matches Some(p) ==> j <= p < s.len() && s[p] == 39,
    decreases s.len() - j,
{
    if j < s.len() && s[j] != 39 {
        lemma_first_quote_bounds(s, j + 1);
    }
}

pub proof fn lemma_char_lit_bounds(s: Seq<u8>, i: int)
    ensures
        char_lit_len(s, i) matches Some(l) ==> 3 <= l && i + l <= s.len(),
{
    if 0 <= i {
        lemma_first_quote_bounds(s, i + 3);
    }
}

pub proof fn lemma_string_bounds(s: Seq<u8>, j: int)
    requires
        0 <= j <= s.len(),
    ensures
        j <= string_end(s, j) <= s.len(),
        string_body(s, j).len() == string_end(s, j) - j,
    decreases s.len() - j,
{
    if j >= s.len() {
    } else if s[j] == 92 && j + 1 < s.len() {
        lemma_string_bounds(s, j + 2);
    } else if s[j] == 34 {
    } else {
        lemma_string_bounds(s, j + 1);
    }
}

/// Each byte of a string literal's blanked body is a space, or the newline it was.
pub proof fn lemma_string_body_blank(s: Seq<u8>, j: int)
    requires
        0 <= j <= s.len(),
    ensures
        forall|k: int|
            0 <= k < string_body(s, j).len() ==> #[trigger] string_body(s, j)[k] == 32u8
                || string_body(s, j)[k] == s[j + k],
    decreases s.len() - j,
{
    lemma_string_bounds(s, j);
    if j >= s.len() {
    } else if s[j] == 92 && j + 1 < s.len() {
        lemma_string_body_blank(s, j + 2);
        lemma_string_bounds(s, j + 2);
        let rest = string_body(s, j + 2);
        assert forall|k: int| 0 <= k < string_body(s, j).len() implies #[trigger] string_body(
            s,
            j,
        )[k] == 32u8 || string_body(s, j)[k] == s[j + k] by {
            if k >= 2 {
                assert(string_body(s, j)[k] == rest[k - 2]);
            }
        }
    } else if s[j] == 34 {
    } else {
        lemma_string_body_blank(s, j + 1);
        lemma_string_bounds(s, j + 1);
        let rest = string_body(s, j + 1);
        assert forall|k: int| 0 <= k < string_body(s, j).len() implies #[trigger] string_body(
            s,
            j,
        )[k] == 32u8 || string_body(s, j)[k] == s[j + k] by {
            if k >= 1 {
                assert(string_body(s, j)[k] == rest[k - 1]);
            }
        }
    }
}

/// Masking keeps one char per byte, and each char is either the byte itself or a space:
/// nothing is moved, and nothing but blanks is invented.
pub proof fn law_masking_only_blanks(s: Seq<u8>, i: int)
    requires
        0 <= i <= s.len(),
    ensures
        mask_from(s, i).len() == s.len() - i,
        forall|k: int|
            0 <= k < mask_from(s, i).len() ==> #[trigger] mask_from(s, i)[k] == s[i + k]
                || mask_from(s, i)[k] == 32u8,
    decreases s.len() - i,
{
    if i >= s.len() {
        return;
    }
    let m = mask_from(s, i);
    if raw_prefix(s, i) is Some {
        let p = raw_prefix(s, i).unwrap().0;
        let h = raw_prefix(s, i).unwrap().1;
        lemma_raw_prefix_bounds(s, i);
        lemma_raw_end_bounds(s, i + p, h);
        let e = raw_end(s, i + p, h);
        law_masking_only_blanks(s, e);
        lemma_blanked_then(s, i, e);
    } else if two_at(s, i, 47, 47) {
        lemma_line_end_bounds(s, i + 2);
        let e = line_end(s, i + 2);
        law_masking_only_blanks(s, e);
        lemma_blanked_then(s, i, e);
    } else if two_at(s, i, 47, 42) {
        lemma_block_end_bounds(s, i + 2, 1);
        let e = block_end(s, i + 2, 1);
        law_masking_only_blanks(s, e);
        lemma_blanked_then(s, i, e);
    } else if char_lit_len(s, i) is Some {
        let l = char_lit_len(s, i).unwrap();
        lemma_char_lit_bounds(s, i);
        law_masking_only_blanks(s, i + l);
        lemma_blanked_then(s, i, i + l);
    } else if s[i] == 34 {
        lemma_string_bounds(s, i + 1);
        lemma_string_body_blank(s, i + 1);
        let e = string_end(s, i + 1);
        law_masking_only_blanks(s, e);
        let body = string_body(s, i + 1);
        let rest = mask_from(s, e);
        assert(m == seq![32u8] + body + rest);
        assert forall|k: int| 0 <= k < m.len() implies #[trigger] m[k] == s[i + k] || m[k]
            == 32u8 by {
            if k == 0 {
            } else if k < 1 + body.len() {
                assert(m[k] == body[k - 1]);
            } else {
                assert(m[k] == rest[k - 1 - body.len()]);
            }
        }
    } else {
        law_masking_only_blanks(s, i + 1);
        let rest = mask_from(s, i + 1);
        assert forall|k: int| 0 <= k < m.len() implies #[trigger] m[k] == s[i + k] || m[k]
            == 32u8 by {
            if k > 0 {
                assert(m[k] == rest[k - 1]);
            }
        }
    }
}

/// A blanked run followed by text that keeps or blanks each byte does the same.
proof fn lemma_blanked_then(s: Seq<u8>, i: int, e: int)
    requires
        0 <= i < e <= s.len(),
        mask_from(s, e).len() == s.len() - e,
        forall|k: int|
            0 <= k < mask_from(s, e).len() ==> #[trigger] mask_from(s, e)[k] == s[e + k]
                || mask_from(s, e)[k] == 32u8,
        mask_from(s, i) == blanked(s, i, e) + mask_from(s, e),
    ensures
        mask_from(s, i).len() == s.len() - i,
        forall|k: int|
            0 <= k < mask_from(s, i).len() ==> #[trigger] mask_from(s, i)[k] == s[i + k]
                || mask_from(s, i)[k] == 32u8,
{
    let m = mask_from(s, i);
    let rest = mask_from(s, e);
    let b = blanked(s, i, e);
    assert forall|k: int| 0 <= k < m.len() implies #[trigger] m[k] == s[i + k] || m[k]
        == 32u8 by {
        if k < e - i {
            assert(m[k] == b[k]);
            assert(b[k] == blank(s[i + k]));
        } else {
            assert(m[k] == rest[k - (e - i)]);
        }
    }
}

/// `raw_string_prefix`: the raw string opener at `i`, as `(length, hashes)`.
pub fn raw_string_prefix(bytes: &[u8], i: usize) -> (r: Option<(usize, usize)>)
    requires
        i <= bytes.len(),
    ensures
        match raw_prefix(bytes@, i as int) {
            Some((p, h)) => r == Some((p as usize, h as usize)),
            None => r is None,
        },
{
    let s = Ghost(bytes@);
    let mut index: usize = i;
    if i < bytes.len() && bytes.len() - i > 1 && bytes[i] == 98 && bytes[i + 1] == 114 {
        index = i + 1;
    }
    if !(index < bytes.len() && bytes[index] == 114) {
        return None;
    }
    index = index + 1;
    let hashes_start = index;
    while index < bytes.len() && bytes[index] == 35
        invariant
            hashes_start <= index <= bytes.len(),
            hash_run(s@, hashes_start as int) == (index - hashes_start) + hash_run(
                s@,
                index as int,
            ),
            s@ == bytes@,
        decreases bytes.len() - index,
    {
        index = index + 1;
    }
    if index < bytes.len() && bytes[index] == 34 {
        Some((index + 1 - i, index - hashes_start))
    } else {
        None
    }
}

/// Where a raw string body starting at `j` ends (see `raw_end`).
fn raw_string_end(bytes: &[u8], j: usize, hashes: usize) -> (e: usize)
    requires
        j <= bytes.len(),
    ensures
        e as int == raw_end(bytes@, j as int, hashes as int),
        j <= e <= bytes.len(),
{
    proof {
        lemma_raw_end_bounds(bytes@, j as int, hashes as int);
    }
    let mut index = j;
    while index < bytes.len()
        invariant
            j <= index <= bytes.len(),
            raw_end(bytes@, index as int, hashes as int) == raw_end(
                bytes@,
                j as int,
                hashes as int,
            ),
        decreases bytes.len() - index,
    {
        if bytes[index] == 34 && bytes.len() - (index + 1) >= hashes {
            let mut k: usize = 0;
            let mut all = true;
            while k < hashes
                invariant
                    index + 1 + hashes <= bytes.len(),
                    k <= hashes,
                    all == (forall|m: int|
                        index + 1 <= m < index + 1 + k ==> #[trigger] bytes@[m] == 35),
                decreases hashes - k,
            {
                if bytes[index + 1 + k] != 35 {
                    all = false;
                }
                k = k + 1;
            }
            if all {
                return index + 1 + hashes;
            }
        }
        index = index + 1;
    }
    index
}

/// The newline ending a line comment, or the end of the text.
fn line_comment_end(bytes: &[u8], j: usize) -> (e: usize)
    requires
        j <= bytes.len(),
    ensures
        e as int == line_end(bytes@, j as int),
        j <= e <= bytes.len(),
{
    let mut index = j;
    while index < bytes.len() && bytes[index] != 10
        invariant
            j <= index <= bytes.len(),
            line_end(bytes@, index as int) == line_end(bytes@, j as int),
        decreases bytes.len() - index,
    {
        index = index + 1;
    }
    index
}

/// The end of a block comment whose body continues at `j` (see `block_end`).
fn block_comment_end(bytes: &[u8], j: usize) -> (e: usize)
    requires
        j <= bytes.len(),
    ensures
        e as int == block_end(bytes@, j as int, 1),
        j <= e <= bytes.len(),
{
    let mut depth: usize = 1;
    let mut index = j;
    while index < bytes.len() && depth > 0
        invariant
            j <= index <= bytes.len(),
            depth <= index - j + 1,
            block_end(bytes@, index as int, depth as nat) == block_end(bytes@, j as int, 1),
        decreases bytes.len() - index,
    {
        if index + 1 < bytes.len() && bytes[index] == 47 && bytes[index + 1] == 42 {
            depth = depth + 1;
            index = index + 2;
        } else if index + 1 < bytes.len() && bytes[index] == 42 && bytes[index + 1] == 47 {
            depth = depth - 1;
            index = index + 2;
        } else {
            index = index + 1;
        }
    }
    index
}

/// `char_literal_len`: the length of an ASCII or escaped char literal at `i`.
pub fn char_literal_len(bytes: &[u8], i: usize) -> (r: Option<usize>)
    requires
        i <= bytes.len(),
    ensures
        match char_lit_len(bytes@, i as int) {
            Some(l) => r == Some(l as usize),
            None => r is None,
        },
{
    proof {
        lemma_char_lit_bounds(bytes@, i as int);
    }
    if !(i < bytes.len() && bytes[i] == 39) {
        return None;
    }
    let rest = bytes.len() - i;
    if rest > 1 && bytes[i + 1] == 92 {
        if rest < 3 {
            return None;
        }
        let mut p = i + 3;
        while p < bytes.len() && bytes[p] != 39
            invariant
                i + 3 <= p <= bytes.len(),
                first_quote(bytes@, p as int) == first_quote(bytes@, i + 3),
            decreases bytes.len() - p,
        {
            p = p + 1;
        }
        if p < bytes.len() {
            return Some(p + 1 - i);
        }
        return None;
    }
    if rest > 2 && bytes[i + 2] == 39 && bytes[i + 1] != 39 {
        Some(3)
    } else {
        None
    }
}

/// `mask_range`: appends `source[start..end]` with every byte blanked.
pub fn mask_range(output: &mut Vec<u8>, source: &[u8], start: usize, end: usize)
    requires
        start <= end <= source.len(),
    ensures
        final(output)@ == old(output)@ + blanked(source@, start as int, end as int),
{
    let mut i = start;
    while i < end
        invariant
            start <= i <= end <= source.len(),
            output@ == old(output)@ + blanked(source@, start as int, i as int),
        decreases end - i,
    {
        output.push(if source[i] == 10 {
            10
        } else {
            32
        });
        i = i + 1;
        assert(blanked(source@, start as int, i as int) =~= blanked(
            source@,
            start as int,
            i - 1,
        ).push(blank(source@[i - 1])));
    }
}

/// Appends the blanked body of the string literal starting at `j`; returns where it ends.
fn mask_string_body(output: &mut Vec<u8>, bytes: &[u8], j: usize) -> (e: usize)
    requires
        j <= bytes.len(),
    ensures
        e as int == string_end(bytes@, j as int),
        final(output)@ == old(output)@ + string_body(bytes@, j as int),
        j <= e <= bytes.len(),
{
    proof {
        lemma_string_bounds(bytes@, j as int);
    }
    let mut index = j;
    while index < bytes.len()
        invariant
            j <= index <= bytes.len(),
            string_end(bytes@, index as int) == string_end(bytes@, j as int),
            old(output)@ + string_body(bytes@, j as int) == output@ + string_body(
                bytes@,
                index as int,
            ),
        decreases bytes.len() - index,
    {
        let byte = bytes[index];
        let ghost before = output@;
        if byte == 92 && index + 1 < bytes.len() {
            output.push(32);
            output.push(32);
            assert(before + string_body(bytes@, index as int) =~= output@ + string_body(
                bytes@,
                index + 2,
            ));
            index = index + 2;
        } else if byte == 34 {
            output.push(32);
            assert(before + string_body(bytes@, index as int) =~= output@);
            return index + 1;
        } else {
            output.push(if byte == 10 {
                10
            } else {
                32
            });
            assert(before + string_body(bytes@, index as int) =~= output@ + string_body(
                bytes@,
                index + 1,
            ));
            index = index + 1;
        }
    }
    assert(output@ + string_body(bytes@, index as int) =~= output@);
    index
}

/// `code_without_comments_or_strings` on bytes: comments, string literals and char literals
/// blanked out, one char per byte.
pub fn mask_bytes(bytes: &[u8]) -> (output: Vec<u8>)
    ensures
        output@ == masked(bytes@),
{
    let mut output: Vec<u8> = Vec::new();
    let mut index: usize = 0;
    while index < bytes.len()
        invariant
            index <= bytes.len(),
            output@ + mask_from(bytes@, index as int) == masked(bytes@),
        decreases bytes.len() - index,
    {
        let ghost s = bytes@;
        let ghost before = output@;
        let ghost i = index as int;
        if let Some((prefix_len, hashes)) = raw_string_prefix(bytes, index) {
            proof {
                lemma_raw_prefix_bounds(s, i);
            }
            let start = index;
            let e = raw_string_end(bytes, index + prefix_len, hashes);
            mask_range(&mut output, bytes, start, e);
            assert(before + mask_from(s, i) =~= output@ + mask_from(s, e as int));
            index = e;
        } else if index + 1 < bytes.len() && bytes[index] == 47 && bytes[index + 1] == 47 {
            let e = line_comment_end(bytes, index + 2);
            mask_range(&mut output, bytes, index, e);
            assert(before + mask_from(s, i) =~= output@ + mask_from(s, e as int));
            index = e;
        } else if index + 1 < bytes.len() && bytes[index] == 47 && bytes[index + 1] == 42 {
            let e = block_comment_end(bytes, index + 2);
            mask_range(&mut output, bytes, index, e);
            assert(before + mask_from(s, i) =~= output@ + mask_from(s, e as int));
            index = e;
        } else if let Some(len) = char_literal_len(bytes, index) {
            proof {
                lemma_char_lit_bounds(s, i);
            }
            mask_range(&mut output, bytes, index, index + len);
            assert(before + mask_from(s, i) =~= output@ + mask_from(s, i + len));
            index = index + len;
        } else if bytes[index] == 34 {
            output.push(32);
            let e = mask_string_body(&mut output, bytes, index + 1);
            assert(before + mask_from(s, i) =~= output@ + mask_from(s, e as int));
            index = e;
        } else {
            output.push(bytes[index]);
            assert(before + mask_from(s, i) =~= output@ + mask_from(s, i + 1));
            index = index + 1;
        }
    }
    assert(output@ + mask_from(bytes@, index as int) =~= output@);
    output
}

/// The state of compaction after the first `n` chars: the text so far, and whether
/// whitespace is pending.
pub open spec fn compact_state(m: Seq<u8>, n: int) -> (Seq<u8>, bool)
    decreases n,
{
    if n <= 0 {
        (seq![], false)
    } else {
        let prev = compact_state(m, n - 1);
        let acc = prev.0;
        let pending = prev.1;
        let c = m[n - 1];
        if is_space_code(c) {
            (acc, true)
        } else if pending && is_ident_code(c) && acc.len() > 0 && is_ident_code(acc.last()) {
            (acc + seq![32u8, c], false)
        } else {
            (acc.push(c), false)
        }
    }
}

/// Whitespace dropped, except one space kept between two identifier chars, so `# [cfg (unix)]`
/// reads `#[cfg(unix)]` while `return cfg!(unix)` keeps its space.
pub open spec fn compacted(m: Seq<u8>) -> Seq<u8> {
    compact_state(m, m.len() as int).0
}

/// Drops the whitespace of masked code, keeping one space where it separates two identifier
/// chars (see `compacted`).
pub fn compact_code(code: &[u8]) -> (compact: Vec<u8>)
    ensures
        compact@ == compacted(code@),
{
    let mut compact: Vec<u8> = Vec::new();
    let mut pending_space = false;
    let mut i: usize = 0;
    while i < code.len()
        invariant
            i <= code.len(),
            compact_state(code@, i as int) == (compact@, pending_space),
        decreases code.len() - i,
    {
        let c = code[i];
        if is_whitespace_char(c) {
            pending_space = true;
        } else {
            if pending_space && is_identifier_char(c) && compact.len() > 0
                && is_identifier_char(compact[compact.len() - 1]) {
                compact.push(32);
            }
            pending_space = false;
            compact.push(c);
        }
        i = i + 1;
        proof {
            let prev = compact_state(code@, i - 1);
            if !is_space_code(c) && !(prev.1 && is_ident_code(c) && prev.0.len() > 0
                && is_ident_code(prev.0.last())) {
                assert(compact@ == prev.0.push(c));
            } else if !is_space_code(c) {
                assert(compact@ =~= prev.0 + seq![32u8, c]);
            }
        }
    }
    compact
}

/// A space or a newline: all that blanking leaves of a comment or literal.
pub open spec fn is_blank(b: u8) -> bool {
    b == 32 || b == 10
}

/// At `i` the source holds plain code: no comment, string or char literal starts there, so
/// masking keeps the byte.
pub open spec fn plain_at(s: Seq<u8>, i: int) -> bool {
    &&& raw_prefix(s, i) is None
    &&& !two_at(s, i, 47, 47)
    &&& !two_at(s, i, 47, 42)
    &&& char_lit_len(s, i) is None
    &&& s[i] != 34
}

/// Where the token that starts at `i` ends.
pub open spec fn token_end(s: Seq<u8>, i: int) -> int {
    if raw_prefix(s, i) is Some {
        raw_end(s, i + raw_prefix(s, i).unwrap().0, raw_prefix(s, i).unwrap().1)
    } else if two_at(s, i, 47, 47) {
        line_end(s, i + 2)
    } else if two_at(s, i, 47, 42) {
        block_end(s, i + 2, 1)
    } else if char_lit_len(s, i) is Some {
        i + char_lit_len(s, i).unwrap()
    } else if s[i] == 34 {
        string_end(s, i + 1)
    } else {
        i + 1
    }
}

/// What masking makes of the token that starts at `i`.
pub open spec fn token_out(s: Seq<u8>, i: int) -> Seq<u8> {
    if plain_at(s, i) {
        seq![s[i]]
    } else if s[i] == 34 && raw_prefix(s, i) is None && !two_at(s, i, 47, 47) && !two_at(
        s,
        i,
        47,
        42,
    ) && char_lit_len(s, i) is None {
        seq![32u8] + string_body(s, i + 1)
    } else {
        blanked(s, i, token_end(s, i))
    }
}

/// The blanked body of a string literal holds only spaces and newlines.
pub proof fn lemma_string_body_only_blanks(s: Seq<u8>, j: int)
    requires
        0 <= j <= s.len(),
    ensures
        forall|k: int|
            0 <= k < string_body(s, j).len() ==> is_blank(#[trigger] string_body(s, j)[k]),
    decreases s.len() - j,
{
    if j >= s.len() {
    } else if s[j] == 92 && j + 1 < s.len() {
        lemma_string_body_only_blanks(s, j + 2);
        let rest = string_body(s, j + 2);
        assert forall|k: int| 0 <= k < string_body(s, j).len() implies is_blank(
            #[trigger] string_body(s, j)[k],
        ) by {
            if k >= 2 {
                assert(string_body(s, j)[k] == rest[k - 2]);
            }
        }
    } else if s[j] == 34 {
    } else {
        lemma_string_body_only_blanks(s, j + 1);
        let rest = string_body(s, j + 1);
        assert forall|k: int| 0 <= k < string_body(s, j).len() implies is_blank(
            #[trigger] string_body(s, j)[k],
        ) by {
            if k >= 1 {
                assert(string_body(s, j)[k] == rest[k - 1]);
            }
        }
    }
}

/// Masking proceeds token by token: a plain byte is kept, and any other token is blanked and
/// spans at least two bytes, unless it runs to the end of the text.
pub proof fn lemma_token(s: Seq<u8>, i: int)
    requires
        0 <= i < s.len(),
    ensures
        i < token_end(s, i) <= s.len(),
        token_out(s, i).len() == token_end(s, i) - i,
        mask_from(s, i) == token_out(s, i) + mask_from(s, token_end(s, i)),
        plain_at(s, i) ==> token_end(s, i) == i + 1,
        !plain_at(s, i) ==> (forall|k: int|
            0 <= k < token_out(s, i).len() ==> is_blank(#[trigger] token_out(s, i)[k])),
        !plain_at(s, i) ==> token_end(s, i) >= i + 2 || token_end(s, i) == s.len(),
{
    let e = token_end(s, i);
    if raw_prefix(s, i) is Some {
        let p = raw_prefix(s, i).unwrap().0;
        let h = raw_prefix(s, i).unwrap().1;
        lemma_raw_prefix_bounds(s, i);
        lemma_raw_end_bounds(s, i + p, h);
    } else if two_at(s, i, 47, 47) {
        lemma_line_end_bounds(s, i + 2);
    } else if two_at(s, i, 47, 42) {
        lemma_block_end_bounds(s, i + 2, 1);
    } else if char_lit_len(s, i) is Some {
        lemma_char_lit_bounds(s, i);
    } else if s[i] == 34 {
        lemma_string_bounds(s, i + 1);
        lemma_string_body_only_blanks(s, i + 1);
        if i + 1 < s.len() {
            if s[i + 1] == 92 && i + 2 < s.len() {
                lemma_string_bounds(s, i + 3);
            } else if s[i + 1] != 34 {
                lemma_string_bounds(s, i + 2);
            }
        }
        let t = token_out(s, i);
        assert forall|k: int| 0 <= k < t.len() implies is_blank(#[trigger] t[k]) by {
            if k > 0 {
                assert(t[k] == string_body(s, i + 1)[k - 1]);
            }
        }
    }
}

/// Masking a run of spaces and newlines keeps it as it is.
proof fn lemma_blank_run(m: Seq<u8>, i: int, e: int)
    requires
        0 <= i <= e <= m.len(),
        forall|k: int| i <= k < e ==> is_blank(#[trigger] m[k]),
    ensures
        mask_from(m, i) == m.subrange(i, e) + mask_from(m, e),
    decreases e - i,
{
    if i < e {
        assert(is_blank(m[i]));
        lemma_blank_run(m, i + 1, e);
        assert(m.subrange(i, e) =~= seq![m[i]] + m.subrange(i + 1, e));
    } else {
        assert(m.subrange(i, e) =~= seq![]);
    }
}

/// Masked text holds no double quote.
proof fn lemma_mask_has_no_quote(s: Seq<u8>, i: int)
    requires
        0 <= i <= s.len(),
    ensures
        forall|k: int| 0 <= k < mask_from(s, i).len() ==> #[trigger] mask_from(s, i)[k] != 34,
    decreases s.len() - i,
{
    if i < s.len() {
        lemma_token(s, i);
        let e = token_end(s, i);
        lemma_mask_has_no_quote(s, e);
        let t = token_out(s, i);
        let r = mask_from(s, e);
        assert forall|k: int| 0 <= k < mask_from(s, i).len() implies #[trigger] mask_from(
            s,
            i,
        )[k] != 34 by {
            if k < t.len() {
                assert(mask_from(s, i)[k] == t[k]);
            } else {
                assert(mask_from(s, i)[k] == r[k - t.len()]);
            }
        }
    }
}

/// A quote at or after `j` is found.
proof fn lemma_first_quote_found(s: Seq<u8>, j: int, p: int)
    requires
        0 <= j <= p < s.len(),
        s[p] == 39,
    ensures
        first_quote(s, j) is Some,
    decreases p - j,
{
    if s[j] != 39 {
        lemma_first_quote_found(s, j + 1, p);
    }
}

/// Text that agrees from `i` on with what masking makes of `s` from `i` on masks to the
/// same thing.
proof fn lemma_mask_of_masked(s: Seq<u8>, m: Seq<u8>, i: int)
    requires
        m.len() == s.len(),
        0 <= i <= s.len(),
        m.subrange(i, m.len() as int) == mask_from(s, i),
    ensures
        mask_from(m, i) == mask_from(s, i),
    decreases s.len() - i,
{
    if i == s.len() {
        return;
    }
    lemma_token(s, i);
    law_masking_only_blanks(s, i);
    lemma_mask_has_no_quote(s, i);
    let len = s.len() as int;
    let e = token_end(s, i);
    let t = token_out(s, i);
    let r = mask_from(s, e);
    let ms = mask_from(s, i);
    let sub = m.subrange(i, len);
    assert(ms =~= t + r);
    // What `m` holds from `i` on, read off the masked source.
    assert forall|k: int| i <= k < len implies #[trigger] m[k] != 34 && (m[k] == s[k] || m[k]
        == 32) by {
        assert(sub[k - i] == m[k]);
        assert(ms[k - i] == s[i + (k - i)] || ms[k - i] == 32u8);
    }
    assert forall|j: int| 0 <= j < t.len() implies #[trigger] m[i + j] == t[j] by {
        assert(sub[j] == m[i + j]);
        assert(ms[j] == t[j]);
    }
    // The rest agrees with the masked rest.
    law_masking_only_blanks(s, e);
    assert(m.subrange(e, len) =~= r) by {
        assert forall|j: int| 0 <= j < r.len() implies #[trigger] m.subrange(e, len)[j] == r[j] by {
            assert(sub[e - i + j] == m[e + j]);
            assert(ms[t.len() + j] == r[j]);
        }
    }
    lemma_mask_of_masked(s, m, e);
    if !plain_at(s, i) {
        assert forall|k: int| i <= k < e implies is_blank(#[trigger] m[k]) by {
            assert(m[i + (k - i)] == t[k - i]);
        }
        lemma_blank_run(m, i, e);
        assert(m.subrange(i, e) =~= t) by {
            assert forall|j: int| 0 <= j < t.len() implies #[trigger] m.subrange(i, e)[j]
                == t[j] by {
                assert(m[i + j] == t[j]);
            }
        }
    } else {
        assert(m[i + 0] == t[0]);
        assert(m[i] == s[i]);
        // No raw string starts at `i` in `m`: it would need a quote.
        if raw_prefix(m, i) is Some {
            let b: int = if 0 <= i && i + 1 < m.len() && m[i] == 98 && m[i + 1] == 114 {
                1
            } else {
                0
            };
            let q = i + b + 1 + hash_run(m, i + b + 1);
            assert(m[q] == 34);
            assert(false);
        }
        // No comment: its second byte would have opened one in `s` too.
        if two_at(m, i, 47, 47) || two_at(m, i, 47, 42) {
            assert(m[i + 1] == s[i + 1] || m[i + 1] == 32);
            assert(false);
        }
        // No char literal.
        if char_lit_len(m, i) is Some {
            assert(m[i + 1] == s[i + 1] || m[i + 1] == 32);
            if m[i + 1] == 92 {
                lemma_first_quote_bounds(m, i + 3);
                let p = first_quote(m, i + 3).unwrap();
                assert(m[p] == s[p] || m[p] == 32);
                lemma_first_quote_found(s, i + 3, p);
                assert(false);
            } else {
                assert(m[i + 2] == s[i + 2] || m[i + 2] == 32);
                lemma_token(s, i + 1);
                let t1 = token_out(s, i + 1);
                assert(r =~= t1 + mask_from(s, token_end(s, i + 1)));
                assert(m[i + 1] == t1[0]) by {
                    assert(sub[1] == m[i + 1]);
                    assert(ms[1] == r[0]);
                }
                if plain_at(s, i + 1) {
                    assert(false);
                } else {
                    assert(m[i + 2] == t1[1]) by {
                        assert(sub[2] == m[i + 2]);
                        assert(ms[2] == r[1]);
                    }
                    assert(is_blank(t1[1]));
                    assert(false);
                }
            }
        }
        assert(plain_at(m, i));
        assert(mask_from(m, i) == seq![m[i]] + mask_from(m, i + 1));
    }
}

/// Inside a string literal with no escapes and no quote before `j`, the literal's end and
/// blanked body from `k` on.
proof fn lemma_plain_string_body(s: Seq<u8>, k: int, j: int)
    requires
        0 <= k <= j < s.len(),
        s[j] == 34,
        forall|m: int| k <= m < j ==> #[trigger] s[m] != 34 && s[m] != 92,
    ensures
        string_end(s, k) == j + 1,
        string_body(s, k) == blanked(s, k, j) + seq![32u8],
    decreases j - k,
{
    if k < j {
        assert(s[k] != 34 && s[k] != 92);
        lemma_plain_string_body(s, k + 1, j);
        assert(blanked(s, k, j) =~= seq![blank(s[k])] + blanked(s, k + 1, j));
    } else {
        assert(blanked(s, k, j) =~= seq![]);
    }
}

/// A string literal runs to its closing quote, whatever newlines it spans: the quotes become
/// spaces, the body is blanked with its newlines kept, and the code after the closing quote
/// is masked as if the literal were not there.
pub proof fn law_string_literal_runs_to_its_closing_quote(s: Seq<u8>, i: int, j: int)
    requires
        0 <= i < j < s.len(),
        s[i] == 34,
        s[j] == 34,
        forall|k: int| i < k < j ==> #[trigger] s[k] != 34 && s[k] != 92,
    ensures
        mask_from(s, i) == seq![32u8] + s.subrange(i + 1, j).map_values(
            |b: u8|
                if b == 10 {
                    10u8
                } else {
                    32u8
                },
        ) + seq![32u8] + mask_from(s, j + 1),
{
    lemma_plain_string_body(s, i + 1, j);
    assert(raw_prefix(s, i) is None);
    assert(char_lit_len(s, i) is None);
    assert(!two_at(s, i, 47, 47) && !two_at(s, i, 47, 42));
    assert(blanked(s, i + 1, j) =~= s.subrange(i + 1, j).map_values(
        |b: u8|
            if b == 10 {
                10u8
            } else {
                32u8
            },
    ));
}

/// Masking is idempotent: blanking the comments and literals of already masked text changes
/// nothing, since masked text holds code bytes and blanks only.
pub proof fn law_masking_is_idempotent(s: Seq<u8>)
    ensures
        masked(masked(s)) == masked(s),
{
    law_masking_only_blanks(s, 0);
    assert(masked(s).subrange(0, masked(s).len() as int) =~= masked(s));
    lemma_mask_of_masked(s, masked(s), 0);
}

/// In compacted text every whitespace char is a single space standing between two
/// identifier chars: no other whitespace survives.
pub proof fn law_compaction_keeps_no_stray_whitespace(m: Seq<u8>, n: int)
    requires
        0 <= n <= m.len(),
    ensures
        ({
            let c = compact_state(m, n).0;
            forall|k: int|
                0 <= k < c.len() && is_space_code(#[trigger] c[k]) ==> c[k] == 32u8 && 0 < k
                    < c.len() - 1 && is_ident_code(c[k - 1]) && is_ident_code(c[k + 1])
        }),
        compact_state(m, n).0.len() > 0 ==> !is_space_code(compact_state(m, n).0.last()),
    decreases n,
{
    if n > 0 {
        law_compaction_keeps_no_stray_whitespace(m, n - 1);
        let prev = compact_state(m, n - 1);
        let acc = prev.0;
        let ch = m[n - 1];
        let c = compact_state(m, n).0;
        if is_space_code(ch) {
        } else if prev.1 && is_ident_code(ch) && acc.len() > 0 && is_ident_code(acc.last()) {
            assert(c == acc + seq![32u8, ch]);
            assert forall|k: int|
                0 <= k < c.len() && is_space_code(#[trigger] c[k]) implies c[k] == 32u8 && 0 < k
                < c.len() - 1 && is_ident_code(c[k - 1]) && is_ident_code(c[k + 1]) by {
                if k < acc.len() {
                    assert(c[k] == acc[k]);
                    if k + 1 < acc.len() {
                        assert(c[k + 1] == acc[k + 1]);
                    }
                    assert(k != acc.len() - 1);
                }
                if k == acc.len() {
                    assert(c[k - 1] == acc.last());
                }
            }
        } else {
            assert(c == acc.push(ch));
            assert forall|k: int|
                0 <= k < c.len() && is_space_code(#[trigger] c[k]) implies c[k] == 32u8 && 0 < k
                < c.len() - 1 && is_ident_code(c[k - 1]) && is_ident_code(c[k + 1]) by {
                assert(k < acc.len());
                assert(c[k] == acc[k]);
                assert(k != acc.len() - 1);
                assert(c[k + 1] == acc[k + 1]);
            }
        }
    }
}


/// The bytes of `m` that are not whitespace, in order.
pub open spec fn without_whitespace(m: Seq<u8>) -> Seq<u8>
    decreases m.len(),
{
    if m.len() == 0 {
        seq![]
    } else if is_space_code(m.last()) {
        without_whitespace(m.drop_last())
    } else {
        without_whitespace(m.drop_last()).push(m.last())
    }
}

/// Compaction drops whitespace only: the first `n` chars and the text compacted from them
/// hold the same non-whitespace bytes in the same order.
pub proof fn law_compaction_keeps_code_bytes(m: Seq<u8>, n: int)
    requires
        0 <= n <= m.len(),
    ensures
        without_whitespace(compact_state(m, n).0) == without_whitespace(m.take(n)),
        n == m.len() ==> without_whitespace(compacted(m)) == without_whitespace(m),
    decreases n,
{
    if n == 0 {
        assert(m.take(0) =~= seq![]);
    } else {
        law_compaction_keeps_code_bytes(m, n - 1);
        let prev = compact_state(m, n - 1);
        let acc = prev.0;
        let ch = m[n - 1];
        assert(m.take(n).drop_last() =~= m.take(n - 1));
        assert(m.take(n).last() == ch);
        if is_space_code(ch) {
        } else if prev.1 && is_ident_code(ch) && acc.len() > 0 && is_ident_code(acc.last()) {
            let joined = acc + seq![32u8, ch];
            assert(joined.drop_last() =~= acc.push(32u8));
            assert(acc.push(32u8).drop_last() =~= acc);
            assert(without_whitespace(acc.push(32u8)) == without_whitespace(acc));
        } else {
            assert(acc.push(ch).drop_last() =~= acc);
        }
    }
    if n == m.len() {
        assert(m.take(n) =~= m);
    }
}

/// Compacting text whose whitespace is already compact reads it back char by char: after
/// `n` chars the text so far is its first `n` chars, with a space just read still pending.
proof fn lemma_compact_state_of_compact(c: Seq<u8>, n: int)
    requires
        0 <= n <= c.len(),
        forall|k: int|
            0 <= k < c.len() && is_space_code(#[trigger] c[k]) ==> c[k] == 32u8 && 0 < k < c.len()
                - 1 && is_ident_code(c[k - 1]) && is_ident_code(c[k + 1]),
    ensures
        compact_state(c, n) == (if n > 0 && c[n - 1] == 32 {
            (c.take(n - 1), true)
        } else {
            (c.take(n), false)
        }),
    decreases n,
{
    if n == 0 {
        assert(c.take(0) =~= seq![]);
    } else {
        lemma_compact_state_of_compact(c, n - 1);
        let ch = c[n - 1];
        if is_space_code(ch) {
            assert(ch == 32u8 && n - 1 > 0 && is_ident_code(c[n - 2]));
            assert(!is_space_code(c[n - 2]));
        } else if n - 1 > 0 && c[n - 2] == 32 {
            assert(is_space_code(c[n - 2]));
            assert(n - 2 > 0 && is_ident_code(c[n - 3]) && is_ident_code(c[n - 1]));
            let acc = c.take(n - 2);
            assert(acc.last() == c[n - 3]);
            assert(acc + seq![32u8, ch] =~= c.take(n));
        } else {
            assert(c.take(n - 1).push(ch) =~= c.take(n));
        }
    }
}

/// Compaction is idempotent: compacting compacted text changes nothing.
pub proof fn law_compaction_is_idempotent(m: Seq<u8>)
    ensures
        compacted(compacted(m)) == compacted(m),
{
    law_compaction_keeps_no_stray_whitespace(m, m.len() as int);
    let c = compacted(m);
    lemma_compact_state_of_compact(c, c.len() as int);
    if c.len() > 0 {
        assert(!is_space_code(c.last()));
        assert(c[c.len() - 1] != 32);
    }
    assert(c.take(c.len() as int) =~= c);
}

} // verus!
