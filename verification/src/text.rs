//! Byte-level text primitives shared by the source scanner and the path rules.
//!
//! Source text is scanned as bytes. After masking, every byte stands for the char whose code
//! point is the byte's value (Latin-1), so character classes are only ever asked of code points
//! below 256.

use vstd::prelude::*;
use vstd::string::StringSliceAdditionalSpecFns;

verus! {

/// The bytes of an ASCII char sequence.
pub open spec fn ascii(s: Seq<char>) -> Seq<u8> {
    s.map_values(|c: char| c as u8)
}

/// The chars of Latin-1 text: each byte is the code point of one char.
pub open spec fn latin1(codes: Seq<u8>) -> Seq<char> {
    codes.map_values(|b: u8| b as char)
}

/// `char::is_whitespace` on the code points below 256 (the Unicode `White_Space` property).
pub open spec fn is_space_code(c: u8) -> bool {
    (9 <= c <= 13) || c == 32 || c == 0x85 || c == 0xa0
}

/// `char::is_alphanumeric` on the code points below 256: the alphabetic letters (`A-Z`,
/// `a-z`, `ª`, `µ`, `º` and the Latin-1 letters) and the numerics (`0-9`, `²`, `³`, `¹`,
/// `¼`, `½`, `¾`).
pub open spec fn is_alnum_code(c: u8) -> bool {
    ||| (48 <= c <= 57)
    ||| (65 <= c <= 90)
    ||| (97 <= c <= 122)
    ||| c == 0xaa
    ||| c == 0xb2
    ||| c == 0xb3
    ||| c == 0xb5
    ||| c == 0xb9
    ||| c == 0xba
    ||| (0xbc <= c <= 0xbe)
    ||| (0xc0 <= c <= 0xd6)
    ||| (0xd8 <= c <= 0xf6)
    ||| c >= 0xf8
}

/// A char that may appear inside a Rust identifier: alphanumeric or `_`.
pub open spec fn is_ident_code(c: u8) -> bool {
    is_alnum_code(c) || c == 95
}

/// Whether `text` holds `needle` at offset `at`.
pub open spec fn matches_at(text: Seq<u8>, needle: Seq<u8>, at: int) -> bool {
    &&& 0 <= at
    &&& at + needle.len() <= text.len()
    &&& text.subrange(at, at + needle.len()) == needle
}

pub open spec fn starts_with(text: Seq<u8>, prefix: Seq<u8>) -> bool {
    matches_at(text, prefix, 0)
}

pub open spec fn ends_with(text: Seq<u8>, suffix: Seq<u8>) -> bool {
    matches_at(text, suffix, text.len() - suffix.len())
}

pub open spec fn contains(text: Seq<u8>, needle: Seq<u8>) -> bool {
    exists|at: int| matches_at(text, needle, at)
}

/// How far the search moves on after a match: past it, or by one for an empty needle, which
/// matches at every offset.
pub open spec fn advance(needle: Seq<u8>) -> int {
    if needle.len() == 0 {
        1
    } else {
        needle.len() as int
    }
}

/// The byte offsets of `needle` in `text` from `from` on, as `str::match_indices` reports them
/// on single-byte chars: the leftmost match, then the next one after its end, and so on
/// (matches never overlap). An empty needle matches at every offset, the end of the text
/// included.
pub open spec fn match_offsets(text: Seq<u8>, needle: Seq<u8>, from: int) -> Seq<int>
    decreases text.len() + 1 - from,
{
    if from < 0 || from + needle.len() > text.len() {
        seq![]
    } else if matches_at(text, needle, from) {
        seq![from] + match_offsets(text, needle, from + advance(needle))
    } else {
        match_offsets(text, needle, from + 1)
    }
}

/// No identifier char directly before `at`.
pub open spec fn standalone_before(text: Seq<u8>, at: int) -> bool {
    at == 0 || !is_ident_code(text[at - 1])
}

/// A match of `needle` at `at` that is not part of a longer identifier. The trailing boundary
/// only counts when the needle itself ends in an identifier char, so `libc::` matches
/// `libc::getpid`.
pub open spec fn standalone_at(text: Seq<u8>, needle: Seq<u8>, at: int) -> bool {
    &&& standalone_before(text, at)
    &&& (needle.len() == 0 || !is_ident_code(needle.last()) || at + needle.len() == text.len()
        || !is_ident_code(text[at + needle.len()]))
}

/// The offsets of `match_offsets` that stand alone.
pub open spec fn standalone_offsets(text: Seq<u8>, needle: Seq<u8>, from: int) -> Seq<int>
    decreases text.len() + 1 - from,
{
    if from < 0 || from + needle.len() > text.len() {
        seq![]
    } else if matches_at(text, needle, from) {
        (if standalone_at(text, needle, from) {
            seq![from]
        } else {
            seq![]
        }) + standalone_offsets(text, needle, from + advance(needle))
    } else {
        standalone_offsets(text, needle, from + 1)
    }
}

/// `identifier` occurs in `text` not embedded in a longer identifier.
pub open spec fn contains_identifier(text: Seq<u8>, identifier: Seq<u8>) -> bool {
    standalone_offsets(text, identifier, 0).len() > 0
}

/// Every reported match is a real match.
pub proof fn lemma_match_offsets_are_matches(text: Seq<u8>, needle: Seq<u8>, from: int)
    ensures
        forall|i: int|
            0 <= i < match_offsets(text, needle, from).len() ==> matches_at(
                text,
                needle,
                #[trigger] match_offsets(text, needle, from)[i],
            ) && from <= match_offsets(text, needle, from)[i],
    decreases text.len() + 1 - from,
{
    if from < 0 || from + needle.len() > text.len() {
    } else if matches_at(text, needle, from) {
        lemma_match_offsets_are_matches(text, needle, from + advance(needle));
        let rest = match_offsets(text, needle, from + advance(needle));
        let all = match_offsets(text, needle, from);
        assert(all == seq![from] + rest);
        assert forall|i: int| 0 <= i < all.len() implies matches_at(text, needle, #[trigger] all[i])
            && from <= all[i] by {
            if i > 0 {
                assert(all[i] == rest[i - 1]);
            }
        }
    } else {
        lemma_match_offsets_are_matches(text, needle, from + 1);
        assert(match_offsets(text, needle, from) == match_offsets(text, needle, from + 1));
    }
}

/// A needle that occurs somewhere from `from` on is reported at least once.
pub proof fn lemma_no_match_offsets_no_match(text: Seq<u8>, needle: Seq<u8>, from: int)
    requires
        needle.len() > 0,
        from >= 0,
    ensures
        match_offsets(text, needle, from).len() == 0 ==> forall|at: int|
            from <= at ==> !matches_at(text, needle, at),
    decreases text.len() + 1 - from,
{
    if from + needle.len() > text.len() {
    } else if matches_at(text, needle, from) {
    } else {
        lemma_no_match_offsets_no_match(text, needle, from + 1);
    }
}

/// Whether the char with code point `c` is an identifier char (see `is_ident_code`).
pub fn is_identifier_char(c: u8) -> (r: bool)
    ensures
        r == is_ident_code(c),
{
    (48 <= c && c <= 57) || (65 <= c && c <= 90) || (97 <= c && c <= 122) || c == 95 || c == 0xaa
        || c == 0xb2 || c == 0xb3 || c == 0xb5 || c == 0xb9 || c == 0xba || (0xbc <= c && c
        <= 0xbe) || (0xc0 <= c && c <= 0xd6) || (0xd8 <= c && c <= 0xf6) || c >= 0xf8
}

/// Whether the char with code point `c` is whitespace (see `is_space_code`).
pub fn is_whitespace_char(c: u8) -> (r: bool)
    ensures
        r == is_space_code(c),
{
    (9 <= c && c <= 13) || c == 32 || c == 0x85 || c == 0xa0
}

/// Whether `text` holds `needle` at `at`.
pub fn matches_at_exec(text: &[u8], needle: &[u8], at: usize) -> (r: bool)
    ensures
        r == matches_at(text@, needle@, at as int),
{
    if at > text.len() || needle.len() > text.len() - at {
        return false;
    }
    let mut k: usize = 0;
    while k < needle.len()
        invariant
            at + needle.len() <= text.len(),
            k <= needle.len(),
            forall|j: int| 0 <= j < k ==> text@[at + j] == needle@[j],
        decreases needle.len() - k,
    {
        if text[at + k] != needle[k] {
            assert(text@.subrange(at as int, at + needle.len())[k as int] != needle@[k as int]);
            return false;
        }
        k = k + 1;
    }
    assert(text@.subrange(at as int, at + needle@.len()) =~= needle@);
    true
}

/// No identifier char directly before `at`.
pub fn standalone_before_exec(text: &[u8], at: usize) -> (r: bool)
    requires
        at <= text.len(),
    ensures
        r == standalone_before(text@, at as int),
{
    at == 0 || !is_identifier_char(text[at - 1])
}

/// Whether the match at `at` stands alone (see `standalone_at`).
pub fn standalone_at_exec(text: &[u8], needle: &[u8], at: usize) -> (r: bool)
    requires
        at + needle.len() <= text.len(),
    ensures
        r == standalone_at(text@, needle@, at as int),
{
    let needs_trailing = needle.len() > 0 && is_identifier_char(needle[needle.len() - 1]);
    let end = at + needle.len();
    standalone_before_exec(text, at) && (!needs_trailing || end == text.len()
        || !is_identifier_char(text[end]))
}

/// The offsets of `needle` in `text`, left to right and without overlap (see `match_offsets`).
pub fn match_indices(text: &[u8], needle: &[u8]) -> (r: Vec<usize>)
    ensures
        r@.map_values(|o: usize| o as int) == match_offsets(text@, needle@, 0),
{
    let mut out: Vec<usize> = Vec::new();
    let mut pos: usize = 0;
    while pos < text.len() && needle.len() <= text.len() - pos
        invariant
            pos <= text.len(),
            out@.map_values(|o: usize| o as int) + match_offsets(text@, needle@, pos as int)
                == match_offsets(text@, needle@, 0),
        decreases text.len() - pos,
    {
        let ghost old_out = out@;
        if matches_at_exec(text, needle, pos) {
            out.push(pos);
            assert(out@.map_values(|o: usize| o as int) =~= old_out.map_values(|o: usize| o as int)
                + seq![pos as int]);
            pos = pos + if needle.len() == 0 {
                1
            } else {
                needle.len()
            };
        } else {
            pos = pos + 1;
        }
    }
    if pos == text.len() && needle.len() == 0 {
        let ghost old_out = out@;
        assert(matches_at(text@, needle@, pos as int)) by {
            assert(text@.subrange(pos as int, pos as int) =~= needle@);
        }
        out.push(pos);
        assert(out@.map_values(|o: usize| o as int) =~= old_out.map_values(|o: usize| o as int)
            + seq![pos as int]);
        assert(match_offsets(text@, needle@, pos + 1) =~= seq![]);
        assert(match_offsets(text@, needle@, pos as int) =~= seq![pos as int]);
    }
    assert(out@.map_values(|o: usize| o as int) =~= match_offsets(text@, needle@, 0));
    out
}

/// The standalone offsets of `needle` in `text` (see `standalone_offsets`).
pub fn standalone_matches(text: &[u8], needle: &[u8]) -> (r: Vec<usize>)
    ensures
        r@.map_values(|o: usize| o as int) == standalone_offsets(text@, needle@, 0),
{
    let mut out: Vec<usize> = Vec::new();
    let mut pos: usize = 0;
    while pos < text.len() && needle.len() <= text.len() - pos
        invariant
            pos <= text.len(),
            out@.map_values(|o: usize| o as int) + standalone_offsets(text@, needle@, pos as int)
                == standalone_offsets(text@, needle@, 0),
        decreases text.len() - pos,
    {
        let ghost old_out = out@;
        if matches_at_exec(text, needle, pos) {
            if standalone_at_exec(text, needle, pos) {
                out.push(pos);
                assert(out@.map_values(|o: usize| o as int) =~= old_out.map_values(
                    |o: usize| o as int,
                ) + seq![pos as int]);
            } else {
                assert(old_out.map_values(|o: usize| o as int) + seq![] =~= old_out.map_values(
                    |o: usize| o as int,
                ));
            }
            pos = pos + if needle.len() == 0 {
                1
            } else {
                needle.len()
            };
        } else {
            pos = pos + 1;
        }
    }
    if pos == text.len() && needle.len() == 0 {
        assert(matches_at(text@, needle@, pos as int)) by {
            assert(text@.subrange(pos as int, pos as int) =~= needle@);
        }
        assert(standalone_offsets(text@, needle@, pos + 1) =~= seq![]);
        if standalone_at_exec(text, needle, pos) {
            let ghost old_out = out@;
            out.push(pos);
            assert(out@.map_values(|o: usize| o as int) =~= old_out.map_values(
                |o: usize| o as int,
            ) + seq![pos as int]);
            assert(standalone_offsets(text@, needle@, pos as int) =~= seq![pos as int]);
        } else {
            assert(standalone_offsets(text@, needle@, pos as int) =~= seq![]);
        }
    }
    assert(out@.map_values(|o: usize| o as int) =~= standalone_offsets(text@, needle@, 0));
    out
}

/// Whether `identifier` occurs in `text` outside any longer identifier.
pub fn contains_identifier_exec(text: &[u8], identifier: &[u8]) -> (r: bool)
    ensures
        r == contains_identifier(text@, identifier@),
{
    let found = standalone_matches(text, identifier);
    assert(found@.map_values(|o: usize| o as int).len() == found@.len());
    found.len() > 0
}

/// The bytes of an ASCII string literal.
pub fn literal_bytes(s: &'static str) -> (r: &'static [u8])
    requires
        vstd::string::is_ascii(s),
    ensures
        r@ == ascii(s@),
{
    proof {
        vstd::string::is_ascii_spec_bytes(s);
    }
    let r = s.as_bytes();
    assert(r@ =~= ascii(s@));
    r
}

#[verifier::external_body]
pub(crate) fn push_char(s: &mut String, c: char)
    ensures
        final(s)@ == old(s)@.push(c),
{
    s.push(c);
}

/// The string whose chars have the code points `codes`.
pub fn latin1_string(codes: &[u8]) -> (r: String)
    ensures
        r@ == latin1(codes@),
{
    let mut out = String::new();
    let mut i: usize = 0;
    while i < codes.len()
        invariant
            i <= codes.len(),
            out@ == latin1(codes@.take(i as int)),
        decreases codes.len() - i,
    {
        let c: char = codes[i] as char;
        push_char(&mut out, c);
        i = i + 1;
        assert(codes@.take(i as int) == codes@.take(i - 1).push(codes@[i - 1]));
        assert(latin1(codes@.take(i as int)) =~= latin1(codes@.take(i - 1)).push(c));
    }
    assert(codes@.take(i as int) == codes@);
    out
}

/// A copy of `text[start..end]`.
pub fn slice_copy(text: &[u8], start: usize, end: usize) -> (r: Vec<u8>)
    requires
        start <= end <= text.len(),
    ensures
        r@ == text@.subrange(start as int, end as int),
{
    let mut out: Vec<u8> = Vec::new();
    let mut i: usize = start;
    while i < end
        invariant
            start <= i <= end <= text.len(),
            out@ == text@.subrange(start as int, i as int),
        decreases end - i,
    {
        out.push(text[i]);
        i = i + 1;
        assert(out@ =~= text@.subrange(start as int, i as int));
    }
    out
}

} // verus!
