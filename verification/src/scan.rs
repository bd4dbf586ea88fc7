//! The scanner: host `cfg` invocations, native OS references and direct references to the
//! host trees in a Rust source file, all looked for outside comments and literals.

use vstd::prelude::*;
use vstd::string::StringSliceAdditionalSpecFns;
use crate::lexer::{compact_code, compacted, law_masking_is_idempotent, mask_bytes, masked};
use crate::text::{
    ascii,
    contains_identifier,
    contains_identifier_exec,
    is_identifier_char,
    latin1,
    latin1_string,
    literal_bytes,
    matches_at,
    matches_at_exec,
    slice_copy,
    standalone_before,
    standalone_before_exec,
    standalone_matches,
    standalone_offsets,
};

verus! {

/// How each `cfg` form starts once compacted.
pub open spec fn cfg_start(k: int) -> Seq<char> {
    if k == 0 {
        "#[cfg("@
    } else if k == 1 {
        "#[cfg_attr("@
    } else if k == 2 {
        "#![cfg("@
    } else if k == 3 {
        "#![cfg_attr("@
    } else if k == 4 {
        "cfg!("@
    } else if k == 5 {
        "cfg_select!{"@
    } else {
        "cfg_select!("@
    }
}

pub open spec fn cfg_start_count() -> int {
    7
}

/// The `cfg` keys that select the host.
pub open spec fn selector(i: int) -> Seq<char> {
    if i == 0 {
        "windows"@
    } else if i == 1 {
        "unix"@
    } else if i == 2 {
        "target_os"@
    } else if i == 3 {
        "target_family"@
    } else if i == 4 {
        "target_env"@
    } else if i == 5 {
        "target_abi"@
    } else if i == 6 {
        "target_vendor"@
    } else {
        "target_pointer_width"@
    }
}

pub open spec fn selector_count() -> int {
    8
}

/// Qualified names of the host trees, so that a plain `windows` or `unix` elsewhere is not
/// taken for a tree.
pub open spec fn host_tree_ref(i: int) -> Seq<char> {
    if i == 0 {
        "host::imp"@
    } else if i == 1 {
        "host::unix"@
    } else if i == 2 {
        "host::linux"@
    } else if i == 3 {
        "host::macos"@
    } else if i == 4 {
        "host::illumos"@
    } else if i == 5 {
        "host::other_unix"@
    } else if i == 6 {
        "host::windows"@
    } else {
        "host::wasi"@
    }
}

pub open spec fn host_tree_ref_count() -> int {
    8
}

/// Paths into native OS APIs.
pub open spec fn native_marker(i: int) -> Seq<char> {
    if i == 0 {
        "std::os::windows"@
    } else if i == 1 {
        "std::os::unix"@
    } else if i == 2 {
        "std::os::linux"@
    } else if i == 3 {
        "std::os::macos"@
    } else if i == 4 {
        "std::os::fd"@
    } else if i == 5 {
        "std::os::wasi"@
    } else if i == 6 {
        "windows_sys"@
    } else if i == 7 {
        "windows::Win32"@
    } else if i == 8 {
        "libc::"@
    } else {
        "nix::"@
    }
}

pub open spec fn native_marker_count() -> int {
    10
}

pub open spec fn is_opener(c: u8) -> bool {
    c == 40 || c == 91 || c == 123
}

pub open spec fn is_closer(c: u8) -> bool {
    c == 41 || c == 93 || c == 125
}

/// Scanning from `j` at nesting `depth`, where the delimiter that closes the outermost
/// bracket ends (one past it). A closer with nothing open fails the scan.
pub open spec fn balanced_close(c: Seq<u8>, j: int, depth: nat) -> Option<int>
    decreases c.len() - j,
{
    if j < 0 || j >= c.len() {
        None
    } else if is_opener(c[j]) {
        balanced_close(c, j + 1, depth + 1)
    } else if is_closer(c[j]) {
        if depth == 0 {
            None
        } else if depth == 1 {
            Some(j + 1)
        } else {
            balanced_close(c, j + 1, (depth - 1) as nat)
        }
    } else {
        balanced_close(c, j + 1, depth)
    }
}

/// Some host selector occurs in `clause` as an identifier.
pub open spec fn names_a_selector(clause: Seq<u8>) -> bool {
    exists|i: int| 0 <= i < selector_count() && contains_identifier(clause, ascii(selector(i)))
}

/// How an invocation is reported: `cfg_select!` by name, attributes without their `#[` or
/// `#![`, and `cfg!(..)` as it stands.
pub open spec fn shown(k: int, clause: Seq<u8>) -> Seq<u8> {
    if k >= 5 {
        ascii("cfg_select!"@)
    } else if k <= 1 {
        clause.skip(2)
    } else if k <= 3 {
        clause.skip(3)
    } else {
        clause
    }
}

/// The host selection, if any, made by the `cfg` form `k` found at `o` in compacted code.
/// Only the attribute forms may follow an identifier char (`my_cfg!(unix)` is not `cfg!`).
pub open spec fn invocation_at(c: Seq<u8>, k: int, o: int) -> Option<Seq<u8>> {
    let start = ascii(cfg_start(k));
    if k >= 4 && !standalone_before(c, o) {
        None
    } else {
        match balanced_close(c, o + start.len() - 1, 0) {
            Some(e) => if names_a_selector(c.subrange(o, e)) {
                Some(shown(k, c.subrange(o, e)))
            } else {
                None
            },
            None => None,
        }
    }
}

pub open spec fn opt_seq<A>(o: Option<A>) -> Seq<A> {
    match o {
        Some(a) => seq![a],
        None => seq![],
    }
}

/// The host selections made by the matches of `cfg` form `k` from `from` on.
pub open spec fn invocations_from(c: Seq<u8>, k: int, from: int) -> Seq<Seq<u8>>
    decreases c.len() - from,
{
    let start = ascii(cfg_start(k));
    if start.len() == 0 || from < 0 || from + start.len() > c.len() {
        seq![]
    } else if matches_at(c, start, from) {
        opt_seq(invocation_at(c, k, from)) + invocations_from(c, k, from + start.len())
    } else {
        invocations_from(c, k, from + 1)
    }
}

/// The host selections of the forms `k` and after, form by form.
pub open spec fn invocations_of_forms(c: Seq<u8>, k: int) -> Seq<Seq<u8>>
    decreases cfg_start_count() - k,
{
    if k < 0 || k >= cfg_start_count() {
        seq![]
    } else {
        invocations_from(c, k, 0) + invocations_of_forms(c, k + 1)
    }
}

/// What `host_cfg_invocations` reports for a source file given as bytes.
pub open spec fn host_cfg_invocations_spec(source: Seq<u8>) -> Seq<Seq<u8>> {
    invocations_of_forms(compacted(masked(source)), 0)
}

/// The native markers from `i` on that occur in `code`, once each, in table order.
pub open spec fn native_from(code: Seq<u8>, i: int) -> Seq<Seq<u8>>
    decreases native_marker_count() - i,
{
    if i < 0 || i >= native_marker_count() {
        seq![]
    } else {
        (if contains_identifier(code, ascii(native_marker(i))) {
            seq![ascii(native_marker(i))]
        } else {
            seq![]
        }) + native_from(code, i + 1)
    }
}

pub open spec fn native_host_references_spec(source: Seq<u8>) -> Seq<Seq<u8>> {
    native_from(masked(source), 0)
}

/// Each tree name from `i` on, once per standalone occurrence in `code`, in table order.
pub open spec fn tree_refs_from(code: Seq<u8>, i: int) -> Seq<Seq<u8>>
    decreases host_tree_ref_count() - i,
{
    if i < 0 || i >= host_tree_ref_count() {
        seq![]
    } else {
        Seq::new(
            standalone_offsets(code, ascii(host_tree_ref(i)), 0).len(),
            |_n: int| ascii(host_tree_ref(i)),
        ) + tree_refs_from(code, i + 1)
    }
}

pub open spec fn host_tree_references_spec(source: Seq<u8>) -> Seq<Seq<u8>> {
    tree_refs_from(masked(source), 0)
}

/// The strings that byte sequences stand for.
pub open spec fn as_text(items: Seq<Seq<u8>>) -> Seq<Seq<char>> {
    items.map_values(|b: Seq<u8>| latin1(b))
}

pub open spec fn views(items: Seq<String>) -> Seq<Seq<char>> {
    items.map_values(|t: String| t@)
}

fn cfg_start_bytes(k: usize) -> (r: &'static [u8])
    requires
        k < 7,
    ensures
        r@ == ascii(cfg_start(k as int)),
        r@.len() >= 5,
{
    if k == 0 {
        proof {
            reveal_strlit("#[cfg(");
        }
        literal_bytes("#[cfg(")
    } else if k == 1 {
        proof {
            reveal_strlit("#[cfg_attr(");
        }
        literal_bytes("#[cfg_attr(")
    } else if k == 2 {
        proof {
            reveal_strlit("#![cfg(");
        }
        literal_bytes("#![cfg(")
    } else if k == 3 {
        proof {
            reveal_strlit("#![cfg_attr(");
        }
        literal_bytes("#![cfg_attr(")
    } else if k == 4 {
        proof {
            reveal_strlit("cfg!(");
        }
        literal_bytes("cfg!(")
    } else if k == 5 {
        proof {
            reveal_strlit("cfg_select!{");
        }
        literal_bytes("cfg_select!{")
    } else {
        proof {
            reveal_strlit("cfg_select!(");
        }
        literal_bytes("cfg_select!(")
    }
}

fn selector_bytes(i: usize) -> (r: &'static [u8])
    requires
        i < 8,
    ensures
        r@ == ascii(selector(i as int)),
        r@.len() > 0,
{
    if i == 0 {
        proof {
            reveal_strlit("windows");
        }
        literal_bytes("windows")
    } else if i == 1 {
        proof {
            reveal_strlit("unix");
        }
        literal_bytes("unix")
    } else if i == 2 {
        proof {
            reveal_strlit("target_os");
        }
        literal_bytes("target_os")
    } else if i == 3 {
        proof {
            reveal_strlit("target_family");
        }
        literal_bytes("target_family")
    } else if i == 4 {
        proof {
            reveal_strlit("target_env");
        }
        literal_bytes("target_env")
    } else if i == 5 {
        proof {
            reveal_strlit("target_abi");
        }
        literal_bytes("target_abi")
    } else if i == 6 {
        proof {
            reveal_strlit("target_vendor");
        }
        literal_bytes("target_vendor")
    } else {
        proof {
            reveal_strlit("target_pointer_width");
        }
        literal_bytes("target_pointer_width")
    }
}

fn host_tree_ref_bytes(i: usize) -> (r: &'static [u8])
    requires
        i < 8,
    ensures
        r@ == ascii(host_tree_ref(i as int)),
        r@.len() > 0,
{
    if i == 0 {
        proof {
            reveal_strlit("host::imp");
        }
        literal_bytes("host::imp")
    } else if i == 1 {
        proof {
            reveal_strlit("host::unix");
        }
        literal_bytes("host::unix")
    } else if i == 2 {
        proof {
            reveal_strlit("host::linux");
        }
        literal_bytes("host::linux")
    } else if i == 3 {
        proof {
            reveal_strlit("host::macos");
        }
        literal_bytes("host::macos")
    } else if i == 4 {
        proof {
            reveal_strlit("host::illumos");
        }
        literal_bytes("host::illumos")
    } else if i == 5 {
        proof {
            reveal_strlit("host::other_unix");
        }
        literal_bytes("host::other_unix")
    } else if i == 6 {
        proof {
            reveal_strlit("host::windows");
        }
        literal_bytes("host::windows")
    } else {
        proof {
            reveal_strlit("host::wasi");
        }
        literal_bytes("host::wasi")
    }
}

fn native_marker_bytes(i: usize) -> (r: &'static [u8])
    requires
        i < 10,
    ensures
        r@ == ascii(native_marker(i as int)),
        r@.len() > 0,
{
    if i == 0 {
        proof {
            reveal_strlit("std::os::windows");
        }
        literal_bytes("std::os::windows")
    } else if i == 1 {
        proof {
            reveal_strlit("std::os::unix");
        }
        literal_bytes("std::os::unix")
    } else if i == 2 {
        proof {
            reveal_strlit("std::os::linux");
        }
        literal_bytes("std::os::linux")
    } else if i == 3 {
        proof {
            reveal_strlit("std::os::macos");
        }
        literal_bytes("std::os::macos")
    } else if i == 4 {
        proof {
            reveal_strlit("std::os::fd");
        }
        literal_bytes("std::os::fd")
    } else if i == 5 {
        proof {
            reveal_strlit("std::os::wasi");
        }
        literal_bytes("std::os::wasi")
    } else if i == 6 {
        proof {
            reveal_strlit("windows_sys");
        }
        literal_bytes("windows_sys")
    } else if i == 7 {
        proof {
            reveal_strlit("windows::Win32");
        }
        literal_bytes("windows::Win32")
    } else if i == 8 {
        proof {
            reveal_strlit("libc::");
        }
        literal_bytes("libc::")
    } else {
        proof {
            reveal_strlit("nix::");
        }
        literal_bytes("nix::")
    }
}

/// `balanced_invocation`: where the bracket opened at `open_at` closes (one past it).
pub fn balanced_invocation(c: &[u8], open_at: usize) -> (r: Option<usize>)
    ensures
        match balanced_close(c@, open_at as int, 0) {
            Some(e) => r == Some(e as usize),
            None => r is None,
        },
{
    let mut depth: usize = 0;
    let mut j = open_at;
    while j < c.len()
        invariant
            open_at <= j,
            depth <= j - open_at,
            balanced_close(c@, j as int, depth as nat) == balanced_close(c@, open_at as int, 0),
        decreases c.len() - j,
    {
        let ch = c[j];
        if ch == 40 || ch == 91 || ch == 123 {
            depth = depth + 1;
        } else if ch == 41 || ch == 93 || ch == 125 {
            if depth == 0 {
                return None;
            }
            depth = depth - 1;
            if depth == 0 {
                return Some(j + 1);
            }
        }
        j = j + 1;
    }
    None
}

/// Whether some host selector occurs in `clause` as an identifier.
fn names_a_selector_exec(clause: &[u8]) -> (r: bool)
    ensures
        r == names_a_selector(clause@),
{
    let mut i: usize = 0;
    while i < 8
        invariant
            i <= 8,
            forall|k: int| 0 <= k < i ==> !contains_identifier(clause@, ascii(selector(k))),
        decreases 8 - i,
    {
        if contains_identifier_exec(clause, selector_bytes(i)) {
            return true;
        }
        i = i + 1;
    }
    false
}

fn invocation_at_exec(c: &[u8], k: usize, o: usize) -> (r: Option<Vec<u8>>)
    requires
        k < 7,
        matches_at(c@, ascii(cfg_start(k as int)), o as int),
    ensures
        match invocation_at(c@, k as int, o as int) {
            Some(t) => r matches Some(v) && v@ == t,
            None => r is None,
        },
{
    let start = cfg_start_bytes(k);
    let c_len = c.len();
    assert(o + start@.len() <= c_len);
    if k >= 4 && !standalone_before_exec(c, o) {
        return None;
    }
    match balanced_invocation(c, o + start.len() - 1) {
        Some(e) => {
            proof {
                lemma_balanced_close_bounds(c@, (o + start.len() - 1) as int, 0);
            }
            let clause = slice_copy(c, o, e);
            if !names_a_selector_exec(&clause) {
                return None;
            }
            if k >= 5 {
                proof {
                    reveal_strlit("cfg_select!");
                }
                let name = literal_bytes("cfg_select!");
                let v = slice_copy(name, 0, name.len());
                assert(v@ =~= ascii("cfg_select!"@));
                Some(v)
            } else {
                let skip: usize = if k <= 1 {
                    2
                } else if k <= 3 {
                    3
                } else {
                    0
                };
                let v = slice_copy(&clause, skip, clause.len());
                assert(v@ =~= shown(k as int, clause@));
                Some(v)
            }
        },
        None => None,
    }
}

proof fn lemma_balanced_close_bounds(c: Seq<u8>, j: int, depth: nat)
    ensures
        balanced_close(c, j, depth) matches Some(e) ==> j < e <= c.len(),
    decreases c.len() - j,
{
    if j < 0 || j >= c.len() {
    } else if is_opener(c[j]) {
        lemma_balanced_close_bounds(c, j + 1, depth + 1);
    } else if is_closer(c[j]) {
        if depth > 1 {
            lemma_balanced_close_bounds(c, j + 1, (depth - 1) as nat);
        }
    } else {
        lemma_balanced_close_bounds(c, j + 1, depth);
    }
}

/// Appends the host selections made by the matches of form `k` in compacted code `c`.
fn push_invocations_of_form(out: &mut Vec<String>, c: &[u8], k: usize)
    requires
        k < 7,
    ensures
        views(final(out)@) == views(old(out)@) + as_text(invocations_from(c@, k as int, 0)),
{
    let start = cfg_start_bytes(k);
    let mut pos: usize = 0;
    while pos <= c.len() && start.len() <= c.len() - pos
        invariant
            k < 7,
            start@ == ascii(cfg_start(k as int)),
            start@.len() >= 5,
            pos <= c.len() + 1,
            views(out@) + as_text(invocations_from(c@, k as int, pos as int)) == views(
                old(out)@,
            ) + as_text(invocations_from(c@, k as int, 0)),
        decreases c.len() + 1 - pos,
    {
        let ghost before = out@;
        let ghost rest = invocations_from(c@, k as int, pos as int);
        if matches_at_exec(c, start, pos) {
            let ghost next = invocations_from(c@, k as int, pos + start@.len());
            match invocation_at_exec(c, k, pos) {
                Some(v) => {
                    let shown_text = latin1_string(&v);
                    out.push(shown_text);
                    assert(rest == seq![v@] + next);
                    assert(views(out@) + as_text(next) =~= views(before) + as_text(rest));
                },
                None => {
                    assert(rest == next);
                },
            }
            pos = pos + start.len();
        } else {
            pos = pos + 1;
        }
    }
    assert(as_text(invocations_from(c@, k as int, pos as int)) =~= seq![]);
    assert(views(out@) =~= views(out@) + as_text(invocations_from(c@, k as int, pos as int)));
}

/// The host `cfg` invocations in `source`: `#[cfg]`, `#[cfg_attr]`, `#![cfg]`,
/// `#![cfg_attr]`, `cfg!()` and `cfg_select!` whose condition names a host selector, found
/// outside comments and literals, in order of form, then of position.
pub fn host_cfg_invocations(source: &str) -> (r: Vec<String>)
    ensures
        views(r@) == as_text(host_cfg_invocations_spec(source.spec_bytes())),
{
    let code = mask_bytes(source.as_bytes());
    let compact = compact_code(&code);
    let mut out: Vec<String> = Vec::new();
    let mut k: usize = 0;
    while k < 7
        invariant
            k <= 7,
            compact@ == compacted(masked(source.spec_bytes())),
            views(out@) + as_text(invocations_of_forms(compact@, k as int)) == as_text(
                invocations_of_forms(compact@, 0),
            ),
        decreases 7 - k,
    {
        let ghost before = out@;
        push_invocations_of_form(&mut out, &compact, k);
        proof {
            let here = invocations_from(compact@, k as int, 0);
            let later = invocations_of_forms(compact@, k + 1);
            assert(invocations_of_forms(compact@, k as int) == here + later);
            assert(as_text(here + later) =~= as_text(here) + as_text(later));
            assert(views(out@) + as_text(later) =~= views(before) + as_text(
                invocations_of_forms(compact@, k as int),
            ));
        }
        k = k + 1;
    }
    assert(views(out@) =~= views(out@) + as_text(invocations_of_forms(compact@, 7)));
    out
}

/// The native OS references in `source`, each marker once, in table order.
pub fn native_host_references(source: &str) -> (r: Vec<String>)
    ensures
        views(r@) == as_text(native_host_references_spec(source.spec_bytes())),
{
    let code = mask_bytes(source.as_bytes());
    let mut out: Vec<String> = Vec::new();
    let mut i: usize = 0;
    while i < 10
        invariant
            i <= 10,
            code@ == masked(source.spec_bytes()),
            views(out@) + as_text(native_from(code@, i as int)) == as_text(
                native_from(code@, 0),
            ),
        decreases 10 - i,
    {
        let ghost before = out@;
        let marker = native_marker_bytes(i);
        let found = contains_identifier_exec(&code, marker);
        if found {
            out.push(latin1_string(marker));
        }
        proof {
            let later = native_from(code@, i + 1);
            let here: Seq<Seq<u8>> = if found {
                seq![marker@]
            } else {
                seq![]
            };
            assert(native_from(code@, i as int) == here + later);
            assert(as_text(here + later) =~= as_text(here) + as_text(later));
            assert(views(out@) + as_text(later) =~= views(before) + as_text(
                native_from(code@, i as int),
            ));
        }
        i = i + 1;
    }
    assert(views(out@) =~= views(out@) + as_text(native_from(code@, 10)));
    out
}

/// The direct references to host trees in `source`, each tree name once per occurrence, in
/// table order.
pub fn host_tree_references(source: &str) -> (r: Vec<String>)
    ensures
        views(r@) == as_text(host_tree_references_spec(source.spec_bytes())),
{
    let code = mask_bytes(source.as_bytes());
    let mut out: Vec<String> = Vec::new();
    let mut i: usize = 0;
    while i < 8
        invariant
            i <= 8,
            code@ == masked(source.spec_bytes()),
            views(out@) + as_text(tree_refs_from(code@, i as int)) == as_text(
                tree_refs_from(code@, 0),
            ),
        decreases 8 - i,
    {
        let ghost before = out@;
        let name = host_tree_ref_bytes(i);
        let found = standalone_matches(&code, name);
        let ghost count = standalone_offsets(code@, name@, 0).len();
        assert(found@.map_values(|o: usize| o as int).len() == found@.len());
        let mut n: usize = 0;
        while n < found.len()
            invariant
                n <= found.len(),
                found@.len() == count,
                views(out@) == views(before) + Seq::new(n as nat, |_m: int| latin1(name@)),
            decreases found.len() - n,
        {
            let ghost prev = out@;
            out.push(latin1_string(name));
            assert(views(out@) =~= views(prev).push(latin1(name@)));
            n = n + 1;
            assert(views(out@) =~= views(before) + Seq::new(n as nat, |_m: int| latin1(name@)));
        }
        proof {
            let later = tree_refs_from(code@, i + 1);
            let here = Seq::new(count, |_n: int| name@);
            assert(tree_refs_from(code@, i as int) == here + later);
            assert(as_text(here + later) =~= as_text(here) + as_text(later));
            assert(as_text(here) =~= Seq::new(count, |_m: int| latin1(name@)));
            assert(views(out@) + as_text(later) =~= views(before) + as_text(
                tree_refs_from(code@, i as int),
            ));
        }
        i = i + 1;
    }
    assert(views(out@) =~= views(out@) + as_text(tree_refs_from(code@, 8)));
    out
}

/// `code_without_comments_or_strings`: the source with comments, string literals and char
/// literals blanked out, one char per source byte.
pub fn code_without_comments_or_strings(source: &str) -> (r: String)
    ensures
        r@ == latin1(masked(source.spec_bytes())),
{
    let code = mask_bytes(source.as_bytes());
    latin1_string(&code)
}

/// The native markers are pairwise different.
proof fn lemma_native_markers_differ(a: int, b: int)
    requires
        0 <= a < b < native_marker_count(),
    ensures
        ascii(native_marker(a)) != ascii(native_marker(b)),
{
    reveal_strlit("std::os::windows");
    reveal_strlit("std::os::unix");
    reveal_strlit("std::os::linux");
    reveal_strlit("std::os::macos");
    reveal_strlit("std::os::fd");
    reveal_strlit("std::os::wasi");
    reveal_strlit("windows_sys");
    reveal_strlit("windows::Win32");
    reveal_strlit("libc::");
    reveal_strlit("nix::");
    let x = ascii(native_marker(a));
    let y = ascii(native_marker(b));
    if x == y {
        assert(x.len() == y.len());
        assert(x[0] == y[0]);
        assert(x[x.len() - 2] == y[y.len() - 2]);
        assert(false);
    }
}

/// What the native references from marker `i` on hold: each marker at most once, and a
/// marker exactly when it stands alone in `code`.
proof fn lemma_native_from(code: Seq<u8>, i: int)
    requires
        0 <= i <= native_marker_count(),
    ensures
        native_from(code, i).no_duplicates(),
        native_from(code, i).len() <= native_marker_count() - i,
        forall|n: int|
            0 <= n < native_from(code, i).len() ==> exists|k: int|
                i <= k < native_marker_count() && #[trigger] native_from(code, i)[n] == ascii(
                    native_marker(k),
                ),
        forall|k: int|
            i <= k < native_marker_count() ==> (native_from(code, i).contains(
                #[trigger] ascii(native_marker(k)),
            ) <==> contains_identifier(code, ascii(native_marker(k)))),
    decreases native_marker_count() - i,
{
    if i < native_marker_count() {
        lemma_native_from(code, i + 1);
        let m = ascii(native_marker(i));
        let later = native_from(code, i + 1);
        let r = native_from(code, i);
        assert forall|k: int| i < k < native_marker_count() implies ascii(native_marker(k))
            != m by {
            lemma_native_markers_differ(i, k);
        }
        assert(!later.contains(m)) by {
            if later.contains(m) {
                let n = choose|n: int| 0 <= n < later.len() && later[n] == m;
                let k = choose|k: int| i + 1 <= k < native_marker_count() && #[trigger] later[n]
                    == ascii(native_marker(k));
                assert(ascii(native_marker(k)) != m);
            }
        }
        if contains_identifier(code, m) {
            assert(r == seq![m] + later);
            assert forall|n: int| 0 <= n < r.len() implies exists|k: int|
                i <= k < native_marker_count() && #[trigger] r[n] == ascii(native_marker(k)) by {
                if n == 0 {
                    assert(r[0] == ascii(native_marker(i)));
                } else {
                    assert(r[n] == later[n - 1]);
                    let k = choose|k: int| i + 1 <= k < native_marker_count() && #[trigger] later[n
                        - 1] == ascii(native_marker(k));
                    assert(r[n] == ascii(native_marker(k)));
                }
            }
            assert forall|a: int, b: int| 0 <= a < b < r.len() implies r[a] != r[b] by {
                if a == 0 {
                    assert(r[b] == later[b - 1]);
                } else {
                    assert(r[a] == later[a - 1] && r[b] == later[b - 1]);
                }
            }
            assert forall|k: int| i <= k < native_marker_count() implies (r.contains(
                #[trigger] ascii(native_marker(k)),
            ) <==> contains_identifier(code, ascii(native_marker(k)))) by {
                if k == i {
                    assert(r[0] == m);
                } else {
                    let mk = ascii(native_marker(k));
                    if later.contains(mk) {
                        let n = choose|n: int| 0 <= n < later.len() && later[n] == mk;
                        assert(r[n + 1] == mk);
                    }
                    if r.contains(mk) {
                        let n = choose|n: int| 0 <= n < r.len() && r[n] == mk;
                        if n == 0 {
                            lemma_native_markers_differ(i, k);
                        } else {
                            assert(later[n - 1] == mk);
                        }
                    }
                }
            }
        } else {
            assert(r =~= later);
            assert forall|k: int| i <= k < native_marker_count() implies (r.contains(
                #[trigger] ascii(native_marker(k)),
            ) <==> contains_identifier(code, ascii(native_marker(k)))) by {
                if k == i {
                }
            }
        }
    }
}

/// Each native marker is reported at most once, however often it occurs: a marker is among
/// the native references exactly when it stands alone somewhere in the masked source, so
/// there are never more references than markers.
pub proof fn law_native_references_name_each_marker_once(source: Seq<u8>)
    ensures
        native_host_references_spec(source).no_duplicates(),
        native_host_references_spec(source).len() <= native_marker_count(),
        forall|n: int|
            0 <= n < native_host_references_spec(source).len() ==> exists|k: int|
                0 <= k < native_marker_count() && #[trigger] native_host_references_spec(
                    source,
                )[n] == ascii(native_marker(k)),
        forall|k: int|
            0 <= k < native_marker_count() ==> (native_host_references_spec(source).contains(
                #[trigger] ascii(native_marker(k)),
            ) <==> standalone_offsets(masked(source), ascii(native_marker(k)), 0).len() > 0),
{
    lemma_native_from(masked(source), 0);
}

/// Text inside comments and literals never contributes a finding: scanning source whose
/// comments and literals are already blanked finds exactly what scanning the source finds.
pub proof fn law_findings_ignore_comments_and_literals(source: Seq<u8>)
    ensures
        host_cfg_invocations_spec(masked(source)) == host_cfg_invocations_spec(source),
        native_host_references_spec(masked(source)) == native_host_references_spec(source),
        host_tree_references_spec(masked(source)) == host_tree_references_spec(source),
{
    law_masking_is_idempotent(source);
}

} // verus!
