//! Which files the host boundary applies to, and the baseline of files that still select the
//! host, by workspace-relative path.

use vstd::prelude::*;
use vstd::string::StringSliceAdditionalSpecFns;
use crate::text::{ascii, contains, ends_with, literal_bytes, matches_at, matches_at_exec, starts_with};

verus! {

/// The path with every `\` turned into `/`.
pub open spec fn normalize(f: Seq<u8>) -> Seq<u8> {
    f.map_values(|b: u8| if b == 92 { 47u8 } else { b })
}

/// The crate directories of the workspace, used to make paths workspace-relative.
pub open spec fn crate_dir(i: int) -> Seq<char> {
    if i == 0 {
        "libwild/"@
    } else if i == 1 {
        "wild/"@
    } else if i == 2 {
        "linker-diff/"@
    } else if i == 3 {
        "linker-utils/"@
    } else if i == 4 {
        "linker-layout/"@
    } else {
        "linker-trace/"@
    }
}

pub open spec fn crate_dir_count() -> int {
    6
}

/// The host trees under `libwild/src/host/`.
pub open spec fn host_tree(i: int) -> Seq<char> {
    if i == 0 {
        "unix"@
    } else if i == 1 {
        "linux"@
    } else if i == 2 {
        "macos"@
    } else if i == 3 {
        "illumos"@
    } else if i == 4 {
        "other_unix"@
    } else if i == 5 {
        "windows"@
    } else {
        "wasi"@
    }
}

pub open spec fn host_tree_count() -> int {
    7
}

pub open spec fn host_dir() -> Seq<u8> {
    ascii("libwild/src/host/"@)
}

/// Files outside the host trees that still select the host, and how many findings each may
/// have. Everything else must have none.
pub open spec fn baseline_path(i: int) -> Seq<char> {
    if i == 0 {
        "wild/tests/integration_tests.rs"@
    } else if i == 1 {
        "wild/tests/external_tests/lld_tests.rs"@
    } else {
        "linker-diff/src/utils.rs"@
    }
}

pub open spec fn baseline_count(i: int) -> usize {
    if i == 0 {
        14
    } else {
        1
    }
}

pub open spec fn baseline_len() -> int {
    3
}

pub open spec fn opt_int(o: Option<usize>) -> Option<int> {
    match o {
        Some(b) => Some(b as int),
        None => None,
    }
}

proof fn lemma_max_opt_assoc(a: Option<int>, b: Option<int>, c: Option<int>)
    ensures
        max_opt(a, max_opt(b, c)) == max_opt(max_opt(a, b), c),
{
}

/// A match at `o` begins a path component.
pub open spec fn at_component_start(n: Seq<u8>, o: int) -> bool {
    o == 0 || n[o - 1] == 47
}

/// The last of the non-overlapping matches of `d` from `from` on that begins a component.
pub open spec fn last_anchor(n: Seq<u8>, d: Seq<u8>, from: int) -> Option<int>
    decreases n.len() - from,
{
    if d.len() == 0 || from < 0 || from + d.len() > n.len() {
        None
    } else if matches_at(n, d, from) {
        let later = last_anchor(n, d, from + d.len());
        if later is Some {
            later
        } else if at_component_start(n, from) {
            Some(from)
        } else {
            None
        }
    } else {
        last_anchor(n, d, from + 1)
    }
}

pub open spec fn max_opt(a: Option<int>, b: Option<int>) -> Option<int> {
    match (a, b) {
        (Some(x), Some(y)) => Some(if x >= y { x } else { y }),
        (Some(x), None) => Some(x),
        (None, _) => b,
    }
}

pub open spec fn relative_from(n: Seq<u8>, i: int) -> Option<int>
    decreases crate_dir_count() - i,
{
    if i < 0 || i >= crate_dir_count() {
        None
    } else {
        max_opt(last_anchor(n, ascii(crate_dir(i)), 0), relative_from(n, i + 1))
    }
}

/// Where the workspace-relative part of a normalized path starts: the deepest crate
/// directory that begins a path component (the repository is itself called `wild`, as is
/// one of its crates).
pub open spec fn workspace_relative_spec(n: Seq<u8>) -> Option<int> {
    relative_from(n, 0)
}

/// `rest` (the path below `host/`) is the tree `tree`: `<tree>.rs` or anything under
/// `<tree>/`.
pub open spec fn is_tree_file(rest: Seq<u8>, tree: Seq<u8>) -> bool {
    &&& starts_with(rest, tree)
    &&& (rest.skip(tree.len() as int) == ascii(".rs"@) || starts_with(
        rest.skip(tree.len() as int),
        seq![47u8],
    ))
}

/// `host/mod.rs`, `host/<tree>.rs` and anything under `host/<tree>/`. A facade such as
/// `host/fs.rs`, or a lookalike such as `host/unixish.rs`, is not a tree.
pub open spec fn is_host_tree_file_spec(relative: Seq<u8>) -> bool {
    &&& starts_with(relative, host_dir())
    &&& {
        let rest = relative.skip(host_dir().len() as int);
        ||| rest == ascii("mod.rs"@)
        ||| exists|t: int| 0 <= t < host_tree_count() && is_tree_file(rest, ascii(host_tree(t)))
    }
}

/// Rust sources the boundary applies to: every workspace crate's files except `host/mod.rs`
/// and the host trees, plus the lint's own `ui/` fixtures.
pub open spec fn in_scope_spec(f: Seq<u8>) -> bool {
    let n = normalize(f);
    &&& ends_with(n, ascii(".rs"@))
    &&& match workspace_relative_spec(n) {
        Some(o) => !is_host_tree_file_spec(n.skip(o)),
        None => starts_with(n, ascii("ui/"@)) || contains(n, ascii("/ui/"@)),
    }
}

/// The facades and the trees may name the trees directly; nothing else may.
pub open spec fn inside_host_dir_spec(f: Seq<u8>) -> bool {
    let n = normalize(f);
    match workspace_relative_spec(n) {
        Some(o) => starts_with(n.skip(o), host_dir()),
        None => false,
    }
}

pub open spec fn baseline_lookup(relative: Seq<u8>, i: int) -> usize
    decreases baseline_len() - i,
{
    if i < 0 || i >= baseline_len() {
        0
    } else if relative == ascii(baseline_path(i)) {
        baseline_count(i)
    } else {
        baseline_lookup(relative, i + 1)
    }
}

/// How many findings the file may have: its baseline entry, or none.
pub open spec fn baseline_allowance_spec(f: Seq<u8>) -> usize {
    let n = normalize(f);
    match workspace_relative_spec(n) {
        Some(o) => baseline_lookup(n.skip(o), 0),
        None => 0,
    }
}

/// Files outside the host trees that still select the host, with how many findings each
/// has today.
pub const BASELINE: [(&'static str, usize); 3] = [
    ("wild/tests/integration_tests.rs", 14),
    ("wild/tests/external_tests/lld_tests.rs", 1),
    ("linker-diff/src/utils.rs", 1),
];

fn crate_dir_bytes(i: usize) -> (r: &'static [u8])
    requires
        i < 6,
    ensures
        r@ == ascii(crate_dir(i as int)),
        r@.len() > 0,
{
    if i == 0 {
        proof {
            reveal_strlit("libwild/");
        }
        literal_bytes("libwild/")
    } else if i == 1 {
        proof {
            reveal_strlit("wild/");
        }
        literal_bytes("wild/")
    } else if i == 2 {
        proof {
            reveal_strlit("linker-diff/");
        }
        literal_bytes("linker-diff/")
    } else if i == 3 {
        proof {
            reveal_strlit("linker-utils/");
        }
        literal_bytes("linker-utils/")
    } else if i == 4 {
        proof {
            reveal_strlit("linker-layout/");
        }
        literal_bytes("linker-layout/")
    } else {
        proof {
            reveal_strlit("linker-trace/");
        }
        literal_bytes("linker-trace/")
    }
}

fn host_tree_bytes(i: usize) -> (r: &'static [u8])
    requires
        i < 7,
    ensures
        r@ == ascii(host_tree(i as int)),
{
    if i == 0 {
        proof {
            reveal_strlit("unix");
        }
        literal_bytes("unix")
    } else if i == 1 {
        proof {
            reveal_strlit("linux");
        }
        literal_bytes("linux")
    } else if i == 2 {
        proof {
            reveal_strlit("macos");
        }
        literal_bytes("macos")
    } else if i == 3 {
        proof {
            reveal_strlit("illumos");
        }
        literal_bytes("illumos")
    } else if i == 4 {
        proof {
            reveal_strlit("other_unix");
        }
        literal_bytes("other_unix")
    } else if i == 5 {
        proof {
            reveal_strlit("windows");
        }
        literal_bytes("windows")
    } else {
        proof {
            reveal_strlit("wasi");
        }
        literal_bytes("wasi")
    }
}

fn baseline_path_bytes(i: usize) -> (r: &'static [u8])
    requires
        i < 3,
    ensures
        r@ == ascii(baseline_path(i as int)),
{
    if i == 0 {
        proof {
            reveal_strlit("wild/tests/integration_tests.rs");
        }
        literal_bytes("wild/tests/integration_tests.rs")
    } else if i == 1 {
        proof {
            reveal_strlit("wild/tests/external_tests/lld_tests.rs");
        }
        literal_bytes("wild/tests/external_tests/lld_tests.rs")
    } else {
        proof {
            reveal_strlit("linker-diff/src/utils.rs");
        }
        literal_bytes("linker-diff/src/utils.rs")
    }
}

fn host_dir_bytes() -> (r: &'static [u8])
    ensures
        r@ == host_dir(),
{
    proof {
        reveal_strlit("libwild/src/host/");
    }
    literal_bytes("libwild/src/host/")
}

/// Equality of two byte strings.
fn bytes_equal(a: &[u8], b: &[u8]) -> (r: bool)
    ensures
        r == (a@ == b@),
{
    if a.len() != b.len() {
        return false;
    }
    let r = matches_at_exec(a, b, 0);
    assert(a@.subrange(0, b@.len() as int) =~= a@);
    r
}

/// `filename.replace('\\', "/")`, as bytes.
pub fn normalize_separators(filename: &[u8]) -> (r: Vec<u8>)
    ensures
        r@ == normalize(filename@),
{
    let mut out: Vec<u8> = Vec::new();
    let mut i: usize = 0;
    while i < filename.len()
        invariant
            i <= filename.len(),
            out@ == normalize(filename@.take(i as int)),
        decreases filename.len() - i,
    {
        let b = filename[i];
        out.push(if b == 92 {
            47
        } else {
            b
        });
        i = i + 1;
        assert(normalize(filename@.take(i as int)) =~= normalize(filename@.take(i - 1)).push(
            if b == 92 {
                47u8
            } else {
                b
            },
        ));
    }
    assert(filename@.take(i as int) =~= filename@);
    out
}

fn last_anchor_exec(n: &[u8], d: &[u8]) -> (r: Option<usize>)
    requires
        d.len() > 0,
    ensures
        opt_int(r) == last_anchor(n@, d@, 0),
{
    let mut best: Option<usize> = None;
    let mut pos: usize = 0;
    while pos <= n.len() && d.len() <= n.len() - pos
        invariant
            d.len() > 0,
            pos <= n.len() + 1,
            best matches Some(b) ==> b < pos,
            last_anchor(n@, d@, 0) == (if last_anchor(n@, d@, pos as int) is Some {
                last_anchor(n@, d@, pos as int)
            } else {
                opt_int(best)
            }),
        decreases n.len() + 1 - pos,
    {
        let ghost p = pos as int;
        if matches_at_exec(n, d, pos) {
            assert(last_anchor(n@, d@, p) == (if last_anchor(n@, d@, p + d@.len()) is Some {
                last_anchor(n@, d@, p + d@.len())
            } else if at_component_start(n@, p) {
                Some(p)
            } else {
                None
            }));
            if pos == 0 || n[pos - 1] == 47 {
                best = Some(pos);
            }
            pos = pos + d.len();
        } else {
            assert(last_anchor(n@, d@, p) == last_anchor(n@, d@, p + 1));
            pos = pos + 1;
        }
    }
    assert(last_anchor(n@, d@, pos as int) is None);
    best
}

/// `workspace_relative`: where the workspace-relative part of a normalized path starts.
pub fn workspace_relative(normalized: &[u8]) -> (r: Option<usize>)
    ensures
        opt_int(r) == workspace_relative_spec(normalized@),
{
    let mut best: Option<usize> = None;
    let mut i: usize = 0;
    while i < 6
        invariant
            i <= 6,
            workspace_relative_spec(normalized@) == max_opt(
                opt_int(best),
                relative_from(normalized@, i as int),
            ),
        decreases 6 - i,
    {
        let here = last_anchor_exec(normalized, crate_dir_bytes(i));
        let ghost prev = opt_int(best);
        let ghost h = last_anchor(normalized@, ascii(crate_dir(i as int)), 0);
        assert(relative_from(normalized@, i as int) == max_opt(h, relative_from(
            normalized@,
            i + 1,
        )));
        best = match (best, here) {
            (Some(a), Some(b)) => Some(if a >= b {
                a
            } else {
                b
            }),
            (Some(a), None) => Some(a),
            (None, h) => h,
        };
        proof {
            assert(opt_int(best) == max_opt(prev, h));
            lemma_max_opt_assoc(prev, h, relative_from(normalized@, i + 1));
        }
        i = i + 1;
    }
    assert(relative_from(normalized@, 6) is None);
    best
}

/// Whether `relative` (a workspace-relative, normalized path) is `host/mod.rs` or in a host
/// tree.
pub fn is_host_tree_file(relative: &[u8]) -> (r: bool)
    ensures
        r == is_host_tree_file_spec(relative@),
{
    let host = host_dir_bytes();
    if !matches_at_exec(relative, host, 0) {
        return false;
    }
    let rest = crate::text::slice_copy(relative, host.len(), relative.len());
    assert(rest@ =~= relative@.skip(host_dir().len() as int));
    proof {
        reveal_strlit("mod.rs");
    }
    if bytes_equal(&rest, literal_bytes("mod.rs")) {
        return true;
    }
    let mut t: usize = 0;
    while t < 7
        invariant
            t <= 7,
            starts_with(relative@, host_dir()),
            rest@ == relative@.skip(host_dir().len() as int),
            forall|k: int| 0 <= k < t ==> !is_tree_file(rest@, ascii(host_tree(k))),
        decreases 7 - t,
    {
        let tree = host_tree_bytes(t);
        if matches_at_exec(&rest, tree, 0) {
            let after = crate::text::slice_copy(&rest, tree.len(), rest.len());
            assert(after@ =~= rest@.skip(tree@.len() as int));
            proof {
                reveal_strlit(".rs");
            }
            let is_rs = bytes_equal(&after, literal_bytes(".rs"));
            let slash_bytes = vec![47u8];
            assert(slash_bytes@ =~= seq![47u8]);
            let slash = matches_at_exec(&after, &slash_bytes, 0);
            if is_rs || slash {
                assert(is_tree_file(rest@, ascii(host_tree(t as int))));
                return true;
            }
        }
        t = t + 1;
    }
    false
}

/// Whether the boundary applies to `filename`.
pub fn in_scope(filename: &str) -> (r: bool)
    ensures
        r == in_scope_spec(filename.spec_bytes()),
{
    let n = normalize_separators(filename.as_bytes());
    proof {
        reveal_strlit(".rs");
    }
    let rs = literal_bytes(".rs");
    if n.len() < rs.len() || !matches_at_exec(&n, rs, n.len() - rs.len()) {
        return false;
    }
    match workspace_relative(&n) {
        Some(o) => {
            proof {
                law_relative_part_is_anchored(n@);
            }
            let relative = crate::text::slice_copy(&n, o, n.len());
            assert(relative@ =~= n@.skip(o as int));
            !is_host_tree_file(&relative)
        },
        None => {
            proof {
                reveal_strlit("ui/");
                reveal_strlit("/ui/");
            }
            let ui = literal_bytes("ui/");
            if matches_at_exec(&n, ui, 0) {
                return true;
            }
            let inner = literal_bytes("/ui/");
            let found = crate::text::match_indices(&n, inner);
            proof {
                crate::text::lemma_match_offsets_are_matches(n@, inner@, 0);
                crate::text::lemma_no_match_offsets_no_match(n@, inner@, 0);
                assert(found@.map_values(|o: usize| o as int).len() == found@.len());
                if found@.len() > 0 {
                    assert(matches_at(n@, inner@, found@.map_values(|o: usize| o as int)[0]));
                }
            }
            found.len() > 0
        },
    }
}

/// Whether `filename` lies under `libwild/src/host/`.
pub fn inside_host_dir(filename: &str) -> (r: bool)
    ensures
        r == inside_host_dir_spec(filename.spec_bytes()),
{
    let n = normalize_separators(filename.as_bytes());
    match workspace_relative(&n) {
        Some(o) => {
            proof {
                law_relative_part_is_anchored(n@);
            }
            let relative = crate::text::slice_copy(&n, o, n.len());
            assert(relative@ =~= n@.skip(o as int));
            matches_at_exec(&relative, host_dir_bytes(), 0)
        },
        None => false,
    }
}

/// How many findings `filename` may have.
pub fn baseline_allowance(filename: &str) -> (r: usize)
    ensures
        r == baseline_allowance_spec(filename.spec_bytes()),
{
    let n = normalize_separators(filename.as_bytes());
    match workspace_relative(&n) {
        Some(o) => {
            proof {
                law_relative_part_is_anchored(n@);
            }
            let relative = crate::text::slice_copy(&n, o, n.len());
            assert(relative@ =~= n@.skip(o as int));
            let mut i: usize = 0;
            while i < 3
                invariant
                    i <= 3,
                    n@ == normalize(filename.spec_bytes()),
                    workspace_relative_spec(n@) == Some(o as int),
                    relative@ == n@.skip(o as int),
                    baseline_lookup(relative@, i as int) == baseline_lookup(relative@, 0),
                decreases 3 - i,
            {
                if bytes_equal(&relative, baseline_path_bytes(i)) {
                    assert(baseline_lookup(relative@, i as int) == baseline_count(i as int));
                    return if i == 0 {
                        14
                    } else {
                        1
                    };
                }
                i = i + 1;
            }
            assert(baseline_lookup(relative@, 3) == 0);
            0
        },
        None => 0,
    }
}

/// A path is judged the same whichever separator it is written with: normalizing is
/// idempotent, so scope, host-directory membership and baseline allowance of a path equal
/// those of its `/`-separated form.
pub proof fn law_separators_do_not_matter(f: Seq<u8>)
    ensures
        in_scope_spec(normalize(f)) == in_scope_spec(f),
        inside_host_dir_spec(normalize(f)) == inside_host_dir_spec(f),
        baseline_allowance_spec(normalize(f)) == baseline_allowance_spec(f),
{
    assert(normalize(normalize(f)) =~= normalize(f));
}

/// The workspace-relative part of a path starts at a component boundary with a crate
/// directory.
pub proof fn law_relative_part_is_anchored(n: Seq<u8>)
    ensures
        workspace_relative_spec(n) matches Some(o) ==> at_component_start(n, o) && exists|i: int|
            0 <= i < crate_dir_count() && matches_at(n, ascii(crate_dir(i)), o),
{
    lemma_relative_from_anchored(n, 0);
}

proof fn lemma_last_anchor_anchored(n: Seq<u8>, d: Seq<u8>, from: int)
    ensures
        last_anchor(n, d, from) matches Some(o) ==> at_component_start(n, o) && matches_at(
            n,
            d,
            o,
        ) && from <= o,
    decreases n.len() - from,
{
    if d.len() == 0 || from < 0 || from + d.len() > n.len() {
    } else if matches_at(n, d, from) {
        lemma_last_anchor_anchored(n, d, from + d.len());
    } else {
        lemma_last_anchor_anchored(n, d, from + 1);
    }
}

proof fn lemma_relative_from_anchored(n: Seq<u8>, i: int)
    ensures
        relative_from(n, i) matches Some(o) ==> at_component_start(n, o) && exists|k: int|
            i <= k < crate_dir_count() && matches_at(n, ascii(crate_dir(k)), o),
    decreases crate_dir_count() - i,
{
    if 0 <= i < crate_dir_count() {
        lemma_relative_from_anchored(n, i + 1);
        lemma_last_anchor_anchored(n, ascii(crate_dir(i)), 0);
    }
}

/// The last byte of `d` occurs nowhere else in it, so two matches of `d` never overlap.
pub open spec fn ends_uniquely(d: Seq<u8>) -> bool {
    d.len() > 0 && forall|k: int| 0 <= k < d.len() - 1 ==> #[trigger] d[k] != d.last()
}

/// Every anchored match of `d` from `from` on is at or before the one `last_anchor` picks.
proof fn lemma_last_anchor_is_last(n: Seq<u8>, d: Seq<u8>, from: int, o: int)
    requires
        ends_uniquely(d),
        0 <= from <= o,
        matches_at(n, d, o),
        at_component_start(n, o),
    ensures
        last_anchor(n, d, from) matches Some(r) && r >= o,
    decreases n.len() - from,
{
    let len = d.len() as int;
    if matches_at(n, d, from) {
        lemma_last_anchor_anchored(n, d, from + len);
        if o >= from + len {
            lemma_last_anchor_is_last(n, d, from + len, o);
        } else if o > from {
            let p = from + len - 1;
            assert(n[p] == n.subrange(from, from + len)[len - 1]);
            assert(n[p] == n.subrange(o, o + len)[p - o]);
            assert(d[p - o] == d.last());
        }
    } else {
        assert(o != from);
        lemma_last_anchor_is_last(n, d, from + 1, o);
    }
}

proof fn lemma_crate_dirs_end_uniquely(i: int)
    requires
        0 <= i < crate_dir_count(),
    ensures
        ends_uniquely(ascii(crate_dir(i))),
{
    reveal_strlit("libwild/");
    reveal_strlit("wild/");
    reveal_strlit("linker-diff/");
    reveal_strlit("linker-utils/");
    reveal_strlit("linker-layout/");
    reveal_strlit("linker-trace/");
    let d = ascii(crate_dir(i));
    assert forall|k: int| 0 <= k < d.len() - 1 implies #[trigger] d[k] != d.last() by {
        assert(crate_dir(i)[k] != '/');
    }
}

proof fn lemma_relative_from_is_deepest(n: Seq<u8>, i: int, k: int, o: int)
    requires
        0 <= i <= k < crate_dir_count(),
        matches_at(n, ascii(crate_dir(k)), o),
        at_component_start(n, o),
    ensures
        relative_from(n, i) matches Some(r) && r >= o,
    decreases k - i,
{
    if i == k {
        lemma_crate_dirs_end_uniquely(k);
        lemma_last_anchor_is_last(n, ascii(crate_dir(k)), 0, o);
    } else {
        lemma_relative_from_is_deepest(n, i + 1, k, o);
    }
}

/// The deepest match wins: the workspace-relative part starts at or after every crate
/// directory that begins a path component.
pub proof fn law_deepest_crate_directory_wins(n: Seq<u8>, k: int, o: int)
    requires
        0 <= k < crate_dir_count(),
        matches_at(n, ascii(crate_dir(k)), o),
        at_component_start(n, o),
    ensures
        workspace_relative_spec(n) matches Some(r) && r >= o,
{
    lemma_relative_from_is_deepest(n, 0, k, o);
}

/// Only `host/mod.rs` and the host trees are exempt, and they all lie under
/// `libwild/src/host/`; every other Rust file of a workspace crate is in scope.
pub proof fn law_only_host_trees_are_exempt(f: Seq<u8>)
    ensures
        ({
            let n = normalize(f);
            workspace_relative_spec(n) matches Some(o) ==> (ends_with(n, ascii(".rs"@)) ==> (
            !in_scope_spec(f) <==> is_host_tree_file_spec(n.skip(o))))
        }),
        !in_scope_spec(f) && ends_with(normalize(f), ascii(".rs"@))
            && workspace_relative_spec(normalize(f)) is Some ==> inside_host_dir_spec(f),
{
}


/// Everything below a host tree's directory belongs to the tree, however deep it is nested:
/// `libwild/src/host/<tree>/` followed by any path is a host-tree file, and a file whose
/// workspace-relative path it is, is out of scope.
pub proof fn law_everything_under_a_tree_is_exempt(t: int, p: Seq<u8>, f: Seq<u8>)
    requires
        0 <= t < host_tree_count(),
    ensures
        is_host_tree_file_spec(host_dir() + ascii(host_tree(t)) + seq![47u8] + p),
        ({
            let n = normalize(f);
            workspace_relative_spec(n) matches Some(o) && n.skip(o) == host_dir() + ascii(
                host_tree(t),
            ) + seq![47u8] + p ==> !in_scope_spec(f)
        }),
{
    let tree = ascii(host_tree(t));
    let relative = host_dir() + tree + seq![47u8] + p;
    let rest = relative.skip(host_dir().len() as int);
    assert(relative.subrange(0, host_dir().len() as int) =~= host_dir());
    assert(rest =~= tree + seq![47u8] + p);
    assert(rest.subrange(0, tree.len() as int) =~= tree);
    assert(rest.skip(tree.len() as int) =~= seq![47u8] + p);
    assert(rest.skip(tree.len() as int).subrange(0, 1) =~= seq![47u8]);
    assert(is_tree_file(rest, tree));
}

} // verus!
