//! What the `ban_host_cfg` lint decides for one source file: whether to scan it, what it
//! finds there, and what it reports against the file's baseline allowance.

use vstd::prelude::*;
use vstd::string::StringSliceAdditionalSpecFns;
use crate::text::push_char;
use crate::paths::{baseline_allowance, baseline_allowance_spec, in_scope, in_scope_spec, inside_host_dir, inside_host_dir_spec};
use crate::scan::{
    as_text,
    host_cfg_invocations,
    host_cfg_invocations_spec,
    host_tree_references,
    host_tree_references_spec,
    native_host_references,
    native_host_references_spec,
    views,
};

verus! {

pub open spec fn quoted(label: Seq<char>, items: Seq<Seq<char>>) -> Seq<Seq<char>> {
    items.map_values(|t: Seq<char>| label + t + "`"@)
}

/// The findings for a file, as the messages that name them: host `cfg` invocations, native
/// OS references and, outside `libwild/src/host/`, direct references to host trees.
pub open spec fn findings_spec(filename: Seq<u8>, source: Seq<u8>) -> Seq<Seq<char>> {
    quoted("host cfg `"@, as_text(host_cfg_invocations_spec(source))) + quoted(
        "native OS reference `"@,
        as_text(native_host_references_spec(source)),
    ) + if inside_host_dir_spec(filename) {
        seq![]
    } else {
        quoted("host tree named directly: `"@, as_text(host_tree_references_spec(source)))
    }
}

/// What the lint reports for one file.
#[derive(Debug, Clone, PartialEq, Eq)]
pub enum Diagnostic {
    /// A finding beyond the file's allowance.
    HostSelection(String),
    /// The file has fewer findings than its allowance, which must then be lowered.
    BaselineTooHigh { allowed: usize, found: usize },
}

/// A diagnostic as values.
pub enum DiagnosticView {
    HostSelection(Seq<char>),
    BaselineTooHigh { allowed: nat, found: nat },
}

impl View for Diagnostic {
    type V = DiagnosticView;

    open spec fn view(&self) -> DiagnosticView {
        match self {
            Diagnostic::HostSelection(detail) => DiagnosticView::HostSelection(detail@),
            Diagnostic::BaselineTooHigh { allowed, found } => DiagnosticView::BaselineTooHigh {
                allowed: *allowed as nat,
                found: *found as nat,
            },
        }
    }
}

/// The decimal digit `d` as a char.
pub open spec fn digit_char(d: nat) -> char {
    ((d + 48) as u8) as char
}

/// How `usize` displays: its decimal digits.
pub open spec fn decimal_text(n: nat) -> Seq<char>
    decreases n,
{
    if n < 10 {
        seq![digit_char(n)]
    } else {
        decimal_text(n / 10).push(digit_char(n % 10))
    }
}

/// The text of a diagnostic.
pub open spec fn message_spec(d: DiagnosticView) -> Seq<char> {
    match d {
        DiagnosticView::HostSelection(detail) => "host selection outside libwild's host trees: "@
            + detail
            + "; only libwild/src/host/mod.rs and the host trees may select the host, everything else goes through crate::host"@,
        DiagnosticView::BaselineTooHigh { allowed, found } =>
            "this file's BASELINE allowance in the ban_host_cfg lint is "@ + decimal_text(allowed)
            + ", but it now has "@ + decimal_text(found)
            + " findings; please lower the allowance so it can't grow back"@,
    }
}

/// `n` in decimal.
fn decimal_string(n: usize) -> (r: String)
    ensures
        r@ == decimal_text(n as nat),
    decreases n,
{
    let d: u8 = (n % 10) as u8;
    let c: char = (d + 48) as char;
    if n < 10 {
        let mut s = String::new();
        push_char(&mut s, c);
        assert(s@ =~= decimal_text(n as nat));
        s
    } else {
        let mut s = decimal_string(n / 10);
        push_char(&mut s, c);
        s
    }
}

impl Diagnostic {
    /// The message reported for this diagnostic.
    pub fn message(&self) -> (r: String)
        ensures
            r@ == message_spec(self@),
    {
        match self {
            Diagnostic::HostSelection(detail) => {
                let mut m = String::from_str("host selection outside libwild's host trees: ");
                m.append(detail.as_str());
                m.append(
                    "; only libwild/src/host/mod.rs and the host trees may select the host, everything else goes through crate::host",
                );
                m
            },
            Diagnostic::BaselineTooHigh { allowed, found } => {
                let mut m = String::from_str(
                    "this file's BASELINE allowance in the ban_host_cfg lint is ",
                );
                let a = decimal_string(*allowed);
                m.append(a.as_str());
                m.append(", but it now has ");
                let f = decimal_string(*found);
                m.append(f.as_str());
                m.append(" findings; please lower the allowance so it can't grow back");
                m
            },
        }
    }
}

/// The ratchet: with more findings than allowed, the ones beyond the allowance are
/// reported; with fewer, the allowance is reported as too high; with exactly as many,
/// nothing is reported.
pub open spec fn verdict(findings: Seq<Seq<char>>, allowed: nat) -> Seq<DiagnosticView> {
    if findings.len() > allowed {
        findings.skip(allowed as int).map_values(|d: Seq<char>| DiagnosticView::HostSelection(d))
    } else if findings.len() < allowed {
        seq![DiagnosticView::BaselineTooHigh { allowed, found: findings.len() }]
    } else {
        seq![]
    }
}

pub open spec fn diagnostics_spec(filename: Seq<u8>, source: Seq<u8>) -> Seq<DiagnosticView> {
    verdict(findings_spec(filename, source), baseline_allowance_spec(filename) as nat)
}

/// Appends `label + item + "`"` for each item.
fn push_quoted(out: &mut Vec<String>, label: &str, items: &Vec<String>)
    ensures
        views(final(out)@) == views(old(out)@) + quoted(label@, views(items@)),
{
    let mut i: usize = 0;
    while i < items.len()
        invariant
            i <= items.len(),
            views(out@) == views(old(out)@) + quoted(label@, views(items@).take(i as int)),
        decreases items.len() - i,
    {
        let ghost before = out@;
        let mut message = String::from_str(label);
        message.append(items[i].as_str());
        message.append("`");
        out.push(message);
        i = i + 1;
        assert(views(items@).take(i as int) =~= views(items@).take(i - 1).push(items@[i - 1]@));
        assert(views(out@) =~= views(before).push(label@ + items@[i - 1]@ + "`"@));
        assert(quoted(label@, views(items@).take(i as int)) =~= quoted(
            label@,
            views(items@).take(i - 1),
        ).push(label@ + items@[i - 1]@ + "`"@));
    }
    assert(views(items@).take(i as int) =~= views(items@));
}

/// The findings for `filename` with contents `source`.
pub fn findings(filename: &str, source: &str) -> (r: Vec<String>)
    ensures
        views(r@) == findings_spec(filename.spec_bytes(), source.spec_bytes()),
{
    let mut out: Vec<String> = Vec::new();
    let invocations = host_cfg_invocations(source);
    push_quoted(&mut out, "host cfg `", &invocations);
    let native = native_host_references(source);
    push_quoted(&mut out, "native OS reference `", &native);
    if !inside_host_dir(filename) {
        let trees = host_tree_references(source);
        push_quoted(&mut out, "host tree named directly: `", &trees);
    }
    assert(views(out@) =~= findings_spec(filename.spec_bytes(), source.spec_bytes()));
    out
}

/// The verdict on `findings` against `allowed` (see `verdict`).
pub fn judge(findings: Vec<String>, allowed: usize) -> (r: Vec<Diagnostic>)
    ensures
        r@.map_values(|d: Diagnostic| d@) == verdict(views(findings@), allowed as nat),
{
    let mut out: Vec<Diagnostic> = Vec::new();
    let count = findings.len();
    if count > allowed {
        let mut i: usize = allowed;
        while i < count
            invariant
                allowed <= i <= count,
                count == findings@.len(),
                out@.map_values(|d: Diagnostic| d@) == views(findings@).subrange(
                    allowed as int,
                    i as int,
                ).map_values(|d: Seq<char>| DiagnosticView::HostSelection(d)),
            decreases count - i,
        {
            let ghost before = out@;
            let detail = findings[i].clone();
            out.push(Diagnostic::HostSelection(detail));
            assert(out@.map_values(|d: Diagnostic| d@) =~= before.map_values(|d: Diagnostic| d@).push(
                DiagnosticView::HostSelection(views(findings@)[i as int]),
            ));
            i = i + 1;
            assert(out@.map_values(|d: Diagnostic| d@) =~= views(findings@).subrange(
                allowed as int,
                i as int,
            ).map_values(|d: Seq<char>| DiagnosticView::HostSelection(d)));
        }
        assert(views(findings@).subrange(allowed as int, count as int) =~= views(
            findings@,
        ).skip(allowed as int));
    } else if count < allowed {
        out.push(Diagnostic::BaselineTooHigh { allowed, found: count });
        assert(out@.map_values(|d: Diagnostic| d@) =~= verdict(views(findings@), allowed as nat));
    } else {
        assert(out@.map_values(|d: Diagnostic| d@) =~= verdict(views(findings@), allowed as nat));
    }
    out
}

/// What the lint reports for `filename` with contents `source`.
pub fn file_diagnostics(filename: &str, source: &str) -> (r: Vec<Diagnostic>)
    ensures
        r@.map_values(|d: Diagnostic| d@) == diagnostics_spec(
            filename.spec_bytes(),
            source.spec_bytes(),
        ),
{
    let found = findings(filename, source);
    let allowed = baseline_allowance(filename);
    judge(found, allowed)
}

/// The lint's state across one compilation: the files already scanned.
pub struct BanHostCfg {
    scanned_files: Vec<String>,
}

impl BanHostCfg {
    /// The files scanned so far.
    pub closed spec fn scanned(&self) -> Set<Seq<char>> {
        views(self.scanned_files@).to_set()
    }

    pub fn new() -> (r: Self)
        ensures
            r.scanned() == Set::<Seq<char>>::empty(),
    {
        let r = BanHostCfg { scanned_files: Vec::new() };
        assert(r.scanned() =~= Set::<Seq<char>>::empty());
        r
    }

    /// Whether to scan `filename` now: it is in scope and was not scanned before. A file in
    /// scope counts as scanned from then on, so each file is scanned at most once.
    pub fn begin_file(&mut self, filename: &str) -> (r: bool)
        ensures
            r == (in_scope_spec(filename.spec_bytes()) && !old(self).scanned().contains(
                filename@,
            )),
            final(self).scanned() == (if in_scope_spec(filename.spec_bytes()) {
                old(self).scanned().insert(filename@)
            } else {
                old(self).scanned()
            }),
    {
        if !in_scope(filename) {
            return false;
        }
        let name = String::from_str(filename);
        let mut i: usize = 0;
        while i < self.scanned_files.len()
            invariant
                i <= self.scanned_files.len(),
                name@ == filename@,
                forall|k: int| 0 <= k < i ==> self.scanned_files@[k]@ != filename@,
            decreases self.scanned_files.len() - i,
        {
            if self.scanned_files[i] == name {
                proof {
                    assert(views(self.scanned_files@)[i as int] == filename@);
                    assert(self.scanned().contains(filename@));
                    assert(self.scanned().insert(filename@) =~= self.scanned());
                }
                return false;
            }
            i = i + 1;
        }
        proof {
            assert forall|t: Seq<char>| #[trigger] self.scanned().contains(t) implies t
                != filename@ by {
                let k = choose|k: int|
                    0 <= k < views(self.scanned_files@).len() && views(self.scanned_files@)[k]
                        == t;
                assert(self.scanned_files@[k]@ == t);
            }
        }
        let ghost before = self.scanned_files@;
        self.scanned_files.push(name);
        proof {
            assert(views(self.scanned_files@) =~= views(before).push(filename@));
            views(before).lemma_push_to_set_commute(filename@);
        }
        true
    }
}

/// A file is silent exactly when its findings match its allowance.
pub proof fn law_silent_iff_at_allowance(filename: Seq<u8>, source: Seq<u8>)
    ensures
        diagnostics_spec(filename, source).len() == 0 <==> findings_spec(filename, source).len()
            == baseline_allowance_spec(filename),
{
}

/// A file over its allowance gets one report per finding beyond it, naming the last
/// findings; a file under it gets one report that names both numbers.
pub proof fn law_reports_follow_the_ratchet(filename: Seq<u8>, source: Seq<u8>)
    ensures
        ({
            let f = findings_spec(filename, source);
            let a = baseline_allowance_spec(filename) as int;
            let d = diagnostics_spec(filename, source);
            &&& f.len() > a ==> d.len() == f.len() - a && forall|i: int|
                0 <= i < d.len() ==> d[i] == DiagnosticView::HostSelection(f[a + i])
            &&& f.len() < a ==> d == seq![
                DiagnosticView::BaselineTooHigh { allowed: a as nat, found: f.len() },
            ]
        }),
{
}

/// Outside `libwild/src/host/` (a `ui/` fixture or any other file outside the workspace
/// crates included) a file's findings end with one entry per direct reference to a host tree
/// in its source; inside, there are none. The file's name matters to its findings in no other
/// way.
pub proof fn law_tree_findings_outside_the_host_dir(
    filename: Seq<u8>,
    other: Seq<u8>,
    source: Seq<u8>,
)
    ensures
        ({
            let r = findings_spec(filename, source);
            let t = as_text(host_tree_references_spec(source));
            let base = host_cfg_invocations_spec(source).len()
                + native_host_references_spec(source).len();
            &&& !inside_host_dir_spec(filename) ==> r.len() == base + t.len() && forall|n: int|
                0 <= n < t.len() ==> #[trigger] r[base + n] == "host tree named directly: `"@
                    + t[n] + "`"@
            &&& inside_host_dir_spec(filename) ==> r.len() == base
        }),
        inside_host_dir_spec(filename) == inside_host_dir_spec(other) ==> findings_spec(
            filename,
            source,
        ) == findings_spec(other, source),
        crate::paths::workspace_relative_spec(crate::paths::normalize(filename)) is None
            ==> !inside_host_dir_spec(filename),
{
    let r = findings_spec(filename, source);
    let a = quoted("host cfg `"@, as_text(host_cfg_invocations_spec(source)));
    let b = quoted("native OS reference `"@, as_text(native_host_references_spec(source)));
    let t = as_text(host_tree_references_spec(source));
    let q = quoted("host tree named directly: `"@, t);
    assert(a.len() == host_cfg_invocations_spec(source).len());
    assert(b.len() == native_host_references_spec(source).len());
    if !inside_host_dir_spec(filename) {
        assert(r == a + b + q);
        assert forall|n: int| 0 <= n < t.len() implies #[trigger] r[a.len() + b.len() + n]
            == "host tree named directly: `"@ + t[n] + "`"@ by {
            assert(r[a.len() + b.len() + n] == q[n]);
        }
    } else {
        assert(r =~= a + b);
    }
}

} // verus!
