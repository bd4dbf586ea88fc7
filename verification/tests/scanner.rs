use wild_host::lexer::{compact_code, mask_bytes};
use wild_host::scan::{
    code_without_comments_or_strings, host_cfg_invocations, host_tree_references,
    native_host_references,
};
use wild_host::text::{is_identifier_char, is_whitespace_char, match_indices, standalone_matches};

/// The lint's fixture of neutral code.
pub const ALLOWED_FIXTURE: &str = r#"// Neutral code: features, tests, and selecting what we're linking for are all fine, as is
// reaching host services through the facades.
mod host {
    pub mod fs {
        pub fn path_from_bytes(_bytes: &[u8]) {}
    }
}

#[cfg(feature = "plugins")]
fn with_plugins() {}

#[cfg(all(test, debug_assertions))]
fn in_tests() {}

#[cfg(target_arch = "aarch64")]
fn for_aarch64_target() {}

fn uses_the_facade() {
    crate::host::fs::path_from_bytes(b"/tmp");
}

fn main() {
    uses_the_facade();
}
"#;

/// The lint's fixture of code that selects the host.
pub const HOST_CFG_FIXTURE: &str = r#"// Each finding is reported against the file's first item, so that item is kept small here.
fn main() {
    let _ = runtime_check();
    names_a_tree();
}

mod host {
    pub mod linux {
        pub mod fs {
            pub fn preallocate() {}
        }
    }
}

#[cfg(unix)]
fn only_on_unix() {}

#[cfg_attr(target_os = "macos", allow(dead_code))]
fn macos_attr() {}

fn runtime_check() -> bool {
    cfg!(windows)
}

fn native_api(file: &std::fs::File) -> i32 {
    std::os::fd::AsRawFd::as_raw_fd(file)
}

fn names_a_tree() {
    crate::host::linux::fs::preallocate();
}
"#;

#[test]
fn identifier_chars_agree_with_std_on_latin1() {
    for b in 0..=255u8 {
        let c = b as char;
        assert_eq!(is_identifier_char(b), c.is_alphanumeric() || c == '_', "{b:#x}");
        assert_eq!(is_whitespace_char(b), c.is_whitespace(), "{b:#x}");
    }
}

#[test]
fn masking_blanks_comments_and_literals_in_place() {
    let source = "a /* x /* y */ z */ b // c\nd \"e\\\nf\" g r#\"h\"# 'i' '\\n' 'j";
    let masked = code_without_comments_or_strings(source);
    assert_eq!(masked.chars().count(), source.len());
    assert_eq!(
        masked,
        "a                   b     \nd        g                 'j"
    );
    for (m, s) in masked.chars().zip(source.chars()) {
        assert!(m == s || m == ' ');
    }
}

#[test]
fn masking_keeps_one_char_per_byte() {
    let masked = code_without_comments_or_strings("let é = \"ü\";");
    assert_eq!(masked.chars().count(), "let é = \"ü\";".len());
    assert_eq!(masked, "let \u{c3}\u{a9} =     ;");
}

#[test]
fn compacting_drops_whitespace_but_separates_words() {
    assert_eq!(compact_code(b"# [ cfg ( unix ) ]"), b"#[cfg(unix)]".to_vec());
    assert_eq!(compact_code(b"return  cfg!(unix)"), b"return cfg!(unix)".to_vec());
    assert_eq!(compact_code(b"a\t\n b . c"), b"a b.c".to_vec());
    assert_eq!(compact_code(b"  "), Vec::<u8>::new());
}

#[test]
fn matches_do_not_overlap() {
    assert_eq!(match_indices(b"aaaa", b"aa"), vec![0, 2]);
    assert_eq!(match_indices(b"xaax", b"aa"), vec![1]);
    assert_eq!(standalone_matches(b"unix my_unix unix_", b"unix"), vec![0]);
    assert_eq!(standalone_matches(b"libc::f", b"libc::"), vec![0]);
}

#[test]
fn masked_bytes_match_masked_string() {
    let source = "x = 'a'; // q";
    let bytes = mask_bytes(source.as_bytes());
    assert_eq!(bytes, b"x =    ;     ".to_vec());
}

#[test]
fn unbalanced_invocations_are_not_reported() {
    assert!(host_cfg_invocations("#[cfg(unix fn f() {}").is_empty());
    assert!(host_cfg_invocations("cfg!(unix").is_empty());
    assert_eq!(
        host_cfg_invocations("#[cfg(unix)] #[cfg(windows)] cfg!(unix)"),
        vec!["cfg(unix)", "cfg(windows)", "cfg!(unix)"]
    );
}

#[test]
fn raw_string_prefix_inside_identifiers_opens_a_raw_string() {
    // `r"` opens a raw string wherever it stands, also right after an identifier char.
    assert!(host_cfg_invocations("br\"cfg!(unix)\"").is_empty());
    assert!(host_cfg_invocations("r#\"cfg!(unix)\"#").is_empty());
}

#[test]
fn host_cfg_fixture_findings() {
    assert_eq!(
        host_cfg_invocations(HOST_CFG_FIXTURE),
        vec!["cfg(unix)", "cfg_attr(target_os=,allow(dead_code))", "cfg!(windows)"]
    );
    assert_eq!(native_host_references(HOST_CFG_FIXTURE), vec!["std::os::fd"]);
    assert_eq!(host_tree_references(HOST_CFG_FIXTURE), vec!["host::linux"]);
}

#[test]
fn allowed_fixture_has_no_findings() {
    assert!(host_cfg_invocations(ALLOWED_FIXTURE).is_empty());
    assert!(native_host_references(ALLOWED_FIXTURE).is_empty());
    assert!(host_tree_references(ALLOWED_FIXTURE).is_empty());
}

#[test]
fn tree_references_repeat_per_occurrence() {
    assert_eq!(
        host_tree_references("host::wasi::a(); host::imp::b(); host::wasi::c();"),
        vec!["host::imp", "host::wasi", "host::wasi"]
    );
}

#[test]
fn empty_needle_matches_at_every_offset() {
    assert_eq!(match_indices(b"abc", b""), vec![0, 1, 2, 3]);
    assert_eq!(match_indices(b"", b""), vec![0]);
    assert_eq!(standalone_matches(b"ab c", b""), vec![0, 3]);
    assert_eq!(standalone_matches(b"", b""), vec![0]);
}

const TRICKY_SOURCE: &str =
    "a /* x /* y */ z */ b // c\nd \"e\\\nf\" g r#\"h\"# 'i' '\\n' 'j x'/ '' \"q";

#[test]
fn masking_twice_changes_nothing() {
    for source in [TRICKY_SOURCE, HOST_CFG_FIXTURE, ALLOWED_FIXTURE, "'\\''", "b'a' br\"z\""] {
        let once = mask_bytes(source.as_bytes());
        assert_eq!(mask_bytes(&once), once, "{source}");
        let masked = code_without_comments_or_strings(source);
        assert_eq!(code_without_comments_or_strings(&masked), masked);
    }
}

#[test]
fn findings_are_the_same_on_masked_source() {
    for source in [TRICKY_SOURCE, HOST_CFG_FIXTURE, ALLOWED_FIXTURE] {
        let masked = code_without_comments_or_strings(source);
        assert_eq!(host_cfg_invocations(&masked), host_cfg_invocations(source));
        assert_eq!(native_host_references(&masked), native_host_references(source));
        assert_eq!(host_tree_references(&masked), host_tree_references(source));
    }
    assert!(!host_cfg_invocations(HOST_CFG_FIXTURE).is_empty());
}

#[test]
fn compacting_keeps_code_bytes_and_is_idempotent() {
    let without_whitespace =
        |bytes: &[u8]| -> Vec<u8> { bytes.iter().copied().filter(|b| !is_whitespace_char(*b)).collect() };
    for source in [
        TRICKY_SOURCE.as_bytes(),
        HOST_CFG_FIXTURE.as_bytes(),
        b"  # [ cfg ( unix ) ]\n return  cfg!(unix) \t",
        b"a \xa0 b\x85c",
    ] {
        let compact = compact_code(source);
        assert_eq!(compact_code(&compact), compact);
        assert_eq!(without_whitespace(&compact), without_whitespace(source));
    }
    assert_eq!(compact_code(b"a \xa0 b\x85c"), b"a b c".to_vec());
}
