use wild_host::paths::{baseline_allowance, in_scope, inside_host_dir, BASELINE};
use wild_host::scan::{host_cfg_invocations, host_tree_references, native_host_references};

#[test]
fn host_trees_are_exempt() {
    for path in [
        "libwild/src/host/mod.rs",
        "libwild/src/host/unix.rs",
        "libwild/src/host/linux.rs",
        "libwild/src/host/linux/perf.rs",
        "libwild/src/host/macos.rs",
        "libwild/src/host/illumos.rs",
        "libwild/src/host/other_unix.rs",
        "libwild/src/host/windows.rs",
        "libwild/src/host/wasi.rs",
        "libwild/src/host/wasi/path.rs",
        "/home/dev/wild/libwild/src/host/linux.rs",
        r"C:\work\wild\libwild\src\host\windows.rs",
    ] {
        assert!(!in_scope(path), "{path}");
    }
}

#[test]
fn facades_and_lookalikes_are_in_scope() {
    for path in [
        "libwild/src/host/fs.rs",
        "libwild/src/host/os.rs",
        "libwild/src/host/perf.rs",
        "libwild/src/host/process.rs",
        "libwild/src/host/linker_plugin.rs",
        "libwild/src/host/common.rs",
        "libwild/src/host/unixish.rs",
        "libwild/src/host/linux_extra.rs",
        "libwild/src/host/mod_extra.rs",
        "libwild/src/host/other/mod.rs",
        "libwild/src/host/tests/linux.rs",
        "libwild/src/fs.rs",
        "libwild/src/platform.rs",
        "wild/src/host/linux.rs",
    ] {
        assert!(in_scope(path), "{path}");
    }
}

#[test]
fn every_workspace_crate_target_is_in_scope() {
    for path in [
        "libwild/src/lib.rs",
        "libwild/src/subprocess.rs",
        "wild/src/main.rs",
        "wild/tests/integration_tests.rs",
        "wild/tests/external_tests/lld_tests.rs",
        "linker-diff/src/lib.rs",
        "linker-utils/src/elf.rs",
        "linker-layout/src/lib.rs",
        "linker-trace/src/lib.rs",
        "/abs/wild/wild/src/main.rs",
        "/home/runner/work/wild/wild/libwild/src/lib.rs",
        r"C:\work\wild\wild\tests\integration_tests.rs",
        "ui/host_cfg.rs",
        "/tmp/lint/ui/host_cfg.rs",
    ] {
        assert!(in_scope(path), "{path}");
    }
    assert!(!in_scope("wild/Cargo.toml"));
    assert!(!in_scope(
        "/home/dev/.cargo/registry/src/libc-0.2/src/lib.rs"
    ));
}

#[test]
fn tree_references_are_allowed_only_under_host() {
    assert!(inside_host_dir("libwild/src/host/fs.rs"));
    assert!(inside_host_dir("/abs/libwild/src/host/mod.rs"));
    assert!(!inside_host_dir("libwild/src/lib.rs"));
    assert!(!inside_host_dir("wild/tests/integration_tests.rs"));
    assert!(!inside_host_dir("mylibwild/src/host/fs.rs"));
}

#[test]
fn baseline_allowances_apply_to_their_file_only() {
    assert_eq!(baseline_allowance("libwild/src/fs.rs"), 0);
    for (path, allowed) in BASELINE {
        assert_eq!(baseline_allowance(path), allowed, "{path}");
        assert_eq!(baseline_allowance(&format!("/abs/wild/{path}")), allowed);
    }
}

#[test]
fn banned_selectors_are_detected_in_every_cfg_form() {
    assert_eq!(
        host_cfg_invocations("fn selected() { if cfg!(windows) {} }"),
        vec!["cfg!(windows)"]
    );
    assert_eq!(
        host_cfg_invocations("#[cfg(all(test, target_os = \"windows\"))] fn f() {}"),
        vec!["cfg(all(test,target_os=))"]
    );
    assert_eq!(
        host_cfg_invocations("#[cfg_attr(unix, allow(dead_code))] fn f() {}"),
        vec!["cfg_attr(unix,allow(dead_code))"]
    );
    assert_eq!(
        host_cfg_invocations("#![cfg(target_family = \"wasm\")]\nfn f() {}"),
        vec!["cfg(target_family=)"]
    );
    assert_eq!(
        host_cfg_invocations("#![cfg_attr(target_env = \"musl\", allow(unused))]"),
        vec!["cfg_attr(target_env=,allow(unused))"]
    );
    assert_eq!(
        host_cfg_invocations("fn f() -> bool { return cfg!(target_pointer_width = \"64\"); }"),
        vec!["cfg!(target_pointer_width=)"]
    );
    assert_eq!(
        host_cfg_invocations("# [ cfg ( target_vendor = \"apple\" ) ] fn f() {}"),
        vec!["cfg(target_vendor=)"]
    );
    assert_eq!(
        host_cfg_invocations("#[cfg(not(target_abi = \"eabihf\"))] fn f() {}"),
        vec!["cfg(not(target_abi=))"]
    );
}

#[test]
fn cfg_select_host_selection_is_detected() {
    for source in [
        "cfg_select! { unix => { fn f() {} } _ => {} }",
        "std::cfg_select! {\n    target_os = \"linux\" => { mod a; }\n    _ => { mod b; }\n}",
        "core::cfg_select!(windows => { fn f() {} } _ => {});",
        "fn f() -> u8 { cfg_select! { all(test, target_env = \"musl\") => 1, _ => 2 } }",
    ] {
        assert_eq!(
            host_cfg_invocations(source),
            vec!["cfg_select!"],
            "{source}"
        );
    }
    for source in [
        "cfg_select! { feature = \"zstd\" => { fn f() {} } _ => {} }",
        "std::cfg_select! { target_arch = \"x86_64\" => {} target_endian = \"big\" => {} }",
        "cfg_select! { my_unix_cfg => { let s = \"windows\"; } _ => {} } // unix",
        "my_cfg_select! { unix => {} }",
    ] {
        assert!(host_cfg_invocations(source).is_empty(), "{source}");
    }
}

#[test]
fn allowed_selectors_are_not_detected() {
    for source in [
        "#[cfg(feature = \"plugins\")] fn f() {}",
        "#[cfg(test)] mod tests {}",
        "#[cfg(debug_assertions)] fn f() {}",
        "#[cfg(target_arch = \"x86_64\")] fn f() {}",
        "#[cfg(any(target_arch = \"aarch64\", target_endian = \"big\"))] fn f() {}",
        "#[cfg_attr(feature = \"windows\", allow(dead_code))] fn f() {}",
        "#[cfg_attr(not(feature = \"plugins\"), path = \"linker_plugins_disabled.rs\")] mod x;",
        "fn f() -> bool { cfg!(feature = \"macho\") }",
        "cfg_select! { feature = \"zstd\" => { fn f() {} } _ => {} }",
    ] {
        assert!(host_cfg_invocations(source).is_empty(), "{source}");
    }
}

#[test]
fn selectors_match_on_identifier_boundaries() {
    for source in [
        "#[cfg(my_unix_cfg)] fn f() {}",
        "#[cfg(unix_like)] fn f() {}",
        "#[cfg(not(windows_host))] fn f() {}",
        "#[cfg(custom_target_os)] fn f() {}",
        "#[cfg(target_os_extra)] fn f() {}",
        "fn f() { my_cfg!(unix); }",
        "fn f() { notcfg!(windows); }",
    ] {
        assert!(host_cfg_invocations(source).is_empty(), "{source}");
    }
    assert_eq!(
        host_cfg_invocations("#[cfg(any(my_unix_cfg, unix))] fn f() {}"),
        vec!["cfg(any(my_unix_cfg,unix))"]
    );
    assert_eq!(
        host_cfg_invocations("fn f() { std::cfg!(windows); }"),
        vec!["cfg!(windows)"]
    );
}

#[test]
fn cfg_in_comments_strings_and_char_literals_is_ignored() {
    assert!(host_cfg_invocations(
        r####"fn neutral() {
            let _ = "#[cfg(windows)]";
            let _ = r###"cfg!(target_os = "linux")"###;
            let _ = b"cfg!(unix)";
            /* cfg!(unix) /* #[cfg(windows)] */ */
            // #[cfg(target_os = "macos")]
            let _ = '"';
            let _ = "cfg!(windows)";
        }"####
    )
    .is_empty());
    assert_eq!(
        host_cfg_invocations("fn f() { let q = '\"'; if cfg!(unix) {} let r = '\\''; }"),
        vec!["cfg!(unix)"]
    );
    assert_eq!(
        host_cfg_invocations("fn f<'a>(x: &'a str) -> bool { cfg!(windows) }"),
        vec!["cfg!(windows)"]
    );
}

#[test]
fn native_platform_references_are_detected_outside_strings() {
    assert_eq!(
        native_host_references(
            "use std::os::unix::fs::PermissionsExt; use std::os::fd::AsRawFd; libc::getpid();"
        ),
        vec!["std::os::unix", "std::os::fd", "libc::"]
    );
    assert_eq!(
        native_host_references(
            "use std::os::windows::fs::FileExt; use windows_sys::Win32::Foundation::HANDLE; \
             use windows::Win32::System; use std::os::linux::fs::MetadataExt; \
             use std::os::macos::raw; use std::os::wasi::ffi::OsStrExt;"
        ),
        vec![
            "std::os::windows",
            "std::os::linux",
            "std::os::macos",
            "std::os::wasi",
            "windows_sys",
            "windows::Win32",
        ]
    );
    let masked = "let text = \"windows_sys libc::\"; // std::os::unix";
    assert!(native_host_references(masked).is_empty());
    assert!(native_host_references(
        "use std::os::raw::c_int; use std::ffi::c_void; my_libc::f(); let windows_sysfoo = 1;"
    )
    .is_empty());
}

#[test]
fn tree_references_are_word_boundary_matched() {
    assert_eq!(
        host_tree_references("crate::host::imp::fs::x(); host::windows::y();"),
        vec!["host::imp", "host::windows"]
    );
    assert_eq!(
        host_tree_references(
            "use crate::host::unix::fs; host::other_unix::f(); host::illumos::g(); \
             host::linux::h(); host::macos::i(); host::wasi::j();"
        ),
        vec![
            "host::unix",
            "host::linux",
            "host::macos",
            "host::illumos",
            "host::other_unix",
            "host::wasi",
        ]
    );
    assert!(
        host_tree_references(
            "host::imported; host::unixish; my_host::unix; crate::host::fs::read_input(); \
             \"host::linux\"; // host::macos"
        )
        .is_empty()
    );
}
