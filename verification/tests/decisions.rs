use wild_host::fs::{
    executable_mode, preallocate, BufferStep, FileReplacementMode, FileType, FileWriteMode,
    FilesystemKind, OsFileSystem, OutputError, OutputFileDefaults, OutputOptions,
};
use wild_host::host_os::kernel_version_from_release;
use wild_host::lint::{file_diagnostics, findings, judge, BanHostCfg, Diagnostic};
use wild_host::paths::{
    baseline_allowance, in_scope, inside_host_dir, is_host_tree_file, normalize_separators,
    workspace_relative,
};

const HOST_CFG_SNIPPET: &str = "#[cfg(unix)]\nfn f() { let _ = cfg!(windows); std::os::fd::x(); crate::host::linux::g(); }\n";

#[test]
fn separators_do_not_change_the_verdict() {
    for path in [
        "libwild/src/fs.rs",
        "libwild/src/host/linux/perf.rs",
        "wild/tests/integration_tests.rs",
        "x/ui/a.rs",
    ] {
        let backslashed = path.replace('/', "\\");
        assert_eq!(in_scope(path), in_scope(&backslashed), "{path}");
        assert_eq!(inside_host_dir(path), inside_host_dir(&backslashed), "{path}");
        assert_eq!(baseline_allowance(path), baseline_allowance(&backslashed), "{path}");
    }
    assert_eq!(normalize_separators(br"a\b/c"), b"a/b/c".to_vec());
}

#[test]
fn deepest_crate_directory_wins() {
    assert_eq!(workspace_relative(b"/x/wild/libwild/src/lib.rs"), Some(8));
    assert_eq!(workspace_relative(b"/abs/wild/wild/src/main.rs"), Some(10));
    assert_eq!(workspace_relative(b"mylibwild/src/lib.rs"), None);
    assert_eq!(workspace_relative(b"linker-trace/x.rs"), Some(0));
}

#[test]
fn host_tree_files_are_recognised_by_component() {
    assert!(is_host_tree_file(b"libwild/src/host/mod.rs"));
    assert!(is_host_tree_file(b"libwild/src/host/wasi/path.rs"));
    assert!(!is_host_tree_file(b"libwild/src/host/unixish.rs"));
    assert!(!is_host_tree_file(b"libwild/src/host/fs.rs"));
    assert!(!is_host_tree_file(b"wild/src/host/linux.rs"));
}

#[test]
fn baseline_allowance_sees_through_absolute_windows_paths() {
    assert_eq!(baseline_allowance(r"C:\w\wild\tests\integration_tests.rs"), 14);
    assert_eq!(baseline_allowance("/r/linker-diff/src/utils.rs"), 1);
    assert_eq!(baseline_allowance("linker-diff/src/lib.rs"), 0);
}

#[test]
fn findings_are_labelled_by_kind() {
    assert_eq!(
        findings("libwild/src/lib.rs", HOST_CFG_SNIPPET),
        vec![
            "host cfg `cfg(unix)`",
            "host cfg `cfg!(windows)`",
            "native OS reference `std::os::fd`",
            "host tree named directly: `host::linux`",
        ]
    );
    // The facades may name the trees.
    assert_eq!(
        findings("libwild/src/host/fs.rs", HOST_CFG_SNIPPET),
        vec![
            "host cfg `cfg(unix)`",
            "host cfg `cfg!(windows)`",
            "native OS reference `std::os::fd`",
        ]
    );
}

#[test]
fn findings_beyond_the_allowance_are_reported() {
    let diagnostics = file_diagnostics("libwild/src/lib.rs", HOST_CFG_SNIPPET);
    assert_eq!(diagnostics.len(), 4);
    assert_eq!(
        diagnostics[0].message(),
        "host selection outside libwild's host trees: host cfg `cfg(unix)`; only \
         libwild/src/host/mod.rs and the host trees may select the host, everything \
         else goes through crate::host"
    );
    let diagnostics = file_diagnostics("linker-diff/src/utils.rs", "cfg!(unix); cfg!(windows);");
    assert_eq!(
        diagnostics,
        vec![Diagnostic::HostSelection("host cfg `cfg!(windows)`".to_string())]
    );
}

#[test]
fn a_file_at_its_allowance_is_silent() {
    assert!(file_diagnostics("linker-diff/src/utils.rs", "cfg!(unix);").is_empty());
    assert!(file_diagnostics("libwild/src/lib.rs", "fn f() {}").is_empty());
}

#[test]
fn an_allowance_above_the_findings_must_be_lowered() {
    let diagnostics = file_diagnostics("wild/tests/integration_tests.rs", "fn f() {}");
    assert_eq!(
        diagnostics,
        vec![Diagnostic::BaselineTooHigh {
            allowed: 14,
            found: 0
        }]
    );
    assert_eq!(
        diagnostics[0].message(),
        "this file's BASELINE allowance in the ban_host_cfg lint is 14, but it now has 0 \
         findings; please lower the allowance so it can't grow back"
    );
    assert_eq!(
        Diagnostic::BaselineTooHigh {
            allowed: 1234567,
            found: 10
        }
        .message(),
        "this file's BASELINE allowance in the ban_host_cfg lint is 1234567, but it now has \
         10 findings; please lower the allowance so it can't grow back"
    );
}

#[test]
fn judge_skips_the_allowed_findings() {
    let found = vec!["a".to_string(), "b".to_string(), "c".to_string()];
    assert_eq!(
        judge(found.clone(), 1),
        vec![
            Diagnostic::HostSelection("b".to_string()),
            Diagnostic::HostSelection("c".to_string())
        ]
    );
    assert!(judge(found.clone(), 3).is_empty());
    assert_eq!(
        judge(found, 5),
        vec![Diagnostic::BaselineTooHigh {
            allowed: 5,
            found: 3
        }]
    );
}

#[test]
fn each_file_is_scanned_once() {
    let mut lint = BanHostCfg::new();
    assert!(lint.begin_file("libwild/src/lib.rs"));
    assert!(!lint.begin_file("libwild/src/lib.rs"));
    assert!(lint.begin_file("wild/src/main.rs"));
    assert!(!lint.begin_file("libwild/src/host/linux.rs"));
    assert!(!lint.begin_file("wild/Cargo.toml"));
}

#[test]
fn filesystem_defaults() {
    let d = OutputFileDefaults::for_filesystem(Some(FilesystemKind::Btrfs), Some((6, 8)));
    assert_eq!(d.write_mode, FileWriteMode::BufferThenWrite);
    assert!(!d.madvise_huge_pages && !d.fallocate);
    let d = OutputFileDefaults::for_filesystem(Some(FilesystemKind::Btrfs), None);
    assert_eq!(d.write_mode, FileWriteMode::BufferThenWrite);
    let d = OutputFileDefaults::for_filesystem(Some(FilesystemKind::Btrfs), Some((7, 2)));
    assert_eq!(d.write_mode, FileWriteMode::Mmap);
    assert!(d.madvise_huge_pages);
    let d = OutputFileDefaults::for_filesystem(Some(FilesystemKind::Vfat), None);
    assert_eq!(d.write_mode, FileWriteMode::BufferThenWrite);
    assert!(d.madvise_huge_pages);
    for kind in [FilesystemKind::Ext4, FilesystemKind::Xfs] {
        let d = OutputFileDefaults::for_filesystem(Some(kind), None);
        assert!(d.fallocate);
        assert_eq!(d.write_mode, FileWriteMode::Mmap);
    }
    let d = OutputFileDefaults::for_filesystem(None, None);
    assert_eq!(d.write_mode, FileWriteMode::Mmap);
    assert!(!d.fallocate && d.madvise_huge_pages);
}

fn options(write_mode: Option<FileWriteMode>, huge: Option<bool>) -> OutputOptions {
    OutputOptions {
        size: 4096,
        file_replacement_mode: FileReplacementMode::UpdateInPlaceWithFallback,
        write_mode,
        fallocate: None,
        madvise_huge_pages: huge,
    }
}

#[test]
fn output_plans() {
    let btrfs = OutputFileDefaults::for_filesystem(Some(FilesystemKind::Btrfs), None);
    assert_eq!(
        options(None, Some(true)).plan(btrfs).unwrap_err(),
        OutputError::HugePagesNeedMmap
    );
    let plan = options(Some(FileWriteMode::Mmap), Some(true)).plan(btrfs).unwrap();
    assert!(plan.huge_pages_required && plan.madvise_huge_pages);
    assert_eq!(plan.after_set_len(false), BufferStep::Fail(OutputError::SetLenFailed));
    assert_eq!(plan.after_map(false), BufferStep::Fail(OutputError::MmapFailed));
    assert_eq!(plan.after_map(true), BufferStep::UseMapping { advise: true });
    assert!(plan.advise_failure_is_fatal());
    let plan = options(None, None).plan(btrfs).unwrap();
    assert_eq!(plan.write_mode, FileWriteMode::BufferThenWrite);
    assert_eq!(plan.after_set_len(true), BufferStep::UseMemory);
    let ext4 = OutputFileDefaults::for_filesystem(Some(FilesystemKind::Ext4), None);
    let plan = options(None, None).plan(ext4).unwrap();
    assert!(plan.fallocate && !plan.fallocate_failure_is_fatal());
    assert_eq!(plan.after_set_len(true), BufferStep::MapFile);
    assert_eq!(plan.after_set_len(false), BufferStep::UseMemory);
    assert_eq!(plan.after_map(false), BufferStep::UseMemory);
    let mut explicit = options(None, None);
    explicit.fallocate = Some(true);
    assert!(explicit.plan(ext4).unwrap().fallocate_failure_is_fatal());
}

#[test]
fn replacement_modes() {
    let mut o = options(None, None);
    assert!(o.replace_after_open_error());
    assert!(!o.unlink_before_open());
    o.file_replacement_mode = FileReplacementMode::UpdateInPlace;
    assert!(!o.replace_after_open_error());
    assert!(!o.unlink_before_open());
    o.file_replacement_mode = FileReplacementMode::UnlinkAndReplace;
    assert!(o.unlink_before_open());
    assert!(!o.replace_after_open_error());
}

#[test]
fn preallocation_lengths() {
    assert_eq!(preallocate(0), Ok(None));
    assert_eq!(preallocate(4096), Ok(Some(4096)));
    assert_eq!(preallocate(i64::MAX as u64), Ok(Some(i64::MAX)));
    assert_eq!(preallocate(u64::MAX), Err(OutputError::TooLargeToPreallocate));
}

#[test]
fn executable_modes() {
    assert_eq!(executable_mode(0o644), 0o755);
    assert_eq!(executable_mode(0o600), 0o700);
    assert_eq!(executable_mode(0o640), 0o750);
    assert_eq!(executable_mode(0o755), 0o755);
    assert_eq!(executable_mode(0o100644), 0o100755);
    assert_eq!(executable_mode(executable_mode(0o604)), executable_mode(0o604));
}

#[test]
fn file_types_and_filesystem() {
    assert_eq!(FileType::from_metadata(true, false), FileType::File);
    assert_eq!(FileType::from_metadata(false, true), FileType::Directory);
    assert_eq!(FileType::from_metadata(false, false), FileType::Other);
    let _fs: OsFileSystem = OsFileSystem::new();
}

#[test]
fn kernel_release_versions() {
    assert_eq!(kernel_version_from_release("6.8.0-45-generic"), Some((6, 8)));
    assert_eq!(kernel_version_from_release("7.2"), Some((7, 2)));
    assert_eq!(kernel_version_from_release("+6.+1.x"), Some((6, 1)));
    assert_eq!(kernel_version_from_release("6"), None);
    assert_eq!(kernel_version_from_release("6.x"), None);
    assert_eq!(kernel_version_from_release("6.8-rc1"), None);
    assert_eq!(kernel_version_from_release(""), None);
    assert_eq!(kernel_version_from_release("+.1"), None);
    assert_eq!(
        kernel_version_from_release("18446744073709551615.0"),
        Some((u64::MAX, 0))
    );
    assert_eq!(kernel_version_from_release("18446744073709551616.0"), None);
    for release in ["6.8.0-45-generic", "+6.+1.x", "6", "6.x", "", "+.1", "99999999999999999999.1"] {
        let mut parts = release.split('.');
        let expected = (|| {
            let major: u64 = parts.next()?.parse().ok()?;
            let minor: u64 = parts.next()?.parse().ok()?;
            Some((major, minor))
        })();
        assert_eq!(kernel_version_from_release(release), expected, "{release}");
    }
}
