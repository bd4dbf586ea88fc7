//! The linker's filesystem types, and the decisions it makes when it opens, sizes and maps
//! its output file. The calls into the operating system are made by the caller, which hands
//! their outcomes back to these functions.

use vstd::prelude::*;

verus! {

#[derive(Debug, Clone, Copy, PartialEq, Eq)]
pub enum FileReplacementMode {
    /// The existing output file, if any, will be unlinked (deleted) and a new file with the
    /// same name put in its place. Any hard links to the file will not be affected.
    UnlinkAndReplace,
    /// The existing output file, if any, will be edited in-place. Any hard links to the file
    /// will update accordingly. If the file is locked due to currently being executed, then our
    /// write will fail.
    UpdateInPlace,
    /// As for `UpdateInPlace`, but if we get an error opening the file for write, fallback to
    /// unlinking and replacing.
    UpdateInPlaceWithFallback,
}

#[derive(Debug, Clone, Copy, PartialEq, Eq)]
pub enum FileWriteMode {
    Mmap,
    BufferThenWrite,
}

#[derive(Debug, Clone, Copy)]
pub struct OutputOptions {
    pub size: u64,
    pub file_replacement_mode: FileReplacementMode,
    pub write_mode: Option<FileWriteMode>,
    pub fallocate: Option<bool>,
    pub madvise_huge_pages: Option<bool>,
}

#[derive(Debug, Clone, Copy, PartialEq, Eq)]
pub enum FileType {
    File,
    Directory,
    Other,
}

/// The kinds of filesystem that change the default output strategy.
#[derive(Debug, Clone, Copy, PartialEq, Eq)]
pub enum FilesystemKind {
    Btrfs,
    Vfat,
    /// ext2, ext3 or ext4. They share a superblock magic.
    Ext4,
    Xfs,
    Other,
}

/// The normal host operating-system filesystem.
#[derive(Debug, Default, Clone, Copy)]
pub struct OsFileSystem;

impl OsFileSystem {
    pub fn new() -> (r: Self)
        ensures
            r == OsFileSystem,
    {
        OsFileSystem
    }
}

impl FileType {
    /// The type of a file from what its metadata says.
    pub fn from_metadata(is_file: bool, is_dir: bool) -> (r: Self)
        ensures
            r == (if is_file {
                FileType::File
            } else if is_dir {
                FileType::Directory
            } else {
                FileType::Other
            }),
    {
        if is_file {
            FileType::File
        } else if is_dir {
            FileType::Directory
        } else {
            FileType::Other
        }
    }
}

/// The output strategy a filesystem calls for when the options leave it open.
#[derive(Debug, Clone, Copy)]
pub struct OutputFileDefaults {
    pub write_mode: FileWriteMode,
    pub fallocate: bool,
    pub madvise_huge_pages: bool,
}

/// Multi-threaded writes to BTRFS are slow without huge pages and with huge pages before
/// Linux 7.2; an unknown kernel counts as old.
pub open spec fn btrfs_prefers_buffering(kernel_version: Option<(u64, u64)>) -> bool {
    match kernel_version {
        None => true,
        Some((major, minor)) => major < 7 || (major == 7 && minor < 2),
    }
}

impl OutputFileDefaults {
    /// `OutputFileDefaults::for_file`, given what the file's filesystem is and, for BTRFS, the
    /// kernel version.
    pub fn for_filesystem(kind: Option<FilesystemKind>, kernel_version: Option<(u64, u64)>) -> (r:
        Self)
        ensures
            ({
                let buffered = kind == Some(FilesystemKind::Btrfs) && btrfs_prefers_buffering(
                    kernel_version,
                );
                &&& r.write_mode == (if buffered || kind == Some(FilesystemKind::Vfat) {
                    FileWriteMode::BufferThenWrite
                } else {
                    FileWriteMode::Mmap
                })
                &&& r.madvise_huge_pages == !buffered
                &&& r.fallocate == (kind == Some(FilesystemKind::Ext4) || kind == Some(
                    FilesystemKind::Xfs,
                ))
            }),
    {
        let mut defaults = OutputFileDefaults {
            write_mode: FileWriteMode::Mmap,
            fallocate: false,
            madvise_huge_pages: true,
        };
        match kind {
            Some(FilesystemKind::Btrfs) => {
                let old_kernel = match kernel_version {
                    None => true,
                    Some((major, minor)) => major < 7 || (major == 7 && minor < 2),
                };
                if old_kernel {
                    defaults.write_mode = FileWriteMode::BufferThenWrite;
                    defaults.madvise_huge_pages = false;
                }
            },
            Some(FilesystemKind::Vfat) => {
                defaults.write_mode = FileWriteMode::BufferThenWrite;
            },
            Some(FilesystemKind::Ext4) | Some(FilesystemKind::Xfs) => {
                defaults.fallocate = true;
            },
            _ => {},
        }
        defaults
    }
}

/// Why an output file could not be set up.
#[derive(Debug, Clone, Copy, PartialEq, Eq)]
pub enum OutputError {
    /// Huge pages were requested for output that is not memory-mapped.
    HugePagesNeedMmap,
    /// The output is too large to preallocate.
    TooLargeToPreallocate,
    /// Setting the size failed, and huge pages need a mapped file.
    SetLenFailed,
    /// Mapping failed, and huge pages need a mapped file.
    MmapFailed,
}

/// How the output file will be written, once options and defaults are combined.
#[derive(Debug, Clone, Copy)]
pub struct OutputPlan {
    pub size: u64,
    pub write_mode: FileWriteMode,
    /// Preallocate the file's blocks.
    pub fallocate: bool,
    /// Preallocation was asked for explicitly, so failing at it fails the output.
    pub fallocate_requested: bool,
    /// Advise the mapping to use huge pages.
    pub madvise_huge_pages: bool,
    /// Huge pages were asked for explicitly, so anything that prevents them fails the output.
    pub huge_pages_required: bool,
}

/// What to do next with the output's buffer.
#[derive(Debug, Clone, Copy, PartialEq, Eq)]
pub enum BufferStep {
    /// Memory-map the file.
    MapFile,
    /// Use the mapping, advising it to use huge pages first when `advise` is set.
    UseMapping { advise: bool },
    /// Write through an in-memory buffer of the output's size.
    UseMemory,
    /// Give up with this error.
    Fail(OutputError),
}

pub open spec fn option_or<T>(o: Option<T>, d: T) -> T {
    match o {
        Some(v) => v,
        None => d,
    }
}

/// The options resolved against the filesystem's defaults: explicit options win, and huge
/// pages asked for explicitly cannot be had with buffered output.
pub open spec fn plan_spec(options: OutputOptions, defaults: OutputFileDefaults) -> Result<
    OutputPlan,
    OutputError,
> {
    let write_mode = option_or(options.write_mode, defaults.write_mode);
    let required = options.madvise_huge_pages == Some(true);
    if required && write_mode == FileWriteMode::BufferThenWrite {
        Err(OutputError::HugePagesNeedMmap)
    } else {
        Ok(
            OutputPlan {
                size: options.size,
                write_mode,
                fallocate: option_or(options.fallocate, defaults.fallocate),
                fallocate_requested: options.fallocate is Some,
                madvise_huge_pages: option_or(options.madvise_huge_pages, defaults.madvise_huge_pages),
                huge_pages_required: required,
            },
        )
    }
}

pub open spec fn unlink_before_open_spec(options: OutputOptions) -> bool {
    options.file_replacement_mode == FileReplacementMode::UnlinkAndReplace
}

pub open spec fn replace_after_open_error_spec(options: OutputOptions) -> bool {
    options.file_replacement_mode == FileReplacementMode::UpdateInPlaceWithFallback
}

/// The step after setting the output's size (see `OutputPlan::after_set_len`).
pub open spec fn after_set_len_spec(plan: OutputPlan, set_len_ok: bool) -> BufferStep {
    if plan.write_mode == FileWriteMode::BufferThenWrite {
        BufferStep::UseMemory
    } else if set_len_ok {
        BufferStep::MapFile
    } else if plan.huge_pages_required {
        BufferStep::Fail(OutputError::SetLenFailed)
    } else {
        BufferStep::UseMemory
    }
}

/// The step after mapping the output (see `OutputPlan::after_map`).
pub open spec fn after_map_spec(plan: OutputPlan, map_ok: bool) -> BufferStep {
    if map_ok {
        BufferStep::UseMapping { advise: plan.madvise_huge_pages }
    } else if plan.huge_pages_required {
        BufferStep::Fail(OutputError::MmapFailed)
    } else {
        BufferStep::UseMemory
    }
}

impl OutputOptions {
    /// Whether the existing output file, if any, is unlinked before the output is created, so
    /// that a new file takes its place and hard links to the old one keep the old contents.
    /// The output is opened without truncation in every mode.
    pub fn unlink_before_open(&self) -> (r: bool)
        ensures
            r == unlink_before_open_spec(*self),
    {
        match self.file_replacement_mode {
            FileReplacementMode::UnlinkAndReplace => true,
            _ => false,
        }
    }

    /// Whether a failed open for write is retried by unlinking the file and creating it
    /// afresh: whatever the error, exactly when the mode allows falling back.
    pub fn replace_after_open_error(&self) -> (r: bool)
        ensures
            r == replace_after_open_error_spec(*self),
    {
        match self.file_replacement_mode {
            FileReplacementMode::UpdateInPlaceWithFallback => true,
            _ => false,
        }
    }

    /// The options resolved against the filesystem's defaults: explicit options win. Huge
    /// pages asked for explicitly cannot be had with buffered output.
    pub fn plan(&self, defaults: OutputFileDefaults) -> (r: Result<OutputPlan, OutputError>)
        ensures
            r == plan_spec(*self, defaults),
    {
        let fallocate = match self.fallocate {
            Some(v) => v,
            None => defaults.fallocate,
        };
        let huge_pages_required = match self.madvise_huge_pages {
            Some(v) => v,
            None => false,
        };
        let madvise_huge_pages = match self.madvise_huge_pages {
            Some(v) => v,
            None => defaults.madvise_huge_pages,
        };
        let write_mode = match self.write_mode {
            Some(m) => m,
            None => defaults.write_mode,
        };
        let buffered = match write_mode {
            FileWriteMode::BufferThenWrite => true,
            FileWriteMode::Mmap => false,
        };
        if huge_pages_required && buffered {
            return Err(OutputError::HugePagesNeedMmap);
        }
        Ok(
            OutputPlan {
                size: self.size,
                write_mode,
                fallocate,
                fallocate_requested: self.fallocate.is_some(),
                madvise_huge_pages,
                huge_pages_required,
            },
        )
    }
}

impl OutputPlan {
    /// Whether a failed preallocation fails the output (it is otherwise ignored).
    pub fn fallocate_failure_is_fatal(&self) -> (r: bool)
        ensures
            r == (self.fallocate && self.fallocate_requested),
    {
        self.fallocate && self.fallocate_requested
    }

    /// The next step once the file's size has been set (`set_len_ok`) or not. Buffered
    /// output does not care; a mapping needs the size, and falls back to a buffer unless huge
    /// pages are required.
    pub fn after_set_len(&self, set_len_ok: bool) -> (r: BufferStep)
        ensures
            r == after_set_len_spec(*self, set_len_ok),
    {
        match self.write_mode {
            FileWriteMode::BufferThenWrite => BufferStep::UseMemory,
            FileWriteMode::Mmap => {
                if set_len_ok {
                    BufferStep::MapFile
                } else if self.huge_pages_required {
                    BufferStep::Fail(OutputError::SetLenFailed)
                } else {
                    BufferStep::UseMemory
                }
            },
        }
    }

    /// The next step once mapping the file succeeded (`map_ok`) or failed. Some files, such
    /// as character devices, cannot be mapped; they get a buffer unless huge pages are
    /// required.
    pub fn after_map(&self, map_ok: bool) -> (r: BufferStep)
        ensures
            r == after_map_spec(*self, map_ok),
    {
        if map_ok {
            BufferStep::UseMapping { advise: self.madvise_huge_pages }
        } else if self.huge_pages_required {
            BufferStep::Fail(OutputError::MmapFailed)
        } else {
            BufferStep::UseMemory
        }
    }

    /// Whether a failed huge-page advice fails the output (it is otherwise ignored).
    pub fn advise_failure_is_fatal(&self) -> (r: bool)
        ensures
            r == self.huge_pages_required,
    {
        self.huge_pages_required
    }
}

/// The length to preallocate for an output of `size` bytes: nothing for an empty output, and
/// an error when the size does not fit a file offset.
pub fn preallocate(size: u64) -> (r: Result<Option<i64>, OutputError>)
    ensures
        size == 0 ==> r == Ok::<Option<i64>, OutputError>(None),
        0 < size <= i64::MAX ==> r == Ok::<Option<i64>, OutputError>(Some(size as i64)),
        size > i64::MAX ==> r == Err::<Option<i64>, OutputError>(OutputError::TooLargeToPreallocate),
{
    if size == 0 {
        Ok(None)
    } else if size <= 0x7fff_ffff_ffff_ffff {
        Ok(Some(size as i64))
    } else {
        Err(OutputError::TooLargeToPreallocate)
    }
}

/// The permission bits of an executable file: execute permission added wherever read
/// permission is set.
pub open spec fn executable_mode_spec(mode: u32) -> u32 {
    mode | ((mode & 0o444) >> 2u32)
}

/// `make_executable`'s new mode for a file with permission bits `mode`.
pub fn executable_mode(mode: u32) -> (r: u32)
    ensures
        r == executable_mode_spec(mode),
{
    mode | ((mode & 0o444) >> 2)
}

/// Making a file executable keeps every bit it had, adds execute permission exactly for the
/// classes that may read it, and doing it twice is the same as doing it once.
pub proof fn law_executable_mode(mode: u32)
    ensures
        executable_mode_spec(mode) & mode == mode,
        executable_mode_spec(mode) & !mode == ((mode & 0o444) >> 2u32) & !mode,
        executable_mode_spec(executable_mode_spec(mode)) == executable_mode_spec(mode),
        executable_mode_spec(mode) & 0o100 != 0 <==> (mode & 0o100 != 0 || mode & 0o400 != 0),
        executable_mode_spec(mode) & 0o010 != 0 <==> (mode & 0o010 != 0 || mode & 0o040 != 0),
        executable_mode_spec(mode) & 0o001 != 0 <==> (mode & 0o001 != 0 || mode & 0o004 != 0),
{
    assert(((mode | ((mode & 0o444) >> 2u32)) & mode) == mode) by (bit_vector);
    assert(((mode | ((mode & 0o444) >> 2u32)) & !mode) == ((mode & 0o444) >> 2u32) & !mode)
        by (bit_vector);
    let m2 = mode | ((mode & 0o444) >> 2u32);
    assert((m2 | ((m2 & 0o444) >> 2u32)) == m2) by (bit_vector)
        requires
            m2 == mode | ((mode & 0o444) >> 2u32),
    ;
    assert((mode | ((mode & 0o444) >> 2u32)) & 0o100 != 0 <==> (mode & 0o100 != 0 || mode & 0o400
        != 0)) by (bit_vector);
    assert((mode | ((mode & 0o444) >> 2u32)) & 0o010 != 0 <==> (mode & 0o010 != 0 || mode & 0o040
        != 0)) by (bit_vector);
    assert((mode | ((mode & 0o444) >> 2u32)) & 0o001 != 0 <==> (mode & 0o001 != 0 || mode & 0o004
        != 0)) by (bit_vector);
}

/// Huge pages asked for explicitly are only ever planned with memory-mapped output, and
/// explicit options always win over the filesystem's defaults.
pub proof fn law_plan_respects_options(options: OutputOptions, defaults: OutputFileDefaults)
    ensures
        plan_spec(options, defaults) matches Ok(plan) ==> {
            &&& plan.huge_pages_required ==> plan.write_mode == FileWriteMode::Mmap
                && plan.madvise_huge_pages
            &&& options.write_mode matches Some(m) ==> plan.write_mode == m
            &&& options.fallocate matches Some(f) ==> plan.fallocate == f
            &&& options.madvise_huge_pages matches Some(h) ==> plan.madvise_huge_pages == h
        },
        options.madvise_huge_pages == Some(true) && options.write_mode == Some(
            FileWriteMode::BufferThenWrite,
        ) ==> plan_spec(options, defaults) == Err::<OutputPlan, OutputError>(
            OutputError::HugePagesNeedMmap,
        ),
{
}

/// A successful mapping is advised to use huge pages exactly as the resolved option says:
/// the explicit `madvise_huge_pages` when given, otherwise the filesystem's default. Only a
/// failed mapping depends on whether huge pages were required.
pub proof fn law_mapping_advice_follows_the_resolved_option(
    options: OutputOptions,
    defaults: OutputFileDefaults,
)
    ensures
        plan_spec(options, defaults) matches Ok(plan) ==> after_map_spec(plan, true)
            == (BufferStep::UseMapping {
            advise: match options.madvise_huge_pages {
                Some(h) => h,
                None => defaults.madvise_huge_pages,
            },
        }),
        plan_spec(options, defaults) matches Ok(plan) ==> (options.madvise_huge_pages is None
            ==> after_map_spec(plan, true) == (BufferStep::UseMapping {
            advise: defaults.madvise_huge_pages,
        }) && !plan.huge_pages_required),
{
}

/// Whether creating an output fails, given the options, the filesystem's defaults and how
/// each operation the steps ask for turns out: unlinking the old file, opening, unlinking and
/// reopening after a failed open, preallocating, setting the size, mapping, and advising huge
/// pages. Operations the steps do not ask for are not looked at.
pub open spec fn create_output_fails(
    options: OutputOptions,
    defaults: OutputFileDefaults,
    unlink_ok: bool,
    open_ok: bool,
    replace_ok: bool,
    fallocate_ok: bool,
    set_len_ok: bool,
    map_ok: bool,
    advise_ok: bool,
) -> bool {
    ||| unlink_before_open_spec(options) && !unlink_ok
    ||| !open_ok && !(replace_after_open_error_spec(options) && replace_ok)
    ||| match plan_spec(options, defaults) {
        Err(_) => true,
        Ok(plan) => {
            ||| plan.fallocate && plan.fallocate_requested && !fallocate_ok
            ||| match after_set_len_spec(plan, set_len_ok) {
                BufferStep::Fail(_) => true,
                BufferStep::MapFile => match after_map_spec(plan, map_ok) {
                    BufferStep::Fail(_) => true,
                    BufferStep::UseMapping { advise } => advise && plan.huge_pages_required
                        && !advise_ok,
                    _ => false,
                },
                _ => false,
            }
        },
    }
}

/// Creating an output fails exactly when: unlinking the old file fails in
/// `UnlinkAndReplace` mode; opening fails and the mode does not fall back, or the fallback
/// fails; huge pages are required with buffered output; preallocation was asked for and
/// fails; or huge pages are required with mapped output and setting the size, mapping or
/// advising fails. Every other failure is absorbed.
pub proof fn law_create_output_errors(
    options: OutputOptions,
    defaults: OutputFileDefaults,
    unlink_ok: bool,
    open_ok: bool,
    replace_ok: bool,
    fallocate_ok: bool,
    set_len_ok: bool,
    map_ok: bool,
    advise_ok: bool,
)
    ensures
        create_output_fails(
            options,
            defaults,
            unlink_ok,
            open_ok,
            replace_ok,
            fallocate_ok,
            set_len_ok,
            map_ok,
            advise_ok,
        ) <==> ({
            let required = options.madvise_huge_pages == Some(true);
            let write_mode = option_or(options.write_mode, defaults.write_mode);
            ||| options.file_replacement_mode == FileReplacementMode::UnlinkAndReplace
                && !unlink_ok
            ||| !open_ok && (options.file_replacement_mode
                != FileReplacementMode::UpdateInPlaceWithFallback || !replace_ok)
            ||| required && write_mode == FileWriteMode::BufferThenWrite
            ||| options.fallocate == Some(true) && !fallocate_ok
            ||| required && write_mode == FileWriteMode::Mmap && (!set_len_ok || !map_ok
                || !advise_ok)
        }),
{
}

} // verus!
