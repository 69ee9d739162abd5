//! Installing a chosen build: which archive format it comes in, the steps that
//! put it in place, and the rewriting of the paths that its build baked in.

use vstd::prelude::*;
use crate::text::{chars_of, contains, contains_text, matches_at, replace_all, replaced, starts_with, string_of};
use crate::version::{Interpreter, Version};

verus! {

/// The compression of a build archive (each is a tar archive).
#[derive(Debug, PartialEq, Eq, Structural, Clone, Copy)]
pub enum ArchiveFormat {
    TarGz,
    TarZst,
    TarBz2,
}

/// The archive format a build comes in: PyPy builds are bzip2-compressed;
/// debug and free-threaded CPython builds zstd-compressed; other CPython builds
/// gzip-compressed.
pub open spec fn format_of(v: Version) -> ArchiveFormat {
    match v.interpreter {
        Interpreter::PyPy => ArchiveFormat::TarBz2,
        Interpreter::CPython => if v.debug || v.freethreaded {
            ArchiveFormat::TarZst
        } else {
            ArchiveFormat::TarGz
        },
    }
}

/// The archive format of a build of `version`.
pub fn archive_format(version: &Version) -> (r: ArchiveFormat)
    ensures
        r == format_of(*version),
{
    match version.interpreter {
        Interpreter::PyPy => ArchiveFormat::TarBz2,
        Interpreter::CPython => {
            if version.debug || version.freethreaded {
                ArchiveFormat::TarZst
            } else {
                ArchiveFormat::TarGz
            }
        },
    }
}

/// Whether an installed build already satisfies a request: never on an upgrade;
/// otherwise a CPython install counts once its directory has entries, a PyPy
/// install once its directory exists.
pub fn is_installed(interpreter: Interpreter, upgrade: bool, dir_exists: bool, dir_has_entries: bool) -> (r: bool)
    ensures
        r == (!upgrade && dir_exists && (interpreter == Interpreter::PyPy || dir_has_entries)),
{
    !upgrade && dir_exists && (interpreter == Interpreter::PyPy || dir_has_entries)
}

/// One step of installing a build.
#[derive(Debug, PartialEq, Eq, Structural, Clone, Copy)]
pub enum InstallStep {
    /// Download the archive into the staging directory.
    Download,
    /// Unpack the archive into the install directory.
    Extract(ArchiveFormat),
    /// Move the nested `python/install` tree of a relocated build up to `python`.
    Relocate,
    /// Rewrite the placeholder install paths in the build's configuration files.
    FixupPaths,
}

/// The steps that install a build of `v`, in order: the download when it is
/// forced or the archive is not staged yet, the extraction, the move of the
/// nested tree for debug and free-threaded CPython builds, and the path rewrite
/// for CPython builds.
pub open spec fn steps_for(v: Version, upgrade: bool, staged: bool) -> Seq<InstallStep> {
    let download: Seq<InstallStep> = if upgrade || !staged {
        seq![InstallStep::Download]
    } else {
        seq![]
    };
    let fixups: Seq<InstallStep> = match v.interpreter {
        Interpreter::PyPy => seq![],
        Interpreter::CPython => if v.debug || v.freethreaded {
            seq![InstallStep::Relocate, InstallStep::FixupPaths]
        } else {
            seq![InstallStep::FixupPaths]
        },
    };
    download + seq![InstallStep::Extract(format_of(v))] + fixups
}

/// The steps that install a build of `version`; `staged` tells whether its archive
/// is already in the staging directory.
pub fn install_steps(version: &Version, upgrade: bool, staged: bool) -> (r: Vec<InstallStep>)
    ensures
        r@ == steps_for(*version, upgrade, staged),
{
    let mut steps: Vec<InstallStep> = Vec::new();
    if upgrade || !staged {
        steps.push(InstallStep::Download);
    }
    steps.push(InstallStep::Extract(archive_format(version)));
    if version.interpreter == Interpreter::CPython {
        if version.debug || version.freethreaded {
            steps.push(InstallStep::Relocate);
        }
        steps.push(InstallStep::FixupPaths);
    }
    assert(steps@ =~= steps_for(*version, upgrade, staged));
    steps
}

/// The build configuration data with every baked-in `/install` placeholder that
/// follows a quote, a space or an `=` replaced by the real install path.
pub open spec fn sysconfig_rewritten(data: Seq<char>, install_dir: Seq<char>) -> Seq<char> {
    replaced(
        replaced(
            replaced(data, "'/install"@, seq!['\''] + install_dir),
            " /install"@,
            seq![' '] + install_dir,
        ),
        "=/install"@,
        seq!['='] + install_dir,
    )
}

/// A package metadata file with every `=/install` placeholder replaced by the
/// real install path.
pub open spec fn pkgconfig_rewritten(data: Seq<char>, install_dir: Seq<char>) -> Seq<char> {
    replaced(data, "=/install"@, seq!['='] + install_dir)
}

fn replace_placeholder(data: &[char], pattern: &str, lead: char, install_dir: &[char]) -> (r: Vec<
    char,
>)
    ensures
        r@ == replaced(data@, pattern@, seq![lead] + install_dir@),
{
    let p = chars_of(pattern);
    let mut rep: Vec<char> = Vec::new();
    rep.push(lead);
    let mut k: usize = 0;
    while k < install_dir.len()
        invariant
            k <= install_dir@.len(),
            rep@ == seq![lead] + install_dir@.subrange(0, k as int),
        decreases install_dir.len() - k,
    {
        rep.push(install_dir[k]);
        k += 1;
        assert(rep@ =~= seq![lead] + install_dir@.subrange(0, k as int));
    }
    assert(install_dir@.subrange(0, k as int) =~= install_dir@);
    replace_all(data, p.as_slice(), rep.as_slice())
}

/// Rewrites the placeholder paths of a generated build configuration data file.
pub fn rewrite_sysconfig(data: &str, install_dir: &str) -> (r: String)
    ensures
        r@ == sysconfig_rewritten(data@, install_dir@),
{
    let d = chars_of(data);
    let dir = chars_of(install_dir);
    let a = replace_placeholder(d.as_slice(), "'/install", '\'', dir.as_slice());
    let b = replace_placeholder(a.as_slice(), " /install", ' ', dir.as_slice());
    let c = replace_placeholder(b.as_slice(), "=/install", '=', dir.as_slice());
    string_of(c.as_slice())
}

/// Rewrites the placeholder paths of a package metadata file.
pub fn rewrite_pkgconfig(data: &str, install_dir: &str) -> (r: String)
    ensures
        r@ == pkgconfig_rewritten(data@, install_dir@),
{
    let d = chars_of(data);
    let dir = chars_of(install_dir);
    let c = replace_placeholder(d.as_slice(), "=/install", '=', dir.as_slice());
    string_of(c.as_slice())
}

/// The first of the entries `names` of a build's `lib` directory that holds the
/// standard library: its name starts with `python`.
pub fn find_stdlib_dir(names: &Vec<String>) -> (r: Option<usize>)
    ensures
        match r {
            Some(i) => i < names@.len() && starts_with(names@[i as int]@, "python"@) && forall|
                j: int,
            | 0 <= j < i ==> !starts_with(#[trigger] names@[j]@, "python"@),
            None => forall|j: int|
                0 <= j < names@.len() ==> !starts_with(#[trigger] names@[j]@, "python"@),
        },
{
    let p = chars_of("python");
    let mut i: usize = 0;
    while i < names.len()
        invariant
            i <= names@.len(),
            p@ == "python"@,
            forall|j: int| 0 <= j < i ==> !starts_with(#[trigger] names@[j]@, "python"@),
        decreases names.len() - i,
    {
        let n = chars_of(names[i].as_str());
        if matches_at(n.as_slice(), p.as_slice(), 0) {
            return Some(i);
        }
        i += 1;
    }
    None
}

/// The first of the entries `names` of the standard library directory that is
/// the generated build configuration data: its name contains `_sysconfigdata_`.
pub fn find_sysconfig_data(names: &Vec<String>) -> (r: Option<usize>)
    ensures
        match r {
            Some(i) => i < names@.len() && contains(names@[i as int]@, "_sysconfigdata_"@)
                && forall|j: int|
                0 <= j < i ==> !contains(#[trigger] names@[j]@, "_sysconfigdata_"@),
            None => forall|j: int|
                0 <= j < names@.len() ==> !contains(#[trigger] names@[j]@, "_sysconfigdata_"@),
        },
{
    let p = chars_of("_sysconfigdata_");
    let mut i: usize = 0;
    while i < names.len()
        invariant
            i <= names@.len(),
            p@ == "_sysconfigdata_"@,
            forall|j: int| 0 <= j < i ==> !contains(#[trigger] names@[j]@, "_sysconfigdata_"@),
        decreases names.len() - i,
    {
        let n = chars_of(names[i].as_str());
        if contains_text(n.as_slice(), p.as_slice()) {
            return Some(i);
        }
        i += 1;
    }
    None
}

} // verus!
