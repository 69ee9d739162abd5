use lilyenv::directories::{
    downloads_dir, project_dir, project_file, python_dir, shell_file, virtualenv_dir,
    virtualenvs_dir, Dirs,
};
use lilyenv::install::{
    archive_format, find_stdlib_dir, find_sysconfig_data, install_steps, is_installed,
    rewrite_pkgconfig, rewrite_sysconfig, ArchiveFormat, InstallStep,
};
use lilyenv::text::{chars_of, replace_all};
use lilyenv::version::{Interpreter, PreRelease, Version};

fn v(interpreter: Interpreter, debug: bool, freethreaded: bool) -> Version {
    Version {
        interpreter,
        major: 3,
        minor: 12,
        bugfix: Some(1),
        debug,
        freethreaded,
        prerelease: PreRelease::Final,
    }
}

#[test]
fn formats_by_build() {
    assert_eq!(archive_format(&v(Interpreter::CPython, false, false)), ArchiveFormat::TarGz);
    assert_eq!(archive_format(&v(Interpreter::CPython, true, false)), ArchiveFormat::TarZst);
    assert_eq!(archive_format(&v(Interpreter::CPython, false, true)), ArchiveFormat::TarZst);
    assert_eq!(archive_format(&v(Interpreter::PyPy, true, true)), ArchiveFormat::TarBz2);
}

#[test]
fn steps_by_build() {
    assert_eq!(
        install_steps(&v(Interpreter::CPython, false, true), false, false),
        vec![InstallStep::Download, InstallStep::Extract(ArchiveFormat::TarZst), InstallStep::Relocate, InstallStep::FixupPaths]
    );
    assert_eq!(
        install_steps(&v(Interpreter::CPython, false, false), false, true),
        vec![InstallStep::Extract(ArchiveFormat::TarGz), InstallStep::FixupPaths]
    );
    assert_eq!(
        install_steps(&v(Interpreter::PyPy, false, false), true, true),
        vec![InstallStep::Download, InstallStep::Extract(ArchiveFormat::TarBz2)]
    );
}

#[test]
fn installed_checks() {
    assert!(is_installed(Interpreter::CPython, false, true, true));
    assert!(!is_installed(Interpreter::CPython, false, true, false));
    assert!(is_installed(Interpreter::PyPy, false, true, false));
    assert!(!is_installed(Interpreter::PyPy, true, true, true));
    assert!(!is_installed(Interpreter::CPython, false, false, false));
}

#[test]
fn sysconfig_placeholders_are_rewritten() {
    let data = "'prefix': '/install', 'CC': 'cc -I/install/include', 'X': 'a=/install/lib /install'";
    assert_eq!(
        rewrite_sysconfig(data, "/opt/py"),
        "'prefix': '/opt/py', 'CC': 'cc -I/install/include', 'X': 'a=/opt/py/lib /opt/py'"
    );
    assert_eq!(rewrite_pkgconfig("prefix=/install\nlib=/install/lib\n", "/p"), "prefix=/p\nlib=/p/lib\n");
    assert_eq!(rewrite_pkgconfig("no placeholder /install", "/p"), "no placeholder /install");
}

#[test]
fn replace_scans_left_to_right() {
    let s = chars_of("aaaa");
    let out = replace_all(&s, &chars_of("aa"), &chars_of("b"));
    assert_eq!(out.iter().collect::<String>(), "bb");
    let out = replace_all(&chars_of("abc"), &chars_of(""), &chars_of("x"));
    assert_eq!(out.iter().collect::<String>(), "abc");
    let out = replace_all(&chars_of(""), &chars_of("a"), &chars_of("x"));
    assert!(out.is_empty());
}

#[test]
fn finds_configuration_entries() {
    let names: Vec<String> = ["pkgconfig", "python3.12", "python3.13"].iter().map(|s| s.to_string()).collect();
    assert_eq!(find_stdlib_dir(&names), Some(1));
    assert_eq!(find_stdlib_dir(&vec!["lib".to_string()]), None);
    let names: Vec<String> =
        ["os.py", "_sysconfigdata__linux_x86_64-linux-gnu.py"].iter().map(|s| s.to_string()).collect();
    assert_eq!(find_sysconfig_data(&names), Some(1));
    assert_eq!(find_sysconfig_data(&Vec::new()), None);
}

#[test]
fn paths_are_joined_under_the_base_directories() {
    let dirs = Dirs { cache_dir: "/c".to_string(), data_local_dir: "/d".to_string() };
    let version = Version {
        interpreter: Interpreter::PyPy,
        major: 3,
        minor: 10,
        bugfix: None,
        debug: false,
        freethreaded: false,
        prerelease: PreRelease::Final,
    };
    assert_eq!(downloads_dir(&dirs), "/c/downloads");
    assert_eq!(python_dir(&dirs, &version), "/d/pythons/pypy3.10");
    assert_eq!(virtualenvs_dir(&dirs), "/d/virtualenvs");
    assert_eq!(project_dir(&dirs, "web"), "/d/virtualenvs/web");
    assert_eq!(virtualenv_dir(&dirs, "web", &version), "/d/virtualenvs/web/pypy3.10");
    assert_eq!(project_file(&dirs, "web"), "/d/virtualenvs/web/directory");
    assert_eq!(shell_file(&dirs, None), "/d/shell");
    assert_eq!(shell_file(&dirs, Some("web")), "/d/virtualenvs/web/shell");
}
