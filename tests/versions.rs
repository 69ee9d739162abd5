use lilyenv::version::{Interpreter, PreRelease, Version};

fn version(
    interpreter: Interpreter,
    major: u8,
    minor: u8,
    bugfix: Option<u8>,
    debug: bool,
    freethreaded: bool,
    prerelease: PreRelease,
) -> Version {
    Version { interpreter, major, minor, bugfix, debug, freethreaded, prerelease }
}

#[test]
fn renders_every_part() {
    let v = version(Interpreter::CPython, 3, 13, Some(0), true, true, PreRelease::RC(2));
    assert_eq!(v.to_string(), "3.13.0rc2t-debug");
    let v = version(Interpreter::PyPy, 3, 10, Some(14), false, false, PreRelease::Final);
    assert_eq!(v.to_string(), "pypy3.10.14");
    let v = version(Interpreter::CPython, 255, 0, Some(100), false, false, PreRelease::Alpha(7));
    assert_eq!(v.to_string(), "255.0.100a7");
    let v = version(Interpreter::CPython, 3, 12, None, false, true, PreRelease::Beta(1));
    assert_eq!(v.to_string(), "3.12b1t");
    let v = version(Interpreter::PyPy, 3, 12, None, true, false, PreRelease::Alpha(1));
    assert_eq!(v.to_string(), "pypy3.12a1-debug");
    let v = version(Interpreter::CPython, 3, 12, None, false, false, PreRelease::Final);
    assert_eq!(v.to_string(), "3.12");
}

#[test]
fn rendered_concrete_versions_parse_back() {
    let pres = [PreRelease::Final, PreRelease::Alpha(0), PreRelease::Beta(12), PreRelease::RC(255)];
    for interpreter in [Interpreter::CPython, Interpreter::PyPy] {
        for pre in pres {
            for (debug, freethreaded) in [(false, false), (true, false), (false, true), (true, true)] {
                for (major, minor, bugfix) in [(3, 12, 1), (0, 0, 0), (255, 99, 10)] {
                    let v = version(interpreter, major, minor, Some(bugfix), debug, freethreaded, pre);
                    assert_eq!(Version::parse(&v.to_string()), Ok(v));
                }
            }
        }
    }
}

#[test]
fn families_with_qualifiers_parse_back() {
    for pre in [PreRelease::Final, PreRelease::Alpha(1), PreRelease::RC(3)] {
        let v = version(Interpreter::CPython, 3, 14, None, false, true, pre);
        assert_eq!(Version::parse(&v.to_string()), Ok(v));
    }
}

#[test]
fn parses_qualifiers_and_flags() {
    assert_eq!(
        Version::parse("3.13.0b3t-debug"),
        Ok(version(Interpreter::CPython, 3, 13, Some(0), true, true, PreRelease::Beta(3)))
    );
    assert_eq!(
        Version::parse("03.012"),
        Ok(version(Interpreter::CPython, 3, 12, None, false, false, PreRelease::Final))
    );
}

#[test]
fn rejects_out_of_range_and_dangling_input() {
    for s in ["", "256.1", "3.256", "3.12.256", "3.12.1rc", "3.12.1-debugx", "pypy", "3.12 "] {
        assert!(Version::parse(s).is_err(), "{s}");
    }
}

#[test]
fn partial_request_matches_final_release_of_family() {
    let requested = version(Interpreter::CPython, 3, 12, None, false, false, PreRelease::Final);
    let release = version(Interpreter::CPython, 3, 12, Some(1), false, false, PreRelease::Final);
    assert!(requested.compatible(&release));
    let candidate = version(Interpreter::CPython, 3, 12, Some(1), false, false, PreRelease::RC(1));
    assert!(!requested.compatible(&candidate));
}

#[test]
fn compatibility_needs_matching_flags_and_family() {
    let requested = version(Interpreter::CPython, 3, 12, None, false, false, PreRelease::Final);
    let debug = version(Interpreter::CPython, 3, 12, Some(1), true, false, PreRelease::Final);
    let pypy = version(Interpreter::PyPy, 3, 12, Some(1), false, false, PreRelease::Final);
    let other = version(Interpreter::CPython, 3, 11, Some(1), false, false, PreRelease::Final);
    assert!(!requested.compatible(&debug));
    assert!(!requested.compatible(&pypy));
    assert!(!requested.compatible(&other));
    let exact = version(Interpreter::CPython, 3, 12, Some(2), false, false, PreRelease::Final);
    let next = version(Interpreter::CPython, 3, 12, Some(3), false, false, PreRelease::Final);
    assert!(exact.compatible(&exact));
    assert!(!exact.compatible(&next));
    assert!(requested.compatible(&requested));
    assert!(!exact.compatible(&requested));
}

#[test]
fn filename_flags_come_after_the_tag() {
    let (tag, v) = lilyenv::version::parse_cpython_filename(
        "cpython-3.12.1+20240107-x86_64-unknown-linux-gnu-debug-freethreaded.tar.zst",
    )
    .unwrap();
    assert_eq!(tag, "20240107");
    assert!(v.freethreaded);
    assert!(v.debug);
    let (_, v) = lilyenv::version::parse_cpython_filename("cpython-3.1.1+1debugfreethreaded").unwrap();
    assert!(v.debug && v.freethreaded);
    let (_, v) = lilyenv::version::parse_cpython_filename("cpython-3.1.1+1-install_only.tar.gz").unwrap();
    assert!(!v.debug && !v.freethreaded);
    assert!(lilyenv::version::parse_cpython_filename("cpython-3.12.1+-x86_64").is_err());
    assert!(lilyenv::version::parse_cpython_filename("python-3.12.1+2024").is_err());
    assert!(lilyenv::version::parse_cpython_filename("cpython-3.12.1-20240107").is_err());
}

#[test]
fn pypy_url_needs_prefix_family_and_tag() {
    assert!(lilyenv::version::parse_pypy_url("https://example.org/pypy/pypy3.10-v7.3.15-linux64.tar.bz2").is_err());
    assert!(lilyenv::version::parse_pypy_url("https://downloads.python.org/pypy/3.10-v7.3.15-linux64.tar.bz2").is_err());
    assert!(lilyenv::version::parse_pypy_url("https://downloads.python.org/pypy/pypy3.10-v7.3.15").is_err());
    for url in [
        "https://downloads.python.org/pypy/pypy3.9.18-v7.3.15-src.tar.bz2",
        "https://downloads.python.org/pypy/pypy3.10a1-v7.3.15-linux64.tar.bz2",
        "https://downloads.python.org/pypy/pypy3.10t-v7.3.15-linux64.tar.bz2",
        "https://downloads.python.org/pypy/pypy3.256-v7.3.15-linux64.tar.bz2",
    ] {
        assert!(lilyenv::version::parse_pypy_url(url).is_err(), "{url}");
    }
    let (name, tag, v) =
        lilyenv::version::parse_pypy_url("https://downloads.python.org/pypy/pypy2.7-v7.3.15-src.tar.bz2").unwrap();
    assert_eq!(name, "pypy2.7-v7.3.15-src.tar.bz2");
    assert_eq!(tag, "v7.3.15");
    assert_eq!(v.major, 2);
    assert_eq!(v.bugfix, None);
}
