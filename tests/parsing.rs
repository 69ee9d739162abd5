use lilyenv::error::Error;
use lilyenv::version::{
    parse_cpython_filename, parse_pypy_url, Interpreter, PreRelease, Version,
};

#[test]
fn types_test_version_from_str() {
    assert_eq!(
        "3.12".parse::<Version>().unwrap(),
        Version {
            interpreter: Interpreter::CPython,
            major: 3,
            minor: 12,
            bugfix: None,
            debug: false,
            freethreaded: false,
            prerelease: PreRelease::Final,
        }
    );
    assert_eq!(
        "3.12.1".parse::<Version>().unwrap(),
        Version {
            interpreter: Interpreter::CPython,
            major: 3,
            minor: 12,
            bugfix: Some(1),
            debug: false,
            freethreaded: false,
            prerelease: PreRelease::Final,
        }
    );
    assert_eq!(
        "pypy3.10".parse::<Version>().unwrap(),
        Version {
            interpreter: Interpreter::PyPy,
            major: 3,
            minor: 10,
            bugfix: None,
            debug: false,
            freethreaded: false,
            prerelease: PreRelease::Final,
        }
    );
    assert_eq!(
        "pypy3.10.4".parse::<Version>().unwrap(),
        Version {
            interpreter: Interpreter::PyPy,
            major: 3,
            minor: 10,
            bugfix: Some(4),
            debug: false,
            freethreaded: false,
            prerelease: PreRelease::Final,
        }
    );
}

#[test]
fn types_test_invalid_version() {
    let version = "3";
    let err = version.parse::<Version>();
    assert!(matches!(err, Err(Error::InvalidVersion(_))));
    if let Err(Error::InvalidVersion(s)) = err {
        assert_eq!(s, version);
    }
    let version = "3.";
    let err = version.parse::<Version>();
    assert!(matches!(err, Err(Error::InvalidVersion(_))));
    if let Err(Error::InvalidVersion(s)) = err {
        assert_eq!(s, version);
    }
    let version = "3.10.";
    let err = version.parse::<Version>();
    assert!(matches!(err, Err(Error::InvalidVersion(_))));
    if let Err(Error::InvalidVersion(s)) = err {
        assert_eq!(s, version);
    }
    let version = "py3.10.4";
    let err = version.parse::<Version>();
    assert!(matches!(err, Err(Error::InvalidVersion(_))));
    if let Err(Error::InvalidVersion(s)) = err {
        assert_eq!(s, version);
    }
    let version = "3.12.3abc";
    let err = version.parse::<Version>();
    assert!(matches!(err, Err(Error::InvalidVersion(_))));
    if let Err(Error::InvalidVersion(s)) = err {
        assert_eq!(s, version);
    }
}

#[test]
fn version_test_version_from_str() {
    assert_eq!(
        "3.12".parse::<Version>().unwrap(),
        Version {
            interpreter: Interpreter::CPython,
            major: 3,
            minor: 12,
            bugfix: None,
            debug: false,
            freethreaded: false,
            prerelease: PreRelease::Final,
        }
    );
    assert_eq!(
        "3.12.1".parse::<Version>().unwrap(),
        Version {
            interpreter: Interpreter::CPython,
            major: 3,
            minor: 12,
            bugfix: Some(1),
            debug: false,
            freethreaded: false,
            prerelease: PreRelease::Final,
        }
    );
    assert_eq!(
        "pypy3.10".parse::<Version>().unwrap(),
        Version {
            interpreter: Interpreter::PyPy,
            major: 3,
            minor: 10,
            bugfix: None,
            debug: false,
            freethreaded: false,
            prerelease: PreRelease::Final,
        }
    );
    assert_eq!(
        "pypy3.10.4".parse::<Version>().unwrap(),
        Version {
            interpreter: Interpreter::PyPy,
            major: 3,
            minor: 10,
            bugfix: Some(4),
            debug: false,
            freethreaded: false,
            prerelease: PreRelease::Final,
        }
    );
    assert_eq!(
        "3.12-debug".parse::<Version>().unwrap(),
        Version {
            interpreter: Interpreter::CPython,
            major: 3,
            minor: 12,
            bugfix: None,
            debug: true,
            freethreaded: false,
            prerelease: PreRelease::Final,
        }
    );
    assert_eq!(
        "3.12.1-debug".parse::<Version>().unwrap(),
        Version {
            interpreter: Interpreter::CPython,
            major: 3,
            minor: 12,
            bugfix: Some(1),
            debug: true,
            freethreaded: false,
            prerelease: PreRelease::Final,
        }
    );
    assert_eq!(
        "pypy3.10-debug".parse::<Version>().unwrap(),
        Version {
            interpreter: Interpreter::PyPy,
            major: 3,
            minor: 10,
            bugfix: None,
            debug: true,
            freethreaded: false,
            prerelease: PreRelease::Final,
        }
    );
    assert_eq!(
        "pypy3.10.4-debug".parse::<Version>().unwrap(),
        Version {
            interpreter: Interpreter::PyPy,
            major: 3,
            minor: 10,
            bugfix: Some(4),
            debug: true,
            freethreaded: false,
            prerelease: PreRelease::Final,
        }
    );
}

#[test]
fn version_test_invalid_version() {
    let version = "3";
    let err = version.parse::<Version>();
    assert!(matches!(err, Err(Error::InvalidVersion(_))));
    if let Err(Error::InvalidVersion(s)) = err {
        assert_eq!(s, version);
    }
    let version = "3.";
    let err = version.parse::<Version>();
    assert!(matches!(err, Err(Error::InvalidVersion(_))));
    if let Err(Error::InvalidVersion(s)) = err {
        assert_eq!(s, version);
    }
    let version = "3.10.";
    let err = version.parse::<Version>();
    assert!(matches!(err, Err(Error::InvalidVersion(_))));
    if let Err(Error::InvalidVersion(s)) = err {
        assert_eq!(s, version);
    }
    let version = "py3.10.4";
    let err = version.parse::<Version>();
    assert!(matches!(err, Err(Error::InvalidVersion(_))));
    if let Err(Error::InvalidVersion(s)) = err {
        assert_eq!(s, version);
    }
    let version = "3.12.3abc";
    let err = version.parse::<Version>();
    assert!(matches!(err, Err(Error::InvalidVersion(_))));
    if let Err(Error::InvalidVersion(s)) = err {
        assert_eq!(s, version);
    }
}

#[test]
fn test_parse_cpython_filename() {
    let filename = "cpython-3.10.13+20240107-x86_64-unknown-linux-gnu-install_only.tar.gz";
    let (release_tag, version) = parse_cpython_filename(filename).unwrap();
    assert_eq!(release_tag, "20240107");
    assert_eq!(
        version,
        Version {
            interpreter: Interpreter::CPython,
            major: 3,
            minor: 10,
            bugfix: Some(13),
            debug: false,
            freethreaded: false,
            prerelease: PreRelease::Final,
        }
    );
}

#[test]
fn test_parse_cpython_filename_debug() {
    let filename = "cpython-3.11.9+20240415-x86_64_v3-unknown-linux-gnu-debug-full.tar.zst";
    let (release_tag, version) = parse_cpython_filename(filename).unwrap();
    assert_eq!(release_tag, "20240415");
    assert_eq!(
        version,
        Version {
            interpreter: Interpreter::CPython,
            major: 3,
            minor: 11,
            bugfix: Some(9),
            debug: true,
            freethreaded: false,
            prerelease: PreRelease::Final,
        }
    );
}

#[test]
fn test_parse_cpython_release_candidate() {
    let filename = "cpython-3.13.0rc2+20240909-x86_64-unknown-linux-gnu-debug-full.tar.zst";
    let (release_tag, version) = parse_cpython_filename(filename).unwrap();
    assert_eq!(release_tag, "20240909");
    assert_eq!(
        version,
        Version {
            interpreter: Interpreter::CPython,
            major: 3,
            minor: 13,
            bugfix: Some(0),
            debug: true,
            freethreaded: false,
            prerelease: PreRelease::RC(2),
        }
    );
}

#[test]
fn test_parse_cpython_filename_freethreaded_debug() {
    let filename = "cpython-3.13.1+20250115-x86_64-unknown-linux-gnu-freethreaded+debug-full.tar.zst";
    let (release_tag, version) = parse_cpython_filename(filename).unwrap();
    assert_eq!(release_tag, "20250115");
    assert_eq!(
        version,
        Version {
            interpreter: Interpreter::CPython,
            major: 3,
            minor: 13,
            bugfix: Some(1),
            debug: true,
            freethreaded: true,
            prerelease: PreRelease::Final,
        }
    );
}

#[test]
fn test_parse_pypy_url() {
    let url = "https://downloads.python.org/pypy/pypy3.10-v7.3.15-linux64.tar.bz2";
    let (filename, release_tag, version) = parse_pypy_url(url).unwrap();
    assert_eq!(filename, "pypy3.10-v7.3.15-linux64.tar.bz2");
    assert_eq!(release_tag, "v7.3.15");
    assert_eq!(
        version,
        Version {
            interpreter: Interpreter::PyPy,
            major: 3,
            minor: 10,
            bugfix: None,
            debug: false,
            freethreaded: false,
            prerelease: PreRelease::Final,
        }
    );
}
