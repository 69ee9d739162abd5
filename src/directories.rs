//! Where the library keeps its files: paths computed from two base directories.

use vstd::prelude::*;
use crate::text::{chars_of, string_of};
use crate::version::{rendered, Version};

verus! {

/// The base directories of this installation, computed once at start-up.
#[derive(Debug)]
pub struct Dirs {
    /// Where downloaded archives are cached.
    pub cache_dir: String,
    /// Where installed builds and virtual environments live.
    pub data_local_dir: String,
}

/// The path of the entry `name` in the directory `base`.
pub open spec fn joined(base: Seq<char>, name: Seq<char>) -> Seq<char> {
    base + seq!['/'] + name
}

fn join(base: &str, name: &str) -> (r: String)
    ensures
        r@ == joined(base@, name@),
{
    let mut out = chars_of(base);
    out.push('/');
    let n = chars_of(name);
    let mut k: usize = 0;
    let ghost start = out@;
    while k < n.len()
        invariant
            k <= n@.len(),
            start == base@ + seq!['/'],
            out@ == start + n@.subrange(0, k as int),
        decreases n.len() - k,
    {
        out.push(n[k]);
        k += 1;
        assert(out@ =~= start + n@.subrange(0, k as int));
    }
    assert(n@.subrange(0, k as int) =~= n@);
    assert(n@ == name@);
    string_of(out.as_slice())
}

/// The staging directory of downloaded archives.
pub fn downloads_dir(dirs: &Dirs) -> (r: String)
    ensures
        r@ == joined(dirs.cache_dir@, "downloads"@),
{
    join(dirs.cache_dir.as_str(), "downloads")
}

/// The install directory of the build of `version`.
pub fn python_dir(dirs: &Dirs, version: &Version) -> (r: String)
    ensures
        r@ == joined(joined(dirs.data_local_dir@, "pythons"@), rendered(*version)),
{
    let pythons = join(dirs.data_local_dir.as_str(), "pythons");
    let name = version.to_string();
    join(pythons.as_str(), name.as_str())
}

/// The directory that holds the virtual environments of all projects.
pub fn virtualenvs_dir(dirs: &Dirs) -> (r: String)
    ensures
        r@ == joined(dirs.data_local_dir@, "virtualenvs"@),
{
    join(dirs.data_local_dir.as_str(), "virtualenvs")
}

/// The directory that holds the virtual environments of `project`.
pub fn project_dir(dirs: &Dirs, project: &str) -> (r: String)
    ensures
        r@ == joined(joined(dirs.data_local_dir@, "virtualenvs"@), project@),
{
    let envs = virtualenvs_dir(dirs);
    join(envs.as_str(), project)
}

/// The file that names the shell to use, for `project` or for all projects.
pub fn shell_file(dirs: &Dirs, project: Option<&str>) -> (r: String)
    ensures
        match project {
            None => r@ == joined(dirs.data_local_dir@, "shell"@),
            Some(p) => r@ == joined(joined(joined(dirs.data_local_dir@, "virtualenvs"@), p@), "shell"@),
        },
{
    match project {
        None => join(dirs.data_local_dir.as_str(), "shell"),
        Some(project) => {
            let dir = project_dir(dirs, project);
            join(dir.as_str(), "shell")
        },
    }
}

/// The virtual environment of `project` for `version`.
pub fn virtualenv_dir(dirs: &Dirs, project: &str, version: &Version) -> (r: String)
    ensures
        r@ == joined(joined(joined(dirs.data_local_dir@, "virtualenvs"@), project@), rendered(*version)),
{
    let dir = project_dir(dirs, project);
    let name = version.to_string();
    join(dir.as_str(), name.as_str())
}

/// The file that holds the default working directory of `project`.
pub fn project_file(dirs: &Dirs, project: &str) -> (r: String)
    ensures
        r@ == joined(joined(joined(dirs.data_local_dir@, "virtualenvs"@), project@), "directory"@),
{
    let dir = project_dir(dirs, project);
    join(dir.as_str(), "directory")
}

} // verus!
