//! The layout of a project directory.
//!
//! Paths are texts with `/` between their parts. The functions here only
//! compute paths and decide on what was found; looking at the file system
//! is left to the caller.

use crate::error::DeployError;
use crate::names::{names_of, same_name};
use crate::text::{lines, lines_of, trim, trim_end, trimmed, trimmed_end};
use vstd::prelude::*;
use vstd::string::*;

verus! {

/// The path `part` seen from the directory `base`: `part` itself where it
/// is absolute, that is, begins with `/`, or where `base` is empty; else
/// `base`, a `/` unless `base` ends with one, and `part`.
pub open spec fn joined(base: Seq<char>, part: Seq<char>) -> Seq<char> {
    if part.len() > 0 && part[0] == '/' {
        part
    } else if base.len() == 0 {
        part
    } else if base.last() == '/' {
        base + part
    } else {
        base + "/"@ + part
    }
}

/// The path `part` seen from the directory `base`.
pub fn join_path(base: &str, part: &str) -> (r: String)
    ensures
        r@ == joined(base@, part@),
{
    let n = base.unicode_len();
    if part.unicode_len() > 0 && part.get_char(0) == '/' {
        String::from_str(part)
    } else if n == 0 {
        String::from_str(part)
    } else if base.get_char(n - 1) == '/' {
        String::from_str(base).concat(part)
    } else {
        String::from_str(base).concat("/").concat(part)
    }
}

/// A project directory.
#[derive(Clone, Debug, PartialEq, Eq)]
pub struct ProjectLayout {
    /// The directory that holds `.deployer/` and `products/`.
    pub root: String,
}

impl ProjectLayout {
    /// The directory of the configuration and state files.
    pub fn deployer_dir(&self) -> (r: String)
        ensures
            r@ == joined(self.root@, ".deployer"@),
    {
        join_path(self.root.as_str(), ".deployer")
    }

    /// The file of the environment profiles.
    pub fn profiles_yaml(&self) -> (r: String)
        ensures
            r@ == joined(joined(self.root@, ".deployer"@), "profiles.yaml"@),
    {
        join_path(self.deployer_dir().as_str(), "profiles.yaml")
    }

    /// The file of the bootstrap resources.
    pub fn bootstrap_yaml(&self) -> (r: String)
        ensures
            r@ == joined(joined(self.root@, ".deployer"@), "bootstrap.yaml"@),
    {
        join_path(self.deployer_dir().as_str(), "bootstrap.yaml")
    }

    /// The file of the product catalog.
    pub fn catalog_yaml(&self) -> (r: String)
        ensures
            r@ == joined(joined(self.root@, ".deployer"@), "catalog.yaml"@),
    {
        join_path(self.deployer_dir().as_str(), "catalog.yaml")
    }

    /// The directory of the product sources.
    pub fn products_dir(&self) -> (r: String)
        ensures
            r@ == joined(self.root@, "products"@),
    {
        join_path(self.root.as_str(), "products")
    }

    /// The directory of the version control data.
    pub fn git_dir(&self) -> (r: String)
        ensures
            r@ == joined(self.root@, ".git"@),
    {
        join_path(self.root.as_str(), ".git")
    }

    /// The file of the paths that version control passes over.
    pub fn gitignore(&self) -> (r: String)
        ensures
            r@ == joined(self.root@, ".gitignore"@),
    {
        join_path(self.root.as_str(), ".gitignore")
    }

    /// The directory of the editor integration.
    pub fn cursor_dir(&self) -> (r: String)
        ensures
            r@ == joined(self.root@, ".cursor"@),
    {
        join_path(self.root.as_str(), ".cursor")
    }
}

/// What was found at one directory on the way from the start directory up
/// to the root of the file system.
#[derive(Clone, Debug, PartialEq, Eq)]
pub struct DirProbe {
    /// The directory.
    pub path: String,
    /// Whether it holds a directory `.deployer`.
    pub has_deployer_dir: bool,
    /// Whether `.deployer/catalog.yaml` is a file.
    pub has_catalog: bool,
    /// Whether `.deployer/bootstrap.yaml` is a file.
    pub has_bootstrap: bool,
}

impl DirProbe {
    /// The directory is the root of a project: it holds `.deployer` with a
    /// catalog or a bootstrap file in it.
    pub open spec fn is_root(&self) -> bool {
        self.has_deployer_dir && (self.has_catalog || self.has_bootstrap)
    }
}

/// The root of the project that the start directory belongs to.
///
/// `ancestors` holds the start directory and then each of its parents,
/// nearest first. The first of them that is the root of a project is
/// returned.
pub fn discover_project_root(ancestors: &Vec<DirProbe>) -> (r: Option<String>)
    ensures
        match r {
            Some(root) => exists|i: int|
                0 <= i < ancestors@.len() && (#[trigger] ancestors@[i]).is_root() && root@
                    == ancestors@[i].path@ && forall|j: int|
                    0 <= j < i ==> !(#[trigger] ancestors@[j]).is_root(),
            None => forall|j: int| 0 <= j < ancestors@.len() ==> !(#[trigger] ancestors@[j]).is_root(),
        },
{
    let mut i: usize = 0;
    while i < ancestors.len()
        invariant
            i <= ancestors@.len(),
            forall|j: int| 0 <= j < i ==> !(#[trigger] ancestors@[j]).is_root(),
        decreases ancestors@.len() - i,
    {
        let p = &ancestors[i];
        if p.has_deployer_dir && (p.has_catalog || p.has_bootstrap) {
            return Some(p.path.clone());
        }
        i += 1;
    }
    None
}

/// The layout of the project to work on: the one that was named, else the
/// one that was discovered from the working directory.
pub fn load_layout(project_override: Option<String>, discovered: Option<String>, cwd: &str) -> (r:
    Result<ProjectLayout, DeployError>)
    ensures
        match r {
            Ok(layout) => match project_override {
                Some(p) => layout.root@ == p@,
                None => discovered is Some && layout.root@ == discovered->0@,
            },
            Err(DeployError::ProjectRootNotFound { from }) => project_override is None
                && discovered is None && from@ == cwd@,
            Err(_) => false,
        },
{
    match project_override {
        Some(root) => Ok(ProjectLayout { root }),
        None => match discovered {
            Some(root) => Ok(ProjectLayout { root }),
            None => Err(DeployError::ProjectRootNotFound { from: String::from_str(cwd) }),
        },
    }
}

/// The kind of one component of a path.
#[derive(Clone, Copy, Debug, PartialEq, Eq, Structural)]
pub enum PathPart {
    /// A drive or share prefix.
    Prefix,
    /// The root directory.
    RootDir,
    /// The directory itself, written `.`.
    CurDir,
    /// The parent directory, written `..`.
    ParentDir,
    /// An ordinary name.
    Normal,
}

/// The kinds of the components of the path `name`, as the standard
/// library's `Path::components` yields them on this platform. Nothing is
/// claimed of them.
#[verifier::external_body]
fn path_parts(name: &str) -> (r: Vec<PathPart>) {
    std::path::Path::new(name).components().map(
        |c|
            match c {
                std::path::Component::Prefix(_) => PathPart::Prefix,
                std::path::Component::RootDir => PathPart::RootDir,
                std::path::Component::CurDir => PathPart::CurDir,
                std::path::Component::ParentDir => PathPart::ParentDir,
                std::path::Component::Normal(_) => PathPart::Normal,
            },
    ).collect()
}

/// Checks the name of a new project: it must not be blank, and as a path
/// it must be one component, an ordinary name. `blank` says whether the
/// name is empty once trimmed, `parts` holds the kinds of its components.
pub fn check_project_name(blank: bool, parts: &Vec<PathPart>) -> (r: Result<(), DeployError>)
    ensures
        r is Ok <==> !blank && parts@.len() == 1 && parts@[0] == PathPart::Normal,
        match r {
            Ok(_) => true,
            Err(DeployError::EmptyProjectName) => blank,
            Err(DeployError::NotSingleDirectoryName) => !blank && parts@.len() != 1,
            Err(DeployError::NotNormalDirectoryName) => !blank && parts@.len() == 1 && parts@[0]
                != PathPart::Normal,
            Err(_) => false,
        },
{
    if blank {
        return Err(DeployError::EmptyProjectName);
    }
    if parts.len() != 1 {
        return Err(DeployError::NotSingleDirectoryName);
    }
    match parts[0] {
        PathPart::Normal => Ok(()),
        _ => Err(DeployError::NotNormalDirectoryName),
    }
}

/// The directory of a new project named `name` below the working
/// directory `cwd`.
///
/// The name must not be blank; as a path it must be one component, an
/// ordinary name. How the name falls into components, the platform
/// decides.
pub fn project_dir_from_name(name: &str, cwd: &str) -> (r: Result<String, DeployError>)
    ensures
        match r {
            Ok(dir) => trimmed(name@).len() > 0 && dir@ == joined(cwd@, name@),
            Err(DeployError::EmptyProjectName) => trimmed(name@).len() == 0,
            Err(DeployError::NotSingleDirectoryName) => trimmed(name@).len() > 0,
            Err(DeployError::NotNormalDirectoryName) => trimmed(name@).len() > 0,
            Err(_) => false,
        },
{
    let blank = trim(name).unicode_len() == 0;
    let parts = path_parts(name);
    match check_project_name(blank, &parts) {
        Ok(_) => Ok(join_path(cwd, name)),
        Err(e) => Err(e),
    }
}

/// Checks that the directory of a new project does not exist yet.
pub fn check_new_directory(path: &str, exists: bool) -> (r: Result<(), DeployError>)
    ensures
        r is Ok <==> !exists,
        match r {
            Ok(_) => true,
            Err(DeployError::DirectoryExists { path: p }) => p@ == path@,
            Err(_) => false,
        },
{
    if exists {
        Err(DeployError::DirectoryExists { path: String::from_str(path) })
    } else {
        Ok(())
    }
}

/// The text holds `line` as one of its lines, white space at the end of
/// the lines of the text passed over.
pub open spec fn has_line(text: Seq<char>, line: Seq<char>) -> bool {
    exists|i: int| 0 <= i < lines_of(text).len() && trimmed_end(#[trigger] lines_of(text)[i]) == line
}

/// The text with `line` as a line at its end, unless it holds the line
/// already.
pub open spec fn with_line(text: Seq<char>, line: Seq<char>) -> Seq<char> {
    if has_line(text, line) {
        text
    } else if text.len() > 0 && text.last() != '\n' {
        text + "\n"@ + line + "\n"@
    } else {
        text + line + "\n"@
    }
}

/// The text with each of `lines` that it does not hold yet at its end, in
/// their order.
pub open spec fn with_lines(text: Seq<char>, lines: Seq<Seq<char>>) -> Seq<char>
    decreases lines.len(),
{
    if lines.len() == 0 {
        text
    } else {
        with_line(with_lines(text, lines.drop_last()), lines.last())
    }
}

/// Whether the text holds `line` as one of its lines.
fn holds_line(text: &str, line: &str) -> (r: bool)
    ensures
        r == has_line(text@, line@),
{
    let all = lines(text);
    let mut i: usize = 0;
    while i < all.len()
        invariant
            names_of(all@) == lines_of(text@),
            i <= all@.len(),
            forall|j: int| 0 <= j < i ==> trimmed_end(#[trigger] lines_of(text@)[j]) != line@,
        decreases all@.len() - i,
    {
        assert(names_of(all@)[i as int] == all@[i as int]@);
        if same_name(trim_end(all[i].as_str()), line) {
            return true;
        }
        i += 1;
    }
    false
}

/// The text of the ignore file with the wanted lines in it: each wanted
/// line that the text does not hold yet is put at its end, on a line of
/// its own.
pub fn gitignore_with_lines(existing: &str, wanted: &Vec<String>) -> (r: String)
    ensures
        r@ == with_lines(existing@, names_of(wanted@)),
{
    let ghost all = names_of(wanted@);
    let mut out = String::from_str(existing);
    let mut i: usize = 0;
    assert(all.take(0) =~= Seq::<Seq<char>>::empty());
    while i < wanted.len()
        invariant
            all == names_of(wanted@),
            i <= wanted@.len(),
            out@ == with_lines(existing@, all.take(i as int)),
        decreases wanted@.len() - i,
    {
        proof {
            assert(all.take(i + 1).drop_last() =~= all.take(i as int));
            assert(all.take(i + 1).last() == wanted@[i as int]@);
        }
        let line = wanted[i].as_str();
        if !holds_line(out.as_str(), line) {
            let n = out.as_str().unicode_len();
            if n > 0 && out.as_str().get_char(n - 1) != '\n' {
                out = out.concat("\n");
            }
            out = out.concat(line).concat("\n");
        }
        i += 1;
    }
    proof {
        assert(all.take(wanted@.len() as int) =~= all);
    }
    out
}

} // verus!
