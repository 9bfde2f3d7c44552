//! Locating a project: its root directory and its build script.
//!
//! The host looks at the file system; these functions decide from what it
//! saw.

use vstd::prelude::*;

use crate::errors::QuakeError;

verus! {

/// The build script names detected in a project root, in descending
/// precedence.
pub fn build_script_names() -> (r: Vec<&'static str>)
    ensures
        r@.len() == 2,
        r@[0]@ == "build.quake"@,
        r@[1]@ == "build.quake.nu"@,
{
    let mut names: Vec<&'static str> = Vec::new();
    names.push("build.quake");
    names.push("build.quake.nu");
    names
}

/// What the host found at one directory path.
#[derive(Debug)]
pub struct DirProbe {
    /// The directory's path.
    pub path: String,
    /// Whether the path is a directory.
    pub is_dir: bool,
    /// For each build script name, in precedence order, the path of that
    /// file in the directory and whether it is a file.
    pub scripts: Vec<(String, bool)>,
}

/// `i` is the first build script in precedence order that exists.
pub open spec fn is_first_script(scripts: Seq<(String, bool)>, i: int) -> bool {
    &&& 0 <= i < scripts.len()
    &&& scripts[i].1
    &&& forall|k: int| 0 <= k < i ==> !scripts[k].1
}

pub open spec fn has_script(scripts: Seq<(String, bool)>) -> bool {
    exists|i: int| 0 <= i < scripts.len() && scripts[i].1
}

/// The path of the build script in `dir`: the first name, in precedence
/// order, that is a file.
pub fn find_build_script(dir: &DirProbe) -> (r: Option<String>)
    ensures
        match r {
            Some(p) => exists|i: int| is_first_script(dir.scripts@, i) && p@ == dir.scripts@[i].0@,
            None => !has_script(dir.scripts@),
        },
{
    let mut i: usize = 0;
    while i < dir.scripts.len()
        invariant
            i <= dir.scripts@.len(),
            forall|k: int| 0 <= k < i ==> !dir.scripts@[k].1,
        decreases dir.scripts@.len() - i,
    {
        if dir.scripts[i].1 {
            proof {
                assert(is_first_script(dir.scripts@, i as int));
            }
            return Some(dir.scripts[i].0.clone());
        }
        i = i + 1;
    }
    None
}

/// A project: its root directory and the build script found there.
#[derive(Debug, Clone)]
pub struct Project {
    project_root: String,
    build_script: String,
}

impl Project {
    pub closed spec fn spec_root(&self) -> Seq<char> {
        self.project_root@
    }

    pub closed spec fn spec_script(&self) -> Seq<char> {
        self.build_script@
    }

    /// `p` is the project rooted at `dir`.
    pub open spec fn rooted_at(p: Project, dir: DirProbe) -> bool {
        &&& p.spec_root() == dir.path@
        &&& exists|i: int|
            is_first_script(dir.scripts@, i) && p.spec_script() == dir.scripts@[i].0@
    }

    /// Open the project whose root is `root`: it must be a directory, and
    /// hold a build script.
    pub fn new(root: &DirProbe) -> (r: Result<Project, QuakeError>)
        ensures
            !root.is_dir ==> r matches Err(QuakeError::ProjectNotFound),
            root.is_dir && !has_script(root.scripts@) ==> r matches Err(
                QuakeError::BuildScriptNotFound,
            ),
            root.is_dir && has_script(root.scripts@) ==> r is Ok && Self::rooted_at(
                r->Ok_0,
                *root,
            ),
    {
        if !root.is_dir {
            return Err(QuakeError::ProjectNotFound);
        }
        match find_build_script(root) {
            Some(build_script) => Ok(Project { project_root: root.path.clone(), build_script }),
            None => Err(QuakeError::BuildScriptNotFound),
        }
    }

    /// The search stops at `dirs[i]`: it is the first path that is not a
    /// directory or that holds a build script.
    pub open spec fn stops_at(dirs: Seq<DirProbe>, i: int) -> bool {
        &&& 0 <= i < dirs.len()
        &&& !dirs[i].is_dir || has_script(dirs[i].scripts@)
        &&& forall|k: int|
            0 <= k < i ==> (#[trigger] dirs[k]).is_dir && !has_script(dirs[k].scripts@)
    }

    /// Locate the project from the current directory upwards. `dirs` holds
    /// the current directory followed by its ancestors, nearest first; the
    /// first that holds a build script is the root. A path that is not a
    /// directory ends the search.
    pub fn locate(dirs: &Vec<DirProbe>) -> (r: Result<Project, QuakeError>)
        ensures
            r is Ok <==> exists|i: int| Self::stops_at(dirs@, i) && dirs@[i].is_dir,
            r is Ok ==> exists|i: int|
                Self::stops_at(dirs@, i) && dirs@[i].is_dir && Self::rooted_at(r->Ok_0, dirs@[i]),
            r is Err ==> r->Err_0 matches QuakeError::ProjectNotFound,
    {
        let mut i: usize = 0;
        while i < dirs.len()
            invariant
                i <= dirs@.len(),
                forall|k: int|
                    0 <= k < i ==> (#[trigger] dirs@[k]).is_dir && !has_script(dirs@[k].scripts@),
            decreases dirs@.len() - i,
        {
            let dir = &dirs[i];
            if !dir.is_dir {
                proof {
                    assert(Self::stops_at(dirs@, i as int));
                    assert forall|j: int| Self::stops_at(dirs@, j) implies !dirs@[j].is_dir by {
                        if j < i {
                        } else if j > i {
                            assert(dirs@[i as int].is_dir);
                        }
                    }
                }
                return Err(QuakeError::ProjectNotFound);
            }
            match find_build_script(dir) {
                Some(build_script) => {
                    let p = Project { project_root: dir.path.clone(), build_script };
                    proof {
                        assert(Self::stops_at(dirs@, i as int));
                        assert(Self::rooted_at(p, dirs@[i as int]));
                    }
                    return Ok(p);
                },
                None => {},
            }
            i = i + 1;
        }
        proof {
            assert forall|j: int| Self::stops_at(dirs@, j) implies !dirs@[j].is_dir by {
                assert(dirs@[j].is_dir && !has_script(dirs@[j].scripts@));
            }
        }
        Err(QuakeError::ProjectNotFound)
    }

    pub fn project_root(&self) -> (r: &String)
        ensures
            r@ == self.spec_root(),
    {
        &self.project_root
    }

    pub fn build_script(&self) -> (r: &String)
        ensures
            r@ == self.spec_script(),
    {
        &self.build_script
    }
}

} // verus!
