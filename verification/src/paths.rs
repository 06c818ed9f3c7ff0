//! Slash-separated paths, and where the manager keeps its files.
use crate::text::{cat2, cat3, chars_of, same, split, split_at_char, views};
use vstd::prelude::*;

verus! {

/// `child` below `dir`. An absolute `child` stands by itself.
pub open spec fn joined(dir: Seq<char>, child: Seq<char>) -> Seq<char> {
    if dir.len() == 0 || (child.len() > 0 && child[0] == '/') {
        child
    } else if dir.last() == '/' {
        dir + child
    } else {
        dir + "/"@ + child
    }
}

pub fn join(dir: &str, child: &str) -> (r: String)
    ensures
        r@ == joined(dir@, child@),
{
    let d = chars_of(dir);
    let c = chars_of(child);
    if d.len() == 0 || (c.len() > 0 && c[0] == '/') {
        child.to_owned()
    } else if d[d.len() - 1] == '/' {
        cat2(dir, child)
    } else {
        cat3(dir, "/", child)
    }
}

/// Whether the path starts at the root.
pub open spec fn absolute(path: Seq<char>) -> bool {
    path.len() > 0 && path[0] == '/'
}

pub fn is_absolute(path: &str) -> (r: bool)
    ensures
        r == absolute(path@),
{
    let p = chars_of(path);
    p.len() > 0 && p[0] == '/'
}

/// The last of `pieces` that is neither empty nor `.`; none where that is `..`.
pub open spec fn last_name(pieces: Seq<Seq<char>>) -> Option<Seq<char>>
    decreases pieces.len(),
{
    if pieces.len() == 0 {
        None
    } else if pieces.last().len() == 0 || pieces.last() == "."@ {
        last_name(pieces.drop_last())
    } else if pieces.last() == ".."@ {
        None
    } else {
        Some(pieces.last())
    }
}

/// The name of the file or directory that a path ends in.
pub open spec fn base_name(path: Seq<char>) -> Option<Seq<char>> {
    last_name(split(path, '/'))
}

pub fn file_name(path: &str) -> (r: Option<String>)
    ensures
        match r {
            Some(n) => base_name(path@) == Some(n@),
            None => base_name(path@) is None,
        },
{
    let pieces = split_at_char(path, '/');
    let mut n: usize = pieces.len();
    assert(views(pieces@).take(n as int) =~= views(pieces@));
    while n > 0
        invariant
            n <= pieces@.len(),
            views(pieces@) == split(path@, '/'),
            last_name(views(pieces@).take(n as int)) == base_name(path@),
        decreases n,
    {
        let piece = &pieces[n - 1];
        let ghost front = views(pieces@).take(n as int);
        assert(front.last() == piece@);
        assert(front.drop_last() =~= views(pieces@).take(n - 1));
        if !(piece.as_str().is_empty() || same(piece.as_str(), ".")) {
            if same(piece.as_str(), "..") {
                return None;
            }
            return Some(piece.clone());
        }
        n -= 1;
    }
    None
}

/// The directories that everything else is found below.
#[derive(Debug, Clone)]
pub struct ServedPaths {
    pub config_home: String,
    pub runtime_dir: String,
    pub state_home: String,
}

#[derive(Debug, Clone, Copy, PartialEq, Eq, Structural)]
pub enum HomeError {
    NotSet,
    NotAbsolute,
}

impl HomeError {
    pub fn message(self) -> (r: &'static str)
        ensures
            self is NotSet ==> r@ == "HOME is not set"@,
            self is NotAbsolute ==> r@ == "HOME must be an absolute path"@,
    {
        match self {
            HomeError::NotSet => "HOME is not set",
            HomeError::NotAbsolute => "HOME must be an absolute path",
        }
    }
}

/// The three directories that belong to a home directory.
pub open spec fn home_layout(p: ServedPaths, home: Seq<char>) -> bool {
    let state = joined(joined(home, ".local"@), "state"@);
    &&& p.config_home@ == joined(home, ".config"@)
    &&& p.state_home@ == state
    &&& p.runtime_dir@ == joined(joined(state, "served"@), "runtime"@)
}

impl ServedPaths {
    /// The layout for the value of `HOME`, which must be set, not empty and absolute.
    pub fn from_environment(home: Option<&str>) -> (r: Result<Self, HomeError>)
        ensures
            match r {
                Ok(p) => home is Some && absolute(home->0@) && home_layout(p, home->0@),
                Err(HomeError::NotSet) => home is None || home->0@.len() == 0,
                Err(HomeError::NotAbsolute) => home is Some && home->0@.len() > 0 && !absolute(
                    home->0@,
                ),
            },
    {
        match home {
            None => Err(HomeError::NotSet),
            Some(home) => {
                if home.is_empty() {
                    return Err(HomeError::NotSet);
                }
                if !is_absolute(home) {
                    return Err(HomeError::NotAbsolute);
                }
                Ok(Self::from_home(home))
            },
        }
    }

    pub fn from_home(home: &str) -> (r: Self)
        ensures
            home_layout(r, home@),
    {
        let local = join(home, ".local");
        let state_home = join(local.as_str(), "state");
        let served = join(state_home.as_str(), "served");
        ServedPaths {
            config_home: join(home, ".config"),
            runtime_dir: join(served.as_str(), "runtime"),
            state_home,
        }
    }

    pub fn registry_dir(&self) -> (r: String)
        ensures
            r@ == joined(joined(self.config_home@, "served"@), "enabled"@),
    {
        let served = join(self.config_home.as_str(), "served");
        join(served.as_str(), "enabled")
    }

    pub fn socket_path(&self) -> (r: String)
        ensures
            r@ == joined(self.runtime_dir@, "served.sock"@),
    {
        join(self.runtime_dir.as_str(), "served.sock")
    }

    pub fn manager_generation(&self) -> (r: String)
        ensures
            r@ == joined(self.runtime_dir@, "manager.generation"@),
    {
        join(self.runtime_dir.as_str(), "manager.generation")
    }

    pub fn logs_dir(&self) -> (r: String)
        ensures
            r@ == joined(joined(self.state_home@, "served"@), "logs"@),
    {
        let served = join(self.state_home.as_str(), "served");
        join(served.as_str(), "logs")
    }

    pub open spec fn spec_runner_dir(&self, name: Seq<char>) -> Seq<char> {
        joined(joined(self.runtime_dir@, "runners"@), name)
    }

    pub fn runners_dir(&self) -> (r: String)
        ensures
            r@ == joined(self.runtime_dir@, "runners"@),
    {
        join(self.runtime_dir.as_str(), "runners")
    }

    pub fn runner_dir(&self, name: &str) -> (r: String)
        ensures
            r@ == self.spec_runner_dir(name@),
    {
        let runners = self.runners_dir();
        join(runners.as_str(), name)
    }

    pub fn runner_socket(&self, name: &str) -> (r: String)
        ensures
            r@ == joined(self.spec_runner_dir(name@), "runner.sock"@),
    {
        let dir = self.runner_dir(name);
        join(dir.as_str(), "runner.sock")
    }

    pub fn runner_metadata(&self, name: &str) -> (r: String)
        ensures
            r@ == joined(self.spec_runner_dir(name@), "runner.json"@),
    {
        let dir = self.runner_dir(name);
        join(dir.as_str(), "runner.json")
    }

    /// Where the definition of a temporary service is kept for the next manager.
    pub fn transient_definition(&self, name: &str) -> (r: String)
        ensures
            r@ == joined(self.spec_runner_dir(name@), "transient.json"@),
    {
        let dir = self.runner_dir(name);
        join(dir.as_str(), "transient.json")
    }
}

} // verus!
