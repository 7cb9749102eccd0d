//! Where the plant keeps its files: the data directory for its state and
//! the runtime directory for its socket and process id, following the XDG
//! base-directory variables.

use vstd::prelude::*;
use crate::text::{chars_of, extend_str, string_of};

verus! {

/// `name` appended to the directory `dir` as a relative path component: a
/// separator goes between them unless `dir` is empty or already ends in one.
pub open spec fn joined(dir: Seq<char>, name: Seq<char>) -> Seq<char> {
    if dir.len() == 0 {
        name
    } else if dir.last() == '/' {
        dir + name
    } else {
        dir + seq!['/'] + name
    }
}

/// Appends the relative path `name` to the directory `dir`.
pub fn join_path(dir: &str, name: &str) -> (p: String)
    ensures
        p@ == joined(dir@, name@),
{
    let cs = chars_of(dir);
    let mut out: Vec<char> = Vec::new();
    extend_str(&mut out, dir);
    if cs.len() > 0 && cs[cs.len() - 1] != '/' {
        out.push('/');
    }
    extend_str(&mut out, name);
    assert(out@ == joined(dir@, name@));
    string_of(&out)
}

/// The data directory: `bonzai` under `XDG_DATA_HOME` when it is set, else
/// `.local/share/bonzai` under the home directory (or the current one).
pub open spec fn data_dir_of(xdg_data_home: Option<Seq<char>>, home: Option<Seq<char>>) -> Seq<char> {
    match xdg_data_home {
        Some(x) => joined(x, "bonzai"@),
        None => joined(
            match home {
                Some(h) => h,
                None => "."@,
            },
            ".local/share/bonzai"@,
        ),
    }
}

/// The view of an optional string.
pub open spec fn opt_view(s: Option<&str>) -> Option<Seq<char>> {
    match s {
        Some(x) => Some(x@),
        None => None,
    }
}

/// The data directory for the given `XDG_DATA_HOME` and `HOME` values.
pub fn data_dir(xdg_data_home: Option<&str>, home: Option<&str>) -> (p: String)
    ensures
        p@ == data_dir_of(opt_view(xdg_data_home), opt_view(home)),
{
    match xdg_data_home {
        Some(x) => join_path(x, "bonzai"),
        None => {
            let base: &str = match home {
                Some(h) => h,
                None => ".",
            };
            join_path(base, ".local/share/bonzai")
        },
    }
}

/// The runtime directory: `bonzai` under `XDG_RUNTIME_DIR` when it is set,
/// else `run` under the data directory.
pub open spec fn runtime_dir_of(xdg_runtime_dir: Option<Seq<char>>, data_dir: Seq<char>) -> Seq<char> {
    match xdg_runtime_dir {
        Some(x) => joined(x, "bonzai"@),
        None => joined(data_dir, "run"@),
    }
}

/// The runtime directory for the given `XDG_RUNTIME_DIR` value.
pub fn runtime_dir(xdg_runtime_dir: Option<&str>, data_dir: &str) -> (p: String)
    ensures
        p@ == runtime_dir_of(opt_view(xdg_runtime_dir), data_dir@),
{
    match xdg_runtime_dir {
        Some(x) => join_path(x, "bonzai"),
        None => join_path(data_dir, "run"),
    }
}

/// The state file in the data directory.
pub fn state_path(data_dir: &str) -> (p: String)
    ensures
        p@ == joined(data_dir@, "state.txt"@),
{
    join_path(data_dir, "state.txt")
}

/// The socket in the runtime directory.
pub fn socket_path(runtime_dir: &str) -> (p: String)
    ensures
        p@ == joined(runtime_dir@, "bonzai.sock"@),
{
    join_path(runtime_dir, "bonzai.sock")
}

/// The process-id file in the runtime directory.
pub fn pid_path(runtime_dir: &str) -> (p: String)
    ensures
        p@ == joined(runtime_dir@, "bonzai.pid"@),
{
    join_path(runtime_dir, "bonzai.pid")
}

} // verus!
