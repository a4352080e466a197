//! The files that the service is configured by.
use vstd::prelude::*;
use vstd::string::{StrSliceExecFns, StringExecFns};

verus! {

pub const CA_FILE: &'static str = "ca.pem";

pub const SERVER_CERT_FILE: &'static str = "server.pem";

pub const SERVER_KEY_FILE: &'static str = "server-key.pem";

pub const ROOT_CLIENT_CERT_FILE: &'static str = "root-client.pem";

pub const ROOT_CLIENT_KEY_FILE: &'static str = "root-client-key.pem";

pub const NOBODY_CLIENT_CERT_FILE: &'static str = "nobody-client.pem";

pub const NOBODY_CLIENT_KEY_FILE: &'static str = "nobody-client-key.pem";

pub const ACL_MODEL_FILE: &'static str = "model.conf";

pub const ACL_POLICY_FILE: &'static str = "policy.csv";

/// `path` in `dir`: a path that begins at the root stands for itself, and there is one slash
/// between the two otherwise.
pub open spec fn joined(dir: Seq<char>, path: Seq<char>) -> Seq<char> {
    if path.len() > 0 && path[0] == '/' {
        path
    } else if dir.len() == 0 || dir.last() == '/' {
        dir + path
    } else {
        dir + "/"@ + path
    }
}

/// Whether there is a directory of settings that is named by itself.
pub open spec fn is_named(config_dir: Option<String>) -> bool {
    config_dir matches Some(dir) && dir@.len() > 0
}

/// Where a file of settings lies: in the directory of settings, where that is named, or else in
/// `.proglog` in the home directory.
pub open spec fn config_path(
    filename: Seq<char>,
    config_dir: Option<String>,
    home_dir: Option<String>,
) -> Seq<char> {
    if is_named(config_dir) {
        joined(config_dir->0@, filename)
    } else {
        joined(joined(home_dir->0@, ".proglog"@), filename)
    }
}

/// `path` in `dir`.
fn join(dir: &str, path: &str) -> (both: String)
    ensures
        both@ == joined(dir@, path@),
{
    if path.unicode_len() > 0 && path.get_char(0) == '/' {
        return String::from_str(path);
    }
    let mut both = String::from_str(dir);
    let n: usize = dir.unicode_len();
    if n > 0 && dir.get_char(n - 1) != '/' {
        both.append("/");
    }
    both.append(path);
    both
}

/// Where a file of settings lies, by the directory of settings and the home directory.
pub fn config_file(
    filename: &str,
    config_dir: Option<String>,
    home_dir: Option<String>,
) -> (path: String)
    requires
        !is_named(config_dir) ==> home_dir is Some,
    ensures
        path@ == config_path(filename@, config_dir, home_dir),
{
    match config_dir {
        Some(dir) => {
            if dir.as_str().unicode_len() > 0 {
                return join(dir.as_str(), filename);
            }
        },
        None => {},
    }
    match home_dir {
        Some(home) => join(join(home.as_str(), ".proglog").as_str(), filename),
        None => vstd::pervasive::unreached(),
    }
}

/// A path in a directory begins with the directory and ends with the path, with one slash between
/// them, whether the directory ends with one or not.
pub proof fn one_slash_between(dir: Seq<char>, path: Seq<char>)
    requires
        path.len() == 0 || path[0] != '/',
    ensures
        joined(dir, path).len() >= dir.len() + path.len(),
        joined(dir, path).take(dir.len() as int) == dir,
        joined(dir, path).skip(joined(dir, path).len() - path.len()) == path,
        dir.len() > 0 && dir.last() != '/' ==> joined(dir, path) == joined(dir.push('/'), path)
            && joined(dir, path)[dir.len() as int] == '/' && joined(dir, path).len() == dir.len()
            + 1 + path.len(),
        dir.len() == 0 ==> joined(dir, path) == path,
        dir.len() > 0 && dir.last() == '/' ==> joined(dir, path) == dir + path,
{
    reveal_strlit("/");
    let both = joined(dir, path);
    assert(both.take(dir.len() as int) =~= dir);
    assert(both.skip(both.len() - path.len()) =~= path);
    if dir.len() > 0 && dir.last() != '/' {
        assert(joined(dir.push('/'), path) =~= both);
    }
    if dir.len() == 0 {
        assert(both =~= path);
    }
}

/// A path that begins at the root stands for itself, whatever the directory.
pub proof fn root_path_stands_for_itself(dir: Seq<char>, path: Seq<char>)
    requires
        path.len() > 0,
        path[0] == '/',
    ensures
        joined(dir, path) == path,
{
}

/// A file of settings lies in the directory of settings, where that is named and not empty, and the
/// home directory does not matter then. Else it lies in `.proglog` in the home directory.
pub proof fn settings_lie_in_the_named_directory(
    filename: Seq<char>,
    dir: String,
    home: String,
    other: Option<String>,
)
    ensures
        dir@.len() > 0 ==> config_path(filename, Some(dir), other) == joined(dir@, filename),
        dir@.len() == 0 ==> config_path(filename, Some(dir), Some(home)) == config_path(
            filename,
            None,
            Some(home),
        ),
        config_path(filename, None, Some(home)) == joined(
            joined(home@, ".proglog"@),
            filename,
        ),
        is_named(Some(dir)) <==> dir@.len() > 0,
        !is_named(None),
{
}

} // verus!
