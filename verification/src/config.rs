//! Where the boards live.
use vstd::prelude::*;

use crate::text::{append_chars, chars_of, last_is, string_of};

verus! {

/// `NIFFLER_HOME`: the environment variable that names the data root.
pub const NIFFLER_HOME_ENV: &'static str = "NIFFLER_HOME";

/// `base` joined with the relative path `part`, as `PathBuf::join` does on Unix: a
/// `/` goes between them unless `base` is empty or already ends with one.
pub open spec fn path_join(base: Seq<char>, part: Seq<char>) -> Seq<char> {
    if base.len() == 0 {
        part
    } else if base.last() == '/' {
        base + part
    } else {
        base + seq!['/'] + part
    }
}

/// The path `base` joined with the relative path `part`.
pub fn join_path(base: &str, part: &str) -> (r: String)
    ensures
        r@ == path_join(base@, part@),
{
    let mut out = chars_of(base);
    if out.len() > 0 && !last_is(&out, '/') {
        out.push('/');
    }
    append_chars(&mut out, &chars_of(part));
    string_of(&out)
}

/// The data root: the path that `NIFFLER_HOME` names, or else `.niffler` under the
/// home directory (under `.` when there is none).
pub fn data_root_from_env(env_root: Option<String>, home: Option<String>) -> (r: String)
    ensures
        r@ == (match env_root {
            Some(path) => path@,
            None => path_join(
                match home {
                    Some(h) => h@,
                    None => "."@,
                },
                ".niffler"@,
            ),
        }),
{
    if let Some(path) = env_root {
        return path;
    }
    match home {
        Some(h) => join_path(h.as_str(), ".niffler"),
        None => join_path(".", ".niffler"),
    }
}

} // verus!
