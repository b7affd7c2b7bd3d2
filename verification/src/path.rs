//! Paths as the user types them: the home marker and the place of the
//! configuration file.

use crate::text::{chars_of, text_between};
use vstd::prelude::*;

verus! {

/// The view of a text that may be absent, such as the value of a variable
/// of the environment.
pub open spec fn text_view(t: Option<&str>) -> Option<Seq<char>> {
    match t {
        Some(s) => Some(s@),
        None => None,
    }
}

/// `path` with a leading `~` replaced by the home directory. A path that
/// does not start with `~` stays as it is, and so does every path while the
/// home directory is unknown.
pub open spec fn expanded(path: Seq<char>, home: Option<Seq<char>>) -> Seq<char> {
    match home {
        Some(h) => if path.len() > 0 && path[0] == '~' {
            h + path.skip(1)
        } else {
            path
        },
        None => path,
    }
}

/// Expands the home marker at the start of `path`; `home` is the home
/// directory, if it is known.
pub fn expand_path(path: &str, home: Option<&str>) -> (out: String)
    ensures
        out@ == expanded(path@, text_view(home)),
{
    let v = chars_of(path);
    match home {
        Some(h) => {
            if v.len() > 0 && v[0] == '~' {
                let rest = text_between(&v, 1, v.len());
                let mut out = String::from_str(h);
                out.append(rest.as_str());
                assert(v@.subrange(1, v.len() as int) =~= path@.skip(1));
                out
            } else {
                String::from_str(path)
            }
        },
        None => String::from_str(path),
    }
}

/// The directory that holds the configuration file: the home directory,
/// or `./` while it is unknown.
pub open spec fn config_dir(home: Option<Seq<char>>) -> Seq<char> {
    match home {
        Some(h) => h,
        None => "./"@,
    }
}

/// The path of the configuration file, `.sh_cfg` in the home directory.
pub fn config_path(home: Option<&str>) -> (out: String)
    ensures
        out@ == config_dir(text_view(home)) + "/.sh_cfg"@,
{
    let mut out = match home {
        Some(h) => String::from_str(h),
        None => String::from_str("./"),
    };
    out.append("/.sh_cfg");
    out
}

} // verus!
