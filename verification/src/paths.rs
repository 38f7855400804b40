//! Where a site's mapping state lives: `<home>/.stencilwright/<site>/`.
//! Finding the home directory is the caller's part; the joining rules are
//! those of `PathBuf::push` on Unix.

use vstd::prelude::*;
use vstd::string::StringExecFns;
use crate::chars::{chars_of, owned};

verus! {

/// `part` appended to `base` as a path component: an absolute `part`
/// replaces `base`, and a separator goes between the two unless `base` is
/// empty or already ends with one.
pub open spec fn path_join(base: Seq<char>, part: Seq<char>) -> Seq<char> {
    if part.len() > 0 && part[0] == '/' {
        part
    } else if base.len() == 0 || base.last() == '/' {
        base + part
    } else {
        base + seq!['/'] + part
    }
}

/// The directory that holds every site: `.stencilwright` under the home
/// directory, or under `.` when there is none.
pub open spec fn root_dir_spec(home: Option<Seq<char>>) -> Seq<char> {
    path_join(
        match home {
            Some(h) => h,
            None => seq!['.'],
        },
        seq!['.', 's', 't', 'e', 'n', 'c', 'i', 'l', 'w', 'r', 'i', 'g', 'h', 't'],
    )
}

fn join(base: &str, part: &str) -> (r: String)
    ensures
        r@ == path_join(base@, part@),
{
    let pc = chars_of(part);
    if pc.len() > 0 && pc[0] == '/' {
        return owned(part);
    }
    let bc = chars_of(base);
    let mut out = owned(base);
    if !(bc.len() == 0 || bc[bc.len() - 1] == '/') {
        out.append("/");
        proof {
            reveal_strlit("/");
        }
    }
    out.append(part);
    out
}

/// The root of all site mappings, given the home directory if one is known.
pub fn root_dir(home: Option<&str>) -> (r: String)
    ensures
        r@ == root_dir_spec(
            match home {
                Some(h) => Some(h@),
                None => None,
            },
        ),
{
    proof {
        reveal_strlit(".");
        reveal_strlit(".stencilwright");
    }
    let base = match home {
        Some(h) => h,
        None => ".",
    };
    join(base, ".stencilwright")
}

/// A site's mapping directory: the site name joined onto [`root_dir`].
pub fn site_dir(home: Option<&str>, site: &str) -> (r: String)
    ensures
        r@ == path_join(
            root_dir_spec(
                match home {
                    Some(h) => Some(h@),
                    None => None,
                },
            ),
            site@,
        ),
{
    let root = root_dir(home);
    join(root.as_str(), site)
}

} // verus!
