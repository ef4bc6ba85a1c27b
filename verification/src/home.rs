//! `$DSH_HOME` resolution: the environment variable (blank counts as unset)
//! wins; otherwise `<home>/.dsh`. Paths are strings joined in the platform's
//! style; the caller reads the environment and hands the values in.

use vstd::prelude::*;
use crate::text::{chars_of, trim, trimmed, string_of};

verus! {

pub const DSH_HOME_ENV: &'static str = "DSH_HOME";

pub const DSH_HOME_DIR_NAME: &'static str = ".dsh";

/// The only profile this client drives (`dsh web` is `--profile web`).
pub const PROFILE_NAME: &'static str = "web";

pub const PROFILE_PATCH_FILENAME: &'static str = "cordis.patch.yml";

/// How the platform writes paths.
#[derive(Debug, Clone, Copy, PartialEq, Eq, Structural)]
pub enum PathStyle {
    /// `/` separates components.
    Unix,
    /// `\\` separates components (`/` is read as one too); `C:` names a drive.
    Windows,
}

/// A separator character of the style.
pub open spec fn is_sep(style: PathStyle, c: char) -> bool {
    c == '/' || (style == PathStyle::Windows && c == '\\')
}

/// The separator the style writes.
pub open spec fn main_sep(style: PathStyle) -> char {
    match style {
        PathStyle::Unix => '/',
        PathStyle::Windows => '\\',
    }
}

/// A bare drive such as `C:`.
pub open spec fn is_bare_drive(style: PathStyle, base: Seq<char>) -> bool {
    &&& style == PathStyle::Windows
    &&& base.len() == 2
    &&& base[1] == ':'
    &&& (('a' <= base[0] && base[0] <= 'z') || ('A' <= base[0] && base[0] <= 'Z'))
}

/// `base` joined with the single relative component `name` (`Path::join`
/// with such a name): a separator of the style goes between them unless
/// `base` is empty, already ends with a separator, or is a bare drive.
pub open spec fn path_join(style: PathStyle, base: Seq<char>, name: Seq<char>) -> Seq<char> {
    if base.len() == 0 || is_sep(style, base.last()) || is_bare_drive(style, base) {
        base + name
    } else {
        base + seq![main_sep(style)] + name
    }
}

/// `base` joined with the single relative component `name`.
fn join_path(style: PathStyle, base: &str, name: &str) -> (r: String)
    ensures
        r@ == path_join(style, base@, name@),
{
    let b = chars_of(base);
    let mut r = base.to_owned();
    let windows = style == PathStyle::Windows;
    let n = b.len();
    let ends_in_sep = n > 0 && (b[n - 1] == '/' || (windows && b[n - 1] == '\\'));
    let bare_drive = windows && n == 2 && b[1] == ':' && (('a' <= b[0] && b[0] <= 'z') || ('A' <= b[0]
        && b[0] <= 'Z'));
    if !(n == 0 || ends_in_sep || bare_drive) {
        assert(b@.last() == b@[n - 1]);
        if windows {
            r.append("\\");
            proof {
                reveal_strlit("\\");
            }
        } else {
            r.append("/");
            proof {
                reveal_strlit("/");
            }
        }
    } else {
        assert(n > 0 ==> b@.last() == b@[n - 1]);
    }
    r.append(name);
    assert(r@ =~= path_join(style, base@, name@));
    r
}

/// The dsh home: the trimmed `DSH_HOME` value when it is not blank, else
/// `.dsh` under the platform home directory, else nothing.
pub open spec fn dsh_home_spec(
    style: PathStyle,
    dsh_home_var: Option<Seq<char>>,
    platform_home: Option<Seq<char>>,
) -> Option<Seq<char>> {
    match dsh_home_var {
        Some(v) if trim(v).len() > 0 => Some(trim(v)),
        _ => match platform_home {
            Some(h) => Some(path_join(style, h, DSH_HOME_DIR_NAME@)),
            None => None,
        },
    }
}

pub open spec fn opt_str_view(o: Option<&str>) -> Option<Seq<char>> {
    match o {
        Some(s) => Some(s@),
        None => None,
    }
}

pub open spec fn opt_string_view(o: Option<String>) -> Option<Seq<char>> {
    match o {
        Some(s) => Some(s@),
        None => None,
    }
}

/// Resolves the dsh home from the value of `DSH_HOME` and the platform home
/// directory (`HOME`, or `USERPROFILE` on Windows), each `None` when unset.
pub fn dsh_home_from(style: PathStyle, dsh_home_var: Option<&str>, platform_home: Option<&str>) -> (r:
    Option<String>)
    ensures
        opt_string_view(r) == dsh_home_spec(style, opt_str_view(dsh_home_var), opt_str_view(platform_home)),
{
    if let Some(value) = dsh_home_var {
        let t = trimmed(chars_of(value).as_slice());
        if t.len() > 0 {
            return Some(string_of(t.as_slice()));
        }
    }
    match platform_home {
        Some(h) => Some(join_path(style, h, DSH_HOME_DIR_NAME)),
        None => None,
    }
}

/// `<home>/profiles/web`.
pub fn profile_dir(style: PathStyle, home: &str) -> (r: String)
    ensures
        r@ == path_join(style, path_join(style, home@, "profiles"@), PROFILE_NAME@),
{
    let p = join_path(style, home, "profiles");
    join_path(style, p.as_str(), PROFILE_NAME)
}

/// `<profile dir>/cordis.patch.yml`.
pub fn patch_file(style: PathStyle, profile_dir: &str) -> (r: String)
    ensures
        r@ == path_join(style, profile_dir@, PROFILE_PATCH_FILENAME@),
{
    join_path(style, profile_dir, PROFILE_PATCH_FILENAME)
}


/// A blank `DSH_HOME` counts as unset.
pub proof fn lemma_blank_home_var_is_unset(
    style: PathStyle,
    value: Seq<char>,
    platform_home: Option<Seq<char>>,
)
    requires
        trim(value).len() == 0,
    ensures
        dsh_home_spec(style, Some(value), platform_home) == dsh_home_spec(style, None, platform_home),
{
}

} // verus!
