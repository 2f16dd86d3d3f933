//! Command-line handling: the theme options, where the theme comes from,
//! and the repository to open.

use vstd::prelude::*;

use crate::text::{copy_str, same_text};
use crate::theme::{bundled, spec_bundled, BundledTheme};

verus! {

broadcast use vstd::string::group_string_axioms;

/// The plain values of a list of arguments.
pub open spec fn args_view(v: Seq<String>) -> Seq<Seq<char>> {
    v.map_values(|s: String| s@)
}

/// Scanning the arguments from position `p` with the theme name and theme
/// file found so far: `--theme NAME` and `--theme-file PATH` take the
/// argument after them (a later one wins); an option with nothing after it
/// is an ordinary argument.
pub open spec fn theme_args_from(
    args: Seq<Seq<char>>,
    p: int,
    found: (Option<Seq<char>>, Option<Seq<char>>),
) -> (Option<Seq<char>>, Option<Seq<char>>)
    decreases args.len() - p,
{
    if p < 0 || p >= args.len() {
        found
    } else if args[p] == "--theme"@ && p + 1 < args.len() {
        theme_args_from(args, p + 2, (Some(args[p + 1]), found.1))
    } else if args[p] == "--theme-file"@ && p + 1 < args.len() {
        theme_args_from(args, p + 2, (found.0, Some(args[p + 1])))
    } else {
        theme_args_from(args, p + 1, found)
    }
}

/// The theme name and the theme file given by the arguments.
pub open spec fn spec_theme_args(args: Seq<Seq<char>>) -> (Option<Seq<char>>, Option<Seq<char>>) {
    theme_args_from(args, 0, (None, None))
}

/// The plain value of an optional string.
pub open spec fn opt_view(s: Option<String>) -> Option<Seq<char>> {
    match s {
        Some(s) => Some(s@),
        None => None,
    }
}

/// A copy of `s`.
fn copy_string(s: &String) -> (r: String)
    ensures
        r@ == s@,
{
    copy_str(s.as_str())
}

/// The theme name (`--theme NAME`) and theme file (`--theme-file PATH`)
/// given by the arguments after the program name.
pub fn parse_theme_args(args: &Vec<String>) -> (r: (Option<String>, Option<String>))
    ensures
        (opt_view(r.0), opt_view(r.1)) == spec_theme_args(args_view(args@)),
{
    let ghost av = args_view(args@);
    let mut name: Option<String> = None;
    let mut file: Option<String> = None;
    let mut p: usize = 0;
    while p < args.len()
        invariant
            p <= args.len(),
            av == args_view(args@),
            theme_args_from(av, p as int, (opt_view(name), opt_view(file))) == spec_theme_args(av),
        decreases args.len() - p,
    {
        assert(av[p as int] == args@[p as int]@);
        if p + 1 < args.len() {
            assert(av[p + 1] == args@[p + 1]@);
        }
        let a = args[p].as_str();
        if same_text(a, "--theme") && p + 1 < args.len() {
            name = Some(copy_string(&args[p + 1]));
            p += 2;
        } else if same_text(a, "--theme-file") && p + 1 < args.len() {
            file = Some(copy_string(&args[p + 1]));
            p += 2;
        } else {
            p += 1;
        }
    }
    (name, file)
}

/// Where the theme comes from.
#[derive(Clone, Debug)]
pub enum ThemeSource {
    /// No theme was asked for: the default stays.
    Default,
    /// A theme file.
    File(String),
    /// A bundled theme.
    Bundled(BundledTheme),
    /// A name that is no bundled theme: a theme file if that path exists,
    /// an unknown theme otherwise.
    PathOrUnknown(String),
}

/// The plain value of a theme source.
pub open spec fn source_view(s: ThemeSource) -> (nat, Seq<char>, Option<BundledTheme>) {
    match s {
        ThemeSource::Default => (0, seq![], None),
        ThemeSource::File(p) => (1, p@, None),
        ThemeSource::Bundled(t) => (2, seq![], Some(t)),
        ThemeSource::PathOrUnknown(n) => (3, n@, None),
    }
}

/// Where the theme comes from: a theme file wins; then the theme name, or
/// failing that the environment's theme name, as a bundled theme or else a
/// path.
pub open spec fn spec_theme_source(
    file: Option<Seq<char>>,
    name: Option<Seq<char>>,
    env_name: Option<Seq<char>>,
) -> (nat, Seq<char>, Option<BundledTheme>) {
    let n = if name is Some {
        name
    } else {
        env_name
    };
    match file {
        Some(p) => (1, p, None),
        None => match n {
            None => (0, seq![], None),
            Some(n) => match spec_bundled(n) {
                Some(t) => (2, seq![], Some(t)),
                None => (3, n, None),
            },
        },
    }
}

/// Where the theme comes from, given the theme file and theme name of the
/// arguments and the theme name of the environment.
pub fn theme_source(file: Option<String>, name: Option<String>, env_name: Option<String>) -> (r:
    ThemeSource)
    ensures
        source_view(r) == spec_theme_source(opt_view(file), opt_view(name), opt_view(env_name)),
{
    if let Some(p) = file {
        return ThemeSource::File(p);
    }
    let n = match name {
        Some(n) => Some(n),
        None => env_name,
    };
    match n {
        None => ThemeSource::Default,
        Some(n) => match bundled(n.as_str()) {
            Some(t) => ThemeSource::Bundled(t),
            None => ThemeSource::PathOrUnknown(n),
        },
    }
}

/// The repository named by the arguments, scanning from position `p`: the
/// theme options and their values are skipped; `--repo PATH` names `PATH`
/// (nothing when no argument follows); the first other argument is the
/// repository.
pub open spec fn repo_arg_from(args: Seq<Seq<char>>, p: int) -> Option<Seq<char>>
    decreases args.len() - p,
{
    if p < 0 || p >= args.len() {
        None
    } else if args[p] == "--theme"@ || args[p] == "--theme-file"@ {
        if p + 2 <= args.len() {
            repo_arg_from(args, p + 2)
        } else {
            None
        }
    } else if args[p] == "--repo"@ {
        if p + 1 < args.len() {
            Some(args[p + 1])
        } else {
            None
        }
    } else {
        Some(args[p])
    }
}

/// The repository named by the arguments after the program name.
pub fn repo_arg(args: &Vec<String>) -> (r: Option<String>)
    ensures
        opt_view(r) == repo_arg_from(args_view(args@), 0),
{
    let ghost av = args_view(args@);
    let mut p: usize = 0;
    while p < args.len()
        invariant
            av == args_view(args@),
            repo_arg_from(av, p as int) == repo_arg_from(av, 0),
        decreases args.len() - p,
    {
        assert(av[p as int] == args@[p as int]@);
        let a = args[p].as_str();
        if same_text(a, "--theme") || same_text(a, "--theme-file") {
            if args.len() - p < 2 {
                return None;
            }
            p += 2;
        } else if same_text(a, "--repo") {
            if p + 1 < args.len() {
                assert(av[p + 1] == args@[p + 1]@);
                return Some(copy_string(&args[p + 1]));
            }
            return None;
        } else {
            return Some(copy_string(&args[p]));
        }
    }
    None
}

} // verus!
