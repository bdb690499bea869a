//! Wrapper mode: started by Steam in place of the game, with the game's
//! executable and arguments on the command line.

use vstd::prelude::*;
use crate::text::chars_of;
use crate::text::lowered;
use crate::text::lowered_chars;
use crate::text::texts_of;

verus! {

/// The game to start in wrapper mode.
#[derive(Debug, PartialEq, Eq)]
pub struct WrapperLaunchPlan {
    /// The executable of the game.
    pub program: String,
    /// The arguments to hand on to it.
    pub args: Vec<String>,
}

/// Whether `s` ends with `suffix`.
pub open spec fn has_suffix(s: Seq<char>, suffix: Seq<char>) -> bool {
    suffix.len() <= s.len() && s.skip(s.len() - suffix.len()) == suffix
}

/// Whether `path` looks like an executable: on Windows it ends with `.exe`
/// in capital or small letters; elsewhere it is not empty.
pub open spec fn executable_path(path: Seq<char>, windows: bool) -> bool {
    if windows {
        has_suffix(lowered(path), ".exe"@)
    } else {
        path.len() > 0
    }
}

/// Tells whether `path` looks like an executable.
pub fn is_executable_path(path: &str, windows: bool) -> (r: bool)
    ensures
        r == executable_path(path@, windows),
{
    if !windows {
        return path.unicode_len() > 0;
    }
    let v = lowered_chars(path);
    let suffix = chars_of(".exe");
    if suffix.len() > v.len() {
        return false;
    }
    let from = v.len() - suffix.len();
    let mut i: usize = 0;
    while i < suffix.len()
        invariant
            i <= suffix.len(),
            suffix.len() <= v.len(),
            from == v.len() - suffix.len(),
            windows,
            v@ == lowered(path@),
            suffix@ == ".exe"@,
            forall|j: int| 0 <= j < i ==> v@[from + j] == suffix@[j],
        decreases suffix.len() - i,
    {
        if v[from + i] != suffix[i] {
            assert(v@.skip(from as int)[i as int] != suffix@[i as int]);
            return false;
        }
        i += 1;
    }
    assert(v@.skip(from as int) =~= suffix@);
    true
}

/// What the command line asks for. Wrapper mode needs the manager's own
/// path, then a path that looks like an executable: that is the game, and all
/// that follows are its arguments. Anything else is a normal start.
pub open spec fn wrapper_plan(args: Seq<Seq<char>>, windows: bool) -> Option<
    (Seq<char>, Seq<Seq<char>>),
> {
    if args.len() >= 2 && executable_path(args[1], windows) {
        Some((args[1], args.skip(2)))
    } else {
        None
    }
}

/// Reads the command line. `windows` says whether the rules of Windows for
/// executables apply.
pub fn parse_wrapper_args_os(args: &Vec<String>, windows: bool) -> (r: Option<WrapperLaunchPlan>)
    ensures
        match r {
            Some(plan) => wrapper_plan(texts_of(args@), windows) == Some(
                (plan.program@, texts_of(plan.args@)),
            ),
            None => wrapper_plan(texts_of(args@), windows) is None,
        },
{
    if args.len() < 2 {
        return None;
    }
    if !is_executable_path(args[1].as_str(), windows) {
        return None;
    }
    let program = args[1].clone();
    let mut forwarded: Vec<String> = Vec::new();
    let mut i: usize = 2;
    while i < args.len()
        invariant
            2 <= i <= args.len(),
            forwarded.len() == i - 2,
            forall|j: int| 0 <= j < forwarded.len() ==> forwarded@[j]@ == args@[j + 2]@,
        decreases args.len() - i,
    {
        forwarded.push(args[i].clone());
        i += 1;
    }
    assert(texts_of(forwarded@) =~= texts_of(args@).skip(2));
    Some(WrapperLaunchPlan { program, args: forwarded })
}

} // verus!
