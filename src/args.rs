//! The command line: leading flag arguments, the search term, the roots.

use vstd::prelude::*;
use crate::search::{Grabber, GrabberSearchTypes};

verus! {

/// What `str::trim` makes of a text: without leading and trailing white space.
pub uninterp spec fn trim_of(s: Seq<char>) -> Seq<char>;

/// Relies on `str::trim`, which drops leading and trailing Unicode white space;
/// the result depends on the text alone.
#[verifier::external_body]
fn trim_text(s: &String) -> (r: String)
    ensures
        r@ == trim_of(s@),
{
    s.trim().to_string()
}

/// The state of reading the flag characters.
pub enum FlagState {
    Reading(Grabber),
    Help,
    Unknown(char),
}

/// What the command line asks for.
pub enum Invocation {
    /// Print the usage text and stop, successfully.
    Help,
    /// A flag character that is not known: print it with the usage, and fail.
    UnknownOption(char),
    /// No search term was given.
    MissingSearch(Grabber),
    /// Search for `search` under each of `dirs`, in order.
    Run { config: Grabber, search: String, dirs: Vec<String> },
}

/// An argument that starts with `-` is a flag argument.
pub open spec fn is_flag(s: Seq<char>) -> bool {
    s.len() > 0 && s[0] == '-'
}

/// The index of the first argument at or after `i` that is not a flag argument.
pub open spec fn flags_end(args: Seq<Seq<char>>, i: int) -> int
    decreases args.len() - i,
{
    if i < 0 || i >= args.len() || !is_flag(args[i]) {
        if i < 0 { 0 } else { i }
    } else {
        flags_end(args, i + 1)
    }
}

/// One flag character read in state `st`; a finished state stays as it is.
pub open spec fn step(st: FlagState, c: char) -> FlagState {
    match st {
        FlagState::Reading(g) => {
            if c == 'r' {
                FlagState::Reading(Grabber { recursive: true, ..g })
            } else if c == 'n' {
                FlagState::Reading(Grabber { numbered: true, ..g })
            } else if c == 'F' {
                FlagState::Reading(Grabber { search_type: GrabberSearchTypes::FileNames, ..g })
            } else if c == 'C' {
                FlagState::Reading(Grabber { search_type: GrabberSearchTypes::FContents, ..g })
            } else if c == 'v' {
                FlagState::Reading(Grabber { verbose: true, ..g })
            } else if c == 'h' {
                FlagState::Help
            } else {
                FlagState::Unknown(c)
            }
        },
        _ => st,
    }
}

/// The characters of `s` from index 1 up to `j`, read from state `st`.
pub open spec fn read_chars(st: FlagState, s: Seq<char>, j: int) -> FlagState
    decreases j,
{
    if j <= 1 {
        st
    } else {
        step(read_chars(st, s, j - 1), s[j - 1])
    }
}

pub open spec fn default_grabber() -> Grabber {
    Grabber {
        search_type: GrabberSearchTypes::FContents,
        recursive: false,
        numbered: false,
        verbose: false,
    }
}

/// The flag arguments among the first `k`, read in order from the default.
pub open spec fn read_flags(args: Seq<Seq<char>>, k: int) -> FlagState
    decreases k,
{
    if k <= 0 {
        FlagState::Reading(default_grabber())
    } else {
        read_chars(read_flags(args, k - 1), args[k - 1], args[k - 1].len() as int)
    }
}

pub open spec fn strings_seq(v: Seq<String>) -> Seq<Seq<char>> {
    v.map_values(|x: String| x@)
}

/// What the arguments (the program name left out) ask for.
pub open spec fn invocation_of(args: Seq<Seq<char>>, r: Invocation) -> bool {
    let n = flags_end(args, 0);
    match read_flags(args, n) {
        FlagState::Help => r is Help,
        FlagState::Unknown(c) => r == Invocation::UnknownOption(c),
        FlagState::Reading(g) => if n >= args.len() {
            r == Invocation::MissingSearch(g)
        } else {
            match r {
                Invocation::Run { config, search, dirs } => config == g && search@ == trim_of(
                    args[n],
                ) && strings_seq(dirs@) == args.subrange(n + 1, args.len() as int),
                _ => false,
            }
        },
    }
}

fn step_exec(st: FlagState, c: char) -> (r: FlagState)
    ensures
        r == step(st, c),
{
    match st {
        FlagState::Reading(g) => {
            let mut g = g;
            if c == 'r' {
                g.recursive = true;
            } else if c == 'n' {
                g.numbered = true;
            } else if c == 'F' {
                g.search_type = GrabberSearchTypes::FileNames;
            } else if c == 'C' {
                g.search_type = GrabberSearchTypes::FContents;
            } else if c == 'v' {
                g.verbose = true;
            } else if c == 'h' {
                return FlagState::Help;
            } else {
                return FlagState::Unknown(c);
            }
            FlagState::Reading(g)
        },
        _ => st,
    }
}

/// Reads the command line arguments that follow the program name.
pub fn parse_args(args: &Vec<String>) -> (r: Invocation)
    ensures
        invocation_of(strings_seq(args@), r),
{
    let ghost a = strings_seq(args@);
    let mut n: usize = 0;
    loop
        invariant
            n <= args.len(),
            a == strings_seq(args@),
            flags_end(a, 0) == flags_end(a, n as int),
        ensures
            n <= args.len(),
            a == strings_seq(args@),
            flags_end(a, 0) == flags_end(a, n as int),
            n == args.len() || !is_flag(a[n as int]),
        decreases args.len() - n,
    {
        if n == args.len() {
            break;
        }
        let s = args[n].as_str();
        assert(s@ == a[n as int]);
        if s.unicode_len() == 0 || s.get_char(0) != '-' {
            break;
        }
        n = n + 1;
    }
    assert(flags_end(a, 0) == n as int);
    let mut st = FlagState::Reading(
        Grabber {
            search_type: GrabberSearchTypes::FContents,
            recursive: false,
            numbered: false,
            verbose: false,
        },
    );
    let mut k: usize = 0;
    while k < n
        invariant
            k <= n,
            n <= args.len(),
            a == strings_seq(args@),
            st == read_flags(a, k as int),
        decreases n - k,
    {
        let s = args[k].as_str();
        assert(s@ == a[k as int]);
        let len = s.unicode_len();
        let ghost start = st;
        let mut j: usize = 1;
        while j < len
            invariant
                1 <= j,
                j <= len || j == 1,
                len == s@.len(),
                st == read_chars(start, s@, j as int),
            decreases len - j,
        {
            st = step_exec(st, s.get_char(j));
            j = j + 1;
        }
        assert(st == read_chars(start, s@, s@.len() as int));
        k = k + 1;
    }
    match st {
        FlagState::Help => Invocation::Help,
        FlagState::Unknown(c) => Invocation::UnknownOption(c),
        FlagState::Reading(g) => {
            if n == args.len() {
                Invocation::MissingSearch(g)
            } else {
                let search = trim_text(&args[n]);
                let mut dirs: Vec<String> = Vec::new();
                let mut i: usize = n + 1;
                while i < args.len()
                    invariant
                        n + 1 <= i <= args.len(),
                        a == strings_seq(args@),
                        strings_seq(dirs@) == a.subrange(n + 1, i as int),
                    decreases args.len() - i,
                {
                    let d = args[i].clone();
                    assert(d@ == a[i as int]);
                    let ghost old_dirs = dirs@;
                    dirs.push(d);
                    assert(strings_seq(dirs@) =~= strings_seq(old_dirs).push(a[i as int]));
                    i = i + 1;
                    assert(strings_seq(dirs@) =~= a.subrange(n + 1, i as int));
                }
                Invocation::Run { config: g, search, dirs }
            }
        },
    }
}

/// The directories to search: those given, or the current directory when
/// none is given.
pub fn effective_roots(dirs: Vec<String>) -> (r: Vec<String>)
    ensures
        dirs@.len() == 0 ==> strings_seq(r@) == seq![seq!['.', '/']],
        dirs@.len() > 0 ==> r@ == dirs@,
{
    if dirs.len() == 0 {
        let mut r: Vec<String> = Vec::new();
        let here = String::from_str("./");
        proof {
            reveal_strlit("./");
        }
        assert(here@ =~= seq!['.', '/']);
        r.push(here);
        assert(strings_seq(r@) =~= seq![seq!['.', '/']]);
        r
    } else {
        dirs
    }
}

} // verus!
