//! The command line of the trash tool, and the data home it falls back to.
use vstd::prelude::*;
use crate::paths::{join_path, path_join};
use crate::text::{chars_eq, has_prefix, string_of, to_chars};

verus! {

/// What the arguments read so far have set.
pub struct ArgsModel {
    pub interactive: bool,
    pub verbose: bool,
    pub help: bool,
    pub version: bool,
    /// `--` was seen: the rest are file names.
    pub eoo: bool,
    pub files: Seq<Seq<char>>,
    /// An unknown option was seen.
    pub invalid: bool,
    /// The first unknown option.
    pub bad: Seq<char>,
}

pub open spec fn initial_model() -> ArgsModel {
    ArgsModel {
        interactive: false,
        verbose: false,
        help: false,
        version: false,
        eoo: false,
        files: seq![],
        invalid: false,
        bad: seq![],
    }
}

/// The model after reading the argument `a`.
pub open spec fn step(st: ArgsModel, a: Seq<char>) -> ArgsModel {
    if st.invalid {
        st
    } else if st.eoo {
        ArgsModel { files: st.files.push(a), ..st }
    } else if a == "--"@ {
        ArgsModel { eoo: true, ..st }
    } else if a == "-i"@ || a == "--interactive"@ {
        ArgsModel { interactive: true, ..st }
    } else if a == "-v"@ || a == "--verbose"@ {
        ArgsModel { verbose: true, ..st }
    } else if a == "-h"@ || a == "--help"@ {
        ArgsModel { help: true, ..st }
    } else if a == "-V"@ || a == "--version"@ {
        ArgsModel { version: true, ..st }
    } else if a == "-iv"@ || a == "-vi"@ {
        ArgsModel { interactive: true, verbose: true, ..st }
    } else if "-"@.is_prefix_of(a) {
        ArgsModel { invalid: true, bad: a, ..st }
    } else {
        ArgsModel { files: st.files.push(a), ..st }
    }
}

/// The model after reading all of `args`.
pub open spec fn read_args(args: Seq<Seq<char>>) -> ArgsModel
    decreases args.len(),
{
    if args.len() == 0 {
        initial_model()
    } else {
        step(read_args(args.drop_last()), args.last())
    }
}

/// The options and file names of a command line.
#[derive(Debug, Clone)]
pub struct Args {
    /// `-i`, `--interactive`: ask before each move.
    pub interactive: bool,
    /// `-v`, `--verbose`: tell what is done.
    pub verbose: bool,
    /// `-h`, `--help`.
    pub help: bool,
    /// `-V`, `--version`.
    pub version: bool,
    pub file_names: Vec<String>,
}

/// Why a command line was refused.
#[derive(Debug, Clone, PartialEq, Eq)]
pub enum ArgsError {
    /// No file to trash, and neither help nor version asked for.
    MissingOperand,
    /// The first option that is not known.
    InvalidOption(String),
}

/// The views of a sequence of strings.
pub open spec fn arg_views(v: Seq<String>) -> Seq<Seq<char>> {
    v.map_values(|s: String| s@)
}

fn is_lit(a: &Vec<char>, lit: &str) -> (r: bool)
    ensures
        r == (a@ == lit@),
{
    let l = to_chars(lit);
    chars_eq(a, &l)
}

impl Args {
    /// Reads the arguments in order: `--` ends the options; `-i`, `-v`, `-h`,
    /// `-V`, their long forms and `-iv`/`-vi` set flags; any other argument
    /// that starts with `-` is refused; the rest are file names. At least one
    /// file is needed unless help or version is asked for.
    pub fn parse(args: Vec<String>) -> (r: Result<Args, ArgsError>)
        ensures
            ({
                let m = read_args(arg_views(args@));
                if args@.len() == 0 {
                    r == Err::<Args, ArgsError>(ArgsError::MissingOperand)
                } else if m.invalid {
                    (r matches Err(ArgsError::InvalidOption(o)) && o@ == m.bad)
                } else if m.files.len() == 0 && !(m.help || m.version) {
                    r == Err::<Args, ArgsError>(ArgsError::MissingOperand)
                } else {
                    r matches Ok(a) && a.interactive == m.interactive && a.verbose == m.verbose
                        && a.help == m.help && a.version == m.version
                        && arg_views(a.file_names@) == m.files
                }
            }),
    {
        if args.len() == 0 {
            return Err(ArgsError::MissingOperand);
        }
        let ghost av = arg_views(args@);
        let mut interactive = false;
        let mut verbose = false;
        let mut help = false;
        let mut version = false;
        let mut eoo = false;
        let mut file_names: Vec<String> = Vec::new();
        let mut i: usize = 0;
        while i < args.len()
            invariant
                av == arg_views(args@),
                i <= args@.len(),
                ({
                    let m = read_args(av.subrange(0, i as int));
                    !m.invalid && m.interactive == interactive && m.verbose == verbose
                        && m.help == help && m.version == version && m.eoo == eoo
                        && m.files == arg_views(file_names@)
                }),
            decreases args.len() - i,
        {
            let ghost pre = av.subrange(0, i + 1);
            assert(pre.drop_last() =~= av.subrange(0, i as int));
            assert(pre.last() == args@[i as int]@);
            let arg = &args[i];
            let a = to_chars(arg.as_str());
            if eoo {
                let ghost old_f = file_names@;
                file_names.push(arg.clone());
                assert(arg_views(file_names@) =~= arg_views(old_f).push(a@));
            } else if is_lit(&a, "--") {
                eoo = true;
            } else if is_lit(&a, "-i") || is_lit(&a, "--interactive") {
                interactive = true;
            } else if is_lit(&a, "-v") || is_lit(&a, "--verbose") {
                verbose = true;
            } else if is_lit(&a, "-h") || is_lit(&a, "--help") {
                help = true;
            } else if is_lit(&a, "-V") || is_lit(&a, "--version") {
                version = true;
            } else if is_lit(&a, "-iv") || is_lit(&a, "-vi") {
                verbose = true;
                interactive = true;
            } else {
                let dash = to_chars("-");
                if has_prefix(&a, &dash) {
                    proof {
                        assert(read_args(pre).invalid);
                        assert(av.subrange(0, i + 1).len() <= av.len());
                        lemma_invalid_sticks(av, i as int + 1);
                    }
                    return Err(ArgsError::InvalidOption(arg.clone()));
                }
                let ghost old_f = file_names@;
                file_names.push(arg.clone());
                assert(arg_views(file_names@) =~= arg_views(old_f).push(a@));
            }
            i = i + 1;
        }
        assert(av.subrange(0, i as int) =~= av);
        if file_names.len() == 0 && !(help || version) {
            return Err(ArgsError::MissingOperand);
        }
        Ok(Args { interactive, verbose, help, version, file_names })
    }
}

/// Once an unknown option is read, the rest of the arguments do not matter.
proof fn lemma_invalid_sticks(av: Seq<Seq<char>>, k: int)
    requires
        0 <= k <= av.len(),
        read_args(av.subrange(0, k)).invalid,
    ensures
        read_args(av).invalid,
        read_args(av).bad == read_args(av.subrange(0, k)).bad,
    decreases av.len() - k,
{
    if k < av.len() {
        assert(av.subrange(0, k + 1).drop_last() =~= av.subrange(0, k));
        lemma_invalid_sticks(av, k + 1);
    } else {
        assert(av.subrange(0, k) =~= av);
    }
}

/// `Args::parse`, for the command line as a whole.
pub fn parse_args(args: Vec<String>) -> (r: Result<Args, ArgsError>)
    ensures
        ({
            let m = read_args(arg_views(args@));
            if args@.len() == 0 {
                r == Err::<Args, ArgsError>(ArgsError::MissingOperand)
            } else if m.invalid {
                (r matches Err(ArgsError::InvalidOption(o)) && o@ == m.bad)
            } else if m.files.len() == 0 && !(m.help || m.version) {
                r == Err::<Args, ArgsError>(ArgsError::MissingOperand)
            } else {
                r matches Ok(a) && a.interactive == m.interactive && a.verbose == m.verbose
                    && a.help == m.help && a.version == m.version
                    && arg_views(a.file_names@) == m.files
            }
        }),
{
    Args::parse(args)
}

/// Why the data home could not be found.
#[derive(Debug, Clone, Copy, PartialEq, Eq, Structural)]
pub enum EnvError {
    /// Neither `$XDG_DATA_HOME` nor `$HOME` is set.
    NoHome,
}

/// `$XDG_DATA_HOME`, from the values of `XDG_DATA_HOME` and `HOME` (none
/// where unset): the first where it is set, else `$HOME/.local/share`.
pub fn get_xdg_data_home(xdg_data_home: Option<&str>, home: Option<&str>) -> (r: Result<String, EnvError>)
    ensures
        match (xdg_data_home, home) {
            (Some(x), _) => r matches Ok(p) && p@ == x@,
            (None, Some(h)) => r matches Ok(p) && p@ == path_join(path_join(h@, ".local"@), "share"@),
            (None, None) => r == Err::<String, EnvError>(EnvError::NoHome),
        },
{
    match xdg_data_home {
        Some(x) => {
            let c = to_chars(x);
            assert(c@.subrange(0, c@.len() as int) =~= c@);
            Ok(string_of(&c, 0, c.len()))
        },
        None => match home {
            Some(h) => {
                let local = join_path(h, ".local");
                Ok(join_path(local.as_str(), "share"))
            },
            None => Err(EnvError::NoHome),
        },
    }
}

} // verus!
