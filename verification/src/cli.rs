//! Command-line parsing: bundled single-character flags after a `-`, a help
//! request (`-h`, `--help` or `/?`), and the first free argument as the
//! query.  Later free arguments are ignored; an unknown flag character or a
//! missing or empty query is rejected.

use vstd::prelude::*;

verus! {

/// The switches that the command-line flags select.
#[derive(Clone, Copy, Debug, PartialEq, Eq, Structural)]
pub struct Config {
    /// `-v`: extra logging.
    pub verbose: bool,
    /// `-i`: fold subject and query to lower case before searching.
    pub ignore_case: bool,
    /// `-r`: descend into subdirectories.
    pub recursive: bool,
    /// `-0`: no ANSI color around matches.
    pub no_colors: bool,
    /// `-f`: search file names instead of file contents.
    pub search_file_names: bool,
}

/// The configuration before any flag was seen: everything off.
pub open spec fn initial_config() -> Config {
    Config {
        verbose: false,
        ignore_case: false,
        recursive: false,
        no_colors: false,
        search_file_names: false,
    }
}

impl Default for Config {
    /// The configuration with every switch off.
    fn default() -> (c: Config)
        ensures
            c == initial_config(),
    {
        Config {
            verbose: false,
            ignore_case: false,
            recursive: false,
            no_colors: false,
            search_file_names: false,
        }
    }
}

/// The flag characters the tool understands.
pub open spec fn is_flag_char(c: char) -> bool {
    c == 'v' || c == 'i' || c == 'r' || c == 'f' || c == '0'
}

/// The configuration after one known flag character.
pub open spec fn apply_flag(c: Config, ch: char) -> Config {
    if ch == 'v' {
        Config { verbose: true, ..c }
    } else if ch == 'i' {
        Config { ignore_case: true, ..c }
    } else if ch == 'r' {
        Config { recursive: true, ..c }
    } else if ch == 'f' {
        Config { search_file_names: true, ..c }
    } else if ch == '0' {
        Config { no_colors: true, ..c }
    } else {
        c
    }
}

/// The configuration after the flag characters of `a` before position
/// `upto` (the leading `-` at position 0 not included).
pub open spec fn apply_flags(c: Config, a: Seq<char>, upto: int) -> Config
    decreases upto,
{
    if upto <= 1 {
        c
    } else {
        apply_flag(apply_flags(c, a, upto - 1), a[upto - 1])
    }
}

/// The position of the first unknown flag character of `a` at or after `j`,
/// or `a.len()` when all are known.
pub open spec fn first_unknown(a: Seq<char>, j: int) -> int
    decreases a.len() - j,
{
    if j < 1 || j >= a.len() {
        a.len() as int
    } else if !is_flag_char(a[j]) {
        j
    } else {
        first_unknown(a, j + 1)
    }
}

/// The arguments that ask for the usage text.
pub open spec fn is_help_arg(a: Seq<char>) -> bool {
    a == seq!['-', 'h'] || a == seq!['-', '-', 'h', 'e', 'l', 'p'] || a == seq!['/', '?']
}

/// What a run of the parser decides.
pub ghost enum ParseModel {
    /// A help argument was given: print the usage text and succeed.
    Help,
    /// A flag character the tool does not know, and the index of the
    /// argument that carried it.
    UnknownFlag { flag: char, arg: int },
    /// No query argument was given.
    MissingQuery,
    /// The query argument was the empty string.
    EmptyQuery,
    /// A well-formed command line: the selected switches and the query.
    Run { config: Config, query: Seq<char> },
}

/// The parser's decision, scanning the arguments from position `i` with the
/// switches `c` accumulated so far and `q` the query already chosen, if any.
pub open spec fn parse_model(args: Seq<Seq<char>>, i: int, c: Config, q: Option<Seq<char>>) -> ParseModel
    decreases args.len() - i,
{
    if i < 0 || i >= args.len() {
        match q {
            Option::None => ParseModel::MissingQuery,
            Option::Some(qs) => if qs.len() == 0 {
                ParseModel::EmptyQuery
            } else {
                ParseModel::Run { config: c, query: qs }
            },
        }
    } else {
        let a = args[i];
        if is_help_arg(a) {
            ParseModel::Help
        } else if a.len() >= 1 && a[0] == '-' {
            if first_unknown(a, 1) < a.len() {
                ParseModel::UnknownFlag { flag: a[first_unknown(a, 1)], arg: i }
            } else {
                parse_model(args, i + 1, apply_flags(c, a, a.len() as int), q)
            }
        } else if q is None {
            parse_model(args, i + 1, c, Option::Some(a))
        } else {
            parse_model(args, i + 1, c, q)
        }
    }
}

/// The parser's decision for a whole command line (program name excluded).
pub open spec fn parse_spec(args: Seq<Seq<char>>) -> ParseModel {
    parse_model(args, 0, initial_config(), Option::None)
}

/// What parsing a command line yields.
pub enum ParseResult {
    /// A help argument was given: print the usage text and succeed.
    Help,
    /// A flag character the tool does not know, and the index of the
    /// argument that carried it.
    UnknownFlag { flag: char, arg: usize },
    /// No query argument was given.
    MissingQuery,
    /// The query argument was the empty string.
    EmptyQuery,
    /// A well-formed command line: the selected switches and the query.
    Run { config: Config, query: Vec<char> },
}

impl View for ParseResult {
    type V = ParseModel;

    open spec fn view(&self) -> ParseModel {
        match self {
            ParseResult::Help => ParseModel::Help,
            ParseResult::UnknownFlag { flag, arg } => ParseModel::UnknownFlag {
                flag: *flag,
                arg: *arg as int,
            },
            ParseResult::MissingQuery => ParseModel::MissingQuery,
            ParseResult::EmptyQuery => ParseModel::EmptyQuery,
            ParseResult::Run { config, query } => ParseModel::Run {
                config: *config,
                query: query@,
            },
        }
    }
}

/// Whether `a` asks for the usage text.
fn is_help(a: &Vec<char>) -> (r: bool)
    ensures
        r == is_help_arg(a@),
{
    let short = a.len() == 2 && a[0] == '-' && a[1] == 'h';
    let long = a.len() == 6 && a[0] == '-' && a[1] == '-' && a[2] == 'h' && a[3] == 'e'
        && a[4] == 'l' && a[5] == 'p';
    let query_mark = a.len() == 2 && a[0] == '/' && a[1] == '?';
    proof {
        if short {
            assert(a@ =~= seq!['-', 'h']);
        }
        if long {
            assert(a@ =~= seq!['-', '-', 'h', 'e', 'l', 'p']);
        }
        if query_mark {
            assert(a@ =~= seq!['/', '?']);
        }
    }
    short || long || query_mark
}

/// When the flag characters of `a` from `m` up to `j` are all known and `j`
/// holds an unknown one or is the end, the first unknown at or after `m` is
/// `j` or the end.
proof fn lemma_first_unknown_from(a: Seq<char>, m: int, j: int)
    requires
        1 <= m <= j <= a.len(),
        forall|k: int| m <= k < j ==> is_flag_char(a[k]),
        j == a.len() || !is_flag_char(a[j]),
    ensures
        first_unknown(a, m) == if j < a.len() { j } else { a.len() as int },
    decreases j - m,
{
    if m < j {
        lemma_first_unknown_from(a, m + 1, j);
    }
}

/// Parses a command line (program name excluded): a help argument wins at
/// once; an argument starting with `-` is a bundle of flags, rejected at its
/// first unknown character; the first other argument is the query and later
/// ones are ignored.  Without a query, or with an empty one, parsing fails.
#[verifier::loop_isolation(false)]
pub fn parse_args(args: &Vec<Vec<char>>) -> (r: ParseResult)
    ensures
        r@ == parse_spec(args.deep_view()),
{
    let ghost dargs = args.deep_view();
    let mut config = Config::default();
    let mut query: Option<Vec<char>> = None;
    let mut i: usize = 0;
    while i < args.len()
        invariant
            i <= args@.len(),
            dargs == args.deep_view(),
            dargs.len() == args@.len(),
            parse_spec(dargs) == parse_model(
                dargs,
                i as int,
                config,
                match query {
                    Option::Some(qv) => Option::Some(qv@),
                    Option::None => Option::None,
                },
            ),
        decreases args@.len() - i,
    {
        let a = &args[i];
        proof {
            assert(dargs[i as int] =~= a@);
        }
        if is_help(a) {
            return ParseResult::Help;
        }
        if a.len() >= 1 && a[0] == '-' {
            let ghost c0 = config;
            let mut j: usize = 1;
            while j < a.len()
                invariant
                    1 <= j <= a@.len(),
                    a@.len() >= 1,
                    forall|k: int| 1 <= k < j ==> is_flag_char(a@[k]),
                    config == apply_flags(c0, a@, j as int),
                decreases a@.len() - j,
            {
                let ch: char = a[j];
                if ch == 'v' {
                    config.verbose = true;
                } else if ch == 'i' {
                    config.ignore_case = true;
                } else if ch == 'r' {
                    config.recursive = true;
                } else if ch == 'f' {
                    config.search_file_names = true;
                } else if ch == '0' {
                    config.no_colors = true;
                } else {
                    proof {
                        lemma_first_unknown_from(a@, 1, j as int);
                    }
                    return ParseResult::UnknownFlag { flag: ch, arg: i };
                }
                proof {
                    assert(apply_flags(c0, a@, j as int + 1)
                        == apply_flag(apply_flags(c0, a@, j as int), a@[j as int]));
                }
                j += 1;
            }
            proof {
                lemma_first_unknown_from(a@, 1, a@.len() as int);
            }
        } else if query.is_none() {
            let qc = a.clone();
            proof {
                assert forall|k: int| 0 <= k < a@.len() implies qc@[k] == a@[k] by {}
                assert(qc@ =~= a@);
            }
            query = Some(qc);
        }
        i += 1;
    }
    match query {
        Some(q) => {
            if q.len() == 0 {
                ParseResult::EmptyQuery
            } else {
                ParseResult::Run { config, query: q }
            }
        },
        None => ParseResult::MissingQuery,
    }
}

} // verus!
