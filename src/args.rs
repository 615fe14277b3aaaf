use vstd::prelude::*;

use crate::error::{Error, ErrorKind};
use crate::{OptimizationLevel, Options, WarningFlags};

verus! {

/// What a command-line argument with a leading dash asks for.
#[derive(Clone, Copy, Debug, PartialEq, Eq, Structural)]
pub enum OptionType {
    /// An option that is not recognised; it is ignored.
    Unknown,
    Help,
    Version,
    /// `-o` / `--output`: the output file, given by the next argument.
    Target,
    /// `-i` / `--includes`: comma-separated paths, given by the next argument.
    Includes,
    /// `-O0`, `-O1`, `-O2`, `-O3` or `-Oz`.
    Optimization,
    WarningAll,
    WarningNone,
}

/// Whether `p` is a prefix of `s`.
pub open spec fn starts_with_text(s: Seq<char>, p: Seq<char>) -> bool {
    p.len() <= s.len() && s.subrange(0, p.len() as int) == p
}

/// `s` without its first `n` characters.
pub open spec fn rest(s: Seq<char>, n: int) -> Seq<char> {
    s.subrange(n, s.len() as int)
}

/// The warning option named `name` (the text after `-W` or `--warn-`).
pub open spec fn warning_type(name: Seq<char>) -> OptionType {
    if name == "all"@ {
        OptionType::WarningAll
    } else if name == "none"@ {
        OptionType::WarningNone
    } else {
        OptionType::Unknown
    }
}

/// The long option named `name` (the text after `--`).
pub open spec fn expanded_type(name: Seq<char>) -> OptionType {
    if starts_with_text(name, "warn-"@) {
        warning_type(rest(name, "warn-"@.len() as int))
    } else if name == "output"@ {
        OptionType::Target
    } else if name == "includes"@ {
        OptionType::Includes
    } else if name == "help"@ {
        OptionType::Help
    } else if name == "version"@ {
        OptionType::Version
    } else {
        OptionType::Unknown
    }
}

/// Whether `name` (the text after `-`) names an optimization level.
pub open spec fn is_optimization_name(name: Seq<char>) -> bool {
    name == "O0"@ || name == "O1"@ || name == "O2"@ || name == "O3"@ || name == "Oz"@
}

/// The short option named `name` (the text after `-`).
pub open spec fn short_type(name: Seq<char>) -> OptionType {
    if name.len() > 0 && name[0] == 'W' {
        warning_type(rest(name, 1))
    } else if name == "o"@ {
        OptionType::Target
    } else if name == "i"@ {
        OptionType::Includes
    } else if name == "h"@ {
        OptionType::Help
    } else if name == "v"@ {
        OptionType::Version
    } else if is_optimization_name(name) {
        OptionType::Optimization
    } else {
        OptionType::Unknown
    }
}

/// What the argument `arg` asks for: nothing for an argument without a
/// leading dash (a file to compile), else a long (`--`) or short (`-`) option.
pub open spec fn leader_type(arg: Seq<char>) -> Option<OptionType> {
    if !(arg.len() > 0 && arg[0] == '-') {
        None
    } else if arg.len() > 1 && arg[1] == '-' {
        Some(expanded_type(rest(arg, 2)))
    } else {
        Some(short_type(rest(arg, 1)))
    }
}

/// The optimization level that `name` (the text after `-`) names.
pub open spec fn optimization_level(name: Seq<char>) -> OptimizationLevel {
    if name == "O0"@ {
        OptimizationLevel::Off
    } else if name == "O1"@ {
        OptimizationLevel::Low
    } else if name == "O2"@ {
        OptimizationLevel::Medium
    } else if name == "O3"@ {
        OptimizationLevel::High
    } else {
        OptimizationLevel::Size
    }
}

/// Whether `s` is the text `lit`.
fn text_eq(s: &str, lit: &str) -> (r: bool)
    ensures
        r == (s@ == lit@),
{
    let n = s.unicode_len();
    let m = lit.unicode_len();
    if n != m {
        return false;
    }
    let mut k: usize = 0;
    while k < m
        invariant
            n == s@.len(),
            m == lit@.len(),
            n == m,
            k <= m,
            forall|j: int| 0 <= j < k ==> s@[j] == lit@[j],
        decreases m - k,
    {
        if s.get_char(k) != lit.get_char(k) {
            return false;
        }
        k = k + 1;
    }
    assert(s@ =~= lit@);
    true
}

/// Whether `s` starts with the text `lit`.
fn starts_with(s: &str, lit: &str) -> (r: bool)
    ensures
        r == starts_with_text(s@, lit@),
{
    let n = s.unicode_len();
    let m = lit.unicode_len();
    if m > n {
        return false;
    }
    let mut k: usize = 0;
    while k < m
        invariant
            n == s@.len(),
            m == lit@.len(),
            m <= n,
            k <= m,
            forall|j: int| 0 <= j < k ==> s@[j] == lit@[j],
        decreases m - k,
    {
        if s.get_char(k) != lit.get_char(k) {
            assert(s@.subrange(0, m as int)[k as int] != lit@[k as int]);
            return false;
        }
        k = k + 1;
    }
    assert(s@.subrange(0, m as int) =~= lit@);
    true
}

/// `s` without its first `n` characters.
fn rest_of<'a>(s: &'a str, n: usize) -> (r: &'a str)
    requires
        n <= s@.len(),
    ensures
        r@ == rest(s@, n as int),
{
    let len = s.unicode_len();
    s.substring_char(n, len)
}

/// What the argument `arg` asks for; `None` where it has no leading dash.
pub fn parse_leader(arg: &str) -> (r: Option<OptionType>)
    ensures
        r == leader_type(arg@),
{
    let n = arg.unicode_len();
    if n == 0 || arg.get_char(0) != '-' {
        return None;
    }
    if n > 1 && arg.get_char(1) == '-' {
        return Some(parse_expanded(rest_of(arg, 2)));
    }
    let leader = rest_of(arg, 1);
    if n > 1 && arg.get_char(1) == 'W' {
        assert(leader@[0] == arg@[1]);
        assert(rest(leader@, 1) =~= rest(arg@, 2));
        return Some(parse_warning(rest_of(arg, 2)));
    }
    if n > 1 {
        assert(leader@[0] == arg@[1]);
    }
    Some(
        if text_eq(leader, "o") {
            OptionType::Target
        } else if text_eq(leader, "i") {
            OptionType::Includes
        } else if text_eq(leader, "h") {
            OptionType::Help
        } else if text_eq(leader, "v") {
            OptionType::Version
        } else if text_eq(leader, "O0") || text_eq(leader, "O1") || text_eq(leader, "O2")
            || text_eq(leader, "O3") || text_eq(leader, "Oz") {
            OptionType::Optimization
        } else {
            OptionType::Unknown
        },
    )
}

/// What the long option named `leader` (the text after `--`) asks for.
pub fn parse_expanded(leader: &str) -> (r: OptionType)
    ensures
        r == expanded_type(leader@),
{
    if starts_with(leader, "warn-") {
        let name = rest_of(leader, "warn-".unicode_len());
        return parse_warning(name);
    }
    if text_eq(leader, "output") {
        OptionType::Target
    } else if text_eq(leader, "includes") {
        OptionType::Includes
    } else if text_eq(leader, "help") {
        OptionType::Help
    } else if text_eq(leader, "version") {
        OptionType::Version
    } else {
        OptionType::Unknown
    }
}

/// What the warning option named `leader` asks for.
pub fn parse_warning(leader: &str) -> (r: OptionType)
    ensures
        r == warning_type(leader@),
{
    if text_eq(leader, "all") {
        OptionType::WarningAll
    } else if text_eq(leader, "none") {
        OptionType::WarningNone
    } else {
        OptionType::Unknown
    }
}

/// The text shown for `-h` / `--help`, which is empty.
pub open spec fn help_text() -> Seq<char> {
    ""@
}

/// The text shown for `-v` / `--version`.
pub open spec fn version_text() -> Seq<char> {
    "ev3c v0.1.0"@
}

/// Help information, shown when the help option is given.
pub fn help_message() -> (r: &'static str)
    ensures
        r@ == help_text(),
{
    ""
}

/// Version information, shown when the version option is given.
pub fn version_message() -> (r: &'static str)
    ensures
        r@ == version_text(),
{
    "ev3c v0.1.0"
}

/// The views of a sequence of strings.
pub open spec fn texts(v: Seq<String>) -> Seq<Seq<char>> {
    v.map_values(|s: String| s@)
}

/// The model of parsed arguments.
pub ghost struct ArgumentsModel {
    pub files: Seq<Seq<char>>,
    pub includes: Seq<Seq<char>>,
    pub target: Seq<char>,
    pub optimization: OptimizationLevel,
    pub warnings: Seq<WarningFlags>,
}

/// The parsed command line, which guides the compiler.
#[derive(Debug)]
pub struct Arguments {
    /// Files to compile.
    pub files: Vec<String>,
    /// Files to includes, such as libraries.
    pub includes: Vec<String>,
    /// Compiler options.
    pub options: Options,
}

impl Arguments {
    pub open spec fn model(&self) -> ArgumentsModel {
        ArgumentsModel {
            files: texts(self.files@),
            includes: texts(self.includes@),
            target: self.options.spec_target(),
            optimization: self.options.spec_optimization(),
            warnings: self.options.spec_warnings(),
        }
    }

    /// No files, no inclusions and the default options.
    pub fn new() -> (r: Arguments)
        ensures
            r.model() == default_model(),
    {
        let r = Arguments { files: Vec::new(), includes: Vec::new(), options: Options::new() };
        assert(texts(r.files@) =~= Seq::<Seq<char>>::empty());
        assert(texts(r.includes@) =~= Seq::<Seq<char>>::empty());
        r
    }
}

/// The model of `Arguments::new()`.
pub open spec fn default_model() -> ArgumentsModel {
    ArgumentsModel {
        files: Seq::empty(),
        includes: Seq::empty(),
        target: crate::DEFAULT_TARGET@,
        optimization: OptimizationLevel::Low,
        warnings: seq![WarningFlags::All],
    }
}

/// The index of the first comma of `v` at or after `i`, or the length of `v`.
pub open spec fn comma_from(v: Seq<char>, i: int) -> int
    decreases v.len() - i,
{
    if i < 0 || i >= v.len() || v[i] == ',' {
        i
    } else {
        comma_from(v, i + 1)
    }
}

pub proof fn lemma_comma_from(v: Seq<char>, i: int)
    requires
        0 <= i <= v.len(),
    ensures
        i <= comma_from(v, i) <= v.len(),
    decreases v.len() - i,
{
    if i < v.len() && v[i] != ',' {
        lemma_comma_from(v, i + 1);
    }
}

/// The comma-separated items of `v` from position `i` on. A comma ends an
/// item; a trailing comma starts none.
pub open spec fn split_paths_from(v: Seq<char>, i: int) -> Seq<Seq<char>>
    decreases v.len() + 1 - i,
{
    if i < 0 || i >= v.len() {
        Seq::empty()
    } else {
        proof {
            lemma_comma_from(v, i);
        }
        seq![v.subrange(i, comma_from(v, i))] + split_paths_from(v, comma_from(v, i) + 1)
    }
}

/// The comma-separated items of `v`.
pub open spec fn split_paths(v: Seq<char>) -> Seq<Seq<char>> {
    split_paths_from(v, 0)
}

/// Splits a comma-separated list of paths.
pub fn parse_path_list(value: &str) -> (r: Vec<String>)
    ensures
        texts(r@) == split_paths(value@),
{
    let n = value.unicode_len();
    let mut list: Vec<String> = Vec::new();
    let mut i: usize = 0;
    assert(texts(list@) + split_paths_from(value@, 0) =~= split_paths(value@));
    while i < n
        invariant
            n == value@.len(),
            i <= n,
            split_paths(value@) == texts(list@) + split_paths_from(value@, i as int),
        decreases n + 1 - i,
    {
        let mut e: usize = i;
        while e < n && value.get_char(e) != ','
            invariant
                n == value@.len(),
                i <= e <= n,
                comma_from(value@, i as int) == comma_from(value@, e as int),
            decreases n - e,
        {
            e = e + 1;
        }
        let item = String::from_str(value.substring_char(i, e));
        let ghost before = list@;
        list.push(item);
        assert(texts(list@) =~= texts(before).push(item@));
        assert(texts(before) + split_paths_from(value@, i as int) =~= texts(list@)
            + split_paths_from(value@, e + 1));
        i = if e < n {
            e + 1
        } else {
            e
        };
    }
    assert(split_paths_from(value@, i as int) =~= Seq::<Seq<char>>::empty());
    assert(texts(list@) + Seq::<Seq<char>>::empty() =~= texts(list@));
    list
}

/// Records the warning that `warning_type` names.
pub fn add_warning(arguments: &mut Arguments, warning_type: OptionType)
    requires
        warning_type == OptionType::WarningAll || warning_type == OptionType::WarningNone,
    ensures
        final(arguments).model() == (ArgumentsModel {
            warnings: old(arguments).model().warnings.push(
                if warning_type == OptionType::WarningAll {
                    WarningFlags::All
                } else {
                    WarningFlags::Off
                },
            ),
            ..old(arguments).model()
        }),
{
    let warning = match warning_type {
        OptionType::WarningAll => WarningFlags::All,
        _ => WarningFlags::Off,
    };
    arguments.options.add_warning(warning);
}

/// Records the value of an option that takes one: the output file, or a
/// list of files to add.
pub fn add_option(arguments: &mut Arguments, value: String, option_type: OptionType)
    requires
        option_type == OptionType::Target || option_type == OptionType::Includes,
    ensures
        option_type == OptionType::Target ==> final(arguments).model() == (ArgumentsModel {
            target: value@,
            ..old(arguments).model()
        }),
        option_type == OptionType::Includes ==> final(arguments).model() == (ArgumentsModel {
            includes: old(arguments).model().includes + split_paths(value@),
            ..old(arguments).model()
        }),
{
    match option_type {
        OptionType::Target => arguments.options.set_target(value),
        _ => {
            let mut paths = parse_path_list(value.as_str());
            let ghost before = arguments.includes@;
            arguments.includes.append(&mut paths);
            assert(texts(arguments.includes@) =~= texts(before) + split_paths(value@));
        },
    }
}

/// Records the optimization level that `leader` (the text after `-`) names.
pub fn add_optimization(arguments: &mut Arguments, leader: &str)
    requires
        is_optimization_name(leader@),
    ensures
        final(arguments).model() == (ArgumentsModel {
            optimization: optimization_level(leader@),
            ..old(arguments).model()
        }),
{
    let level = if text_eq(leader, "O0") {
        OptimizationLevel::Off
    } else if text_eq(leader, "O1") {
        OptimizationLevel::Low
    } else if text_eq(leader, "O2") {
        OptimizationLevel::Medium
    } else if text_eq(leader, "O3") {
        OptimizationLevel::High
    } else {
        OptimizationLevel::Size
    };
    arguments.options.set_optimization(level);
}

/// The views of a sequence of string slices.
pub open spec fn str_texts(v: Seq<&str>) -> Seq<Seq<char>> {
    v.map_values(|s: &str| s@)
}

/// The arguments and the messages to show that result from processing the
/// command-line arguments `a` from index `i` on, starting from `m` and
/// `msgs`; `None` where an option that takes a value comes last.
pub open spec fn parse_from(
    a: Seq<Seq<char>>,
    i: int,
    m: ArgumentsModel,
    msgs: Seq<Seq<char>>,
) -> Option<(ArgumentsModel, Seq<Seq<char>>)>
    decreases a.len() - i,
{
    if i < 0 || i >= a.len() {
        Some((m, msgs))
    } else {
        match leader_type(a[i]) {
            None => parse_from(a, i + 1, ArgumentsModel { files: m.files.push(a[i]), ..m }, msgs),
            Some(OptionType::Unknown) => parse_from(a, i + 1, m, msgs),
            Some(OptionType::Target) => if i + 1 < a.len() {
                parse_from(a, i + 2, ArgumentsModel { target: a[i + 1], ..m }, msgs)
            } else {
                None
            },
            Some(OptionType::Includes) => if i + 1 < a.len() {
                parse_from(
                    a,
                    i + 2,
                    ArgumentsModel { includes: m.includes + split_paths(a[i + 1]), ..m },
                    msgs,
                )
            } else {
                None
            },
            Some(OptionType::Optimization) => parse_from(
                a,
                i + 1,
                ArgumentsModel { optimization: optimization_level(rest(a[i], 1)), ..m },
                msgs,
            ),
            Some(OptionType::WarningAll) => parse_from(
                a,
                i + 1,
                ArgumentsModel { warnings: m.warnings.push(WarningFlags::All), ..m },
                msgs,
            ),
            Some(OptionType::WarningNone) => parse_from(
                a,
                i + 1,
                ArgumentsModel { warnings: m.warnings.push(WarningFlags::Off), ..m },
                msgs,
            ),
            Some(OptionType::Help) => parse_from(a, i + 1, m, msgs.push(help_text())),
            Some(OptionType::Version) => parse_from(a, i + 1, m, msgs.push(version_text())),
        }
    }
}

/// Processes the command line `args`, whose first item is the program's own
/// name. Arguments without a leading dash are files to compile; options are
/// recorded in order, later ones overriding earlier ones. Returns the
/// arguments and the help and version texts asked for, in order; fails where
/// an option that takes a value has none.
pub fn parse(args: &Vec<String>) -> (r: Result<(Arguments, Vec<&'static str>), Error>)
    ensures
        match parse_from(texts(args@), 1, default_model(), Seq::empty()) {
            Some((m, msgs)) => r matches Ok((a, v)) && a.model() == m && str_texts(v@) == msgs,
            None => r matches Err(e) && e.spec_kind() == ErrorKind::ArgumentError,
        },
{
    let ghost a = texts(args@);
    let mut arguments = Arguments::new();
    let mut messages: Vec<&'static str> = Vec::new();
    let mut i: usize = 1;
    assert(str_texts(messages@) =~= Seq::<Seq<char>>::empty());
    while i < args.len()
        invariant
            a == texts(args@),
            1 <= i,
            parse_from(a, 1, default_model(), Seq::empty()) == parse_from(
                a,
                i as int,
                arguments.model(),
                str_texts(messages@),
            ),
        decreases args@.len() - i,
    {
        let arg = args[i].as_str();
        assert(arg@ == a[i as int]);
        let leader = parse_leader(arg);
        let ghost before = arguments.model();
        let ghost shown = str_texts(messages@);
        match leader {
            None => {
                let ghost files = arguments.files@;
                arguments.files.push(String::from_str(arg));
                assert(texts(arguments.files@) =~= texts(files).push(arg@));
                i = i + 1;
            },
            Some(OptionType::Unknown) => {
                i = i + 1;
            },
            Some(OptionType::Target) | Some(OptionType::Includes) => {
                if i + 1 >= args.len() {
                    return Err(Error::new("Expected value for option!", ErrorKind::ArgumentError));
                }
                let value = String::from_str(args[i + 1].as_str());
                assert(value@ == a[i + 1]);
                add_option(&mut arguments, value, leader.unwrap());
                i = i + 2;
            },
            Some(OptionType::Optimization) => {
                add_optimization(&mut arguments, rest_of(arg, 1));
                i = i + 1;
            },
            Some(OptionType::WarningAll) | Some(OptionType::WarningNone) => {
                add_warning(&mut arguments, leader.unwrap());
                i = i + 1;
            },
            Some(OptionType::Help) => {
                messages.push(help_message());
                assert(str_texts(messages@) =~= shown.push(help_text()));
                i = i + 1;
            },
            Some(OptionType::Version) => {
                messages.push(version_message());
                assert(str_texts(messages@) =~= shown.push(version_text()));
                i = i + 1;
            },
        }
    }
    Ok((arguments, messages))
}

} // verus!
