use ev3c::args::{
    add_optimization, add_option, add_warning, help_message, parse, parse_expanded, parse_leader,
    parse_path_list, parse_warning, version_message, Arguments, OptionType,
};
use ev3c::error::{Error, ErrorKind};
use ev3c::{OptimizationLevel, Options, WarningFlags};

fn strings(items: &[&str]) -> Vec<String> {
    items.iter().map(|s| s.to_string()).collect()
}

#[test]
fn default_options() {
    let options = Options::new();
    assert_eq!(options.target(), "a.rbf");
    assert_eq!(options.optimization(), OptimizationLevel::Low);
    assert_eq!(options.warnings(), &vec![WarningFlags::All]);
}

#[test]
fn default_arguments() {
    let arguments = Arguments::new();
    assert!(arguments.files.is_empty());
    assert!(arguments.includes.is_empty());
    assert_eq!(arguments.options.target(), "a.rbf");
}

#[test]
fn leaders_are_classified() {
    assert_eq!(parse_leader("main.asm"), None);
    assert_eq!(parse_leader("-o"), Some(OptionType::Target));
    assert_eq!(parse_leader("-i"), Some(OptionType::Includes));
    assert_eq!(parse_leader("-h"), Some(OptionType::Help));
    assert_eq!(parse_leader("-v"), Some(OptionType::Version));
    assert_eq!(parse_leader("-O3"), Some(OptionType::Optimization));
    assert_eq!(parse_leader("-Oz"), Some(OptionType::Optimization));
    assert_eq!(parse_leader("-O7"), Some(OptionType::Unknown));
    assert_eq!(parse_leader("-Wall"), Some(OptionType::WarningAll));
    assert_eq!(parse_leader("-Wnone"), Some(OptionType::WarningNone));
    assert_eq!(parse_leader("--output"), Some(OptionType::Target));
    assert_eq!(parse_leader("--warn-none"), Some(OptionType::WarningNone));
    assert_eq!(parse_leader("-"), Some(OptionType::Unknown));
}

#[test]
fn long_and_warning_names() {
    assert_eq!(parse_expanded("help"), OptionType::Help);
    assert_eq!(parse_expanded("version"), OptionType::Version);
    assert_eq!(parse_expanded("warn-all"), OptionType::WarningAll);
    assert_eq!(parse_expanded("other"), OptionType::Unknown);
    assert_eq!(parse_warning("all"), OptionType::WarningAll);
    assert_eq!(parse_warning("some"), OptionType::Unknown);
}

#[test]
fn path_lists_split_on_commas() {
    assert_eq!(parse_path_list("a.asm,b.asm"), strings(&["a.asm", "b.asm"]));
    assert_eq!(parse_path_list("a,,b"), strings(&["a", "", "b"]));
    assert_eq!(parse_path_list("a,"), strings(&["a"]));
    assert_eq!(parse_path_list(""), Vec::<String>::new());
}

#[test]
fn options_are_recorded() {
    let mut arguments = Arguments::new();
    add_option(&mut arguments, "out.rbf".to_string(), OptionType::Target);
    add_option(&mut arguments, "x,y".to_string(), OptionType::Includes);
    add_optimization(&mut arguments, "O0");
    add_warning(&mut arguments, OptionType::WarningNone);
    assert_eq!(arguments.options.target(), "out.rbf");
    assert_eq!(arguments.includes, strings(&["x", "y"]));
    assert_eq!(arguments.options.optimization(), OptimizationLevel::Off);
    assert_eq!(arguments.options.warnings(), &vec![WarningFlags::All, WarningFlags::Off]);
}

#[test]
fn command_line_is_parsed() {
    let args = strings(&["ev3c", "main.asm", "-o", "prog.rbf", "-i", "lib.asm", "-O2", "-Wnone", "-x", "-v", "util.asm"]);
    let (arguments, messages) = parse(&args).unwrap();
    assert_eq!(arguments.files, strings(&["main.asm", "util.asm"]));
    assert_eq!(arguments.includes, strings(&["lib.asm"]));
    assert_eq!(arguments.options.target(), "prog.rbf");
    assert_eq!(arguments.options.optimization(), OptimizationLevel::Medium);
    assert_eq!(arguments.options.warnings(), &vec![WarningFlags::All, WarningFlags::Off]);
    assert_eq!(messages, vec![version_message()]);
}

#[test]
fn option_without_value_fails() {
    let args = strings(&["ev3c", "main.asm", "-o"]);
    let e = parse(&args).unwrap_err();
    assert_eq!(e.kind(), ErrorKind::ArgumentError);
}

#[test]
fn info_messages() {
    assert_eq!(version_message(), "ev3c v0.1.0");
    assert_eq!(help_message(), "");
    let (_, messages) = parse(&strings(&["ev3c", "--help"])).unwrap();
    assert_eq!(messages, vec![help_message()]);
}

#[test]
fn error_format() {
    let e = Error::new("missing file", ErrorKind::FileError);
    assert_eq!(e.kind(), ErrorKind::FileError);
    assert_eq!(e.format(), "FileError: missing file");
}
