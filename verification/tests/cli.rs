use clap::error::ErrorKind;
use clap::{Arg, Command};
use iodd::cli::{parse_failure_code, split_list, DoctorArgs, Format};

fn doctor_args() -> DoctorArgs {
    DoctorArgs {
        root: "/x".to_string(),
        recursive: false,
        no_recursive: false,
        types: vec![],
        format: Format::Table,
        strict: false,
        iso_max_fragments: 24,
    }
}

/// The exit code of a command line that clap does not take.
fn exit_code(line: &[&str]) -> u8 {
    let create = Command::new("create")
        .arg(Arg::new("size").long("size").required(true))
        .arg(Arg::new("out").long("out").required(true));
    let err = Command::new("iodd")
        .version("0.1.0")
        .subcommand_required(true)
        .subcommand(create)
        .try_get_matches_from(line)
        .expect_err("not taken");
    let asked = matches!(err.kind(), ErrorKind::DisplayHelp | ErrorKind::DisplayVersion);
    parse_failure_code(asked)
}

#[test]
fn doctor_recurses_by_default() {
    assert!(doctor_args().is_recursive());
}

#[test]
fn doctor_no_recursive_opts_out() {
    let mut args = doctor_args();
    args.no_recursive = true;
    assert!(!args.is_recursive());
}

#[test]
fn legacy_recursive_flag_is_accepted() {
    let mut args = doctor_args();
    args.recursive = true;
    assert!(args.is_recursive(), "--recursive must remain accepted");
}

#[test]
fn type_list_splits_on_commas() {
    assert_eq!(split_list("vhd,rmd,iso"), vec!["vhd", "rmd", "iso"]);
}

#[test]
fn splitting_loses_nothing() {
    for list in ["", ",", "vhd", "vhd,", ",,a", "a b,é"] {
        let pieces = split_list(list);
        assert_eq!(pieces.join(","), list);
        assert!(pieces.iter().all(|p| !p.contains(',')));
    }
}

#[test]
fn help_exits_zero() {
    assert_eq!(exit_code(&["iodd", "--help"]), 0);
}

#[test]
fn version_exits_zero() {
    assert_eq!(exit_code(&["iodd", "--version"]), 0);
}

#[test]
fn usage_errors_exit_one_not_two() {
    assert_eq!(exit_code(&["iodd", "--definitely-not-a-flag"]), 1);
    assert_eq!(exit_code(&["iodd", "nonesuch-subcommand"]), 1);
    // create requires --size and --out
    assert_eq!(exit_code(&["iodd", "create"]), 1);
}

#[test]
fn no_arguments_is_a_usage_error() {
    assert_eq!(exit_code(&["iodd"]), 1);
}
