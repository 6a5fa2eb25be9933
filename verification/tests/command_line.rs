use procnuke::cli::{
    check_request, classify_argument, parse_command_line, plan_outcome, ArgKind, Command, Outcome,
    UsageError,
};
use procnuke::Config;

fn strings(items: &[&str]) -> Vec<String> {
    items.iter().map(|s| s.to_string()).collect()
}

#[test]
fn short_and_long_options_are_synonyms() {
    let pairs = [
        ("-c", "--cmdline", ArgKind::Cmdline),
        ("-s", "--case-sensitive", ArgKind::CaseSensitive),
        ("-e", "--exact", ArgKind::Exact),
        ("-l", "--list", ArgKind::List),
        ("-p", "--pid", ArgKind::Pid),
        ("-i", "--ignore-unrecognised", ArgKind::IgnoreUnrecognised),
        ("-v", "--version", ArgKind::Version),
        ("-h", "--help", ArgKind::Help),
    ];
    for (short, long, kind) in pairs {
        assert_eq!(classify_argument(short), kind);
        assert_eq!(classify_argument(long), kind);
    }
    assert_eq!(classify_argument("firefox"), ArgKind::Plain);
    assert_eq!(classify_argument("-x"), ArgKind::Plain);
    assert_eq!(classify_argument("-C"), ArgKind::Plain);
    assert_eq!(classify_argument(""), ArgKind::Plain);
}

#[test]
fn no_arguments_asks_for_help() {
    assert_eq!(parse_command_line(&vec![]), Command::ShowHelp);
}

#[test]
fn first_of_help_and_version_wins() {
    assert_eq!(parse_command_line(&strings(&["-c", "--help", "-v"])), Command::ShowHelp);
    assert_eq!(parse_command_line(&strings(&["fire", "-v", "-h"])), Command::ShowVersion);
}

#[test]
fn options_are_collected_and_the_rest_kept_in_order() {
    let command = parse_command_line(&strings(&["fire", "-s", "fox", "--exact", "-x", "-l"]));
    let mut config = Config::default();
    config.case_sensitive = true;
    config.match_exact = true;
    config.listing = true;
    assert_eq!(command, Command::Run { config, kill_args: strings(&["fire", "fox", "-x"]) });
}

#[test]
fn every_option_switches_its_setting_on() {
    let command = parse_command_line(&strings(&["-c", "-s", "-e", "-l", "-p", "-i"]));
    let config = Config {
        case_sensitive: true,
        match_cmdline: true,
        match_exact: true,
        match_pid: true,
        listing: true,
        ignore_unrecognised: true,
    };
    assert_eq!(command, Command::Run { config, kill_args: vec![] });
}

#[test]
fn unrecognised_option_is_reported_first() {
    let mut config = Config::default();
    config.match_pid = true;
    config.match_cmdline = true;
    assert_eq!(
        check_request(&config, &strings(&["name", "-x", "-y"])),
        Err(UsageError::UnrecognisedOption("-x".to_string()))
    );
    config.ignore_unrecognised = true;
    assert_eq!(check_request(&config, &strings(&["name", "-x"])), Err(UsageError::PidWithCmdline));
}

#[test]
fn pid_matching_conflicts() {
    let mut config = Config::default();
    config.match_pid = true;
    config.match_exact = true;
    assert_eq!(check_request(&config, &strings(&["12"])), Err(UsageError::PidWithExact));
    config.match_exact = false;
    assert_eq!(check_request(&config, &vec![]), Err(UsageError::MissingProcessIds));
    config.listing = true;
    assert_eq!(check_request(&config, &vec![]), Ok(()));
    assert_eq!(check_request(&config, &strings(&["12"])), Ok(()));
}

#[test]
fn a_name_is_needed_unless_listing() {
    let mut config = Config::default();
    assert_eq!(check_request(&config, &vec![]), Err(UsageError::MissingProcessName));
    assert_eq!(check_request(&config, &strings(&["vim"])), Ok(()));
    config.listing = true;
    assert_eq!(check_request(&config, &vec![]), Ok(()));
}

#[test]
fn outcome_kills_or_reports_nothing_found() {
    let config = Config::default();
    assert_eq!(plan_outcome(&config, &strings(&["vim"]), vec![3, 1]), Outcome::Kill(vec![3, 1]));
    assert_eq!(plan_outcome(&config, &strings(&["vim"]), vec![]), Outcome::NothingFound);
}

#[test]
fn outcome_lists_matches_or_everything() {
    let mut config = Config::default();
    config.listing = true;
    assert_eq!(plan_outcome(&config, &strings(&["vim"]), vec![4]), Outcome::List(vec![4]));
    assert_eq!(plan_outcome(&config, &strings(&["vim"]), vec![]), Outcome::List(vec![]));
    assert_eq!(plan_outcome(&config, &vec![], vec![]), Outcome::ListAll);
    assert_eq!(plan_outcome(&config, &vec![], vec![2]), Outcome::List(vec![2]));
}
