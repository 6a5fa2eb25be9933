use procnuke::pid::parse_process_id;
use procnuke::text::{compare_text, join_strings, text_matches_exec};
use procnuke::{
    contains_pid, get_matching_by_pid, get_matching_by_string, get_matching_pids_full,
    get_matching_pids_name, Config, ProcessText,
};

fn strings(items: &[&str]) -> Vec<String> {
    items.iter().map(|s| s.to_string()).collect()
}

fn process(pid: u32, text: Option<&str>) -> ProcessText {
    ProcessText { pid, text: text.map(|t| t.to_string()) }
}

#[test]
fn default_config_has_every_option_off() {
    let c = Config::default();
    assert!(!c.case_sensitive);
    assert!(!c.match_cmdline);
    assert!(!c.match_exact);
    assert!(!c.match_pid);
    assert!(!c.listing);
    assert!(!c.ignore_unrecognised);
}

#[test]
fn parse_process_id_reads_decimal_numbers() {
    assert_eq!(parse_process_id("42"), Some(42));
    assert_eq!(parse_process_id("0"), Some(0));
    assert_eq!(parse_process_id("+7"), Some(7));
    assert_eq!(parse_process_id("007"), Some(7));
    assert_eq!(parse_process_id("4294967295"), Some(4294967295));
}

#[test]
fn parse_process_id_rejects_what_std_rejects() {
    for text in ["", "+", "-1", "12a", " 1", "1 ", "4294967296", "99999999999999999999", "++1", "self"] {
        assert_eq!(parse_process_id(text), None, "{text:?}");
        assert_eq!(parse_process_id(text), text.parse::<u32>().ok(), "{text:?}");
    }
}

#[test]
fn parse_process_id_agrees_with_std_on_numbers() {
    for text in ["1", "123", "+4294967295", "00000000000000000001", "65536"] {
        assert_eq!(parse_process_id(text), text.parse::<u32>().ok(), "{text:?}");
    }
}

#[test]
fn join_puts_single_spaces_between_arguments() {
    assert_eq!(join_strings(&strings(&["fire", "fox"])), "fire fox");
    assert_eq!(join_strings(&strings(&["one"])), "one");
    assert_eq!(join_strings(&strings(&[])), "");
    assert_eq!(join_strings(&strings(&["a", "", "b"])), "a  b");
}

#[test]
fn compare_text_exact_and_partial() {
    assert!(compare_text(true, "bash", "bash"));
    assert!(!compare_text(true, "bas", "bash"));
    assert!(compare_text(false, "as", "bash"));
    assert!(compare_text(false, "", "bash"));
    assert!(!compare_text(false, "bashful", "bash"));
    assert!(!compare_text(false, "sa", "bash"));
}

#[test]
fn case_insensitive_matching_lowercases_both_sides() {
    assert!(text_matches_exec(false, true, "FireFox", "firefox"));
    assert!(text_matches_exec(false, false, "FOX", "firefox-bin"));
    assert!(!text_matches_exec(true, true, "FireFox", "firefox"));
    assert!(!text_matches_exec(true, false, "FOX", "firefox-bin"));
    assert!(text_matches_exec(false, true, "ÄRGER", "ärger"));
}

#[test]
fn exact_match_implies_partial_match_example() {
    assert!(text_matches_exec(false, true, "Vim", "vim"));
    assert!(text_matches_exec(false, false, "Vim", "vim"));
}

#[test]
fn contains_pid_finds_members() {
    assert!(contains_pid(&vec![1, 5, 9], 5));
    assert!(!contains_pid(&vec![1, 5, 9], 4));
    assert!(!contains_pid(&vec![], 4));
}

#[test]
fn matching_by_pid_keeps_existing_ids_in_order() {
    let (matched, rejected) =
        get_matching_by_pid(&strings(&["30", "x", "10", "99", "20", "-3"]), 20, &vec![10, 20, 30]);
    assert_eq!(matched, vec![30, 10]);
    assert_eq!(rejected, strings(&["x", "-3"]));
}

#[test]
fn matching_by_pid_never_selects_self() {
    let (matched, rejected) = get_matching_by_pid(&strings(&["7"]), 7, &vec![7]);
    assert!(matched.is_empty());
    assert!(rejected.is_empty());
}

#[test]
fn matching_by_string_default_is_case_insensitive_substring() {
    let config = Config::default();
    let processes = vec![
        process(1, Some("systemd")),
        process(2, Some("Firefox")),
        process(3, None),
        process(4, Some("firefox-bin")),
        process(5, Some("firefox")),
    ];
    let matched = get_matching_by_string(&config, &strings(&["fire"]), 5, &processes);
    assert_eq!(matched, vec![2, 4]);
}

#[test]
fn matching_by_string_exact_and_case_sensitive() {
    let mut config = Config::default();
    config.match_exact = true;
    config.case_sensitive = true;
    let processes = vec![process(2, Some("Firefox")), process(4, Some("firefox")), process(6, Some("firefox-bin"))];
    assert_eq!(get_matching_by_string(&config, &strings(&["firefox"]), 1, &processes), vec![4]);
    config.case_sensitive = false;
    assert_eq!(get_matching_by_string(&config, &strings(&["FIREFOX"]), 1, &processes), vec![2, 4]);
}

#[test]
fn matching_by_string_joins_arguments_with_spaces() {
    let mut config = Config::default();
    config.match_cmdline = true;
    let processes = vec![process(8, Some("python3 -m http.server")), process(9, Some("python3 script.py"))];
    assert_eq!(get_matching_by_string(&config, &strings(&["-m", "http"]), 1, &processes), vec![8]);
}

#[test]
fn matching_by_string_with_no_arguments_matches_every_readable_process() {
    let config = Config::default();
    let processes = vec![process(1, Some("a")), process(2, None), process(3, Some("b"))];
    assert_eq!(get_matching_by_string(&config, &vec![], 3, &processes), vec![1]);
}

#[test]
fn matching_by_pattern_skips_process_zero_and_self() {
    let processes = vec![
        process(0, Some("swapper")),
        process(1, Some("swapd")),
        process(2, Some("swap")),
        process(3, Some("Swap")),
        process(4, None),
    ];
    let pattern = "swap".to_string();
    assert_eq!(get_matching_pids_name(&pattern, 2, &processes), vec![1]);
    assert_eq!(get_matching_pids_full(&pattern, 1, &processes), vec![2]);
}

#[test]
fn parse_reads_back_what_display_writes() {
    for pid in [0u32, 1, 9, 10, 99, 100, 4242, 65535, 4294967295] {
        assert_eq!(parse_process_id(&pid.to_string()), Some(pid));
    }
}

#[test]
fn exact_selection_is_within_partial_selection() {
    let processes = vec![
        process(1, Some("vim")),
        process(2, Some("nvim")),
        process(3, Some("Vim")),
        process(4, Some("vimdiff")),
    ];
    let mut config = Config::default();
    config.match_exact = true;
    let exact = get_matching_by_string(&config, &strings(&["vim"]), 9, &processes);
    config.match_exact = false;
    let partial = get_matching_by_string(&config, &strings(&["vim"]), 9, &processes);
    assert_eq!(exact, vec![1, 3]);
    assert_eq!(partial, vec![1, 2, 3, 4]);
}

#[test]
fn longer_case_sensitive_pattern_selects_fewer() {
    let processes = vec![
        process(1, Some("python3 a.py")),
        process(2, Some("python3 b.py")),
        process(3, Some("perl a.pl")),
    ];
    let mut config = Config::default();
    config.case_sensitive = true;
    let short = get_matching_by_string(&config, &strings(&["a.p"]), 9, &processes);
    let long = get_matching_by_string(&config, &strings(&["python3", "a.p"]), 9, &processes);
    assert_eq!(short, vec![1, 3]);
    assert_eq!(long, vec![1]);
}
