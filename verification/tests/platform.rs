use procnuke::linux::{command_line_from_cmdline, name_from_status, process_ids_from_names};
use procnuke::{get_matching_by_string, Config, ProcessText};
use procnuke::winapi_bindings::{
    RawMutPtr, ReservedData, PEB, PROCESS_BASIC_INFORMATION, RTL_USER_PROCESS_PARAMETERS,
    UNICODE_STRING,
};
use procnuke::windows::{
    advance_module_name, start_module_name, ModuleNameEvent, ModuleNameStep,
    advance_command_line, decode_module_name, pids_from_enum_buffer, start_command_line,
    CommandLineEvent, CommandLineStep,
};
use std::marker::PhantomData;

fn strings(items: &[&str]) -> Vec<String> {
    items.iter().map(|s| s.to_string()).collect()
}

fn wide(text: &str) -> Vec<u16> {
    text.encode_utf16().collect()
}

#[test]
fn process_directory_keeps_numeric_entries() {
    let names = strings(&["1", "self", "42", "sys", "007", "4294967296", "+3"]);
    assert_eq!(process_ids_from_names(&names), vec![1, 42, 7, 3]);
}

#[test]
fn status_name_is_second_field_of_first_line() {
    assert_eq!(name_from_status("Name:\tbash\nUmask:\t0022\n"), Some("bash".to_string()));
    assert_eq!(name_from_status("Name:\tkworker/0:1\r\nState:\tI\n"), Some("kworker/0:1".to_string()));
    assert_eq!(name_from_status("Name:\ta\tb\n"), Some("a".to_string()));
    assert_eq!(name_from_status("Name:\t\n"), Some(String::new()));
    assert_eq!(name_from_status("Name:\tlast"), Some("last".to_string()));
    assert_eq!(name_from_status("Name:\tx\r"), Some("x\r".to_string()));
}

#[test]
fn status_without_name_field() {
    assert_eq!(name_from_status(""), None);
    assert_eq!(name_from_status("\n"), None);
    assert_eq!(name_from_status("Name: bash\nState:\tS\n"), None);
}

#[test]
fn status_name_agrees_with_lines_and_split() {
    for status in ["Name:\tbash\n", "\r\n\tx", "a\tb\tc", "x\r\n", "Name:\tz\rq\n", "\t\t\n\t"] {
        let expected = status
            .lines()
            .next()
            .and_then(|line| line.split('\t').nth(1))
            .map(|s| s.to_string());
        assert_eq!(name_from_status(status), expected, "{status:?}");
    }
}

#[test]
fn enum_buffer_takes_one_id_per_four_bytes() {
    let buffer = [4u32, 8, 15, 16, 0, 0];
    assert_eq!(pids_from_enum_buffer(&buffer, 16), vec![4, 8, 15, 16]);
    assert_eq!(pids_from_enum_buffer(&buffer, 7), vec![4]);
    assert_eq!(pids_from_enum_buffer(&buffer, 0), Vec::<u32>::new());
}

#[test]
fn module_name_decodes_prefix() {
    let mut buffer = wide("explorer.exe");
    buffer.extend_from_slice(&[0, 0, 0]);
    assert_eq!(decode_module_name(&buffer, 12), "explorer.exe");
    assert_eq!(decode_module_name(&buffer, 8), "explorer");
    assert_eq!(decode_module_name(&[0xD800, 0x61], 2), "\u{FFFD}a");
}

#[test]
fn raw_pointers_default_to_null() {
    let p: RawMutPtr<u16> = RawMutPtr::default();
    assert_eq!(p.0, 0);
    let r: ReservedData<u8, 4> = ReservedData::default();
    assert_eq!(r.0, [0, 0, 0, 0]);
    let s = UNICODE_STRING::default();
    assert_eq!((s.Length, s.MaximumLength, s.Buffer.0), (0, 0, 0));
}

#[test]
fn command_line_read_follows_the_addresses() {
    let step = start_command_line();
    assert!(matches!(step, CommandLineStep::QueryBasicInformation));

    let mut info = PROCESS_BASIC_INFORMATION::default();
    info.PebBaseAddress = RawMutPtr(0x1000, PhantomData);
    let step = advance_command_line(step, CommandLineEvent::BasicInformation { status: 0, info });
    assert!(matches!(step, CommandLineStep::ReadEnvironmentBlock { address: 0x1000 }));

    let mut block = PEB::default();
    block.ProcessParameters = RawMutPtr(0x2000, PhantomData);
    let step = advance_command_line(step, CommandLineEvent::EnvironmentBlock { result: 1, block });
    assert!(matches!(step, CommandLineStep::ReadParameters { address: 0x2000 }));

    let mut parameters = RTL_USER_PROCESS_PARAMETERS::default();
    parameters.CommandLine.Length = 14;
    parameters.CommandLine.Buffer = RawMutPtr(0x3000, PhantomData);
    let step = advance_command_line(step, CommandLineEvent::Parameters { result: 1, parameters });
    assert!(matches!(step, CommandLineStep::ReadCommandLine { address: 0x3000, units: 7, bytes: 14 }));

    let step = advance_command_line(step, CommandLineEvent::CommandLine { result: 1, units: wide("cmd /c x") });
    assert!(matches!(step, CommandLineStep::Finished(Some(ref text)) if text == "cmd /c x"));
}

#[test]
fn command_line_read_stops_on_a_failed_step() {
    let step = advance_command_line(
        CommandLineStep::QueryBasicInformation,
        CommandLineEvent::BasicInformation { status: -1073741790, info: PROCESS_BASIC_INFORMATION::default() },
    );
    assert!(matches!(step, CommandLineStep::Finished(None)));
    let step = advance_command_line(
        CommandLineStep::ReadParameters { address: 5 },
        CommandLineEvent::Parameters { result: 0, parameters: RTL_USER_PROCESS_PARAMETERS::default() },
    );
    assert!(matches!(step, CommandLineStep::Finished(None)));
    let step = advance_command_line(
        CommandLineStep::ReadCommandLine { address: 5, units: 1, bytes: 2 },
        CommandLineEvent::CommandLine { result: 0, units: vec![65] },
    );
    assert!(matches!(step, CommandLineStep::Finished(None)));
}

#[test]
fn command_line_read_rejects_an_event_for_another_step() {
    let step = advance_command_line(
        CommandLineStep::QueryBasicInformation,
        CommandLineEvent::CommandLine { result: 1, units: vec![65] },
    );
    assert!(matches!(step, CommandLineStep::Finished(None)));
}

#[test]
fn odd_command_line_length_rounds_units_down() {
    let mut parameters = RTL_USER_PROCESS_PARAMETERS::default();
    parameters.CommandLine.Length = 7;
    let step = advance_command_line(
        CommandLineStep::ReadParameters { address: 1 },
        CommandLineEvent::Parameters { result: 1, parameters },
    );
    assert!(matches!(step, CommandLineStep::ReadCommandLine { address: 0, units: 3, bytes: 7 }));
}

#[test]
fn cmdline_arguments_become_space_separated() {
    assert_eq!(command_line_from_cmdline("python\0script.py\0"), "python script.py");
    assert_eq!(command_line_from_cmdline("bash\0"), "bash");
    assert_eq!(command_line_from_cmdline("a\0\0b\0"), "a  b");
    assert_eq!(command_line_from_cmdline("no-terminator"), "no-terminator");
    assert_eq!(command_line_from_cmdline("x\0\0"), "x ");
    assert_eq!(command_line_from_cmdline(""), "");
    assert_eq!(command_line_from_cmdline("\0"), "");
}

#[test]
fn cmdline_matching_finds_name_and_arguments() {
    let config = Config { match_cmdline: true, ..Config::default() };
    let kill_args = vec!["python".to_string(), "script.py".to_string()];
    let processes = vec![
        ProcessText { pid: 5, text: Some(command_line_from_cmdline("python\0script.py\0")) },
        ProcessText { pid: 6, text: Some(command_line_from_cmdline("python\0other.py\0")) },
    ];
    assert_eq!(get_matching_by_string(&config, &kill_args, 1, &processes), vec![5]);
}

#[test]
fn module_name_decodes_surrogate_pairs_and_lone_surrogates() {
    assert_eq!(decode_module_name(&[0xD83D, 0xDE00, 0x41], 3), "\u{1F600}A");
    assert_eq!(decode_module_name(&[0xDC00, 0xD800], 2), "\u{FFFD}\u{FFFD}");
    assert_eq!(decode_module_name(&[0xD800, 0xD83D, 0xDE00], 3), "\u{FFFD}\u{1F600}");
}

#[test]
fn reserved_data_is_copies_of_one_default() {
    let r: ReservedData<RawMutPtr<u8>, 3> = ReservedData::default();
    assert!(r.0.iter().all(|p| p.0 == 0));
}

#[test]
fn successful_query_reads_command_line_of_length_eight() {
    let mut info = PROCESS_BASIC_INFORMATION::default();
    info.PebBaseAddress = RawMutPtr(0x10, PhantomData);
    let step = advance_command_line(start_command_line(), CommandLineEvent::BasicInformation { status: 0, info });
    let mut block = PEB::default();
    block.ProcessParameters = RawMutPtr(0x20, PhantomData);
    let step = advance_command_line(step, CommandLineEvent::EnvironmentBlock { result: 1, block });
    let mut parameters = RTL_USER_PROCESS_PARAMETERS::default();
    parameters.CommandLine.Length = 8;
    parameters.CommandLine.MaximumLength = 10;
    parameters.CommandLine.Buffer = RawMutPtr(0x30, PhantomData);
    let step = advance_command_line(step, CommandLineEvent::Parameters { result: 1, parameters });
    assert!(matches!(step, CommandLineStep::ReadCommandLine { address: 0x30, units: 4, bytes: 8 }));
    let step = advance_command_line(step, CommandLineEvent::CommandLine { result: 1, units: vec![0x61, 0x62, 0x20, 0x63] });
    assert!(matches!(step, CommandLineStep::Finished(Some(ref text)) if text == "ab c"));
}

#[test]
fn informational_status_counts_as_success() {
    let step = advance_command_line(
        CommandLineStep::QueryBasicInformation,
        CommandLineEvent::BasicInformation { status: 0x40000000, info: PROCESS_BASIC_INFORMATION::default() },
    );
    assert!(matches!(step, CommandLineStep::ReadEnvironmentBlock { address: 0 }));
}

#[test]
fn module_name_steps_open_list_then_read() {
    let step = start_module_name();
    assert!(matches!(step, ModuleNameStep::OpenProcess));
    let step = advance_module_name(step, ModuleNameEvent::Opened { handle_is_null: false });
    assert!(matches!(step, ModuleNameStep::ListModules));
    let step = advance_module_name(step, ModuleNameEvent::ModulesListed { result: 1 });
    assert!(matches!(step, ModuleNameStep::ReadBaseName));
    let mut buffer = wide("notepad.exe");
    buffer.extend_from_slice(&[0, 0]);
    let step = advance_module_name(step, ModuleNameEvent::BaseNameRead { buffer, length: 11 });
    assert!(matches!(step, ModuleNameStep::Finished(Some(ref name)) if name == "notepad.exe"));
}

#[test]
fn module_name_stops_on_null_handle_or_failed_listing() {
    let step = advance_module_name(ModuleNameStep::OpenProcess, ModuleNameEvent::Opened { handle_is_null: true });
    assert!(matches!(step, ModuleNameStep::Finished(None)));
    let step = advance_module_name(ModuleNameStep::ListModules, ModuleNameEvent::ModulesListed { result: 0 });
    assert!(matches!(step, ModuleNameStep::Finished(None)));
    let step = advance_module_name(ModuleNameStep::OpenProcess, ModuleNameEvent::ModulesListed { result: 1 });
    assert!(matches!(step, ModuleNameStep::Finished(None)));
    let step = advance_module_name(
        ModuleNameStep::ReadBaseName,
        ModuleNameEvent::BaseNameRead { buffer: vec![0; 4], length: 0 },
    );
    assert!(matches!(step, ModuleNameStep::Finished(Some(ref name)) if name.is_empty()));
}
