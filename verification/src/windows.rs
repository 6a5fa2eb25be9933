use vstd::prelude::*;
use crate::pid::ProcessID;
use crate::winapi_bindings::{BOOL, NTSTATUS, PEB, PROCESS_BASIC_INFORMATION, RTL_USER_PROCESS_PARAMETERS};

verus! {

/// `u` is a UTF-16 surrogate code unit.
pub open spec fn is_surrogate(u: u16) -> bool {
    0xD800 <= u && u <= 0xDFFF
}

/// `u` is a leading (high) surrogate.
pub open spec fn is_high_surrogate(u: u16) -> bool {
    0xD800 <= u && u <= 0xDBFF
}

/// `u` is a trailing (low) surrogate.
pub open spec fn is_low_surrogate(u: u16) -> bool {
    0xDC00 <= u && u <= 0xDFFF
}

/// The text that decoding `units` as UTF-16 gives, from the front: a unit that
/// is no surrogate stands for itself; a high surrogate followed by a low one
/// stands for the character the pair encodes; any other surrogate unit becomes
/// one U+FFFD, and decoding goes on with the next unit.
pub open spec fn utf16_lossy(units: Seq<u16>) -> Seq<char>
    decreases units.len(),
{
    if units.len() == 0 {
        Seq::empty()
    } else if !is_surrogate(units[0]) {
        seq![units[0] as char] + utf16_lossy(units.drop_first())
    } else if is_high_surrogate(units[0]) && units.len() >= 2 && is_low_surrogate(units[1]) {
        seq![(0x10000 + (units[0] - 0xD800) * 0x400 + (units[1] - 0xDC00)) as char] + utf16_lossy(units.skip(2))
    } else {
        seq!['\u{FFFD}'] + utf16_lossy(units.drop_first())
    }
}

/// Calls `String::from_utf16_lossy`, which decodes the units as `char::decode_utf16`
/// does and puts U+FFFD for each unit that it reports as ill-formed; the
/// contract states that decoding as `utf16_lossy`.
#[verifier::external_body]
fn decode_utf16_lossy(units: &Vec<u16>) -> (text: String)
    ensures
        text@ == utf16_lossy(units@),
{
    String::from_utf16_lossy(units)
}

/// The process ids that the system wrote to the front of `buffer`, of which
/// `bytes_read` bytes were filled: one id per four bytes.
pub fn pids_from_enum_buffer(buffer: &[ProcessID], bytes_read: u32) -> (pids: Vec<ProcessID>)
    requires
        bytes_read / 4 <= buffer@.len(),
    ensures
        pids@ == buffer@.take((bytes_read / 4) as int),
{
    let count = (bytes_read / 4) as usize;
    let mut pids: Vec<ProcessID> = Vec::new();
    let mut i: usize = 0;
    while i < count
        invariant
            count == bytes_read / 4,
            count <= buffer@.len(),
            i <= count,
            pids@ == buffer@.take(i as int),
        decreases count - i,
    {
        pids.push(buffer[i]);
        assert(pids@ =~= buffer@.take(i + 1));
        i = i + 1;
    }
    pids
}

/// The name of a program module: the first `length` wide characters of `buffer`, decoded.
pub fn decode_module_name(buffer: &[u16], length: usize) -> (name: String)
    requires
        length <= buffer@.len(),
    ensures
        name@ == utf16_lossy(buffer@.take(length as int)),
{
    let mut units: Vec<u16> = Vec::new();
    let mut i: usize = 0;
    while i < length
        invariant
            length <= buffer@.len(),
            i <= length,
            units@ == buffer@.take(i as int),
        decreases length - i,
    {
        units.push(buffer[i]);
        assert(units@ =~= buffer@.take(i + 1));
        i = i + 1;
    }
    decode_utf16_lossy(&units)
}

/// Where reading the program name of another process stands: the call to make
/// next, or the result.
pub enum ModuleNameStep {
    /// Open the process for querying and reading.
    OpenProcess,
    /// List the process's modules, the first being its program.
    ListModules,
    /// Read the base name of the first module.
    ReadBaseName,
    /// Done: the name, or nothing when a step failed.
    Finished(Option<String>),
}

/// What a step of reading a program name brought back.
pub enum ModuleNameEvent {
    /// Opening the process gave a null handle or not.
    Opened { handle_is_null: bool },
    /// Listing the modules returned `result`.
    ModulesListed { result: BOOL },
    /// Reading the base name wrote `length` wide characters to the front of `buffer`.
    BaseNameRead { buffer: Vec<u16>, length: usize },
}

/// The first step of reading a program name.
pub fn start_module_name() -> (step: ModuleNameStep)
    ensures
        step == ModuleNameStep::OpenProcess,
{
    ModuleNameStep::OpenProcess
}

/// Takes the outcome `event` of the call that `step` asked for, and says what
/// to call next. A null process handle or a module listing that returns zero
/// ends with nothing; the base name read at the end is decoded, as many wide
/// characters as were written. An event that does not answer `step` ends with nothing.
pub fn advance_module_name(step: ModuleNameStep, event: ModuleNameEvent) -> (next: ModuleNameStep)
    requires
        event matches ModuleNameEvent::BaseNameRead { buffer, length } ==> length <= buffer@.len(),
    ensures
        step is OpenProcess ==> (event matches ModuleNameEvent::Opened { handle_is_null } ==>
            next == if handle_is_null { ModuleNameStep::Finished(None) } else { ModuleNameStep::ListModules }),
        step is ListModules ==> (event matches ModuleNameEvent::ModulesListed { result } ==>
            next == if result == 0 { ModuleNameStep::Finished(None) } else { ModuleNameStep::ReadBaseName }),
        step is ReadBaseName ==> (event matches ModuleNameEvent::BaseNameRead { buffer, length } ==>
            (next matches ModuleNameStep::Finished(Some(name)) && name@ == utf16_lossy(buffer@.take(length as int)))),
        !(step is OpenProcess && event is Opened)
            && !(step is ListModules && event is ModulesListed)
            && !(step is ReadBaseName && event is BaseNameRead) ==> next == ModuleNameStep::Finished(None),
{
    match (step, event) {
        (ModuleNameStep::OpenProcess, ModuleNameEvent::Opened { handle_is_null }) => {
            if handle_is_null {
                ModuleNameStep::Finished(None)
            } else {
                ModuleNameStep::ListModules
            }
        },
        (ModuleNameStep::ListModules, ModuleNameEvent::ModulesListed { result }) => {
            if result == 0 {
                ModuleNameStep::Finished(None)
            } else {
                ModuleNameStep::ReadBaseName
            }
        },
        (ModuleNameStep::ReadBaseName, ModuleNameEvent::BaseNameRead { buffer, length }) => {
            ModuleNameStep::Finished(Some(decode_module_name(buffer.as_slice(), length)))
        },
        _ => ModuleNameStep::Finished(None),
    }
}

/// Where reading another process's command line stands: the read to make next,
/// or the result.
pub enum CommandLineStep {
    /// Ask the system for the process's basic information.
    QueryBasicInformation,
    /// Read the environment block at `address`.
    ReadEnvironmentBlock { address: u64 },
    /// Read the start-up parameters at `address`.
    ReadParameters { address: u64 },
    /// Read `bytes` bytes of command line at `address` into `units` wide characters.
    ReadCommandLine { address: u64, units: usize, bytes: u64 },
    /// Done: the command line, or nothing when a step failed.
    Finished(Option<String>),
}

/// What a step of reading a command line brought back.
pub enum CommandLineEvent {
    /// The query for basic information returned `status` and filled `info`.
    BasicInformation { status: NTSTATUS, info: PROCESS_BASIC_INFORMATION },
    /// Reading the environment block returned `result` and filled `block`.
    EnvironmentBlock { result: BOOL, block: PEB },
    /// Reading the start-up parameters returned `result` and filled `parameters`.
    Parameters { result: BOOL, parameters: RTL_USER_PROCESS_PARAMETERS },
    /// Reading the command line returned `result` and filled `units`.
    CommandLine { result: BOOL, units: Vec<u16> },
}

/// The first step of reading a command line.
pub fn start_command_line() -> (step: CommandLineStep)
    ensures
        step == CommandLineStep::QueryBasicInformation,
{
    CommandLineStep::QueryBasicInformation
}

/// Takes the outcome `event` of the read that `step` asked for, and says what
/// to read next. A failing query status (negative: NTSTATUS error or warning
/// codes have the top bit set) or a memory read that returns zero ends the
/// reading with nothing; otherwise the address read from each block leads to
/// the next one, and the command line
/// (half as many wide characters as its length in bytes) is decoded at the end.
/// An event that does not answer `step` ends the reading with nothing.
pub fn advance_command_line(step: CommandLineStep, event: CommandLineEvent) -> (next: CommandLineStep)
    ensures
        step is QueryBasicInformation ==> (event matches CommandLineEvent::BasicInformation { status, info } ==>
            if status < 0 {
                next == CommandLineStep::Finished(None)
            } else {
                next == (CommandLineStep::ReadEnvironmentBlock { address: info.PebBaseAddress.0 })
            }),
        step is ReadEnvironmentBlock ==> (event matches CommandLineEvent::EnvironmentBlock { result, block } ==>
            if result == 0 {
                next == CommandLineStep::Finished(None)
            } else {
                next == (CommandLineStep::ReadParameters { address: block.ProcessParameters.0 })
            }),
        step is ReadParameters ==> (event matches CommandLineEvent::Parameters { result, parameters } ==>
            if result == 0 {
                next == CommandLineStep::Finished(None)
            } else {
                next == (CommandLineStep::ReadCommandLine {
                    address: parameters.CommandLine.Buffer.0,
                    units: (parameters.CommandLine.Length / 2) as usize,
                    bytes: parameters.CommandLine.Length as u64,
                })
            }),
        step is ReadCommandLine ==> (event matches CommandLineEvent::CommandLine { result, units } ==>
            if result == 0 {
                next == CommandLineStep::Finished(None)
            } else {
                next matches CommandLineStep::Finished(Some(text)) && text@ == utf16_lossy(units@)
            }),
        !(step is QueryBasicInformation && event is BasicInformation)
            && !(step is ReadEnvironmentBlock && event is EnvironmentBlock)
            && !(step is ReadParameters && event is Parameters)
            && !(step is ReadCommandLine && event is CommandLine) ==> next == CommandLineStep::Finished(None),
{
    match (step, event) {
        (CommandLineStep::QueryBasicInformation, CommandLineEvent::BasicInformation { status, info }) => {
            if status < 0 {
                CommandLineStep::Finished(None)
            } else {
                CommandLineStep::ReadEnvironmentBlock { address: info.PebBaseAddress.0 }
            }
        },
        (CommandLineStep::ReadEnvironmentBlock { .. }, CommandLineEvent::EnvironmentBlock { result, block }) => {
            if result == 0 {
                CommandLineStep::Finished(None)
            } else {
                CommandLineStep::ReadParameters { address: block.ProcessParameters.0 }
            }
        },
        (CommandLineStep::ReadParameters { .. }, CommandLineEvent::Parameters { result, parameters }) => {
            if result == 0 {
                CommandLineStep::Finished(None)
            } else {
                let length = parameters.CommandLine.Length;
                CommandLineStep::ReadCommandLine {
                    address: parameters.CommandLine.Buffer.0,
                    units: (length / 2) as usize,
                    bytes: length as u64,
                }
            }
        },
        (CommandLineStep::ReadCommandLine { .. }, CommandLineEvent::CommandLine { result, units }) => {
            if result == 0 {
                CommandLineStep::Finished(None)
            } else {
                CommandLineStep::Finished(Some(decode_utf16_lossy(&units)))
            }
        },
        _ => CommandLineStep::Finished(None),
    }
}

} // verus!
