# procnuke

A small process killer: it selects running processes by name, by command line
or by process id, then kills or lists them.

- `src/` is the verified library: command-line reading and checking (`cli`),
  process-id parsing (`pid`), text matching (`text`), the selection of
  processes (`lib.rs`), reading `/proc` entries and status files (`linux`), and
  the Windows side's decoding and step-by-step command-line reading
  (`windows`, `winapi_bindings`).
- `app/` is the program: arguments, `/proc` and Win32 calls, printing and
  killing.
- `tests/` runs the library on concrete inputs.
