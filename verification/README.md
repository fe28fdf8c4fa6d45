# windows-platform-probes

Probes of Windows platform behaviour, with their findings as verified values.

Each probe asks the platform one question (does the long-path opt-in lift
`MAX_PATH` for a relative path; does a duplicated directory handle share its
enumeration cursor; does impersonation change the DOS device map; ...). The
platform calls are plain Win32; what the answers mean, and what the reports
say about them, is decided by a library verified with Verus. Its functions
carry contracts proved against their bodies; the few calls into std it
cannot prove (writing a line to standard output, appending a character) are
trusted wrappers whose contracts say what std documents.

## Layout

- `src/` is the verified library: the probes' observations and findings,
  the verdicts and the report texts, the line-oriented report sink, the
  machine fingerprint and its rendering, the placement choices, the start
  gate's bookkeeping, and the parsing of what the platform returns (the
  `reg query` output, the `MULTI_SZ` device targets, the temporary-directory
  checks). Laws that relate several functions are public proof functions
  beside the functions they speak of.
- `tests/` exercises the library on concrete values.
- `app/` holds what touches the platform: the Win32 calls, the fixtures on
  disk, the threads and the standard output, each handing plain values to the
  library and printing what it renders.
