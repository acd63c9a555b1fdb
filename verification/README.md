# wasmtime-mysql

A native Wasmtime runner for a WASI build of the MySQL server (`mysqld`),
whose host-side logic is a library verified with Verus.

The guest reaches the host through narrow imports: positional file I/O under
preopened directories, BSD or WinSock sockets, and a shutdown flag. The
decisions those imports make before or after a host call are in the library,
each with a contract that Verus proves:

- `guest_errno`: the guest's errno numbering and the translation of host C
  library, Windows system and WinSock error codes into it.
- `host_files`: guest path normalization, the preopen table (longest guest
  path first) and the resolution of guest paths to host paths, and the
  argument and result handling of the file imports. A guest path whose
  components leave the preopen (`..` past its root) or are not plain names on
  every host (they hold `\` or `:`) is refused; a resolved host path is the
  preopen's host directory followed by plain names.
- `fd_table`: the descriptor tables that hand out guest descriptor numbers.
- `host_sockets`, `host_sockets_windows`: socket types, domains, levels,
  options, status flags, poll records, address families and timeouts between
  the guest's values and the host's.
- `cli`: the `--preopen HOST=GUEST` and `--env KEY=VALUE` values, the guest's
  argument vector, thread-spawn results and the exit status.
- `bytes`, `text`: little-endian integers and character helpers.

Errno and seek constants of the host C library, the machine's byte order,
`std::io::Error` codes and the `windows-sys` WinSock constants are read
through a few trusted functions in `host_abi`; their doc comments say what is
assumed. What differs between targets is named there, not stated. The host's
socket constants are handed to the library by `app/`.

`app/` holds the executable: command-line parsing with clap, the Wasmtime
engine, linker and guest threads, signal handling, and the host calls
themselves. It hands plain values to the library and back.

The executable runs the module named by the environment variable
`WASMTIME_MYSQL_MODULE` (by default `mysqld.wasm` in the working directory).

`tests/` exercises the library on concrete values.

Where the imports' behaviour was chosen deliberately:

- A `SO_ERROR` of 0 (no pending error) is passed to the guest as 0 on every
  host.
- Guest path components holding `\` or `:` are refused on every host, so
  that no host can read them as a separator, root or drive.
- A length the host reports beyond the buffer it was given (socket
  addresses, socket options) is answered with `EIO` on every host.
