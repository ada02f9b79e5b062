# FOX serial tools

Three command-line tools for FOX devices on a serial port:

- `flash` shows what a firmware image holds and writes it to a device,
- `log` resets a device and records its output,
- `serial-forwarder` finds the referee server on the local network and connects devices to it.

`src/` is the library. It holds the formats, rules and state machines of the tools, written
and proved in Verus. `app/` is ordinary Rust around it: the terminal, files, serial ports and
sockets. `tests/` runs the library.

| module | what it holds |
| --- | --- |
| `text`, `numbers` | characters, words, decimal and hexadecimal numbers |
| `firmware`, `build_time`, `summary` | the parts of a firmware image and how they are shown |
| `ports`, `prompts`, `progress` | choosing a port, the answers of the user, the progress bar |
| `log_file`, `log_line` | names of log files, recording of lines |
| `protocol` | what a device prints and what it is sent |
| `discovery`, `registry` | the search for the server, the ports that are forwarded |
| `device`, `session`, `tasks` | the run of a device, its session and the tasks of the session |

The laws of each module are its public proof functions, whose names begin with `law_`.
