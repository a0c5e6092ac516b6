# dwm_status

A small status feeder for `dwm` on Linux/X11: it samples local machine state
(connectivity, clock, RAM, CPU, GPU, traffic), assembles one plain text line
and writes it into the X root window name.

## Layout

- `src/` is the library, written in Verus. It holds the parsers for the kernel
  and tool output the features read (`/proc/stat`, `/proc/meminfo`,
  `/proc/net/*`, `resolv.conf`, the `nvidia-smi` CSV row), the choice of the
  primary interface, the CPU temperature sensor choice, the block layouts,
  config validation, the config file search, and the rules for when the root
  name is rewritten and when a feature's health change is reported. Every
  function carries a contract; Verus proves all of them except those of two
  trusted wrappers around outside calls, whose contracts are taken as given:
  `text::push_char` (std's `String::push`) and `clock::lookup_zone`
  (`chrono_tz`'s zone-name lookup, together with the name `tz_lookup` for its
  result). The laws the program relies on are the `law_*` proof functions.
- `app/` is the program around it: argument and environment access, file and
  socket I/O, the tokio workers, the X11 connection, TOML parsing, and the
  floating-point rate and percentage formatting.
- `tests/` exercises the library on concrete inputs.
