# rusbee

Remote management of `usbip` devices: a server next to the physical USB
devices lists, binds and unbinds them over a small HTTP API, and a client
attaches and detaches them locally, from the command line or from a TUI.

## Layout

- `src/` is the library, verified with Verus:
  - `usbip/` parses the output of `usbip list` and `usbip port` and derives
    device details from sysfs attributes;
  - `device.rs` holds the device model and marks which devices are attached;
  - `config.rs` holds named targets (kept sorted by name) and resolves the
    target a client talks to;
  - `client.rs` builds the URLs of the server's endpoints;
  - `commands/` holds the decisions of the `server` and `device` commands
    (settings precedence, authorization, attach and detach plans);
  - `tui.rs` is the state machine of the interactive interface and its layout
    arithmetic;
  - `text.rs` is the string toolkit the parsers are written with.
- `app/` is the program around it: argument parsing, the HTTP server and
  client, the TOML config file, the terminal, and running the system tools.
- `tests/` runs the library on concrete inputs.
