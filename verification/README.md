# xrayctl

A command-line manager for an Xray-core server set up with VLESS + TCP +
Reality: it installs the server, and lists, adds, removes and shares users.

- `src/` is the verified library. It holds the configuration as a JSON
  model (`json`), read from and written to text by serde_json behind two
  trusted wrappers, the client list and connection links (`utils`), the
  credential file format (`utils::keys`), the text handling it rests on
  (`text`), and the decision behind each command (`cmd`). Every function
  there carries a contract that Verus proves; the laws that tie the
  commands together (credentials read back as written, an added user is
  listed and its name taken, removing a user takes out that client alone, the installed
  configuration's main-user link) are public proof functions.
- `app/` is the program: argument parsing, files, external commands,
  prompts and logging, calling the library for every decision.
- `tests/` runs the library on concrete inputs.
