# outpost_bot

A bot that plays a game from two machines: the **agent** on the game PC drives
the keyboard and mouse, the **brain** connects to it over TCP and sends
line-delimited JSON messages.

- `src/` is the verified library (Verus):
  - `protocol` - message types, stamped with a caller-chosen time type;
  - `keys` - key names and the key each denotes;
  - `input` - the agent's held-input state machine and its laws;
  - `link` - newline framing, line trimming, and the agent's per-read decisions;
  - `demo` - the brain's smoke-test script and its laws.
- `app/` is the program around it: the JSON encoding (serde), TCP and timers
  (tokio), the input device (enigo), the command line (clap) and logging.
- `tests/` runs the library on concrete values.

Run `outpost agent --dry-run` on the PC and `outpost brain --agent HOST:7878 demo`
on the other machine.
