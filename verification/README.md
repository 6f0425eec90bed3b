# RustClaw

The core of an assistant that answers in group chats: it decides which messages
call for the agent, queues runs so that each group has at most one and all groups
together stay under a limit, schedules tasks, checks what groups may ask for, plans
the containers in which the agent runs, and brokers requests to an exchange.

- `src/` is the library. Every function states in its contract what it returns or
  changes, and Verus proves it. Properties that span functions stand beside them as
  public proof functions.
- `app/` is the program around it: the command line, the database, files, processes,
  the network and Discord. It carries out what the library decides.
- `tests/` runs the library, with the crates that it calls linked in.

Calls into other crates (JSON, dates and time zones, cron expressions, regular
expressions, digests, signatures, percent encoding, random identifiers) stand in
`src/` behind small functions whose contracts are trusted; each says what it takes
from the crate's documentation.
