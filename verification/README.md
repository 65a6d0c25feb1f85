# Kugelblitz

A Discord bot. Its decisions and replies live in a library whose functions
carry contracts proved with Verus; a thin program around it talks to
Discord, the disk and the network.

## Layout

- `src/` — the verified library.
  - `lists.rs`, `blacklist.rs`, `unblacklist.rs`: the ordered user and
    server blacklists, the owner's exemption and the check made before each
    command, and what a confirmed (un)blacklisting does to the running lists
    and to `Config.toml`.
  - `config.rs`: the configuration and how its blacklists are put in order.
  - `reminder.rs`: reading a delay such as `1h15m`, the confirmation, and
    the retries of a reminder that could not be sent.
  - `counter.rs`: command usage counters as stored bytes.
  - `general.rs`, `status.rs`, `moderation.rs`, `events.rs`,
    `playground.rs`: the replies and choices of the other commands and
    events.
  - `sentences.rs`: the Markov chain sentences are learnt into.
  - `text.rs`: character-level helpers (decimal rendering, parsing,
    splitting, replacing).
  - `external.rs`: the calls into other crates, each with the contract the
    library relies on.
- `tests/` — tests of the library on concrete values.
- `app/` — the program: logging, reading the configuration, the shared
  data, the command framework and the commands themselves.

## Help texts

The help text of each command says what the command does. `unblacklist user`
takes users off the blacklists ("Unblacklist users"), as its name, its
confirmation prompt and `unblacklist server` say; `shutdown` shuts the bot
down ("Shut the bot down"), as its reply "Shutting down..." says.
