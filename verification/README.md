# rustbits

A handful of small command-line tools whose logic is verified with Verus:

- `guesscli` — guess a secret number between 1 and 100;
- `isthere` — probe a host's TCP port and report round-trip statistics;
- `restcli` — send an HTTP request and show the response;
- `echo-server` / `echo-client` — a TCP echo pair;
- `tls-server` — a TLS listener with a self-signed certificate;
- `fundamentals` — a walkthrough of basic language features.

`src/` is the verified library:

- `text` — Unicode whitespace, trimming, splitting at a character, and
  decimal parsing that agrees with `str::parse` for `u16`, `u32`, `i32`;
- `guess` — a round of the guessing game and its answers;
- `ping` — tallies of connection attempts and the probe's command line;
- `rest` — method and header options, body source, status classes and
  body formatting;
- `echo` — the server's step after each read;
- `fundamentals` — the values the walkthrough prints.

`app/` holds the terminal, file and network work and dispatches on the
first argument: `rustbits <tool> [arguments]`.
