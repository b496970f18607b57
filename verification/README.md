# jetx_scraper

Watches the data feed of the crash game JetX: it follows each round from the first bet to the
crash, tells late bets and cashouts from timely ones, and reports on every round.

The library under `src/` is verified with Verus. It holds the feed's message format, the state
of a round, the statistics and the rules for staying connected.

- `text`, `number`, `double`: strings, numerals and encoded doubles
- `json`: what is taken from `serde_json`
- `counter`, `event`: the counters and the players' events in a message
- `state`, `message`: the state between messages, and what each message does to it
- `invariants`: what holds of every message and frame
- `report`, `label`, `style`: what is reported, and how it is marked
- `session`, `settings`, `status`: staying connected, starting up, answering health checks

`app/` is the program around it: sockets, the HTTP server, the history file and the terminal.

The feed's address is taken from `WS_URL`, then from the command line, then from the program
itself. The port of the health checks is taken from `PORT`.
