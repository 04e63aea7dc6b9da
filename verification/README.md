# In-season cup

A hockey team holds the cup until it loses a game, and the team that it lost to holds it next. The
service works out who holds the cup from the league's schedule, keeps the days on which each team
has held it and a log of every day, and finds the next game of the team that holds it.

- `src/` is the library. Everything in it is verified with Verus, against contracts over the views of
  its types. Calendar computations are chrono's and JSON is read by serde_json; what is relied on of
  them stands in `calendar.rs` and `json.rs`, what is relied on of the standard library in `text.rs`.
- `app/` is the service on Fastly Compute: the KV store, the requests to the league's API, the JSON
  forms of what is stored, and the replies. The roster of the players is given in the environment
  variable `PLAYERS_JSON` when the service is built.
- `tests/` holds the tests of the library.

| module | |
|---|---|
| `calendar` | moments, dates in Pacific Standard Time, and how they are written |
| `text` | the order of texts, and numbers in decimal |
| `json` | reading JSON documents |
| `model` | what is kept about the cup, and what the schedule says |
| `state` | who holds the cup, and up to which day that has been worked out |
| `history` | the days on which each team has held the cup |
| `roster` | the history that the roster of the players starts with |
| `schedule` | how a team's game of a date ended |
| `update` | working out who holds the cup, day by day |
| `search` | looking for the next game |
| `store` | the documents in the key-value store |
| `web` | requests and replies |
