# tetris_server

The game server behind a two-player falling-blocks game. Players register a
username over HTTP (`POST /id` on port 8081, JSON body `{"username": ...}`),
open a WebSocket connection on port 8080 with `?username=...&id=...`, chat,
challenge each other (`{"matchRequest": username}`), accept a challenge
(`{"matchAccept": id}`) and then play a match whose board the server runs.

## Layout

- `src/` is the library, verified with Verus:
  - `shapes.rs`: the seven shapes, their names and cells, random shapes.
  - `board.rs`: pieces on the board, how they fall half a cell per tick and
    settle on the floor or on placed pieces, and how players get new pieces;
    with the laws these steps keep.
  - `phase.rs`: the two waits before a match goes live, as a step function
    over the clock, and the law that play starts only after both.
  - `lobby.rs`: registered usernames, connected players, challenges and
    acceptances, disconnection; with the lobby's invariant and laws.
  - `requests.rs`: what the server makes of the bytes of a registration
    request, of a connection request and of a player's message, and the
    registration response.
  - `trusted.rs`: the calls into std, rand, uuid, http, httparse, serde_json
    and url, each with the contract that is taken on trust.
- `app/` is the program: sockets, timers, locks, JSON output, and the loops
  that feed events to the library and carry out what it decides.
- `tests/` runs the library on concrete values.
