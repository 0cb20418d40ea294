# raftchat

A chat server whose messages are replicated with Raft, as a verified
library (`src/`, checked by Verus) and the program around it (`app/`).

`src/`:

- `entry`, `rpc`: log entries, client commands and the Raft messages.
- `wal`: the write-ahead log and how it accepts a leader's entries.
- `state_machine`, `client_table`: the state replayed from the log (each
  client's last message id), and a snapshot: a log length with a machine
  state, moved forward as entries commit.
- `persistent_state`: the durable term and vote.
- `quorum`, `raft`: the decisions of a Raft node for each request, reply
  and timeout; `config` holds its configuration.
- `mock_raft`: a stand-in log that echoes requests back in order.
- `msg`, `database`: the chat server's messages and committed records.
- `settings`: parsing of the server's settings and the nodes' URLs.
- `chat_message`: the peer-to-peer chat message in bebop's wire format.

`app/` holds `main`, the network, timers, threads and files.
