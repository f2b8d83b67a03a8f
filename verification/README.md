# xai-gork-telegram

Telegram phone remote for the Gork agent: an allowlisted bot that relays
chat messages to a live agent session over ACP (`gork agent stdio`) and
shows the agent's permission requests, questions and plans as inline
keyboards.

## Layout

- `src/` — the verified library (Verus): the remote's decisions, each with
  its contract:
  - `text` — character and byte level string helpers (trimming, searching,
    byte-limited clipping, decimal numbers);
  - `json` — the JSON document model the remote reads and writes, with
    `get`, JSON pointer steps and accessors, and JSON text read and written
    through `serde_json`;
  - `acp` — reading the agent's JSON-RPC lines (reverse requests, session
    updates, replies), the lines the remote sends (initialize, attach,
    prompt, answers), the order of attaching to a session (load, resume,
    new), how a prompt ends, and the choice of the agent binary;
  - `telegram` — Bot API update data, HTML escaping, inline keyboards, the
    request bodies the remote sends and the test of a reply;
  - `ui` — the cards and keyboards for permission requests, questions and
    plans, the home buttons and the session picker;
  - `auth` — the fail-closed allowlist;
  - `notes` — the first-in first-out notes queue;
  - `sessions` — session group names, session entries, the picker's list
    from the folders found (newest first), the chat history digest from the
    lines of a history file;
  - `runtime` — the remote's state machine: what each Telegram update
    (commands, live mode, parking and draining notes, saved photos and
    files, button presses) and each agent event does, as actions for the
    caller.
- `app/` — the program around it: command line, the Telegram HTTP client,
  the agent process and pipes, the notes file, downloads and the session
  folders, the long-poll loop that performs the library's actions, and the
  attach loop that runs the steps the library picks.
- `tests/` — tests of the library.
