# Herdr Beacon

Beacon remembers which of your Herdr agents have finished or are waiting, and takes
you to them. It keeps an unread queue per session, cycles through working and recent
agents in either direction, and never leads into a workspace that the Agents policy
excludes.

The rules stand in `src/` and are verified with Verus. `app/` is the program around
them: it talks to Herdr and to the Agents socket, and keeps the state file.

| Module | What it holds |
| --- | --- |
| `ledger` | the meaning of the unread ledger: what every observation, move, removal and reconciliation does to it |
| `model` | the ledger itself, verified against that meaning |
| `laws` | what holds of the ledger across operations |
| `eligibility`, `socket` | the workspace policy, how it is asked for, and reconciliation against it |
| `event` | Herdr's hooks, and what each does to the ledger |
| `herdr` | what Herdr's replies mean, and the arguments of its commands |
| `jump`, `cycles` | the four shortcuts, and the laws of their rings |
| `storage` | the state file, and that it restores what was saved |
| `chord`, `keybindings`, `config` | the bindings in a Herdr config: conflicts, and what is installed |
| `json`, `record` | JSON values, and the fields of records as they are written |
| `text`, `textmap`, `seqs`, `error` | plain data that the others are built on |

`serde_json` and `toml_edit` are called behind small wrappers in `json` and `config`.
The comment above each says what is taken on trust.
