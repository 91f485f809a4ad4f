# Campus auto-login

A Windows tray client that watches the connection, recognises the configured
campus portal and signs in. Credentials are submitted only after the portal
showed itself; a plain outage sends nothing.

- `src/` is the library: every decision of the client, verified with Verus. It
  does no I/O. Probes, the authentication exchange, logins and the monitor are
  state machines that say what to do next and take back what was observed.
- `app/` is the program around it: HTTP, files, DPAPI, the registry, threads and
  the Tauri windows.
- `tests/` runs the library on concrete values.

| module | what it decides |
| --- | --- |
| `probe` | which addresses are asked, what the replies mean |
| `portal` | which reply is the campus portal, and its parameters |
| `auth` | the exchange with the login API, OAuth and the gateway |
| `login` | attempts, pauses and cancellation of one login |
| `runtime` | what is shown, when to probe, when a login starts |
| `config`, `secure_store`, `paths`, `startup` | settings, credentials, places, automatic start |
| `redact`, `logger`, `logs` | what is logged, kept and shown |
| `secrecy` | why a log line tells nothing of a secret |
| `capture`, `desktop` | the capture window, tray and command line |
| `json`, `web`, `text`, `clock`, `model` | the ground the others stand on |

What the library takes from other crates on trust stands in `web`, `json`,
`secure_store` and `text`, each call with the facts that are relied on.
