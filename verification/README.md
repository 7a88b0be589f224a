# rep_notary

The decisions of a TLS notarization service, verified with Verus.

A prover fetches something over TLS together with a notary, who signs what the prover commits to
without seeing it. What comes out is a presentation that anyone can check later, offline.

| Module | What it holds |
| --- | --- |
| `plan`, `urls` | whom a notarization reaches and what it asks |
| `disclosure` | which bytes are committed to and which are shown |
| `notarize` | the course of a notarization, step by step |
| `session`, `verification` | the course of a session with a prover, and what a verifier concludes |
| `notary` | what a notary does behind a session: key, extensions, attestation |
| `frame`, `ws_io` | messages and bytes on a WebSocket |
| `presentation`, `http` | what an opened presentation proves, and the text of a response |
| `report` | the offline verifier's arguments, facts and output |
| `reopen` | the check that a session can be opened again narrower and no wider |
| `text`, `digits`, `runs`, `errors` | what the others build on |

`app/` holds sockets, the calls into `tlsn`, the HTTP service and the command line.
