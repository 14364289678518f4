# mimo_desktop_bridge

A bridge that offers the MiMo Desktop free account channel as a local OpenAI-compatible API, with
an Anthropic-compatible and a Responses endpoint beside it, a WebUI for its settings, optional API
keys and TLS.

The library under `src/` holds all that the bridge decides, with contracts that Verus proves. The
program under `app/` does the work around it: HTTP, files, TLS, the command line.

| Module | What it is about |
|---|---|
| `text`, `json`, `keys` | texts and JSON values |
| `outside` | digests, encodings, password hashes, randomness, the clock, URLs, media types |
| `cookies`, `exchange` | `Cookie` headers, requests and replies, walks along redirects |
| `auth`, `login`, `ticket`, `mint` | account sessions, sign-in, second factors, service tokens |
| `upstream` | calls to the chat endpoint, with one retry; lines of event streams |
| `proxy`, `responses`, `anthropic` | the three API flavours |
| `reply`, `error` | what clients are told, and what is noted of it |
| `storage`, `usage`, `state` | settings, keys, counters, the log |
| `admin`, `server` | who may do what, and what the control plane answers |

Flows that need the network are written as steps: a flow gives its next request, is handed the
reply, and says how it goes on. Changes that have to last are handed to a function that writes
them.

Calls into other crates stand behind small functions whose contracts are taken as given; each says
which function it calls and what is claimed of it.
