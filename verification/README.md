# AI Remote

Reaching an Ollama server at home from a browser elsewhere, over a WebRTC data
channel. Three programs work together:

- the **home agent** signals, makes peer connections and forwards requests from
  the data channel to the local Ollama server;
- the **signaling server** lets one agent and one browser into a room, passes
  their messages on, gives both the ICE servers and serves the pages;
- the **TURN server** relays where no direct connection can be made, over UDP,
  TCP and TLS, and passes HTTP on the TLS port to a server on its own machine.

## Layout

`src/` is the verified library: the rules of the three programs, each with its
contract.

| Module | What it decides |
| --- | --- |
| `text`, `table`, `json`, `address`, `codec` | texts, named values, JSON documents, URLs, base64 |
| `ice` | which STUN and TURN servers each peer is given, and how two lists are merged |
| `config` | the settings of the agent, and which requests it lets through |
| `agent` | what the agent does with each signaling message |
| `frames`, `rpc`, `forward`, `answer` | the data channel: frames, uploads in pieces, the window, forwarding, the order of an answer |
| `access`, `rooms`, `signaling` | tokens, rooms and the messages between their peers |
| `site`, `startup` | the pages and the settings of the signaling server |
| `stream`, `turn` | TURN over a stream, and the settings of the TURN server |

`app/` holds the programs around it: sockets, HTTP, TLS, peer connections, the
environment and the times that these are waited for. The name under which the
program is started says which one runs: `ai-remote-agent`, `ai-remote-signaling`
or `ai-remote-turn`.

`tests/` runs the library with the outside crates.

What an outside crate computes is either stated or given a name, such as
`json_reading` for what `serde_json` reads; the contracts speak of that name.
