# mini-cloudflared

A minimal Cloudflare Tunnel client. What it decides and computes is a library
that is verified with Verus; what talks to the network is a thin program around
it.

## The library, `src/`

| Module | What it holds |
| --- | --- |
| `protocol` | frames: opcode, stream, payload |
| `config` | tunnel token, tunnel secret, which requests a rule is for |
| `ingress` | loading, checking and reloading rules, the first rule that fits |
| `words`, `segment`, `layout` | words, pointers and layout of Cap'n Proto messages |
| `capnp_rpc` | bootstrap, call and registration messages, the answer of the edge |
| `capnp_params` | the parameters of a registration, slot by slot |
| `message_laws` | what was written can be read |
| `rpc` | the registration in JSON, UUIDs |
| `control` | the control stream: who registers, and what comes of it |
| `tunnel` | streams, requests and answers between the edge and a service |
| `origin`, `urls`, `headers` | requests to a service, its answer, addresses, headers |
| `reconnect`, `edge` | which address comes next, how long to wait, where the edge is |
| `h2_stream`, `proxy` | reading a stream in pieces, addresses of the local proxy |
| `text`, `base64_text`, `buffers` | texts, base64 and byte buffers |

The functions named `law_...` are proofs of what holds of several functions
together: a frame reads back as it was written, every request has a rule, bytes
come in order.

What is called in other crates stands behind functions marked
`#[verifier::external_body]`. Their contracts are taken for granted; the doc
comment of each says what is claimed of which function.

## The program, `app/`

`main` and the command line, sockets, TLS, HTTP/2, Cap'n Proto RPC, files, and
the types that serde reads and writes.

## Tests, `tests/`

They run the library with the other crates linked.
