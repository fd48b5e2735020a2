# pc

A small remote coding MCP server, with its rules proved in Verus.

The server offers four tools: `read`, `write`, `edit` and `bash`. Clients reach it over HTTP
and authenticate with OAuth (authorization code with PKCE). Commands run on the host, or in a
rootless sandbox.

## Layout

`src/` is the library. It decides and computes; it does no input or output.

| module | what it holds |
| --- | --- |
| `config`, `startup` | the configuration, its overrides and defaults; what keeps the server from starting; the MCP transport's settings |
| `oauth` | the metadata documents, client registration, the authorization page, codes and tokens, the guard in front of the tools |
| `tools` | reading text and images, editing, which files a tool may touch, commands and their logs |
| `sandbox` | what a sandboxed command may see and do, the steps by which its helper restricts itself, the layout of its mount namespace |
| `service` | systemd units, launchd property lists and the steps of `pc service` |
| `text`, `paths`, `time`, `json`, `escape` | the values that the rest is stated over |
| `outside` | calls into other crates, with the contracts that the proofs rely on |

Every executable function has a contract that says what it returns. What holds across
functions is stated by public proof functions named `lemma_..`: an authorization code can be
exchanged once, a running command's log is never removed, reading a file page by page shows
every line once, nothing that a sandboxed command may touch exposes protected credentials, and
so on.

`app/` is the program around the library: arguments, files, processes, HTTP, the database and
the system calls of the sandbox. `tests/` runs the library on concrete values, with the real
outside crates.

## What is believed

Contracts in `outside` and the two in `text` for `String::push` and `String::push_str` are
believed, not proved. Each one says which outside function it is about and what it claims.
Paths are held as text with `/` between the components, so a path that is not UTF-8 is seen
with replacement characters, and on Windows the program resolves paths with drives itself.
