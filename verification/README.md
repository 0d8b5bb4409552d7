# nix_varlink_client

The client side of `org.nix.derivation-builder`, the Varlink interface through which a
Nix build talks to the store that builds it, and the task that submits its outputs that
way. The library is written in Verus: what each function does is stated in its contract
and proved.

The interface has three methods. `AddToStore` adds a file tree, streamed as a NAR over a
descriptor that goes with the request. `AddDerivation` registers a derivation.
`SubmitOutput` declares a path to be an output of the calling derivation. Messages are
JSON documents over a stream socket, each ended by a zero byte.

## Layout

- `src/` is the verified library. It reads and writes no file and no socket: a request
  is the frame to send, a reply is taken in byte by byte, and the submission of outputs
  is a state machine that says what to do next.
- `app/` is the program around it: arguments, sockets, files and processes.
- `tests/` runs the library on concrete values.

## What is trusted

`serde_json` reads and writes the text of documents and tells integers apart, `harmonia_store_core` parses and
prints store paths and serializes derivations, and the standard library turns bytes that
are not UTF-8 into text. The functions that call them are marked
`#[verifier::external_body]`; each says in its comment what is believed of the call.
Everything else in `src/` is proved.
