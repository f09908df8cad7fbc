# dap-console

The engine of an interactive console for a program that is being debugged, and the
console itself. It joins a [dap-mux](https://github.com/dap-mux/dap-mux) session that an
editor already debugs, evaluates the expressions you type in the selected frame, and steps,
continues, and pauses the program.

```
(dap) len(primes)
=> 7 : int
(dap) :next
⏸ stop (step) → is_prime @ line 43
```

```sh
dap-console             # connect to 127.0.0.1:5679, the default
dap-console 5680        # a different port
dap-console host:port   # a different host and port
```

Anything that does not start with a colon is evaluated as an expression in the selected
frame. A colon starts a command. An empty line repeats the last input. `:help` lists the
commands. What you type runs inside the live program, and the session is shared with every
other client.

## Layout

`src/` decides what each line, message, and end leads to, and is verified with
[Verus](https://github.com/verus-lang/verus). It does no input or output of its own.

| module | what it holds |
| --- | --- |
| `transport` | `Content-Length` framing, numbering of requests, correlation of responses |
| `dap` | addresses and the late-join handshake's arguments |
| `repl`, `outcome`, `console` | the session, what a line or an event means, what is shown |
| `node`, `model`, `update` | the state behind a full-screen debugger, and how actions, events, and replies change it |
| `text`, `json`, `types`, `views` | text handling, JSON values, the protocol's messages |
| `*_laws` | what holds across calls, each stated and proved as a proof function |

`app/` is the program around it: the socket, the terminal, and the JSON shapes of the
protocol's messages. `tests/` runs the library on concrete values.

## What is taken on trust

The text of JSON values is read and written by `serde_json`. The functions in `json` that
call it say what is relied on. In `text` the same holds of three functions of the standard
library: `String::push`, `String::pop`, and `std::str::from_utf8`.
