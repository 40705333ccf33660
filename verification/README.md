# squeezed

Serve a raw PCM audio stream to any Squeezelite / Squeezebox client over the
SlimProto protocol, in sync across as many players as you like.

The library under `src/` holds the logic, with contracts that Verus proves. But
for reading the system clock it does no I/O: sockets, files, threads and locks
are in the program under `app/`.

| module | what it holds |
|--------|---------------|
| `audio` | the PCM format and its SlimProto codes |
| `buffer` | the rolling one-writer / N-reader buffer and its cursors |
| `sync` | what is known of each player's timing, and its sync anchor |
| `align` | who is corrected, and by how much |
| `slim` | SlimProto packets and the course of a session |
| `http` | the HTTP request head, and the delivery of the stream |
| `discovery` | the answer to a discovery datagram |
| `config`, `cli` | defaults, file and flags, and their precedence |
| `input` | the pump from a source into the buffer |
| `capture`, `driver`, `hal` | the virtual audio device of macOS |
| `text`, `bytes` | numbers as text and as bytes |

Where time is measured in fractions of a millisecond, it is kept as an exact
fraction with the byte rate of the stream as its denominator. Floating-point
values that pass through the audio device are kept as their bit patterns.

Laws that span several functions are public proof functions whose names begin
with `law_`. What is taken on trust of the standard library stands in small
wrappers: UTF-8 decoding in `text` and `http`, the system clock in `sync`, and
the declaration of a path in `cli`.
