# linkbench

One question, one pane: **how fast and useful is the link between these two
computers, in the context of common machine-learning tasks?**

Two nodes run a suite of practical tests against each other — latency, a
bandwidth sweep, sustained runs with a timeline, message rate, all-reduces,
latency under load, wake-up after idle — and the numbers are turned into
verdicts for pipeline-parallel inference, tensor-parallel decode, gradient sync,
KV-cache migration and weight movement, and into one score.

## Layout

- `src/` is the library: everything the benchmark decides and computes, with
  contracts that Verus proves. Readings are carried as binary64 bit patterns,
  instants and durations as nanoseconds, texts are stated character by character.
- `app/` is the program around it: sockets, libibverbs, sysfs, child processes,
  the window, and floating-point arithmetic. The same program is the command line
  (`linkbench`) and, started under the name `linkbench-gui`, the window.
- `tests/` runs the library on concrete values.

| modules | what they hold |
| --- | --- |
| `bench`, `run` | the choreography of a run: stages, tests, the two roles, replies, results |
| `transport` | the data plane's interface; spreading a burst over lanes and merging what came back |
| `rdma` | regions and slots, posting windows, queue-pair bring-up, devices, GIDs |
| `proto`, `session` | control messages; transport, device and route decisions |
| `report`, `score`, `page`, `pane`, `listing` | verdicts, penalties, and every line that is shown |
| `probe`, `tune`, `sensors`, `bringup`, `history` | what a node says of itself and how it is set up |
| `links`, `orchestrate`, `batch`, `board` | links between two nodes, runs over SSH, batches of them, the state of the window |
| `text`, `scan`, `order`, `measure`, `calendar`, `json` | building blocks |

Public proof functions named `law_…` state what holds of several functions
together: that the two sides of every test pair up, that no two messages in
flight share a buffer, that every posted receive is consumed, that the score
penalizes exactly what a verdict calls poor, and so on.

## What is trusted

`text` takes `String::push`, `str` equality, the case conversions and the `{:?}`
form of a text from std; `order` takes `sort_unstable`; `json` takes the parser
from serde_json. Their contracts are stated above each of them and not proved.
