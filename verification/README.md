# dora_inspect

The decisions behind the commands that inspect a running dora dataflow, as a
verified library, and the terminal commands around it.

- `src/node`: which nodes a dataflow has, and what one node uses of the machine.
- `src/topic.rs`: outputs of nodes, and the order in which they are shown.
- `src/hz`: how often outputs are published. `window` keeps the moments of a
  sliding window, `stats` and `histogram` describe the intervals between them,
  `monitor` holds the entries of the display, `screen` says what it shows.
- `app`: options, connections, messages, terminal. All that is floating point
  stands there.

The functions named `law_...` state what holds across several functions.
