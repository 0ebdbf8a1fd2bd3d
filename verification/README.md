# immich_cli

The logic of a command line client for an Immich photo library, as a Verus
library: every function states what it returns, and Verus proves it.

The client finds photos and prints where they lie on this machine, so that they
can be worked on locally:

- `search` by meaning, words, time, place and type;
- `info` on one photo, given its local path;
- `ask` for photos by what their descriptions say;
- `dedup`, which stacks near-duplicates, deletes exact copies and dismisses groups
  that are none.

## Layout

- `src/` is the library. `client` and `llm` hold the traits through which servers
  and language models are reached, and what is sent to them; `commands` holds one
  module per command; the other modules are what they share.
- `app/` is the program around it: arguments, configuration file, HTTP, threads
  and printing. Distances and percentages are floating point and are computed
  there.
- `tests/` runs the library on concrete values.

## What is trusted

serde_json reads documents and escapes strings, chrono reads and writes dates and
times, base64 encodes images. Each is called in one small function whose contract
says what is believed of it. Of some results nothing more is said than that they
depend on the arguments alone; contracts then speak of the result by a name.

## What the contracts say

A function that asks a server or a model says which questions its result rests
on, and what it makes of every answer. It also says which questions it may ask at
all, and after which answers: the traits say by spec functions what they allow,
their methods require it, and what a function requires to be allowed bounds what it
asks. So a dry run makes no change, and no model is asked where none is needed. What
is not stated is how often a question that is allowed is put. Scores and ratios are exact: they are
compared as fractions. What holds beyond single functions stands in proof functions
whose names begin with `law_`.
