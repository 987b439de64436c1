# Miyagi

Miyagi adapts binary language models by flipping rows of their one-bit tensors. It maps
the tensors of a model, measures how the model answers probes, searches for rows whose
flipping makes the answers better, and writes what it found as a patch. A patch is
removed by applying it once more.

The library is written in Verus: what its functions return, what they ask of a model and
in which order, and what the model is left with are stated in their contracts and proved.

## Layout

| Path | What it holds |
| --- | --- |
| `src/architecture.rs` | the map from layers and projections to tensors, and its signature |
| `src/backend.rs` | what is asked of a model, and the record of the answers |
| `src/probe.rs` | probes, their compilation into tokens, their measurement |
| `src/restore.rs` | flipping rows all or not at all, and flipping them back |
| `src/patch.rs`, `src/flip_set.rs` | patches, their validation and composition |
| `src/patched.rs` | trying a patch out and taking it back |
| `src/search/` | the search: configuration, pool, screen, evaluation, state, run, laws |
| `src/search/replay.rs` | that the answers determine a search |
| `src/search/interruption.rs` | that a stopped search can be taken up to the same result |
| `src/cli.rs` | the decisions of the command line |
| `src/float.rs`, `src/text.rs` | single-precision numbers by their bits; texts and numerals |
| `app/` | the program: arguments, files, signals, arithmetic on floating-point numbers |
| `tests/` | tests of the library |

A function named `law_...` states something that holds of several functions together,
such as that a search that comes to its end leaves the model with the rows of its patch
flipped and no others.

Single-precision numbers are held by their bits (`Binary32`). The library compares them;
sums and products, such as the fitness of measurements, are left to whoever runs a search
(`SearchHost`).
