# quasar

A hybrid language-model family: mostly state-space layers, with a few sliding-window
attention layers for exact recall. `src/` holds what the project decides and counts, as
executable Rust with contracts that Verus proves:

- `config`: the model family, its validation, its parameter budget and its cost per token
- `data`: the token shards, the order they are read in, and the train/validation split
- `model`: the shape of each layer, and which keys an attention query sees
- `train`: the learning-rate schedule, the optimizer split and the training loop's decisions
- `kernel`: the launch plan of a fused RMSNorm kernel
- `command`: presets and the knobs a command line overrides

Each module ends with the laws that hold across its functions, such as that reading a shard
directory gives back what was written, or that an interrupted run resumes into the run it was.

`app/` is the program around the library: the disk, the terminal and everything in floating
point. `tests/` runs the library.
