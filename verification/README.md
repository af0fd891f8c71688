# mlp

A multilayer perceptron trained on MNIST, split in two:

- `src/` is a Verus-verified library holding the trainer's integer logic:
  - `data`: decoding the IDX label and image files (magic numbers, big-endian
    header, payload bounds);
  - `layout`: layer shapes and the offsets of each layer's parameters and
    cached batch values inside flat buffers;
  - `batching`: batch ranges, rounded-up divisions, per-thread evaluation chunks;
  - `shuffle`: Fisher-Yates shuffles, seeded or driven by `rand`;
  - `utils`: the predicted class of a probability row, correct-prediction
    counts, the epoch axis of the charts;
  - `confusion`: the confusion matrix, its row and diagonal totals, the ranking
    of confusions and the heat-map scales;
  - `blas`: the integer arguments of the CBLAS and cuBLAS matrix products and
    of GPU kernel launches.
- `app/` is the program: file reading, the `f32` forward and backward passes,
  the optimizers, the CPU and GPU training loops, plotting.

`tests/` exercises the library on concrete values.
