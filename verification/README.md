# fastembed

Preparation of text and image inputs for embedding models, verified with Verus.

- `src/` is the verified library.
  - `tokenizer`, `batch`: tokenizers from their files, and batches of tokenized inputs.
  - `description`, `vocabulary`, `parts`, `charsmap`, `expression`, `growth`: what the
    description of a tokenizer must be like, so that the tokenizer can be read and can
    encode texts.
  - `picture`, `transform`, `steps`, `tensor`, `compose`: pictures, the steps that turn
    them into tensors, and preprocessors made of steps.
  - `preprocess`, `deepghs`, `json`: preprocessors from the configurations of models.
  - `hub`, `weights`, `session`: how the hub is reached, which files hold the weights of
    a model, and how a session of the inference runtime is set up.
  - `float`, `integer`, `text`, `error`: numbers, texts and errors.
  - `properties`: what holds of sizes, crops, tensors and preprocessors.
- `tests/` holds its tests.
- `app/` is ordinary Rust around the library: files, the network, the environment, the
  inference runtime, and arithmetic in floating point.

Numbers in floating point are bit patterns in `src/`. A `Tensor` holds the bytes of a
picture as singles, which is exact, and the arithmetic that is to be done on them; `app/`
does it.
