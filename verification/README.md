# fff

A verified library for the F3 columnar file format and its vector indexes. The
code in `src/` is Rust whose behaviour is stated in `requires` and `ensures`
clauses and proved with Verus.

## What is in `src/`

* Files: `file_writer`, `writer`, `writer_finish`, `write_history`, `row_groups`, `footer`,
  `file_footer`, `postscript`, `options`, `tables`, `file_format`, `checksum`.
* Columns: `schema`, `encoder`, `vector_encoder`, `encoded_chunk`, `decoder`,
  `chunk_decoder`, `dict_decoder`, `assemble`, `buffers`.
* Reading: `reader`, `read_plan`, `column_reader`, `selection`, `dict_sharing`,
  `column_stats`.
* Vectors: `vector`, `topk`, `floats`, `vector_index` (exact search, graphs,
  WebAssembly modules).
* Inverted-file indexes: `ivf_flat`, `ivf_file`, `ivf_columns`, `ivf_assign`,
  `ivf_build`, `kmeans`, `training`, `random`, `manifest`, and `artifact`
  (self-contained index files, product quantisation, search kernels).
* WebAssembly decoders: `ude_wasm` (exports, calls, memory).
* Measurements: `bench`.
* Numbers: `le`, `num`, `uleb128`.

Floating-point numbers are held as their bit patterns. What is computed of them,
distances above all, is handed to the library as a function.

## What is in `app/`

File access, JSON, WebAssembly engines, floating-point arithmetic and the command
line.

## What is trusted

Functions of other crates are called behind items whose doc comments say what is
taken for granted of them: `bytes` in `buffers`, `byteorder` in `le`, `rand` in
`random`, `xxhash-rust` in `checksum`, `semver` in `footer`, and `base64` and
`wasmtime` in `ude_wasm::exports`.
