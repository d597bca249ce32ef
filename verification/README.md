# feature_pipe

A deterministic feature transformation for serving a gradient-boosting model,
verified with Verus.

- `src/config.rs`: the pipeline configuration; preparing it orders the
  features stably by lowercased name.
- `src/input.rs`: the input record (named values) and the transformation of a
  record into a fixed-width row.
- `src/transformers.rs`: the encoded values of a row, string hashing and the
  nullable pairs.
- `src/error.rs`: the errors and their messages.
- `src/order.rs`: the lexicographic order of names.
- `src/predictor.rs`: laying rows out for the model and cutting its output
  back into rows.
- `app/`: the HTTP server, the LightGBM bindings, JSON reading and the
  conversion between encoded values and floating-point numbers.
