# datamapper

A JSON-shaping HTTP service: `POST /<project>/<view>` renders the
Handlebars template `<project>/<view>.hbs` from a DSL directory against
the JSON request body and negotiates the response type.

Layout:

- `src/` — the verified library (Verus). Template-name validation, the
  `.length` accessor detector and rewriter, the raw-output detector,
  the capped render buffer, request admission (header and body caps,
  content type, body arrays), response negotiation, error bodies,
  security-header defaults, W3C trace context, access-log trace ids,
  configuration rules, environment safety gates and the `doctor`
  diagnostics. Contracts are stated over `Seq`-level models. Laws
  that relate several functions are public proof functions; the
  others are `ensures` clauses of the functions they concern.
- `app/` — the executable around it: CLI, configuration file I/O and
  YAML decoding, the axum router and middleware, Handlebars rendering
  with the built-in helpers, the DSL tree walk and graceful shutdown.
- `tests/` — tests of the library on concrete values.
