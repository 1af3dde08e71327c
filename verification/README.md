# xcode_ai_proxy

A local proxy that forwards OpenAI-compatible chat requests to configured
upstream providers, with its core written in Verus and verified.

- `src/` — the verified library:
  - `text.rs`: trimming, comma-separated lists, unsigned decimal parsing, model-id
    rule, base-URL normalisation;
  - `env.rs`: the environment snapshot and the typed settings read from it;
  - `config.rs`: model configurations, the model table and `load_config`;
  - `config_laws.rs`: what loading the settings guarantees over every environment
    (when it fails, which ids the table holds, the shape of each entry, how extra
    models are added);
  - `json.rs`: JSON documents, request validation and the `model` override;
  - `listing.rs`: string order, sorted model ids and model summaries;
  - `proxy.rs`: how a request is forwarded (model lookup, upstream body, stream flag);
  - `errors.rs`: errors, the answers they give and the JSON error body;
  - `retry.rs`: the retry schedule and what a whole run of attempts gives.
- `app/` — the HTTP server (axum, reqwest, tokio) around the library.
- `tests/` — tests of the library.
