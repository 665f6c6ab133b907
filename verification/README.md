# mooncake_http_client

Clients for asking a Mooncake Store master whether cache keys exist.

- `src/` is the verified library (Verus):
  - `text`: decimal numbers, splitting, lines, trimming and joining of text,
    each stated over the characters of the text;
  - `model`: what the store's answers carry (`ExistenceResult`, `KeyInfo`,
    `BatchQueryResponse`, `HealthResponse`);
  - `error`: `ClientError`;
  - `client`: `MooncakeClient`, the URLs of its requests (formed with the
    `url` crate) and what each answer means;
  - `query`: the key query tools: their URLs, the meaning of answers, the
    grouping of keys in batches, the counting of results and exit codes.
- `app/` is the command-line program around it: argument parsing, the HTTP
  requests, files, concurrency and printing. Its first argument chooses the
  tool: `http-client`, `query-http` or `query-rpc`.
- `tests/` runs the library on concrete values.
