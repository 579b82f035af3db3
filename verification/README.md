# afire

The logic of the afire web framework, verified with Verus.

- `src/` is the verified library: routing (route parsing, matching and
  rendering), HTTP pieces (methods, status codes, headers, cookies, queries,
  request lines, responses as bytes), encodings (Base64, URL, SHA-1),
  WebSocket frames and the opening handshake, server-sent events, the
  request context and its flags, the decisions of the connection handler
  (route choice, the rule of the middleware chains, error responses, when to
  close a connection) and of the thread pool, and the extensions (cache, rate limiter, date header,
  HEAD, TRACE, ranges, static files, path normalizer, request ids, real IP,
  logger lines, redirects).
  Each public function states its result in `ensures`; the properties that
  relate several functions are public proof functions (their names begin with
  `lemma_`).
- `app/` holds what talks to the operating system: sockets, threads, files
  and the clock, around the library's decisions; `app/handle.rs` is the
  connection loop that runs the middleware chains and the routes.
- `tests/` runs the library on concrete values.
