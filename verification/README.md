# deboa

A small HTTP client library written in Verus. The parts that decide what a
request and a response hold are verified against their contracts:

- `request`: requests and their builder — headers, `Host` and
  `Content-Length`, `Bearer`/`Basic` authorization, cookies, forms, and the
  plain-text request format read by `DeboaRequest::from_str`
  (`request_text` holds its grammar);
- `response`: status classes, header readers (`Content-Length`,
  `Content-Type`, `Set-Cookie`), and the error a failed response becomes;
- `cookie`: cookies, the `Set-Cookie` parser and the name-keyed cookie map;
- `form`: URL-encoded and multipart bodies;
- `conn` and `pool`: where a request goes, connection settings, and one
  connection per host;
- `tls`: the TLS plan of a connection — skipped verification, the extra
  certificate authority, the client identity, ALPN — with certificates and
  keys checked by rustls;
- `header`, `url`, `encoding`, `text`, `method`: header maps, parsed URLs,
  Base64 and percent-encoding, text helpers, methods.

Calls into `http`, `url`, `cookie`, `indexmap`, `urlencoding`, `base64`,
`minimime`, `rand` and `rustls` go through small trusted wrappers whose contracts
state what those crates do.

`app/` holds what is not verified: DNS, TCP and the TLS handshake (tokio,
rustls, trust-dns), applying the TLS plan to rustls's builder, sending with hyper, reading bodies and files, the async hook
chain, and conversions to and from the outside crates' types.
