# grey-signal

Grey Signal authenticates public-safe event envelopes, admits them under an
explicit protocol and policy revision, and records admission evidence.

- `src/` is the verified library: the canonical JSON encoding that signatures
  cover (`json`, `canonical`), the envelope schema (`envelope`), the admission
  policy (`admission`) and producer-side signing (`producer`). Base64, hex,
  SHA-256, Ed25519 and RFC 3339 timestamps come from their crates through the
  small trusted wrappers in `codec`, `crypto` and `clock`.
- `app/` is the `grey-signal` command line tool: it reads the envelope and the
  producer registry, parses JSON with serde, and writes the admission record.
- `tests/` exercises the library on concrete envelopes.
