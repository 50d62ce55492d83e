# attestation_service

Issue and verify hardware-rooted EAT receipts for submitted source. A build
host (stage0) and a runtime (stage1+) each bind an EAT token into a TEE quote;
a verifier walks the stages back to the build and checks that the runtime's
`value_x` is the code that was built.

## Layout

- `src/` — the verified library (Verus):
  - `eat.rs`: the token, its CBOR wire format (writer and reader as functions
    on bytes), the 32-byte binding, chaining to a previous stage;
    `eat_laws.rs`: reading back what was written, what the binding covers.
  - `cbor.rs`: CBOR heads and item skipping.
  - `verify.rs`: decoding a submitted token, walking its chain, stage views
    and the receipt's verdict; `receipt.rs`: receipt types;
    `measurements.rs`: a stage's measurements, one per name in name order.
  - `attest.rs`: source-tree identity and build outputs; assembling, binding
    for the quote's platform and completing a token for a build.
  - `config.rs`, `quote_source.rs`, `request.rs`, `kds.rs`: configuration,
    the quote collector command, request parameters, AMD KDS rules.
  - `crypto.rs`, `encoding.rs`, `text.rs`, `platform.rs`: sha256 and
    randomness, hex and base64, string helpers, platforms.
- `app/` — the HTTP service around it: routing, environment, child
  processes, archive unpacking, network access and JSON.
- `tests/` — tests of the library, including byte-for-byte agreement of the
  token encoding with `ciborium`.
