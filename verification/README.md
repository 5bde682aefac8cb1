# pickles_verifier

Tooling around an out-of-circuit verifier for Mina's Pickles recursive
proofs (the Mina blockchain SNARK, or any compatible kimchi-wrap proof), with
its reading of the proof formats verified by Verus.

## Layout

- `src/` — the verified library.
  - `ingest/sexpr.rs` — a reader for OCaml `sexp_of_t` text (lists,
    bare and quoted atoms with `\\ \" \n \t \r \NNN` escapes), stated as a
    grammar over bytes; errors carry the byte offset where reading stopped.
  - `ingest/o1js_sexpr.rs` — the proof fields and the wrap proof read from
    an S-expression of `Pickles.Proof.Proofs_verified_2.Repr.Stable.V2`.
  - `ingest/bin_prot.rs` — the same readings from the bin_prot record,
    held as plain values (32-byte integers, `u64` limbs, fixed-length
    arrays for padded sequences).
  - `ingest/o1js.rs`, `ingest/o1js_vk.rs` — o1js proof and
    verification-key envelopes: base64 payloads and the wrap-index
    commitments of a key.
  - `serialize.rs` — the verifier blob shipped into the zkVM guest:
    length-prefixed little-endian sections of 72-byte point records (the
    Vesta SRS, the wrap SRS and its blinder, and the wrap SRS's Lagrange
    basis for the wrap key's domain, so verification never recomputes it)
    and the encoded wrap verifier index; decoding gives back what encoding
    wrote.
  - `batch.rs` — the transcript and `blake2s` seed of the batched opening
    check's random combination; the transcript determines the proofs and
    public inputs it was built from.
  - `fetch.rs` — what a daemon's GraphQL response must hold for a fixture,
    the proof's base64 variants, network endpoints.
  - `hex.rs`, `encoding.rs`, `types.rs`, `text.rs` — hex limbs and
    big-endian hex field elements, base64 through the `base64` crate, the
    decoded proof values, message texts.
- `tests/` — tests of the library.
- `app/` — the fixture-fetching program, the serde forms of the JSON
  envelopes, and the code that needs the Pasta curve, kimchi, Poseidon and
  SP1 crates (field and curve construction, the verifier stages, the zkVM
  host and guest).

## Field elements

A field element is carried as its 32 little-endian bytes, exactly as the
wire gives it. `field.rs` decides whether such bytes spell an element of
the step or the wrap field (their integer is below the modulus); the
bin_prot readings, the limb readings of the S-expression form and the
verification-key commitments refuse a value that does not. Building field
and curve values from the bytes happens in `app/` with the curve library.
