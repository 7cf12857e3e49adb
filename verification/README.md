# vm_effects

What a virtual machine's packages declare, judged and read back.

A package publishes, for each method, a signature: the state it reaches and
how, the conditions it puts on a call, the claims it mints and the supply it
touches. This library decides which declarations publish, prices what a
transaction declares, hashes and admits the intents that compose one, and
renders all of it for a person to read. The functions are executable Rust
with contracts that Verus proves.

Three wrappers, none of them public, are trusted instead, each around one
call of the standard library: `share` in `src/cache.rs` (`Arc::clone`), and `utf8_text`
and `quoted` in `src/text.rs` (`core::str::from_utf8`, and what `str`'s
`Debug` writes). The contract of the `Hasher` trait is the embedder's to
meet.

- `src/publish/` judges signatures and packages. `laws.rs` states what holds
  of everything it accepts.
- `src/explain/` renders packages, records, requirements and refusals.
- `src/cache.rs` and `src/instance.rs` keep judged packages and verified
  records.
- `src/graph.rs`, `src/intent.rs` and `src/tree.rs` hold compositions, and
  their identities.
- `src/footprint.rs` prices a declaration.
- `src/dsl.rs`, `src/rule.rs`, `src/resource.rs`, `src/signature.rs` and
  their neighbours are the vocabulary.
- `app/` puts the library's refusals into sentences.

Encodings, address derivations and the hash function belong to the embedder:
they arrive as arguments, or through the `Hasher` trait.
