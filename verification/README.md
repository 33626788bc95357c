# eggplan

Evidence-gated plans: plans whose items close only on observations that
trusted providers made about an exact subject revision, with an append-only
evidence ledger, sealed closure records, Markdown import and render, and a
bridge from CodeGG work plans.

## Layout

- `src/` is the verified library. Every function in it carries a contract
  that Verus proves: the plan model and its lifecycle, evidence and its
  digests, assessment, closure, the ledger rules of the store, the CLI's
  decisions, Markdown, the CodeGG bridge and the provider adapters. Calls
  into `sha2` and `uuid` stand behind small trusted wrappers in
  `digest.rs` and `identity.rs`.
- `tests/` exercises the library on concrete values.
- `app/` is the command-line program: argument routing, the file store,
  git, and serde, calling the library for every decision.
