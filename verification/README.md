# Rune TypeChecker

Static validation of Rune scripts against contracts in doc-comments, before a
script is saved:

```rune
/// @param sender: Sender
/// @return Status::Solved | Status::Continue
fn handler(sender) {
    let shout = sender.name().to_uppercasee();  // no such method
    Status::Solved
}
```

`validate_script` tells

- whether the function honors its contract at every return site, also at the
  early returns of `?`,
- whether each helper that it reaches does,
- whether the methods that it calls exist, where the host describes their
  types,
- whether the contract is the one that the host expects.

## Layout

- `src/`: the library, written in Verus. Each function has a contract, and the
  contracts are proved.
  - `doc_comment`: the notation of types, signatures and annotations.
  - `syntax`, `rune_ast`: syntax trees, and how they are built from those of
    the Rune parser.
  - `ast_analyzer`: return sites and doc-comments.
  - `static_checker`: return sites against the declared type.
  - `signature_registry`, `method_checker`: what can be called, and whether
    called methods exist.
  - `validation`: whole scripts.
  - `types`, `report`: what goes in and what comes out.
  - `text`, `source_text`, `number`, `name_map`: texts, numbers and maps.
  - `laws`: what holds of all inputs, such as that a printed type is read back,
    or that a script is valid exactly if nothing it reaches has a violation.
- `tests/`: tests that run against the Rune parser.
- `app/`: ordinary Rust around the library: `std::error::Error`, `Display`, and
  the macros `contract!` and `methods!`.

What is not proved is stated where it is used: `rune_ast` states what the Rune
parser gives, and `text` what the standard library says of characters.
