# compressed_layout

A verified library for compressed, interned annotated Move type layouts.

An annotated layout tree (structs with their type tags and field names, enums
with their tagged variants, vectors and primitives) is stored as a pool of
nodes in which every distinct compound subtree, every field or variant name
and every struct tag is held once.  Primitives are encoded inline in a tagged
16-bit reference.  Views resolve one layer of a layout at a time; a layout can
be inflated back into the tree it came from.

Layout of the crate:

- `src/` is the library, verified with Verus:
  - `language_storage` and `annotated_value`: identifiers, struct and type
    tags, tree layouts, and the mathematical model (`LayoutV`) that both the
    tree and the compressed forms denote;
  - `variant_order`: the (name, tag) order of enum variants;
  - `layout`: references, the node pool, compressed layouts, views,
    inflation, type tags and the text of layouts;
  - `keys`, `builder`, `contents`: the builder that interns nodes, names and
    tags, and what a tree adds to its tables;
  - `display`: the text of type tags and layouts;
  - `gcp_attestation`, `signature_verify`: the GCP attestation natives of the
    older execution layers and the signature verification values.
- `tests/`: tests of the library.
- `app/`: the serde, async-graphql and thiserror copies of library types,
  `Display` adapters, and the Move VM plumbing of the attestation natives.
