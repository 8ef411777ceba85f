# type_hierarchy

Type hierarchy navigation for a PHP language server, verified with Verus:
`textDocument/prepareTypeHierarchy`, `typeHierarchy/supertypes` and
`typeHierarchy/subtypes` over a workspace index of classes.

- `src/text.rs`: char views of strings, stripping leading backslashes,
  ASCII case-insensitive equality, and the lexicographic order of `str`.
- `src/item.rs`: hierarchy items and the `{"fqn": ...}` data payload.
- `src/workspace.rs`: the workspace index, class references, declared supertypes.
- `src/sort.rs`: the stable order of items by name, uri and position, with
  the proof that the stable sort is unique.
- `src/hierarchy.rs`: the three requests and their laws (supertypes are
  distinct by fully-qualified name and complete; subtypes come only from the
  files searched, and, with lookups that give one result per input, are
  determined by the files searched, so by the item's name alone).
- `app/lib.rs`: conversions to and from the LSP protocol types
  (`tower_lsp_server::ls_types`, `serde_json::Value`).

The requests take the document lookup and name resolution as functions,
so the library states what it does with whatever those return.
