# logos

Verified core logic of the LogOS kernel and its user-space services,
written in Verus.

- `src/` is the library. Every function there carries a `requires` /
  `ensures` contract that Verus proves: ACPI and AML table parsing, boot
  resource selection, the kernel's capability table, audit and debug
  logs, the terminal, the display and its rasterizer, the line editor,
  the session service, the user
  catalog with its snapshot format, the storage namespace with its
  snapshots and transactions, the package catalog and its install
  policy, the storage request answers, and the planning of writes into
  file extents.
- The laws that span several calls are public proof functions beside the
  functions they speak of (for instance `catalog_laws.rs`,
  `lemma_snapshot_round_trip`, `lemma_read_your_writes`,
  `lemma_grant_persists`, `lemma_ring_keeps_last_lines`).
- The traits the library's users implement, `EntropySource` and
  `UserCatalogStore`, state what each call does over a record of the
  calls made (`fills`, `loads`, `saves`) and the snapshot kept
  (`kept`), which an implementation defines for itself.
- Not here: the durable layer under the storage namespace (the block
  store, the copy-on-write volume, the journal and the request handler
  over them), and the device drivers. The namespace, its snapshots and
  transactions, and the decisions of the request handler are in `src/`;
  the blocks they are read from and written to are not.
- `tests/` runs the library on concrete values.
- `app/` is the firmware entry point around it: it reads the ACPI tables,
  the display mode and the memory map through UEFI and hands them to the
  library. Verus does not see it.

The only outside call in the library is Argon2id password hashing, made
through one wrapper in `src/user.rs` whose contract states when the
`argon2` crate succeeds and names the digest it returns.
