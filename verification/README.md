# tauri-plugin-vsk-journal

Journal entries for the VasakOS applications, signed with each application's name,
in systemd-journald's native protocol, with the protocol's logic proved in Verus.

- `src/diario.rs`: the layer, the level, field names, cutting messages, encoding a
  field (short or long form), the datagram, the fields of an entry.
- `src/protocolo.rs`: how the journal reads a datagram, and the proofs that it reads
  back exactly the fields written and that no message can choose the identifier.
- `src/lib.rs`: identifiers, the journal of an application (`Diario`).
- `src/panico.rs`: the entry a panic leaves.
- `src/codificacion.rs`, `src/decimal.rs`: bytes of a text, decimal numbers.
- `app/`: the Tauri plugin: socket, `stderr`, panic hook, commands.
