# winrm

The core of a Windows Remote Management client, verified with Verus: PowerShell
Remoting Protocol framing, NTLM message sealing and the exchanges that set it
up, host sanitizing, authentication routing and retries.

- `src/psrp/` holds messages, fragments and their reassembly, CLIXML, and a run
  of one PowerShell script as a state machine.
- `src/ntlm/` holds RC4, sealed sessions, the multipart framing of sealed
  bodies, and one authentication as a state machine.
- `src/transport/` holds endpoints, client settings, the choice of an
  authentication method, sealed exchanges over a cached session, and retries.
- `src/error.rs`, `src/codec.rs`, `src/text.rs`, `src/search.rs`,
  `src/base64_text.rs` and `src/uuid.rs` hold what these share.
- `app/` does what touches the network: HTTP, TLS, timers and locks.
- `tests/` runs the library on concrete values.

Each module states its contracts over mathematical views. The modules whose
names end in `laws` state what holds across functions: that a reassembler gives
back what was split, that a peer reads what was sealed, that only a 401 counts
as rejected credentials.

What the proofs take for granted about other crates and `std` is written down
where it is used, in functions marked `external_body` and in
`assume_specification` items.
