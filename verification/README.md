# vac_integrity

A server-side integrity checker for game clients: a host issues scan
challenges, daemons and clients answer with sealed scan reports
(Kyber-768 + AES-256-GCM, optionally signed with Dilithium3), and the host
scores the findings and decides on warnings, kicks or bans.

The library under `src/` is written in Verus. Every function there carries a
contract, and the properties the system relies on (wire formats read back
what was written, sealing and opening agree, the score only escalates, a
token store reads back what was stored, and so on) are stated as proof
functions next to the code they are about.  The cryptographic primitives are
called, not reimplemented, so the sealing law holds under what those
primitives are relied on to do: the Kyber secret key decapsulates the
ciphertext to the shared secret it was sealed under, AES-GCM decrypts its own
output, and a signed payload's signature verifies under the matching public
key; it is stated for module ids whose top bit (the unsigned marker) is clear.

Layout:

- `src/` — the verified library: wire protocol, sealing, hashing and
  ciphers (CRC-32, MD5, ICE, the VAC hash), scan-report builders for each
  module, `/proc` and configuration parsers, scoring policy, the listener's
  registry and the token store.
- `tests/` — tests run against the compiled library.
- `app/` — the unverified shell around it: file and socket I/O, the kernel
  module's ioctl calls, the listener and daemon loops, and the C entry points.
