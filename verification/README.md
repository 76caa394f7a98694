# outlook_email

The verified core of a desktop mail client that manages Outlook (Microsoft
Graph) and IMAP accounts, temporary mailboxes, Markdown notes and exports.

- `src/` is the library, written in Verus: every rule the client applies —
  provider detection, account import parsing, search parsing, MIME and HTML
  text extraction, export formats (CSV, HTML, ZIP), the IMAP refresh state
  machine with its sequence-number fallback, schema upgrades, settings
  normalisation, encryption of stored secrets — is a function with a
  contract that Verus proves.  Calls into outside crates (chrono, mailparse,
  aes-gcm, argon2, base64, sha2, urlencoding, serde_json, uuid, rand) sit
  behind small trusted wrappers whose contracts say what those crates
  document.
- `app/` is ordinary Rust around the library: the SQLite store, network
  access over Graph, IMAP and SMTP, files on disk and the background
  scheduler.  It reads, sends and writes, and asks the library for every
  decision.
- `tests/` runs the library on concrete inputs.
