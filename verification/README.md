# core_nft

The bookkeeping of an ICRC-7/ICRC-37 NFT collection on the Internet
Computer, written in Verus: every function of `src/` carries a contract that
Verus proves.

## Layout

- `src/` — the verified library.
  - `public_content`, `public_links`, `public_queries`, `public_laws`: public
    files uploaded in chunks, the cache they wait in, and the indexes between
    stored files and the tokens that use them.
  - `private_content`, `access`, `private_laws`: encrypted content, its
    readers and their rights, re-encryption.
  - `guards`: one management call at a time, rate limits, and who may read,
    write or derive a key for a token's content.
  - `management`, `collection`, `pagination`, `icrc7`, `ledger`, `state`,
    `metadata_store`, `content_queries`: validation of mints, appends and
    uploads, the collection's settings and metadata, the token ledger and
    the ICRC-7 queries over it, per-token metadata.
  - `fleet`, `storage_fleet`: upgrading the storage and archive canisters one
    after the other, and choosing the storage canister an upload goes to; the
    caller performs each call the library asks for and hands back its outcome.
  - `http`, `media`, `legacy`: routing of HTTP requests, media URLs, and the
    migration of files from the older internal file storage.
  - `keyed`, `text`, `principal`, `display`, `hashing`, `value`, `upload`:
    the maps, strings, principals, numbers and values the rest is built on.
- `tests/` — tests of the library on concrete values.
- `app/` — the canister-facing edge: conversions to and from candid types,
  stable-memory encodings, and the asynchronous calls (management canister,
  storage canisters, vetKD) that drive the library's decisions.
