# ssh-sync

An SSH client and its sync server. The server carries a user's SSH hosts, host passwords
and key passphrases from one device to the next; secrets are encrypted on the device, so
the server only ever stores ciphertext. The login password is hashed with Argon2id on the
device, too, and never leaves it.

- `src/` is the library: everything that both sides decide and compute, verified with
  [Verus](https://github.com/verus-lang/verus). Each module states what its functions do in
  their contracts and what holds of them together in proof functions named `law_...`.
- `tests/` runs the library.
- `app/` is the program around it: the HTTP server and its SQLite tables, the HTTP and SSH
  connections of the client, its files, and its Slint window.

## What is proved

- **Secrets** (`crypto`, `sync`): what is encrypted decrypts to the same text under the same
  key and label; a second device that logs in with the same password derives the same key
  and gets back every host and passphrase that was uploaded; a login sends the hash that the
  registration sent, and is accepted exactly by the hash of that.
- **Hosts** (`store`, `db`): the last write wins, on the server and in a merge; a merge loses
  no host and no passphrase and never goes back to an older version; deleting a host drops the passphrases that
  no host uses any more and no others.
- **Trust** (`known_hosts`, `ssh`): the first key of a host is recorded, the same key is
  accepted later and every other key refused; no shell is requested before the server has
  authenticated the user; every session comes to its end.
- **Terminal** (`screen`, `terminal`): whatever bytes arrive, the screen keeps its size with
  the cursor on it; rows that have scrolled off are never rewritten; how the bytes are cut
  into pieces makes no difference, and no bytes change nothing; colours and window titles leave no trace in the text.
- **Tokens** (`auth`, `json`): a token carries the claims that it was issued for; one that
  lacks a claim or says one twice is refused.
- **Client** (`model`, `app`, `ui`, `keys`, `i18n`, `placeholders`): the tab that is shown is one of those
  that run; rows of a filtered list lead to their hosts; no line feed is ever pasted; every
  message has a text with the same placeholders in every language.

Calls into other crates (Argon2, AES-GCM, base64, hexadecimal, JWT, JSON, URLs, time and
randomness) stand behind small functions whose contracts are trusted; their doc comments say
what is taken on trust.
