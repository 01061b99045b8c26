# MiniOS

An object store with a flat namespace. A server keeps all objects in one file, caches
them, and hands their data to clients through shared pages; clients talk to it over a
socket, browsers over HTTP.

`src/` is the library: what the server, its web interface and the client decide and
compute, with contracts that Verus proves.

- Storage: `superblock`, `metadata` and `bitmap` are the parts of the file, `storage` the
  operations on it, `image` what they make of the file's bytes. `storage_layout` says
  that everything keeps its place in the file, `storage_laws` what holds across
  operations: what is stored is read back, also after the store is opened again, and no
  operation touches another object. `storage_runs` says it of any series of operations.
- Cache: `cache_model` says what the three policies do, `policies` does it, `cache`
  counts hits, misses and evictions. `coherence` relates the cache to the store.
- Trials: `workload` makes accesses, `trials` runs the policies on them, `trial_laws`
  says what holds of every trial.
- Shared pages: `shm`.
- Protocol: `ipc` frames messages, `server` and `service` answer requests, `exchange`
  runs the exchanges that store and read an object, `transfer` is the client's side of
  them.
- Web interface: `http` and `forms` read requests, `dispatch` serves them with `web`,
  `web_search` and `web_trials`, `pages` holds the texts.
- Client: `client` and `client_texts`.
- The rest: `config`, `error`, `access_log`, `search`, `ids`, `clock`, `text`, `words`,
  `bytes`, `sizes`, `rates`.

`app/` is the program around it: arguments, files, sockets, threads, shared memory and
processes. `tests/` runs the library.
