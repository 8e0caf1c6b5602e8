# orix

The core of a package manager for npm packages with an isolated,
pnpm-style `node_modules` layout, written in Verus. The library's own
functions carry contracts that Verus proves; the few wrappers around outside
crates (see below) carry contracts that Verus believes without proof.

## Layout

- `src/` — the verified library.
  - Text and paths: `text`, `strs`, `paths`, `strmap` (a sorted string map).
  - Packages: `name`, `version`, `constraint`, `order`, `integrity`,
    `package`, `manifest`, `platform`, `peer`.
  - Registry and resolution: `registry` (packuments, version selection),
    `client` (retry and response decisions), `cache` (packument cache),
    `urls` (registry URLs),
    `resolve` (the resolver's state machine), `graph`.
  - Lockfiles: `lockfile`, `referenced`, `lockgraph`, `lockcopy`, `update`,
    `pnpm` (reading pnpm lockfiles).
  - Fetching and the store: `fetch` (hashes, tarball paths, entries),
    `fetchplan`, `store`, `patch` (parsing and applying `patch:` files),
    `patchshape` (the shape of patch text handed to the diff parser).
  - Linking: `link`, `linkplan`, `binplan`, `importplan`.
- `app/` — the I/O around the library: reading and writing files, HTTP,
  tarballs, the store on disk and the `node_modules` layout. It acts on the
  library's decisions; what it decides itself is how to read the disk and
  the network (which files exist, which error kind the OS reports) and the
  JSON and YAML conversions.
- `tests/` — tests of the library on concrete values.

Outside crates are called from the library through a few trusted wrappers
(hashing, base64, semver, URLs, unified diffs, constant-time comparison), each
documented where it is declared; what they return is believed, not proved.
