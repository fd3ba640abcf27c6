# kaonic

The logic of a mesh gateway for Kaonic radios, written in Rust and verified with
Verus: the VPN over the mesh, the installer of plugins, the settings, the
interface of the gateway, and the bridge to ATAK.

## Layout

- `src/` is the library. Verus verifies all of it but the calls named below under
  "Outside code".
  - `vpn/`: networks and routes, peers and their links, the runtime that ties
    them together, and what is shown of it.
  - `plugins/`: manifests, packages, the books on installed plugins,
    installation and how it is undone, discovery, the start of the installer, the
    state of services.
  - `settings*.rs`: the settings, how they are stored and how they are shown.
  - `api/`, `http/`: what the gateway answers.
  - `radio*.rs`, `frames.rs`, `reticulum.rs`, `atak.rs`: the radio, its frames,
    the log of the mesh, and the bridge.
  - `system_metrics.rs`, `services.rs`, `mavlink.rs`, `update.rs`, `startup.rs`,
    `dashboard.rs`: the system around the gateway.
  - `text.rs`, `text_set.rs`, `order.rs`, `paths.rs`, `utf8.rs`, `digest.rs`:
    texts, orders, paths and digests.
- `tests/` runs the library.
- `app/` holds the programs: it reads, writes, sends and serves, and leaves the
  decisions to the library. A device adds its drivers by an implementation of
  `Platform` (`app/platform.rs`).
- `extras/assets/` holds the styles and scripts of the pages.

## Outside code

Some functions of the library call outside crates: `cidr`, `crc32fast`,
`etherparse`, `hex`, `mime_guess`, `rand`, `serde_json`, `sha2` and `zip`. Each
such call stands in a small function of its own, and the comment above it says
what is believed of the call. Four things of the standard library are believed in
the same way: reading UTF-8 (`std::str::from_utf8`), reading it with replacements
(`String::from_utf8_lossy`), the `Debug` text of an optional string, and
`String::push`.
