# legendary

A launcher for Epic Games Store titles whose core is verified with Verus.

- `src/` is the verified library: decoding of binary manifests and chunks,
  install planning (which files and chunks to fetch, where chunk bytes go),
  cloud-save packing and reassembly, launch planning (executable search,
  arguments, environment, Wine/Proton runner), the Wine registry edits for the
  EOS overlay, the record of installed titles, and the window state of the
  launcher. Each public function carries a contract; laws that span several
  calls are public proof functions (`law_*`).
- `app/` is a command-line front end: files, network, child processes and
  serialization live there; it walks directories and reads files, and hands
  what it found to the library to decide on.
- `tests/` runs the library on concrete values.
