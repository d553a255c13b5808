# miden-project-assembly

Assembles the targets of Miden projects into packages, and keeps packages in a registry on the
local file system. The logic is a library that Verus verifies; reading and writing files, the
command line and the assembler itself stand around it.

## Layout

- `src/` is the verified library.
  - `assembler`, `assembly_model`, `assembly_laws`, `assembly_runs`, `assembly_records`: the course
    of an assembly, as a state machine whose steps are given by events and answered with actions,
    what holds of every step, what holds of whole runs, and what the packages of a run record.
  - `linking`: runtime dependencies and kernels.
  - `project`, `sources`, `source_hash`, `graph`, `closure`: targets and profiles, the modules of a
    target, and the digests that make up the provenance of a package.
  - `provenance`, `codec`: the provenance record of a package and its byte format.
  - `registry`, `registry_laws`, `index`, `cli`: the package registry, what holds of it and of the
    files that it writes, its index, and what its commands print.
  - `package`, `package_format`: packages, and the walk over the bytes of a package that decides
    whether they can be read.
  - `version`, `word`, `files`, `sorting`, `text`: the values all of this works on.
- `tests/` runs the library with the crates that it calls.
- `app/` is the `miden-registry` program, the registry on disk, and the loop that performs the
  actions of an assembly with an assembler and a package store.

## The registry

The index is `$MIDEN_SYSROOT/etc/registry/index.toml`, and the artifacts are
`$MIDEN_SYSROOT/lib/<digest>.masp`. A semantic version of a package maps to at most one artifact,
every dependency of a package has to be registered with its exact digest before the package is
published, and the index records those exact digests.

- `miden-registry publish <path>` publishes an assembled `.masp`.
- `miden-registry list` shows all the packages and versions.
- `miden-registry show <package> [--version <version>]` shows one version, by default the latest.
