# abi_stable (version numbers and channel errors), verified

A Verus library with two parts:

- `version`: `VersionStrings` (a version as three texts), `VersionNumber`
  (as three `u32`s) and `InvalidVersionString`. Reading the texts into
  numbers, cargo's semver compatibility between two versions, and the texts
  that `Display` writes, each with an exact contract; the laws of
  compatibility (reflexive, transitive, same major, patch ignored from
  `1.0.0` on) and the round trip from a version's text back to it are
  proved there.
- `external_types::flume`: the error types of channel operations as plain
  data, with their messages.

Supporting modules: `decimal` reads and writes decimal `u32`s as std does,
`digit_runs` picks the digits that a patch number is read from, through
`core_extensions`' `split_while` (the one trusted item).

`app/` holds what Verus does not see: conversions to and from `flume`'s
error types, `Display`/`Debug`/`Error` through the library's texts, and the
`package_version_strings!` macro. `tests/` runs the library.
