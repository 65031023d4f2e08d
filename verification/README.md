# k7z

An archive tool for 7z, zip, tar (plain, gzip, xz, zstd) and single-file zstd
streams, written in Verus.

- `src/` is the verified library: Unix path components and the joining of an
  entry's path under an output directory that never leaves it, format names
  and format detection from file names, the plans that decide how a request is
  packed or refused, the entry-by-entry decisions of unpacking, listing and
  checking archives held in memory, size and count bookkeeping, and the text
  of reports. Calls into the archive crates stand behind small trusted
  wrappers whose contracts say what is assumed of them.
- `app/` is the command line around it: argument parsing, the file system,
  streaming archives to and from disk, JSON and CSV report files, and the
  benchmark's timing.
- `tests/` runs the library on concrete inputs.
