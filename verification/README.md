# aris_subset

A service that embeds subsets of the fonts an ASS/SSA subtitle uses into the
subtitle, and takes them out again.

- `src/` is the library. It holds everything the service decides: reading and
  rewriting subtitles, reading fonts, choosing faces, cache keys and eviction,
  the index, scans, jobs, backups, sessions and the rules of the web interface.
  Every function has a contract that Verus proves. The few calls that leave the
  library (hashes, regular expressions, password checks, random numbers, times)
  stand behind small functions whose contracts are stated above them.
- `app/` is the program around it: the web server, the database, the files, and
  the worker processes that cut fonts. It asks the library what to do next, does
  it, and reports how it went.
- `tests/` runs the library on concrete values.

Proof functions named `law_*` state what holds of the library as a whole, for
example that a file that is given subset fonts and stripped of them again is the
file with each name replaced by the original name of its font
(`ass::restore_laws`), and the file itself where it names its fonts so
(`ass::undo_laws`), that five failed logins lock a client out (`auth`), or that
a file is replaced only after its backup was made (`processor::steps`).
