# memscan

A scanner that finds a byte pattern in another process's memory and follows
a chain of pointers from the match.

- `src/` is the verified library (Verus):
  - `utils`: address formatting (`0x` and sixteen upper-case hex digits,
    proved to read back to the address) and the console texts;
  - `memory`: the process handle, the pattern bytes, which regions are
    scanned, and what a pattern match is (zero bytes after the first are
    wildcards);
  - `scan`: the region-by-region scan as a state machine that asks for
    region queries and reads and keeps the first matches up to a cap;
  - `process`: UTF-16 names and the matching of process and module entries;
  - `datamodel`: the search among scan results for the data model and the
    pointer walk from it.
- `app/` is the Windows program: it queries and reads process memory,
  walks tool-help snapshots, prints coloured output, and runs the state
  machines of the library.
