# comtrade

A reader of COMTRADE (IEEE C37.111) disturbance records, verified with Verus.

A record is a `.cfg` configuration file and a `.dat` sample file (ASCII,
16-bit or 32-bit binary, or single-precision floating point), with optional
`.hdr` and `.inf` text files, or all of them in one `.cff` file.

## Layout

- `src/` is the verified library. Every parsing step has a contract that
  states its result as a specification over the characters or bytes it reads:
  - `text.rs`: trimming, splitting, decimal integers, floating-point literal
    syntax, UTF-8 decoding;
  - `error.rs`: the error type and its messages;
  - `codes.rs`: file types, data formats, scaling modes, time quality and
    leap second codes;
  - `cfg/`: the `.cfg` file, line by line (`record.rs` reads the whole file);
  - `time.rs`: time offsets and the time basis of each sample;
  - `dat.rs`: the ASCII and binary sample layouts;
  - `cff.rs`: the sections of a `.cff` file;
  - `parser.rs`: the parser of a whole record.

  Floating-point values are kept as the literals that denote them (checked
  against the grammar that `str::parse` accepts), and binary single-precision
  values by their bits; the time of a sample is given by its basis (a sampling
  rate or a stored timestamp).
- `app/` reads the files, and does the floating-point arithmetic: scaled
  analog values, sample times, skew, primary and secondary values.
- `tests/` runs the library on concrete records.
