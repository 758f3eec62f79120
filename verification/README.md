# TallyDB core

The in-memory core of TallyDB, an embeddable database for ordered numeric
data, as a library whose behaviour is stated in contracts and proved by Verus.

Every column is a number (a float or a 64-bit integer) or a key (a
dictionary-encoded label). The library holds the column format and the rules
at each of its boundaries:

- `bitmap`, `buffer`, `key`, `column`, `logical`, `schema`: validity bitmaps,
  shared buffers, interned dictionaries, columns and zero-copy views, and
  record batches bound to a schema.
- `cdata`: what a batch exports as through the Arrow C data interface, what an
  import accepts, and streams of batches. A batch that leaves comes back the
  same.
- `compute`: which shapes the linear-algebra backends accept, what their
  routines are handed, and what their replies mean.
- `lua`: how engine values and script values convert, what scripts may do with
  whole columns, how calls end, and how scripts drive the engine.
- `corpus`: reproducible test corpora.
- `float64`: floats as bit patterns, with exact conversions and IEEE order.
- `harness`: verdicts of the round-trip harness.

Floats are bit patterns throughout. What is computed on them stands in `app/`,
beside the C structs, the system's BLAS and LAPACK, faer's kernels, and the
embedded interpreter; the library says which operands meet, in which order,
and which results count.

Exports share the batch's memory: values, codes, validity and dictionary
strings are handed out, not copied. Buffers are aligned for their elements
only: the 64-byte alignment that Arrow recommends is not guaranteed, and a
consumer that needs it has to copy.

`src/` is the verified library, `tests/` its tests, `app/` the ordinary Rust
around it.
