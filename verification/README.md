# mat5

A library for writing numeric arrays to level 5 MAT-files (`.mat`), verified
with Verus: every byte that the writers produce is given by a specification.

* `src/bytes.rs` – little-endian encoding, tags and 64 bit padding.
* `src/num.rs` – the element types (`Num`) and their MATLAB identifiers;
  single and double precision values are held by their bit patterns
  (`F32Bits`, `F64Bits`).
* `src/utils.rs` – the file header, the array name and dimension elements.
* `src/array.rs` – `NdArray`, a one to four dimensional array in row-major
  order, and the column-major order in which a file lists its elements.
* `src/container.rs` – `Container`: a vector as a named one-dimensional
  matrix element, an array as a named matrix element with its shape.
* `src/parse.rs` – reading a file's header and first array back.
* `src/derive.rs` – what `#[derive(MatFile)]` generates for a struct: the
  impl header and the body (the procedural macro that would parse the
  struct and emit these tokens is not part of this crate).
* `src/laws.rs` – reading back a written dimensions, name or flags element,
  or a written file, gives back what was written: the array or
  vector, and its array flags.
* `app/` – writing to `std::io::Write`, arrays from `ndarray`, reading from
  disk, and the Octave test runner.
