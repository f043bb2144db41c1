# altium

The record-level core of a reader and writer for Altium Designer PCB
files, proved correct with Verus. Opening the compound files themselves,
and assembling whole documents from their streams, is not part of it.

`src/` is the verified library. Every function there carries a contract
that Verus checks:

- binary primitive records: decoding tracks, vias, arcs, fills, pads,
  regions, texts and component bodies into typed fields; encoding all but
  texts afresh and patching typed fields into a preserved copy, with laws
  that reading what was written gives it back and that writing what was
  read gives back the same bytes; a footprint's `Data` stream and a
  document's per-type primitive streams decoded record by record;
- parameter blocks (`|KEY=value|...`): the ordered, case-insensitive map,
  its byte encoding, the readers and writers of nets, rooms, rules,
  classes, differential pairs, polygons, components and embedded boards,
  and the merge of a sub-board's nets and side tables into its parent's;
- identity tables (the GUID and unique-ID tables written for, and read back onto, the
  records they name), layer stacks and colours, GUID text, default streams,
  library headers and section keys, pick-and-place rows (which components
  are placed and in what order) and SVG output.

Calls into `flate2` and into the parts of `std` that Verus does not
specify go through a few small trusted wrappers, each documented where it
is declared.

`app/` holds what cannot be verified: file and stream access, floating-point
geometry and number formatting (the writers take rotations and scales
already formatted), and the derives that serialisation needs.

`tests/` exercises the library on concrete values.
