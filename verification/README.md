# Typsastra DOCX IR

A source-aware intermediate representation of paginated DOCX layout, with its
validation, resource limits, summaries and source-identity extraction written
in Verus and proved against their contracts.

## Layout

- `src/` is the verified library.
  - `model`, `v2::model`: the format-1 and format-2 layout models. Lengths are
    `Pt`, the bit pattern of an IEEE 754 `f32`; the checks that need no
    arithmetic (finite, non-negative, within `[0, 1]`, `<`) are decided on the
    bits.
  - `compatibility`: strict `major.minor` parsing and format dispatch.
  - `validation`, `v2::validation`: every semantic invariant, reported with
    JSON-style paths; each validator's result is stated exactly by a spec
    function of the document.
  - `limits`, `stats`, `v2::stats`: processing limits, the package budget and
    the JSON depth scanner.
  - `source_identity`, `paragraph_scan`, `xml`: OPC part names, structural
    paths and paragraph identities. XML is tokenized by `quick-xml`; what its
    reader returns is trusted and given names (`xml_event` and the reads of
    an element after it), so extraction is proved exact over the tokens that
    quick-xml reads from the given bytes, not over XML syntax itself.
  - `provenance`: source references carried through processing stages.
  - `canonical`: the canonical order of font records.
  - `summary`, `document`: summaries and documents of either version.
- `app/` is the `typsastra-docx-ir` command line tool: file reading, the
  `serde` wire model and JSON Schema, canonical JSON, and the few checks of
  format 2 that need `f32` arithmetic, which it answers for the validator
  (`v2::validation::ArithmeticQuery`).
- `tests/` exercises the library.
