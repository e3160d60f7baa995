# fractalaw_taxa

Classification of UK legislative provisions: who must do what (duties,
rights, responsibilities, powers), the purpose of each provision, the
actors it names, the law-level applicability tree a law's fitness mentions
compile to, and the Making / Not-Making pre-filter.  The logic is written in
Verus and proved against its contracts.

## Layout

- `src/` — the verified library.
  - Text and matching: `text`, `rx` (regular expressions through the `regex`
    crate), `text_cleaner`, `labelset`, `order`.
  - Provision analysis: `purpose`, `popimar`, `fitness`, `actors`,
    `duty_patterns`, `duty_patterns_v2`, `duty_patterns_offence`,
    `duty_patterns_rule`, `signals`, `decision`, `duty_type`,
    `clause_refiner`, `clause_structure`, `confidence`, `taxa`, `pipeline`.
  - Law level: `law_drrp`, `amendment`, `application`, `applicability`,
    `applicability_compile`, `correlatives`, `making`, `training`,
    `drrp_prompt`, `hdr`.
  - Storage: `lance_sql` reads the guest's SQL on the `legislation_text`
    table into what the vector store is asked (filter, row window, answer
    shape; update assignments and filter).
  - Proofs about normal forms and compiled trees: `normal_form`,
    `compile_laws`.
- `tests/` — tests of the library.
- `app/` — ordinary Rust around the library: serde forms of its types, the
  YAML and JSON files it reads, and the floating-point parts (confidence
  fractions, law significance, the Making composite score, silver-label
  ratios, SIPmath metalog arithmetic).

## Units

The library counts in integers where the numbers are exact: text offsets
are in characters (the storage SQL is cut at byte offsets, as string
slicing does), pattern confidences in billionths, clause and signal
confidences in hundredths.  `app/` turns them into `f32`/`f64` fractions.

## Inputs

The actor dictionary and the correlative rules are data files; the library
takes them as values (`actors::compile_dictionary`,
`correlatives::apply_rules`), and `app/` parses the files.
