# selune

A registry of AI providers and the models they serve, written in Verus.

- `src/` is the verified library:
  - `types` — the data model (providers, models, limits, costs) and model
    codes (`org/model` or `org/model:variant`) with their parser, builder and
    rendering; the laws that rendering and parsing undo each other.
  - `model_code` — a permissive model-code reader (letters, digits, `-`, `_`)
    and writer, with its round-trip laws.
  - `json` — JSON values as plain data with JSON's equality, for the
    provider-specific model options.
  - `ident` — the identifier shapes (kebab-case ids, model ids).
  - `text` — facts about strings: counting, first occurrence, splitting once.
  - `client` — what the catalog client computes: the base URL it keeps, the
    providers endpoint, and how it judges a reply's status.
- `app/` holds the I/O around it: the JSON shape of the catalog (serde), the
  HTTP client (reqwest), and loading provider configs.
- `tests/` exercises the library on concrete values.

Costs and sampling parameters are kept in the library as the bit patterns of
their `f64` values, and compare as those `f64` values do (NaN equals
nothing, `0.0` equals `-0.0`); the JSON layer converts.
