# marrow_run

The verified core of the Marrow runtime: the parts of running a Marrow
program that are plain computation, each with a contract that Verus proves.

- `src/` is the library. Every module is Verus code:
  - text and numbers: `strbuf`, `numeral`, `text`, `preview`, `hex`, `percent`, `math`;
  - time: `temporal` (durations, RFC-3339 instants, calendar dates), `calendar`
    (the date of a day number and its canonical spelling), `clock`;
  - data formats: `csv`, `json`, `matrix`, `digest` (`std::hash`, `std::random`, `std::id`);
  - runtime values and schema: `sequence`, `schema` (saved-path
    classification, key guards, enum ranges, `next`/`prev` targets),
    `identity` (identity constructors), `range` and `direction` (range loops);
  - host and sessions: `host`, `output`, `session`;
  - surface reads: `surface` (planning a collection read against its index,
    validating page requests, cutting pages, the materialization budget).
- `tests/` runs the library on concrete inputs.
- `app/` holds what Verus does not see: the operating-system clock and entropy,
  the process environment, and the serde visitor that walks a JSON text,
  counting through the library's `json::JsonLimits` and refusing repeated keys.

Outside code is reached only through the trusted items in `strbuf`, `text`,
`digest` and `json` (std's `String` and `char` methods, `sha2`, `serde_json`),
each with a doc comment saying what its contract claims.
