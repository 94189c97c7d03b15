# pathfuzz

A coverage-guided fuzzer for REST APIs described by OpenAPI documents. The library under
`src/` is written in Verus: its functions carry `requires`/`ensures` contracts over
mathematical models (`Seq`, `Map`-like entry lists, a `Json` model of JSON values) and are
verified. The program under `app/` wires the library into a libafl fuzzing loop and does the
I/O: reading the document, sending HTTP requests, reading JaCoCo execution data.

Layout of the library:

- `text`, `string_map`, `json`: character-level text functions, an insertion-ordered map for
  headers and query parameters, and JSON values with parsing and printing through `serde_json`.
- `parser`: the OpenAPI model (endpoints, parameters, schemas) and reading it from a document.
- `generator`: seed requests per endpoint, and request sequences (create-then-use chains,
  full CRUD cycles, login-then-call pairs) with the extractions that carry ids and tokens.
- `fuzzer`: the request and sequence inputs, their mutations, the state carried between the
  requests of a sequence, and the decisions of single and sequence runs.
- `coverage`: coverage bitmaps from response headers (base64, hex, hit counts) and JaCoCo
  execution data, the coverage observer and the coverage feedback.
- `http_client`, `cli`: responses and URL encoding; command-line options.

Laws that span several functions are stated as `law_*` proof functions next to the code
they are about.
Each mutation that draws random numbers comes in two parts: an `apply_*` (or `put_*_at`)
function that takes the drawn values and whose contract fixes the result exactly, and the
random function that makes the draws in order and hands them over.
