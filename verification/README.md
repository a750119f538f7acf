# flowmaid_web

The verified core of WebAssembly bindings for the flowmaid diagram engine.

- `src/` — the library, verified with Verus:
  - `json.rs`: JSON string escaping, with a JSON string decoder and the
    proof that decoding undoes the escaping;
  - `json_value.rs`: JSON values, their compact text and a JSON parser,
    with the proof that the parser reads every value back from its text;
  - `scene.rs`: the geometry of a laid-out swimlane diagram and its JSON
    serialisation, proved to parse as the expected JSON object;
  - `diagram.rs`: rendering entry points, the node keys of draggable
    diagrams and the check that guards a routed render;
  - `lockfile.rs`: the engine version read from `Cargo.lock` text;
  - `text.rs`: decimal and hexadecimal digits, string helpers;
  - `engine.rs`: the calls into flowmaid, as trusted items.
- `app/` — the `wasm_bindgen` exports: the JavaScript boundary and the
  work on `f64` coordinates.
- `tests/` — tests of the library against the real engine.
