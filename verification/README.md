# tydi

Typed streams over hardware interfaces: the Tydi logical and physical
stream types, the Streamlet Definition File grammar, the design structures
built from streamlets (libraries, projects, structural implementations) and
the hardware descriptions generated from them (VHDL, Chisel, dot graphs).

The functions of the library are verified with Verus against contracts
stated over mathematical models (`Seq`, `Map`-like entry lists, `nat`).
The trusted boundary is small: a few `#[verifier::external_body]` wrappers,
each making one call into `indexmap`, `petgraph` or std (`String::push`,
`char::is_alphanumeric`), whose contracts are taken from those crates'
sources and documentation, together with the `uninterp` spec functions that
name what those maps and graphs hold. Everything else is proved.

## Layout

- `src/` — the verified library.
  - `name`, `text`, `scan`, `util`, `error`: names, character helpers, the
    scanning primitives of the grammars, `log2_ceil`, error values.
  - `phys`, `physical`, `river`: physical streams, their signal maps, and
    river (streamspace) types.
  - `logical`: logical stream types, their signal fields, equality and
    compatibility.
  - `decimal`: the numbers that decimal literals denote, so that
    throughputs compare by value.
  - `split`: a logical stream type split into the signals that stay with
    its parent and the streams it gives rise to.
  - `sdf`, `data`: the Streamlet Definition File grammar, data types, river
    types and streamlet interface definitions, each as a function on text
    with its grammar stated as spec functions.
  - `design`, `refs`, `store`, `library`, `structural`, `graph`: interfaces,
    streamlets, references, named type stores, libraries, projects,
    structural implementations and instance graphs.
  - `hdl`, `vhdl`, `chisel`, `packages`, `dot`: the common hardware
    representation and the text each back-end declares for it.
- `tests/` — tests of the library.
- `app/` — the command-line program: reads files, builds a project and
  writes the generated graphs.
