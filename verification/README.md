# pdg

Pointer derivation graphs built from a log of run-time pointer events, with
the builder's behaviour stated and proved in Verus.

- `src/events.rs`: the events of the log and their text.
- `src/mir_loc.rs`: the metadata table that names each event's MIR location.
- `src/graph.rs`: graphs, nodes, and the table of last assignments.
- `src/builder.rs`: the builder (`add_node`, `construct_pdg`) and the model
  (`step`, `run`) that its contracts speak of.
- `src/laws.rs`: what every step keeps.
- `src/text.rs`: decimal and hexadecimal renderings.
- `app/`: reading event logs and metadata files (bincode), and the serialised
  forms of the library's types.
