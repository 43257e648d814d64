# sparql_results

Readers and writers for the two SPARQL 1.1/1.2 query result formats,
SPARQL Results JSON (SRJ) and SPARQL Results XML (SRX), verified with Verus.

- `src/srj/`: the JSON tokenizer, the streaming SRJ parser as a state
  machine fed one token at a time, the whole-document parser, the byte
  serializer and the proof that parsing written bytes gives the result back.
- `src/srx/`: the XML events the parser reads, the streaming SRX parser as a
  state machine fed one event at a time, the serializer, the canonical form,
  and the proof that parsing the events of a written document gives the
  result back.
- `src/types.rs`: terms, rows, results and base directions.
- `app/`: the asynchronous readers, writers and sinks around the verified
  state machines, and the error type with its messages.
