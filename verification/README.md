# pw_api

The logic of a PipeWire control service, verified with Verus: parsers of what
`pw-cli`, `pw-link` and `wpctl` print, link rules and their application, the
rule scheduler's decisions, the shared API state, the auto-save of module
settings, which objects carry a volume and under what name, the SpeakerEQ
and RIAA parameter helpers and the DOT graph of the audio topology.

- `src/` — the verified library (one module per concern; `text` holds the
  character-level helpers the parsers share).
- `tests/` — tests of the library on concrete inputs.
- `app/` — the `pipewire-api` program: command-line arguments, running the
  PipeWire tools, configuration files, the REST API and the scheduler loop.
