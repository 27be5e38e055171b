# nub_script

A runtime for SCRIPT blocks: Lua scripts that read named data blocks, patch
texts line by line and answer with a response made of commits.

- `src/` is the verified library (Verus): the data block store, the
  line-oriented `TextPatcher`, the commit and response model, the byte-string
  operations of the script's `string` library, and the decisions of the
  evaluation loop. Each public function states its result in `ensures`; the
  laws (splicing patches in order, round trips, read after write) are proof
  functions beside the code they are about.
- `app/` runs scripts in a Lua VM (piccolo) whose callbacks call the library,
  and holds the error types with their messages.
- `tests/` exercises the library on concrete inputs.
