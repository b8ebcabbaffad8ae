# unidecim

A cheap sample-and-hold decimator effect for Unity's native audio plugin
interface, with its logic verified.

- `src/` is the verified library:
  - `interface`: result codes of plugin callbacks, checks of the host's
    callback arguments, zero-padded name fields, flag bits.
  - `effect_state`: the layout of the host's 80-byte per-instance state block,
    the C structure with pointer-aligned fields in the machine's byte order
    (field decoding, and storing the effect's data address).
  - `decimator`: the sample latch that holds input frames on the decimator's
    schedule, and the decimator's state with its division-rate parameter.
- `app/` is the plugin around it: the C-layout structures, the `extern "C"`
  callbacks and entry point, and the decimator's floating-point clock that
  decides at which frames the latch takes a new input frame.
- `tests/` runs the library on concrete inputs.
