# super-radio

A receiver for software radios. It shows a spectrum and a waterfall, plays one
channel, and decodes sensors that key a carrier on and off.

## Layout

- `src/` is the library. Verus proves what its functions promise. Two promises
  are taken on trust, both of the standard library: how a text is quoted
  (`text::quoted`) and that the clone of a range is the range.
  - `common`: frequencies, rates, devices, sample formats and buffers.
  - `gain`: sharing a requested gain out over the stages of a tuner.
  - `dsp`: pulses and packages, level following, framing of a filter bank and of
    a spectrum, symbols of the radio data system, two-level slicing.
  - `decode`: bit buffers, protocols and the sensors that are understood.
  - `pipeline`: ports, parameters, settings, events and the registry of stages.
  - `nodes`: the stages, chains of them, and a bank of chains, one per channel.
  - `front`: everything that the window shows and does, as plain values.
  - `fixed`, `text`, `sort`: exact numbers, their texts, and ordering.
- `app/` is the program: the window, the radios, and the arithmetic on samples,
  which is in floating point.
- `tests/` runs the library on concrete values.

## Numbers

The library holds no floating point. A quantity is a whole number of millionths,
`fixed::Micro`. Envelopes and basebands reach it as counts.

## Running it

The radios are driven through the tools that come with them: `rtl_sdr` and
`rtl_eeprom`, or `hackrf_transfer` and `hackrf_info`. Audio goes to `aplay`.

    super-radio                    the window
    super-radio --probe 95.8       report the spectrum without a window
    super-radio --bench-audio      time the audio chains
    super-radio --soak 12          measure the processor time of a run
    super-radio --shot out.png     save a picture of the window
