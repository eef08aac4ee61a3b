# jesse_rust

Native kernels of the Jesse trading framework's technical indicators, with
every price comparison they make verified in Verus.

The indicators are floating-point recurrences. What the library in `src/`
states and proves is the part of each kernel that decides by comparing
prices, on integer keys that order exactly as the prices do:

- `keys`: the key of a float from its IEEE 754 bit pattern, and the proof
  that keys compare as the floats do (NaN has no key and compares false).
- `window`: the rolling-maximum and rolling-minimum deques (Donchian,
  Williams' %R, Choppiness, Chandelier exit), the first-extreme scans of the
  Aroon oscillator and of FRAMA, and the proof that in a window free of NaN
  the deque's front is the window's extreme.
- `candle`: the jumped-candle fix plan and the high/low rows of a block of
  one-minute candles as numpy's reductions pick them.
- `counts`: the number of present values in each window of the SMA.
- `pairwise`: the order in which numpy's pairwise sum adds a block (the
  merged candle's volume), with proofs that its blocks tile the input and
  that its stack program is balanced.
- `vlma`: the period walk of the variable-length moving average.
- `rsx`: the warm-up counter of RSX.
- `source`: the price an indicator reads, chosen by name.

`app/` is the PyO3 extension module around the library: it turns numpy
arrays into keys, calls the library for each decision, and computes the
floating-point values itself.
