# vyges_meas

Closed measurement kernels for analog characterization — coherent single-tone spectral metrics
(SNR, SINAD, THD, SFDR) and AC transfer metrics (gain, bandwidth, unity-gain frequency, phase
margin) — with their decisions proved in Verus.

## Layout

- `src/` — the verified library.
  - `alignment` — the claim ladder (`vyges-definition`, `candidate`, `reviewed`, `conformant`),
    what each application may claim, and the proofs that none reaches beyond `candidate`.
  - `spectral` — record-length and sample screening, harmonic folding and collision refusal, the
    choice of the worst spur, and the refusal sentences.
  - `transfer` — sweep validation, the peak, where each metric is read (and the refusal when
    its crossing lies outside the sweep), and frequency bracketing.
  - `job` — the line-oriented input formats: data lines, harmonic lists, time series and sweeps
    (given each field's reading as a bit pattern), and their messages.
  - `report` — argument lookup, JSON quoting, `report_path`, the tri-state `met` field, the
    verdict's severity, and the full JSON payloads and text reports, each with the claim its
    application supports.
  - `binary64` — comparisons of IEEE 754 binary64 values through their bit patterns.
  - `text` — character-level helpers with their specifications.
- `app/` — the command line: file I/O, the event trail, and the floating-point arithmetic (the
  DFT, the interpolation, the ratios in dB, reading and writing `f64` values) around the
  library's decisions.
- `tests/` — tests of the library.
