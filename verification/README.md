# ft8

FT8 and FT4 messages, verified with Verus: packing and unpacking, checksum,
error-correcting code, sync search and soft demodulation over a spectrogram.

- `src/` is the library. Every function has a contract, and what holds of several
  functions together is stated in `law_*` proof functions beside them.
- `app/` is what works on samples and decibels around it: the Fourier transform
  (by `rustfft`), the message passing of belief propagation, the signal-to-noise
  ratio and the modulator.
- `tests/` runs the library on concrete messages, spectrograms and waveforms.

## Modules

| module | what it holds |
| --- | --- |
| `text` | character tables, fixed-capacity strings, decimal fields |
| `message`, `callsign`, `grid`, `standard`, `free_text` | the 77-bit payload and its fields |
| `standard_laws` | what comes back of a standard message |
| `crc`, `ldpc` | checksum and LDPC(174,91) code |
| `ldpc_laws`, `ldpc_unique` | the code's tables agree; valid words are exactly the encoded ones; a wrong bit fails three checks |
| `tones` | the channel symbols of a payload |
| `decode`, `candidates` | the spectrogram, the sync score and the search for the best starts |
| `soft_bits`, `recover`, `listing` | from a start to soft bits, from a corrected codeword to a message, and the list of a slot |
| `snr` | the levels that a signal-to-noise ratio is estimated from |
| `monitor` | the spectrogram of a slot as it is collected |
| `bits`, `constants` | bit strings as numbers, protocol parameters |

## What is not rendered

Contest and nonstandard-callsign message types are identified by
`Message::message_type` but have no text of their own, and hashed callsigns show as
`<...>` unless a `CallsignHash` knows them.

The only function whose contract is taken on trust is the wrapper of
`core::str::from_utf8` in `text`.
