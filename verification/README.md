# Beacn Utility

A window, a command line and a small message protocol for Beacn microphones and mixers on Linux.
The library in `src/` decides; the program in `app/` draws, listens and talks to the devices.

- `text`, `scalar`, `natural`, `number`, `arithmetic`, `tenths`, `counts`: texts as sequences of
  characters, and 32 bit floating point numbers by their bit patterns, each with an exact meaning
  as a whole number of smallest steps. Order, rounding, arithmetic, printing and reading are proved
  against that meaning.
- `eq`, `messages`, `presets`, `profile`, `apo`, `sorting`: bands, settings, profiles, and the text
  format of Equalizer APO.
- `args`, `ipc`, `paths`, `icon`: the command line, the message protocol, the files, the icon.
- `devices`, `app`, `config`, `ports`, `mic_equaliser`: what is shown and what follows from what
  happens. Each takes an event and says what is to be done.
- `eq_drawer`, `curves`, `ballistics`, `spectrum`, `spectrum_frame`, `meter`: the picture of the
  equaliser, the spectrum and the meter.
- `*_laws`: what holds of several of these together; `order_laws` is about the order of numbers.

Logarithms, exponentials, cosines and the Fourier transform come in as arguments: the program
computes them. `tests/` runs the library on concrete values, the arithmetic against the machine's.
