# fish_net_radio

A tone-per-symbol radio modem. Each byte is sent as one tone in one of two
blocks of FFT bins; frames carry a preamble, a triply repeated length
header, destination and source addresses, the payload and a CRC-32.

`src/` is the verified library:

- `frame`, `mac`, `config`: frame layout and construction, MAC addresses,
  the configuration the framing needs.
- `parser`: taking received bytes apart as a frame (majority vote on the
  length header, CRC check, destination filtering) and delivering messages.
- `bins`, `tracker`: mapping FFT bins to symbols, finding the preamble in a
  window of spectrum peaks and following a frame until the signal drops.
- `demod`, `samples`, `text`, `debug`, `prng`, `types`: the smaller stages,
  sample packing, line handling and formatting, debug levels and the debug
  events each stage reports, noise source.
- `laws`: properties that relate several functions (frame round trip,
  length repair, MAC text round trip, sample packing round trips both ways,
  transmit bin to received symbol, a fully matched preamble window reading
  the preamble back, a frame handed back only after the required number of
  dropped rows in a row).

`app/` holds the program: configuration loading, ZeroMQ transport, the FFTs
and energy measurements (floating point), threads and the console.
