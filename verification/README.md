# Hush

A sound-card modem. A client connects to `127.0.0.1:53421` and sends one JSON
object per line; each request is answered with one line.

| `cmd`          | fields                                                             |
|----------------|--------------------------------------------------------------------|
| `list_devices` |                                                                    |
| `list_modes`   |                                                                    |
| `open`         | `input`, `output` (places in the list of devices), `sr`            |
| `close`        |                                                                    |
| `status`       |                                                                    |
| `start_tx`     | `tone_freq`                                                        |
| `stop_tx`      |                                                                    |
| `enqueue_wav`  | `path`                                                             |
| `send_frame`   | `mode` (`mfsk` or `dpsk`), `speed` (a preset), `mfsk_m`, `mfsk_center`, `mfsk_spacing`, `symbol_len_ms`, `preamble_repeats`, `payload_bits` |

`src/` is the verified library: frames and symbols, queues, the receiver's
decisions, requests and their answers. Each public function states what it does
in its contract, and the `law_` proof functions state what holds of several of
them together. Frequencies, samples, energies and confidences pass through it as
the bit patterns of single-precision numbers; nothing in it calculates with them.

`app/` is the program around it: sockets, files, sound devices, and the signal
processing in floating point.
