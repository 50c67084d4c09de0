# oxideav_adpcm

ADPCM audio, decoded and encoded, with proofs checked by Verus.

| Codec id         | What it is                                   |
|------------------|----------------------------------------------|
| `adpcm_ms`       | Microsoft ADPCM                              |
| `adpcm_ima_wav`  | IMA ADPCM in WAV blocks, four and three bits |
| `adpcm_ima_qt`   | IMA ADPCM in QuickTime blocks                |
| `adpcm_yamaha`   | Yamaha ADPCM-B                               |
| `adpcm_yamaha_a` | Yamaha ADPCM-A                               |
| `adpcm_dialogic` | OKI / Dialogic VOX                           |
| `adpcm_g726`     | ITU-T G.726; as a stream decoded only        |

## Layout

`src/` is the library. Every function states what it returns over mathematical
values, and no verified function panics.

- Sample recurrences and packets: `ms`, `ima_wav`, `ima_qt`, `yamaha`,
  `yamaha_a`, `dialogic`, `g726`, `g711`, with their constants in `tables`.
- Block encoders: `encoder`, which searches for the closest code, and `ladder`,
  which takes codes from a ladder of thresholds. `three_bit` does both for
  three-bit IMA. `ima_layout` holds the bytes of IMA blocks.
- Streams: `params`, `options` and `config` read what a container says;
  `decoder`, `frame_encoder`, `stream_encoder` and `encoders` keep the state
  between packets and frames. `variant` tells the codecs apart.
- What holds of the codecs as wholes: `round_trip`, `stream_laws`, `tandem`,
  `timeline`, and the public proof functions at the end of other modules.
- Helpers: `arith`, `words`, `bits`, `interleave`, `lanes`, `pcm`, `text`.

`app/` puts the library behind the decoder and encoder traits of `oxideav_core`
and enters it in a codec registry.

`tests/` runs the library on values.

## What is proved

- A decoder that is fed what an encoder wrote walks through the encoder's own
  states, for every codec, block by block and packet by packet.
- At no place of a block that a search encoder wrote would another code decode
  closer.
- The header extension that an encoder tells, under its WAV format tag, tells the
  decoder where its blocks end.
- How a stream is cut into packets, or samples into frames, makes no difference.
- The channels of a packet are decoded as if each were alone, and the blocks of
  a packet as if they came one by one.
- Packet number `k` of a block encoder is stamped with `k` times the samples per
  channel of a block, whenever packets are taken, and the end of a stream leaves
  no sample behind.
- Every input gives a result or one stated error.
- A G.726 stage behind another, started in the same state, sends the same codes
  and puts out the same log-PCM words.
