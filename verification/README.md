# gst-plugins

GStreamer elements for live media ingest, captioning and speech recognition,
with what they decide written and proved in [Verus].

| Element | Decisions | Purpose |
| --- | --- | --- |
| `flvsubinject` | `src/subinject.rs` | Inject sparse timed or replacement captions into a muxed FLV stream |
| `flvsubmux` | `src/submux.rs` | Aggregate a muxed FLV stream with a text timeline that covers it |
| `transcribecpptranscriber` | `src/transcriber.rs`, `src/worker.rs`, `src/vad.rs`, `src/detector.rs`, `src/commit.rs`, `src/plan.rs` | Speech-to-text backed by transcribe.cpp |
| `scufflertmplistensrc` | `src/rtmp.rs` | Accept an RTMP publisher and expose its FLV stream |

`src/` holds no I/O: it takes plain values (timestamps in nanoseconds, bytes,
texts, the bits of samples) and gives plain values back. Each function says in
its contract what it returns, and the laws that span functions stand beside them
as public proof functions. `app/` holds the elements themselves: pads,
properties, threads and sockets. It tests the conditions that a function of the
library asks for before it calls it.

What is believed rather than proved is marked in the source: the voice detector
(`earshot`), the cast of bytes to samples (`byte_slice_cast`), and the few
functions of the standard library that have no contract of their own.

[Verus]: https://github.com/verus-lang/verus
