# vaco_codec_h264

A verified core of an H.264 decoder: it turns the bits of a slice into
macroblocks, predicts and filters samples, keeps the reference pictures, and
puts finished pictures into display order.

* `src/` is the library. Everything in it is verified: each executable function
  states what it computes over a mathematical model of its data, and the `law_`
  proof functions state what holds across functions. The overview at the top of
  `src/lib.rs` lists the modules.
* `tests/` runs the library on concrete values.
* `app/` is ordinary Rust around it: the packet loop, the threads, and the seams
  for the parser, the arithmetic decoding engine and the sample store.

What a stream may use: I, P and B slices of 4:2:0 frames, one slice per picture,
short-term references, spatial direct prediction, both entropy codings; the
larger transform and raw samples with arithmetic coding only. Everything else is
refused with an error that names the cause.
