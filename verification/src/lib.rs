//! What four GStreamer elements for live media decide, verified.
//!
//! * `flvsubinject` splices captions into a muxed FLV stream: [`subinject`].
//! * `flvsubmux` aggregates a muxed FLV stream with a text timeline that has to
//!   cover it: [`submux`].
//! * `transcribecpptranscriber` turns speech into timed text: [`transcriber`], with
//!   [`vad`] and its [`detector`] in front of the model, [`worker`] around it, [`commit`] behind it and
//!   [`plan`] in front of the source pad.
//! * `scufflertmplistensrc` relays what an RTMP publisher sends: [`rtmp`].
//!
//! The caption elements share [`caption`] and [`cue`] (which cue is on display
//! when), [`amf`] (the message that carries it) and [`flv`] (the tag around it),
//! on top of [`text`] and [`bytes`].
//!
//! Times are nanoseconds of running time unless a name says milliseconds. Audio
//! samples are the bit patterns of single-precision numbers.
use vstd::prelude::*;

pub mod amf;
pub mod bytes;
pub mod caption;
pub mod commit;
pub mod cue;
pub mod detector;
pub mod flv;
pub mod plan;
pub mod rtmp;
pub mod subinject;
pub mod submux;
pub mod text;
pub mod transcriber;
pub mod vad;
pub mod worker;

verus! {

} // verus!
