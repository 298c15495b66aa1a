//! The voice-activity detector, and what it was asked.
//!
//! How a frame scores depends on every frame before it, so a detector comes with
//! a record of all that it was handed since it was new or last reset. Only asking
//! and resetting change the record.
use crate::vad::FRAME;
use byte_slice_cast::{AsByteSlice, AsSliceOf};
use earshot::Detector;
use vstd::prelude::*;

verus! {

/// `earshot::Detector`, held and never looked into.
#[verifier::external_type_specification]
#[verifier::external_body]
#[verifier::reject_recursive_types(P)]
pub struct ExDetector<P>(Detector<P>);

/// `earshot::DefaultPredictor`, the model inside the detector, never looked into.
#[verifier::external_type_specification]
#[verifier::external_body]
pub struct ExDefaultPredictor(earshot::DefaultPredictor);

/// A detector with the frames that it was handed, oldest first, and what it
/// scored each.
pub struct Ear {
    detector: Box<Detector>,
    heard: Ghost<Seq<(Seq<u32>, u32)>>,
}

impl View for Ear {
    type V = Seq<(Seq<u32>, u32)>;

    closed spec fn view(&self) -> Seq<(Seq<u32>, u32)> {
        self.heard@
    }
}

impl Ear {
    /// `earshot::Detector::default_boxed`: a detector that has heard nothing. The
    /// state inside it is left unsaid.
    #[verifier::external_body]
    pub(crate) fn new() -> (ear: Self)
        ensures
            ear@ == Seq::<(Seq<u32>, u32)>::empty(),
    {
        Ear { detector: Detector::default_boxed(), heard: Ghost(Seq::empty()) }
    }

    /// `earshot::Detector::reset`: nothing of what the detector has heard counts
    /// any more. The state inside it is left unsaid.
    #[verifier::external_body]
    pub(crate) fn reset(&mut self)
        ensures
            final(self)@ == Seq::<(Seq<u32>, u32)>::empty(),
    {
        self.detector.reset();
    }

    /// `earshot::Detector::predict_f32` on one frame; the score comes back as its
    /// bits, and the samples are handed over as theirs, through
    /// `byte_slice_cast::AsByteSlice::as_byte_slice` and
    /// `byte_slice_cast::AsSliceOf::as_slice_of`.
    ///
    /// The detector has heard this frame after everything else, and scored it
    /// between zero and one. Which score it is is left unsaid: it is the outcome
    /// of floating-point arithmetic over everything that the detector has heard.
    #[verifier::external_body]
    pub(crate) fn predict(&mut self, frame: &Vec<u32>) -> (score: u32)
        requires
            frame@.len() == FRAME,
            crate::vad::all_in_unit_range(frame@),
        ensures
            crate::vad::is_score(score),
            final(self)@ == old(self)@.push((frame@, score)),
    {
        let bytes = frame.as_slice().as_byte_slice();
        self.detector.predict_f32(bytes.as_slice_of().unwrap()).to_bits()
    }
}

} // verus!
