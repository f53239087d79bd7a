//! Decoder for video-based point-cloud bitstreams: unit framing, parameter-set
//! activation, patch-list decoding and the reconstruction of point clouds.
pub mod bitreader;
pub mod geometry;
pub mod reconstruct;
pub mod patches;
pub mod container;
pub mod units;
pub mod context;
pub mod pass;

use vstd::prelude::*;
use std::path::PathBuf;
use crossbeam_channel::{Receiver, Sender};
pub use crate::geometry::PointSet3;

verus! {

#[verifier::external_type_specification]
#[verifier::external_body]
pub struct ExPathBuf(std::path::PathBuf);

#[verifier::external_type_specification]
#[verifier::external_body]
#[verifier::reject_recursive_types(T)]
pub struct ExSender<T>(crossbeam_channel::Sender<T>);

#[verifier::external_type_specification]
#[verifier::external_body]
#[verifier::reject_recursive_types(T)]
pub struct ExReceiver<T>(crossbeam_channel::Receiver<T>);

/// Relies on std's PathBuf::new: an empty path.
pub assume_specification[ std::path::PathBuf::new ]() -> std::path::PathBuf;

/// Relies on std's Clone for PathBuf: the copy is the same path.
pub assume_specification[ <std::path::PathBuf as std::clone::Clone>::clone ](
    p: &std::path::PathBuf,
) -> (r: std::path::PathBuf)
    ensures
        r == *p,
;

/// The bound that a frame channel was made with.
pub uninterp spec fn channel_bound(rx: Receiver<PointSet3>) -> nat;

/// Relies on crossbeam_channel::bounded: a channel that holds at most `cap`
/// frames, whose send blocks while it is full. A capacity of zero or one too large
/// to allocate would make it a rendezvous channel or panic, so both are left out.
#[verifier::external_body]
fn bounded_channel(cap: usize) -> (r: (Sender<PointSet3>, Receiver<PointSet3>))
    requires
        1 <= cap <= 64,
    ensures
        channel_bound(r.1) == cap,
{
    crossbeam_channel::bounded(cap)
}

/// Relies on crossbeam_channel::Sender::send: fails when every receiver is gone.
#[verifier::external_body]
fn send(tx: &Sender<PointSet3>, frame: PointSet3) -> bool {
    tx.send(frame).is_ok()
}

/// Relies on crossbeam_channel::Receiver::recv: blocks until a frame arrives, or
/// fails once the channel is empty and every sender is gone.
#[verifier::external_body]
fn receive(rx: &Receiver<PointSet3>) -> Option<PointSet3> {
    rx.recv().ok()
}

/// Where the bitstream comes from.
#[derive(Debug, Clone)]
pub enum BitstreamSource {
    File(PathBuf),
    Memory(Vec<u8>),
}

impl Default for BitstreamSource {
    fn default() -> (r: Self)
        ensures
            r matches BitstreamSource::Memory(v) && v@.len() == 0,
    {
        BitstreamSource::Memory(Vec::new())
    }
}

/// Options chosen before decoding starts. The optional reconstruction passes have
/// switches of their own, which stay off: only the baseline reconstruction is
/// carried out.
#[derive(Debug, Clone)]
pub struct Params {
    pub source: BitstreamSource,
    pub compressed_stream_path: PathBuf,
    pub video_decoder_path: Option<PathBuf>,
    pub keep_intermediate_files: bool,
    pub patch_color_subsampling: bool,
    pub color_space_conversion_path: Option<PathBuf>,
    pub inverse_color_space_conversion_config: Option<PathBuf>,
    pub reconstruction: ReconstructionSwitches,
}

/// Switches of the optional reconstruction passes. Only the baseline, with every
/// pass off, can be made.
#[derive(Debug, Clone)]
pub struct ReconstructionSwitches {
    pixel_deinterleaving_type: bool,
    point_local_reconstruction_type: bool,
    reconstruction_eom_type: bool,
    duplicated_point_removal_type: bool,
    reconstruct_raw_type: bool,
    apply_geo_smoothing_type: bool,
    apply_attr_smoothing_type: bool,
    attr_transfer_filter_type: bool,
    apply_occupancy_synthesis_type: bool,
}

impl ReconstructionSwitches {
    pub closed spec fn is_baseline(&self) -> bool {
        !self.pixel_deinterleaving_type
            && !self.point_local_reconstruction_type
            && !self.reconstruction_eom_type
            && !self.duplicated_point_removal_type
            && !self.reconstruct_raw_type
            && !self.apply_geo_smoothing_type
            && !self.apply_attr_smoothing_type
            && !self.attr_transfer_filter_type
            && !self.apply_occupancy_synthesis_type
    }

    pub fn baseline() -> (r: Self)
        ensures
            r.is_baseline(),
    {
        ReconstructionSwitches {
            pixel_deinterleaving_type: false,
            point_local_reconstruction_type: false,
            reconstruction_eom_type: false,
            duplicated_point_removal_type: false,
            reconstruct_raw_type: false,
            apply_geo_smoothing_type: false,
            apply_attr_smoothing_type: false,
            attr_transfer_filter_type: false,
            apply_occupancy_synthesis_type: false,
        }
    }
}

impl Params {
    /// Every optional reconstruction pass is off.
    pub open spec fn is_baseline(&self) -> bool {
        self.reconstruction.is_baseline()
    }

    fn with_source(source: BitstreamSource, compressed_stream_path: PathBuf) -> (r: Self)
        ensures
            r.source == source,
            r.compressed_stream_path == compressed_stream_path,
            r.video_decoder_path is None,
            !r.keep_intermediate_files,
            !r.patch_color_subsampling,
            r.color_space_conversion_path is None,
            r.inverse_color_space_conversion_config is None,
            r.is_baseline(),
    {
        Params {
            source,
            compressed_stream_path,
            video_decoder_path: None,
            keep_intermediate_files: false,
            patch_color_subsampling: false,
            color_space_conversion_path: None,
            inverse_color_space_conversion_config: None,
            reconstruction: ReconstructionSwitches::baseline(),
        }
    }

    /// Options for a stream at `compressed_stream_path`, everything else at its default.
    pub fn new(compressed_stream_path: PathBuf) -> (r: Self)
        ensures
            r.source == BitstreamSource::File(compressed_stream_path),
            r.compressed_stream_path == compressed_stream_path,
            r.video_decoder_path is None,
            !r.keep_intermediate_files,
            !r.patch_color_subsampling,
            r.color_space_conversion_path is None,
            r.inverse_color_space_conversion_config is None,
            r.is_baseline(),
    {
        let file = compressed_stream_path.clone();
        Params::with_source(BitstreamSource::File(file), compressed_stream_path)
    }
}

/// Frames per channel: the worker gets at most one frame ahead of the consumer.
pub const FRAME_SLOTS: usize = 1;

/// The sending side of a decoder's frame channel. Only whole, well-formed frames
/// go through it.
pub struct FrameSink {
    tx: Sender<PointSet3>,
}

impl FrameSink {
    /// Hands a frame to the consumer, waiting while the slot is taken. Returns false
    /// when the consumer is gone: the worker should then stop.
    pub fn publish(&self, frame: PointSet3) -> (r: bool)
        requires
            frame.wf(),
    {
        send(&self.tx, frame)
    }
}

/// A decoder: created, started once, then read frame by frame until the stream ends.
pub struct Decoder {
    params: Params,
    tx: Option<Sender<PointSet3>>,
    rx: Receiver<PointSet3>,
}

impl Decoder {
    pub closed spec fn spec_params(&self) -> Params {
        self.params
    }

    /// Whether the decoder has not been started yet.
    pub closed spec fn is_fresh(&self) -> bool {
        self.tx is Some
    }

    /// How many finished frames the channel holds at most.
    pub closed spec fn slots(&self) -> nat {
        channel_bound(self.rx)
    }

    pub fn new(params: Params) -> (r: Self)
        ensures
            r.is_fresh(),
            r.spec_params() == params,
            r.slots() == FRAME_SLOTS,
    {
        let (tx, rx) = bounded_channel(FRAME_SLOTS);
        Decoder { params, tx: Some(tx), rx }
    }

    /// A decoder over a bitstream held in memory, every other option at its default.
    pub fn from_memory(data: Vec<u8>) -> (r: Self)
        ensures
            r.is_fresh(),
            r.slots() == FRAME_SLOTS,
            r.spec_params().source == BitstreamSource::Memory(data),
            r.spec_params().video_decoder_path is None,
            !r.spec_params().keep_intermediate_files,
            !r.spec_params().patch_color_subsampling,
            r.spec_params().color_space_conversion_path is None,
            r.spec_params().inverse_color_space_conversion_config is None,
            r.spec_params().is_baseline(),
    {
        let params = Params::with_source(BitstreamSource::Memory(data), PathBuf::new());
        Decoder::new(params)
    }

    pub fn params(&self) -> (r: &Params)
        ensures
            *r == self.spec_params(),
    {
        &self.params
    }

    pub fn is_started(&self) -> (r: bool)
        ensures
            r == !self.is_fresh(),
    {
        self.tx.is_none()
    }

    /// Moves the decoder from created to running and hands out the sending side of
    /// its frame channel, for the worker that decodes. A decoder is started once:
    /// starting it again is a caller's fault, left out here.
    pub fn start(&mut self) -> (r: FrameSink)
        requires
            old(self).is_fresh(),
        ensures
            !final(self).is_fresh(),
            final(self).spec_params() == old(self).spec_params(),
            final(self).slots() == old(self).slots(),
    {
        let tx = self.tx.take().unwrap();
        FrameSink { tx }
    }

    /// Blocks until the next frame arrives; `None` once the worker has finished and
    /// every frame was taken. A returned frame is whole: one color per position when
    /// it has colors, none otherwise.
    pub fn recv_frame(&self) -> (r: Option<PointSet3>)
        requires
            !self.is_fresh(),
        ensures
            r matches Some(f) ==> f.wf(),
    {
        match receive(&self.rx) {
            Some(f) => {
                if f.is_wf() {
                    Some(f)
                } else {
                    None
                }
            },
            None => None,
        }
    }
}

} // verus!
