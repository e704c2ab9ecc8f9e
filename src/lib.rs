//! Audio sample encodings and the stages that bring sources to one format:
//! sample-type, channel-count and sample-rate conversion, a saturating mixer
//! and a playback queue with transport controls.

pub mod channels;
pub mod converter;
pub mod mixer;
pub mod rate;
pub mod sample;
pub mod sink;

pub use channels::convert_channels;
pub use converter::DataConverter;
pub use mixer::Mixer;
pub use rate::convert_sample_rate;
pub use sample::Sample;
pub use sink::Sink;
