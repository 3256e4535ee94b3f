//! What happens to audio between the network and the sound card.

pub mod channels;
pub mod gain;
pub mod level;
pub mod pcm;
pub mod pipeline;
pub mod ring;
pub mod sequencer;
