//! The engine of Wysiwyl: turns the pixels of an image into MIDI notes.

pub mod clock;
pub mod clock_laws;
pub mod conductor;
pub mod config;
pub mod error;
pub mod image_laws;
pub mod image_processing;
pub mod levels;
pub mod metronome;
pub mod metronome_laws;
pub mod midi;
pub mod midi_laws;
pub mod number;
pub mod number_laws;
pub mod pitch;
pub mod pitch_laws;
pub mod playback;
pub mod playback_laws;
pub mod raster;
pub mod rhythm;
pub mod rhythm_laws;
pub mod sequence;
pub mod sequence_laws;
pub mod session;
pub mod session_laws;
pub mod state;
pub mod synth;
pub mod synth_laws;
pub mod text;
pub mod velocity;
pub mod zone;
