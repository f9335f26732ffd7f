//! The errors of the library, as the interface names them.

use vstd::prelude::*;

verus! {

/// Why a command was refused.
#[derive(Debug)]
pub enum AppError {
    /// No image has been loaded yet.
    NoImageLoaded,
    /// No processed image is there to play.
    NoProcessedImage,
    /// There is no synthesizer with this id.
    SynthNotFound { id: u32 },
    /// The command asks for a paused synthesizer, and this one is playing.
    SynthIsPlaying { id: u32 },
    /// The given order does not list every synthesizer exactly once.
    SynthOrderMismatch,
    /// There are three color channels, 0 to 2.
    InvalidChannelIndex,
    /// The file dialog was closed without a choice.
    NoFileSelected,
    /// The chosen file has no path on this machine.
    InvalidFilePath,
    /// The image could not be opened.
    ImageLoadError { details: String },
    /// The image could not be encoded as PNG.
    PngEncodingError { details: String },
    /// The session file could not be read.
    SessionReadError { details: String },
    /// The session file could not be written.
    SessionWriteError { details: String },
    /// The session file is not one.
    SessionParseError { details: String },
}

impl AppError {
    /// The identifier of the error, which the interface turns into a message.
    pub open spec fn code_spec(self) -> Seq<char> {
        match self {
            AppError::NoImageLoaded => "no_image_loaded"@,
            AppError::NoProcessedImage => "no_processed_image"@,
            AppError::SynthNotFound { .. } => "synth_not_found"@,
            AppError::SynthIsPlaying { .. } => "synth_is_playing"@,
            AppError::SynthOrderMismatch => "synth_order_mismatch"@,
            AppError::InvalidChannelIndex => "invalid_channel_index"@,
            AppError::NoFileSelected => "no_file_selected"@,
            AppError::InvalidFilePath => "invalid_file_path"@,
            AppError::ImageLoadError { .. } => "image_load_error"@,
            AppError::PngEncodingError { .. } => "png_encoding_error"@,
            AppError::SessionReadError { .. } => "session_read_error"@,
            AppError::SessionWriteError { .. } => "session_write_error"@,
            AppError::SessionParseError { .. } => "session_parse_error"@,
        }
    }

    /// The identifier of the error, which the interface turns into a message.
    pub fn code(&self) -> (code: &'static str)
        ensures
            code@ == self.code_spec(),
    {
        match self {
            AppError::NoImageLoaded => "no_image_loaded",
            AppError::NoProcessedImage => "no_processed_image",
            AppError::SynthNotFound { .. } => "synth_not_found",
            AppError::SynthIsPlaying { .. } => "synth_is_playing",
            AppError::SynthOrderMismatch => "synth_order_mismatch",
            AppError::InvalidChannelIndex => "invalid_channel_index",
            AppError::NoFileSelected => "no_file_selected",
            AppError::InvalidFilePath => "invalid_file_path",
            AppError::ImageLoadError { .. } => "image_load_error",
            AppError::PngEncodingError { .. } => "png_encoding_error",
            AppError::SessionReadError { .. } => "session_read_error",
            AppError::SessionWriteError { .. } => "session_write_error",
            AppError::SessionParseError { .. } => "session_parse_error",
        }
    }
}

/// The error of a command on a synthesizer that does not exist.
pub fn synth_not_found(id: u32) -> (error: AppError)
    ensures
        error == (AppError::SynthNotFound { id }),
{
    AppError::SynthNotFound { id }
}

} // verus!
