//! The sample format of a WAVE recording, as the command relay codes it.
use vstd::prelude::*;

verus! {

/// The WAVE header's format code of integer PCM samples.
pub const WAV_FORMAT_PCM: u16 = 1;

/// The WAVE header's format code of IEEE floating-point samples.
pub const WAV_FORMAT_IEEE_FLOAT: u16 = 3;

/// Only uncompressed samples, integer or floating-point, can be sent.
pub open spec fn format_supported(audio_format: u16) -> bool {
    audio_format == WAV_FORMAT_PCM || audio_format == WAV_FORMAT_IEEE_FLOAT
}

/// Whether samples in `audio_format` can be sent.
pub fn is_supported_format(audio_format: u16) -> (r: bool)
    ensures
        r == format_supported(audio_format),
{
    audio_format == WAV_FORMAT_PCM || audio_format == WAV_FORMAT_IEEE_FLOAT
}

/// The relay's code of a sample format: 8, 16 and 24-bit integer samples
/// are 2, 4 and 8, 32-bit floating-point samples are 16, and anything else
/// is 0.
pub open spec fn format_code(audio_format: u16, bits_per_sample: u16) -> i32 {
    if audio_format == WAV_FORMAT_PCM {
        if bits_per_sample == 8 {
            2
        } else if bits_per_sample == 16 {
            4
        } else if bits_per_sample == 24 {
            8
        } else {
            0
        }
    } else if audio_format == WAV_FORMAT_IEEE_FLOAT && bits_per_sample == 32 {
        16
    } else {
        0
    }
}

/// The relay's code of the sample format a WAVE header describes.
pub fn convert_format(audio_format: u16, bits_per_sample: u16) -> (r: i32)
    ensures
        r == format_code(audio_format, bits_per_sample),
{
    if audio_format == WAV_FORMAT_PCM {
        if bits_per_sample == 8 {
            2
        } else if bits_per_sample == 16 {
            4
        } else if bits_per_sample == 24 {
            8
        } else {
            0
        }
    } else if audio_format == WAV_FORMAT_IEEE_FLOAT && bits_per_sample == 32 {
        16
    } else {
        0
    }
}

} // verus!
