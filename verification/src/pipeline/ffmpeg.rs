//! Audio extraction with ffmpeg: its command line and how its exit is judged.
use vstd::prelude::*;

use crate::config::FfmpegConfig;
use crate::error::SubsForgeError;
use crate::text::{dec, decimal_string, string_views};

verus! {

/// The arguments ffmpeg is run with to turn `input` into 16 kHz mono 16-bit
/// PCM WAV at `output`, choosing the configured audio track when it is not the first.
pub open spec fn ffmpeg_args_spec(config: FfmpegConfig, input: Seq<char>, output: Seq<char>) -> Seq<
    Seq<char>,
> {
    seq![
        "-i"@,
        input,
        "-vn"@,
        "-ar"@,
        "16000"@,
        "-ac"@,
        "1"@,
        "-c:a"@,
        "pcm_s16le"@,
    ] + (if config.audio_track > 0 {
        seq!["-map"@, "0:a:"@ + dec(config.audio_track as nat)]
    } else {
        Seq::empty()
    }) + seq!["-y"@, "-loglevel"@, "error"@, output]
}

/// The command-line arguments for extracting the audio of `input` into `output`.
pub fn ffmpeg_args(config: &FfmpegConfig, input: &str, output: &str) -> (r: Vec<String>)
    ensures
        string_views(r@) == ffmpeg_args_spec(*config, input@, output@),
{
    let mut args: Vec<String> = Vec::new();
    args.push(String::from_str("-i"));
    args.push(String::from_str(input));
    args.push(String::from_str("-vn"));
    args.push(String::from_str("-ar"));
    args.push(String::from_str("16000"));
    args.push(String::from_str("-ac"));
    args.push(String::from_str("1"));
    args.push(String::from_str("-c:a"));
    args.push(String::from_str("pcm_s16le"));
    if config.audio_track > 0 {
        args.push(String::from_str("-map"));
        let mut track = String::from_str("0:a:");
        let n = decimal_string(config.audio_track as u64);
        track.append(n.as_str());
        args.push(track);
    }
    args.push(String::from_str("-y"));
    args.push(String::from_str("-loglevel"));
    args.push(String::from_str("error"));
    args.push(String::from_str(output));
    assert(string_views(args@) =~= ffmpeg_args_spec(*config, input@, output@));
    args
}

/// How a finished ffmpeg run is judged: success, or its diagnostics as the error.
pub fn extraction_result(success: bool, stderr: &str) -> (r: Result<(), SubsForgeError>)
    ensures
        success ==> r is Ok,
        !success ==> (r matches Err(e) && e matches SubsForgeError::Ffmpeg(m) && m@ == stderr@),
{
    if success {
        Ok(())
    } else {
        Err(SubsForgeError::Ffmpeg(String::from_str(stderr)))
    }
}

} // verus!
