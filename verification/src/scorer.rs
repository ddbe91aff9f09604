//! Validated construction parameters for the speech scorer.
//!
//! The probability model itself is an opaque external collaborator; what the
//! library owns is the decision which sample rates it may be built for, and
//! the rejection of unsupported ones at construction time.

use vstd::prelude::*;

use crate::config::Config;
use crate::error::VadError;

verus! {

/// The sample rates the speech scorer was trained for.
#[derive(Clone, Copy, Debug, PartialEq, Eq, Structural)]
pub enum SampleRate {
    /// 8000 samples per second.
    EightkHz,
    /// 16000 samples per second.
    SixteenkHz,
}

/// The checked parameters a speech scorer is built from: a supported sample
/// rate and the path of the model to load.
pub struct Silero {
    /// The validated sample rate.
    pub sample_rate: SampleRate,
    /// Where the scorer's model lives.
    pub model_path: String,
}

/// Maps the configured sample rate to the scorer's rate, rejecting any rate
/// the scorer was not trained for instead of aborting.
pub fn get_silero(config: &Config, model_path: &str) -> (r: Result<Silero, VadError>)
    ensures
        config.sample_rate == 8000 ==> (r matches Ok(s) && s.sample_rate is EightkHz
            && s.model_path@ == model_path@),
        config.sample_rate == 16000 ==> (r matches Ok(s) && s.sample_rate is SixteenkHz
            && s.model_path@ == model_path@),
        config.sample_rate != 8000 && config.sample_rate != 16000 ==> r == Err::<
            Silero,
            VadError,
        >(VadError::Configuration),
{
    let sample_rate = match config.sample_rate {
        8000u32 => SampleRate::EightkHz,
        16000u32 => SampleRate::SixteenkHz,
        _ => {
            return Err(VadError::Configuration);
        },
    };
    Ok(Silero { sample_rate, model_path: model_path.to_owned() })
}

} // verus!
