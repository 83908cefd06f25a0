//! Which encoder a configuration calls for.

use vstd::prelude::*;
use vstd::string::*;

use crate::error::CrabError;
use crate::stream::config::{StreamConfig, StreamFormat, StreamProtocol};

verus! {

/// Pick the encoder of a configuration. Shoutcast carries MP3 only, which is
/// said before any connection is made.
pub fn build_encoder(config: &StreamConfig) -> (r: Result<StreamFormat, CrabError>)
    ensures
        match r {
            Ok(f) => f == config.format && (config.protocol == StreamProtocol::Icecast
                || config.format == StreamFormat::Mp3),
            Err(CrabError::Audio(m)) => config.protocol != StreamProtocol::Icecast && config.format
                != StreamFormat::Mp3 && m@
                == "Shoutcast output supports MP3 only — switch Format to MP3 (or Protocol to Icecast for Opus)"@,
            Err(_) => false,
        },
{
    if config.protocol.is_shoutcast() && config.format != StreamFormat::Mp3 {
        return Err(
            CrabError::Audio(
                String::from_str(
                    "Shoutcast output supports MP3 only — switch Format to MP3 (or Protocol to Icecast for Opus)",
                ),
            ),
        );
    }
    Ok(config.format)
}

} // verus!
