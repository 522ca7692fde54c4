//! The connector as a pipeline sees it.
use std::sync::Arc;
use vstd::prelude::*;

use crate::config::{share, S2InputConfig};
use crate::error::S2Error;
use crate::metadata::Metadata;
use crate::reader::{ReaderState, S2InputReader};

verus! {

/// How often a record reaches the pipeline when the pipeline fails and resumes.
#[derive(Debug, Clone, Copy, PartialEq, Eq)]
pub enum FtModel {
    AtLeastOnce,
    ExactlyOnce,
}

/// An input endpoint that reads from an S2 stream.
pub struct S2InputEndpoint {
    config: Arc<S2InputConfig>,
}

/// Where a reader starts: at the end of what was saved, or else where the configuration says.
pub open spec fn start_position(
    config: S2InputConfig,
    resume_info: Option<Result<Metadata, String>>,
) -> u64 {
    match resume_info {
        Some(Ok(metadata)) => metadata.seq_numbers.end,
        _ => config.start_seq_num,
    }
}

impl S2InputEndpoint {
    /// The configuration of the endpoint.
    pub closed spec fn config(self) -> S2InputConfig {
        *self.config
    }

    /// An endpoint with the given configuration. There is no configuration that it refuses.
    pub fn new(config: S2InputConfig) -> (res: Result<Self, S2Error>)
        ensures
            res matches Ok(endpoint) && endpoint.config() == config,
    {
        Ok(Self { config: Arc::new(config) })
    }

    /// Every record reaches the pipeline exactly once.
    pub fn fault_tolerance(&self) -> (res: Option<FtModel>)
        ensures
            res == Some(FtModel::ExactlyOnce),
    {
        Some(FtModel::ExactlyOnce)
    }

    /// Opens a reader that goes on where `resume_info`, the saved position, ends. Without one it
    /// starts where the configuration says; one that could not be decoded is an error.
    pub fn open(&self, resume_info: Option<Result<Metadata, String>>) -> (res: Result<
        S2InputReader,
        S2Error,
    >)
        ensures
            match resume_info {
                Some(Err(error)) => res == Err::<S2InputReader, S2Error>(
                    S2Error::ResumeInfo { error },
                ),
                _ => res matches Ok(reader) && reader@ == (ReaderState {
                    config: self.config(),
                    next_seq_num: start_position(self.config(), resume_info),
                    replayed: Seq::empty(),
                }),
            },
    {
        match Metadata::from_resume_info(resume_info, self.config.start_seq_num) {
            Ok(resume_info) => Ok(S2InputReader::new(share(&self.config), resume_info)),
            Err(error) => Err(error),
        }
    }
}

/// A reader goes on where the saved range ends, wherever that range starts and whatever the
/// configuration says. Only without a saved range does the configuration decide.
pub proof fn law_start_position(config: S2InputConfig, saved: Metadata)
    ensures
        start_position(config, Some(Ok::<Metadata, String>(saved))) == saved.seq_numbers.end,
        start_position(config, None) == config.start_seq_num,
{
}

} // verus!
