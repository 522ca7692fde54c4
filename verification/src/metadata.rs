//! The saved position of a reader.
use std::ops::Range;
use vstd::prelude::*;

use crate::error::S2Error;

verus! {

/// The sequence numbers of the records that one step of the pipeline took in.
#[derive(Debug, PartialEq, Eq)]
pub struct Metadata {
    pub seq_numbers: Range<u64>,
}

impl Metadata {
    /// The position to resume from: the saved one, where there is one and it could be decoded, or
    /// else no records at `default_start_seq_num`.
    pub fn from_resume_info(
        resume_info: Option<Result<Metadata, String>>,
        default_start_seq_num: u64,
    ) -> (res: Result<Metadata, S2Error>)
        ensures
            res == match resume_info {
                Some(Ok(metadata)) => Ok(metadata),
                Some(Err(error)) => Err(S2Error::ResumeInfo { error }),
                None => Ok(
                    (Metadata {
                        seq_numbers: Range {
                            start: default_start_seq_num,
                            end: default_start_seq_num,
                        },
                    }),
                ),
            },
    {
        match resume_info {
            Some(Ok(metadata)) => Ok(metadata),
            Some(Err(error)) => Err(S2Error::ResumeInfo { error }),
            None => Ok(Metadata { seq_numbers: default_start_seq_num..default_start_seq_num }),
        }
    }
}

} // verus!
