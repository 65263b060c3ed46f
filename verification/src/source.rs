//! Where reading begins: how a seek is carried out on a file and on a stream
//! that cannot seek.

use vstd::prelude::*;

verus! {

/// How to get to where reading begins.
#[derive(Clone, Copy, Debug, PartialEq, Eq, Structural)]
pub enum SeekPlan {
    /// Seek to this position from the start of the file.
    Start(u64),
    /// Seek to this position from the end of the file; it is negative.
    End(i64),
    /// Read and drop this many octets of the stream.
    Skip(u64),
    /// Begin where the stream stands.
    Stay,
}

/// A seek that cannot be carried out.
#[derive(Clone, Copy, Debug, PartialEq, Eq, Structural)]
pub enum SeekError {
    /// A stream that cannot seek has no end to count from.
    NegativeOnStream,
}

impl SeekError {
    /// What is wrong, in words.
    pub fn message(&self) -> (text: &'static str)
        ensures
            text@ == match self {
                SeekError::NegativeOnStream =>
                    "Seeking to negative offsets is not supported when reading from stdin"@,
            },
    {
        match self {
            SeekError::NegativeOnStream =>
                "Seeking to negative offsets is not supported when reading from stdin",
        }
    }
}

/// How a seek is carried out on a file.
pub open spec fn file_plan(seek: i64) -> SeekPlan {
    if seek >= 0 {
        SeekPlan::Start(seek as u64)
    } else {
        SeekPlan::End(seek)
    }
}

/// How a seek is carried out on a stream that cannot seek.
pub open spec fn stream_plan(seek: i64) -> Result<SeekPlan, SeekError> {
    if seek < 0 {
        Err(SeekError::NegativeOnStream)
    } else if seek > 0 {
        Ok(SeekPlan::Skip(seek as u64))
    } else {
        Ok(SeekPlan::Stay)
    }
}

/// Plans a seek: a file seeks from its start, or from its end where the seek
/// is negative; a stream skips, and cannot count from its end.
pub fn plan_seek(is_file: bool, seek: i64) -> (plan: Result<SeekPlan, SeekError>)
    ensures
        plan == if is_file {
            Ok::<SeekPlan, SeekError>(file_plan(seek))
        } else {
            stream_plan(seek)
        },
{
    if is_file {
        if seek >= 0 {
            Ok(SeekPlan::Start(seek as u64))
        } else {
            Ok(SeekPlan::End(seek))
        }
    } else if seek < 0 {
        Err(SeekError::NegativeOnStream)
    } else if seek > 0 {
        Ok(SeekPlan::Skip(seek as u64))
    } else {
        Ok(SeekPlan::Stay)
    }
}

/// The most octets that one read drops.
pub const DISCARD_BUFFER: usize = 4096;

/// Drops the first octets of a stream. The caller reads, this counts: ask
/// `wanted` how much to read, tell `took` how much was read, and stop when
/// `took` says so.
#[derive(Debug)]
pub struct Discard {
    to_skip: usize,
}

impl View for Discard {
    type V = nat;

    closed spec fn view(&self) -> nat {
        self.to_skip as nat
    }
}

impl Discard {
    /// Begins to drop `to_skip` octets.
    pub fn new(to_skip: usize) -> (discard: Discard)
        ensures
            discard@ == to_skip,
    {
        Discard { to_skip }
    }

    /// How many octets are still to drop.
    pub fn remaining(&self) -> (n: usize)
        ensures
            n == self@,
    {
        self.to_skip
    }

    /// How many octets to read next: what is still to drop, up to a buffer.
    pub fn wanted(&self) -> (n: usize)
        ensures
            n == if self@ < DISCARD_BUFFER {
                self@
            } else {
                DISCARD_BUFFER as nat
            },
    {
        if self.to_skip < DISCARD_BUFFER {
            self.to_skip
        } else {
            DISCARD_BUFFER
        }
    }

    /// Counts the `read` octets that were dropped, and says whether to read on:
    /// not when nothing was read, which is the end of the stream, and not when
    /// nothing is left to drop.
    pub fn took(&mut self, read: usize) -> (more: bool)
        requires
            read <= old(self)@,
        ensures
            final(self)@ == old(self)@ - read,
            more == (read > 0 && final(self)@ > 0),
    {
        self.to_skip = self.to_skip - read;
        read > 0 && self.to_skip > 0
    }
}

} // verus!
