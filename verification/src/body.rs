//! Incremental reading of an inbound request body under a byte ceiling.
//! The running total is checked before buffering each chunk, so an
//! oversized request is rejected as soon as the ceiling would be
//! crossed — even mid-stream on a single large chunk — and before any
//! JSON parsing is attempted.

use vstd::prelude::*;

use crate::errors::GatewayError;

verus! {

/// Accumulates body chunks up to a fixed byte ceiling.
pub struct BodyReader {
    buf: Vec<u8>,
    limit: usize,
}

impl BodyReader {
    /// The bytes buffered so far.
    pub closed spec fn spec_buf(&self) -> Seq<u8> {
        self.buf@
    }

    /// The configured ceiling in bytes.
    pub closed spec fn spec_limit(&self) -> usize {
        self.limit
    }

    /// A fresh reader with nothing buffered.
    pub fn new(limit: usize) -> (r: BodyReader)
        ensures
            r.spec_limit() == limit,
            r.spec_buf() == Seq::<u8>::empty(),
    {
        BodyReader { buf: Vec::new(), limit }
    }

    /// Number of bytes buffered so far.
    pub fn len(&self) -> (n: usize)
        ensures
            n == self.spec_buf().len(),
    {
        self.buf.len()
    }

    /// Append one chunk. Fails with a payload-too-large error exactly
    /// when the running total would exceed the ceiling; on failure
    /// everything buffered is discarded.
    pub fn push_chunk(&mut self, chunk: &[u8]) -> (r: Result<(), GatewayError>)
        ensures
            old(self).spec_buf().len() + chunk@.len() <= old(self).spec_limit() ==> {
                &&& r is Ok
                &&& final(self).spec_buf() == old(self).spec_buf() + chunk@
                &&& final(self).spec_limit() == old(self).spec_limit()
            },
            old(self).spec_buf().len() + chunk@.len() > old(self).spec_limit() ==> {
                &&& r == Result::<(), GatewayError>::Err(GatewayError::PayloadTooLarge)
                &&& final(self).spec_buf().len() == 0
                &&& final(self).spec_limit() == old(self).spec_limit()
            },
    {
        let total = match self.buf.len().checked_add(chunk.len()) {
            Some(t) => t,
            None => {
                self.buf.clear();
                return Err(GatewayError::PayloadTooLarge);
            },
        };
        if total > self.limit {
            self.buf.clear();
            return Err(GatewayError::PayloadTooLarge);
        }
        let mut i: usize = 0;
        while i < chunk.len()
            invariant
                i <= chunk@.len(),
                self.spec_limit() == old(self).spec_limit(),
                self.spec_buf() == old(self).spec_buf() + chunk@.subrange(0, i as int),
            decreases chunk@.len() - i,
        {
            let b = chunk[i];
            self.buf.push(b);
            proof {
                assert(self.spec_buf() =~= old(self).spec_buf() + chunk@.subrange(
                    0,
                    i as int + 1,
                ));
            }
            i = i + 1;
        }
        proof {
            assert(chunk@.subrange(0, chunk@.len() as int) =~= chunk@);
        }
        Ok(())
    }

    /// Hand the buffered body over once the stream is exhausted.
    pub fn into_bytes(self) -> (r: Vec<u8>)
        ensures
            r@ == self.spec_buf(),
    {
        self.buf
    }
}

} // verus!
