use vstd::prelude::*;

use crate::error::IoError;
use crate::stream::ByteSink;

verus! {

impl ByteSink for Vec<u8> {
    open spec fn inv(&self) -> bool {
        true
    }

    open spec fn received(&self) -> Seq<u8> {
        self@
    }

    open spec fn reliable(&self) -> bool {
        true
    }

    fn write_all(&mut self, data: &[u8]) -> (r: Result<(), IoError>) {
        let mut i: usize = 0;
        while i < data.len()
            invariant
                i <= data@.len(),
                self@ == old(self)@ + data@.take(i as int),
            decreases data@.len() - i,
        {
            self.push(data[i]);
            proof {
                assert(self@ =~= old(self)@ + data@.take(i + 1));
            }
            i += 1;
        }
        proof {
            assert(data@.take(i as int) =~= data@);
        }
        Ok(())
    }

    fn byte_len(&self) -> (n: usize) {
        self.len()
    }
}

/// A sink that accepts nothing: every write fails. What was written to it
/// stays lost, so a copy towards it propagates the failure at once.
pub struct RejectingSink;

impl ByteSink for RejectingSink {
    open spec fn inv(&self) -> bool {
        true
    }

    open spec fn received(&self) -> Seq<u8> {
        Seq::empty()
    }

    open spec fn reliable(&self) -> bool {
        false
    }

    fn write_all(&mut self, data: &[u8]) -> (r: Result<(), IoError>) {
        Err(IoError::Failed)
    }

    fn byte_len(&self) -> (n: usize) {
        0
    }
}

} // verus!
