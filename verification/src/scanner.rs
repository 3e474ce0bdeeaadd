use vstd::prelude::*;
use crate::rpc::{split_fn, split_fn_defined, split_fn_is_defined, spec_split_fn};

verus! {

/// What `split_fn` found in the bytes read so far.
#[derive(Clone, Copy, Debug, PartialEq, Eq, Structural)]
pub enum SplitFnResult {
    /// No message label yet.
    Searching,
    /// A label at `start`, but not yet the whole message.
    SearchingEnd { start: usize },
    /// A whole message at `start..end`.
    Complete { start: usize, end: usize },
}

/// What the reading loop does after one pass.
#[derive(Debug)]
pub enum ScanStep {
    /// A whole message was found: hand it out and start over with an empty buffer.
    Message(Vec<u8>),
    /// Read more and try again.
    Continue,
    /// `split_fn` reported this error: log it and read more.
    Failed(String),
    /// The bytes buffered do not meet what `split_fn` requires: the delimiter after the
    /// label comes too early to cut the length out.
    SplitAssertionFails,
}

/// The decisions of the message scanner: the bytes read so far and where the last label
/// was seen. The reading itself (and the pause between reads) is the caller's.
pub struct Scanner {
    payload_buffer: Vec<u8>,
    start_hint: usize,
}

impl Scanner {
    #[verifier::type_invariant]
    spec fn inv(&self) -> bool {
        self.start_hint <= self.payload_buffer@.len()
    }

    /// The bytes read since the last message.
    pub closed spec fn buffered(&self) -> Seq<u8> {
        self.payload_buffer@
    }

    /// Where the search for a label starts.
    pub closed spec fn hint(&self) -> nat {
        self.start_hint as nat
    }

    pub fn new() -> (r: Scanner)
        ensures
            r.buffered() == Seq::<u8>::empty(),
            r.hint() == 0,
    {
        Scanner { payload_buffer: Vec::new(), start_hint: 0 }
    }

    /// One pass of the reading loop: `chunk` is what was just read; the bytes are added to
    /// the buffer and `split_fn` looks for a message in it from the last label on.
    pub fn feed(&mut self, chunk: &[u8]) -> (r: ScanStep)
        ensures
            ({
                let data = old(self).buffered() + chunk@;
                let hint = old(self).hint();
                if !split_fn_defined(data, hint) {
                    r is SplitAssertionFails
                } else {
                    match spec_split_fn(data, hint) {
                        Ok(SplitFnResult::Complete { start, end }) => {
                            &&& r matches ScanStep::Message(m) && m@ == data.subrange(
                                start as int,
                                end as int,
                            )
                            &&& final(self).buffered() == Seq::<u8>::empty()
                            &&& final(self).hint() == 0
                        },
                        Ok(SplitFnResult::SearchingEnd { start }) => {
                            &&& r is Continue
                            &&& final(self).buffered() == data
                            &&& final(self).hint() == start
                        },
                        Ok(SplitFnResult::Searching) => {
                            &&& r is Continue
                            &&& final(self).buffered() == data
                            &&& final(self).hint() == hint
                        },
                        Err(m) => {
                            &&& r matches ScanStep::Failed(e) && e@ == m
                            &&& final(self).buffered() == data
                            &&& final(self).hint() == hint
                        },
                    }
                }
            }),
    {
        proof {
            use_type_invariant(&*self);
        }
        let ghost data = self.payload_buffer@ + chunk@;
        let hint = self.start_hint;
        self.start_hint = 0;
        let mut buffer: Vec<u8> = Vec::new();
        std::mem::swap(&mut buffer, &mut self.payload_buffer);
        let ghost start = buffer@;
        let mut i: usize = 0;
        while i < chunk.len()
            invariant
                i <= chunk@.len(),
                buffer@ == start + chunk@.take(i as int),
            decreases chunk@.len() - i,
        {
            buffer.push(chunk[i]);
            assert(chunk@.take(i + 1) =~= chunk@.take(i as int).push(chunk@[i as int]));
            i = i + 1;
        }
        assert(chunk@.take(i as int) =~= chunk@);
        let len = buffer.len();
        if !split_fn_is_defined(buffer.as_slice(), hint) {
            self.payload_buffer = buffer;
            self.start_hint = hint;
            return ScanStep::SplitAssertionFails;
        }
        match split_fn(buffer.as_slice(), hint) {
            Ok(SplitFnResult::Complete { start, end }) => {
                proof {
                    lemma_complete_in_bounds(data, hint as nat);
                }
                let message = vstd::slice::slice_to_vec(
                    vstd::slice::slice_subrange(buffer.as_slice(), start, end),
                );
                ScanStep::Message(message)
            },
            Ok(SplitFnResult::SearchingEnd { start }) => {
                proof {
                    lemma_searching_end_in_bounds(data, hint as nat);
                }
                self.payload_buffer = buffer;
                self.start_hint = start;
                ScanStep::Continue
            },
            Ok(SplitFnResult::Searching) => {
                self.payload_buffer = buffer;
                self.start_hint = hint;
                ScanStep::Continue
            },
            Err(message) => {
                self.payload_buffer = buffer;
                self.start_hint = hint;
                ScanStep::Failed(message)
            },
        }
    }
}

proof fn lemma_complete_in_bounds(data: Seq<u8>, hint: nat)
    requires
        split_fn_defined(data, hint),
        data.len() <= usize::MAX,
    ensures
        spec_split_fn(data, hint) matches Ok(SplitFnResult::Complete { start, end }) ==> start <= end
            <= data.len(),
{
    crate::rpc::lemma_split_fn_bounds(data, hint);
}

proof fn lemma_searching_end_in_bounds(data: Seq<u8>, hint: nat)
    requires
        split_fn_defined(data, hint),
        data.len() <= usize::MAX,
    ensures
        spec_split_fn(data, hint) matches Ok(SplitFnResult::SearchingEnd { start }) ==> start
            <= data.len(),
{
    crate::rpc::lemma_split_fn_bounds(data, hint);
}

} // verus!
