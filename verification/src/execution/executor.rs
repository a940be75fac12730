//! Pull-based executors over chunks of rows.

use vstd::prelude::*;

use crate::common::chunk::DataChunk;
#[allow(unused_imports)]
use crate::execution::error::ExecutionError;
use crate::execution::error::ExecutionResult;

verus! {

/// A pull-based executor.
///
/// The execution is over when `next_chunk` returns `None`, or an error.
pub trait Executor: Sized {
    /// The chunks that are still to come.
    spec fn pending(&self) -> Seq<ExecutionResult<DataChunk>>;

    /// The next chunk, or `None` when there is none left.
    fn next_chunk(&mut self) -> (next: Option<ExecutionResult<DataChunk>>)
        ensures
            match next {
                Some(chunk) => {
                    &&& old(self).pending().len() > 0
                    &&& chunk == old(self).pending()[0]
                    &&& final(self).pending() == old(self).pending().drop_first()
                },
                None => {
                    &&& old(self).pending().len() == 0
                    &&& final(self).pending() == old(self).pending()
                },
            },
    ;

}

/// Conversion into an executor.
pub trait IntoExecutor: Sized {
    /// The executor that comes out.
    type IntoExecutor: Executor;

    /// The chunks that the executor hands out.
    spec fn chunks(self) -> Seq<ExecutionResult<DataChunk>>;

    /// Converts.
    fn into_executor(self) -> (executor: Self::IntoExecutor)
        ensures
            executor.pending() == self.chunks(),
    ;
}

/// A bridge from a collection of chunks to an executor that hands them out in order.
#[derive(Debug)]
pub struct Bridge<T>(T);

impl Executor for Bridge<Vec<ExecutionResult<DataChunk>>> {
    closed spec fn pending(&self) -> Seq<ExecutionResult<DataChunk>> {
        self.0@
    }

    fn next_chunk(&mut self) -> (next: Option<ExecutionResult<DataChunk>>) {
        if self.0.len() == 0 {
            None
        } else {
            let chunk = self.0.remove(0);
            assert(self.0@ =~= old(self).0@.drop_first());
            Some(chunk)
        }
    }
}

impl IntoExecutor for Vec<ExecutionResult<DataChunk>> {
    type IntoExecutor = Bridge<Vec<ExecutionResult<DataChunk>>>;

    open spec fn chunks(self) -> Seq<ExecutionResult<DataChunk>> {
        self@
    }

    fn into_executor(self) -> (executor: Bridge<Vec<ExecutionResult<DataChunk>>>) {
        Bridge(self)
    }
}

impl<E: Executor> Executor for Box<E> {
    open spec fn pending(&self) -> Seq<ExecutionResult<DataChunk>> {
        (**self).pending()
    }

    fn next_chunk(&mut self) -> (next: Option<ExecutionResult<DataChunk>>) {
        (**self).next_chunk()
    }
}

/// Whether the first `n` of the pending chunks came out, one by one.
pub open spec fn came_out(
    pending: Seq<ExecutionResult<DataChunk>>,
    chunks: Seq<DataChunk>,
    n: int,
) -> bool {
    &&& n == chunks.len() <= pending.len()
    &&& forall|i: int|
        0 <= i < n ==> #[trigger] pending[i] == Ok::<DataChunk, ExecutionError>(chunks[i])
}

/// All the chunks that an executor hands out. The first error ends it.
pub fn collect_chunks<E: Executor>(executor: &mut E) -> (result: ExecutionResult<Vec<DataChunk>>)
    ensures
        match result {
            Ok(chunks) => {
                &&& came_out(old(executor).pending(), chunks@, chunks@.len() as int)
                &&& chunks@.len() == old(executor).pending().len()
                &&& final(executor).pending().len() == 0
            },
            Err(error) => exists|chunks: Seq<DataChunk>| #[trigger]
                came_out(old(executor).pending(), chunks, chunks.len() as int) && chunks.len()
                    < old(executor).pending().len() && old(executor).pending()[chunks.len() as int]
                    == Err::<DataChunk, ExecutionError>(error) && final(executor).pending()
                    == old(executor).pending().skip(chunks.len() as int + 1),
        },
{
    let ghost all = executor.pending();
    let mut chunks: Vec<DataChunk> = Vec::new();
    assert(all.skip(0) =~= all);
    loop
        invariant
            all == old(executor).pending(),
            came_out(all, chunks@, chunks@.len() as int),
            executor.pending() == all.skip(chunks@.len() as int),
        decreases executor.pending().len(),
    {
        let ghost n = chunks@.len() as int;
        match executor.next_chunk() {
            None => {
                return Ok(chunks);
            },
            Some(Ok(chunk)) => {
                proof {
                    assert(all.skip(n)[0] == all[n]);
                    assert(all.skip(n).drop_first() =~= all.skip(n + 1));
                }
                chunks.push(chunk);
            },
            Some(Err(error)) => {
                proof {
                    assert(all.skip(n)[0] == all[n]);
                    assert(all.skip(n).drop_first() =~= all.skip(n + 1));
                }
                return Err(error);
            },
        }
    }
}

} // verus!
