//! What a graph asks of the world: its log, its files, the format of its checkpoints and the clock.
//!
//! Everything that is asked is remembered, together with the answer, in the order of asking. The
//! contracts of commits and checkpoints say what is asked in which order, and what follows from
//! each answer.

use vstd::prelude::*;

use super::checkpoint::snapshot::{CheckpointView, GraphCheckpoint};
use super::model::{RedoEntry, RedoView};
#[allow(unused_imports)]
use super::transaction::outcome;
use crate::storage::error::{ErrorView, StorageResult};

verus! {

/// Something that was asked of the world, and the answer.
#[verifier::ext_equal]
pub enum Event {
    /// The log was to take an entry.
    Append(RedoView, Result<(), ErrorView>),
    /// The log was to be made safe up to its end.
    Flush(Result<(), ErrorView>),
    /// The log was to drop its entries before a position.
    Truncate(u64, Result<(), ErrorView>),
    /// A file was to be made.
    Create(Seq<char>, Result<(), Seq<char>>),
    /// A checkpoint was to be turned into bytes.
    Serialize(CheckpointView, Result<Seq<u8>, Seq<char>>),
    /// Bytes were to be written to a file.
    Write(Seq<char>, Seq<u8>, Result<(), Seq<char>>),
    /// A file was to be removed.
    Remove(Seq<char>, Result<(), Seq<char>>),
    /// The clock was looked at. It showed a time in nanoseconds.
    Time(u128),
}

/// What the answer about a file was.
pub open spec fn said(answer: Result<(), String>) -> Result<(), Seq<char>> {
    match answer {
        Ok(_) => Ok(()),
        Err(text) => Err(text@),
    }
}

/// What the answer about the bytes of a checkpoint was.
pub open spec fn bytes_said(answer: Result<Vec<u8>, String>) -> Result<Seq<u8>, Seq<char>> {
    match answer {
        Ok(bytes) => Ok(bytes@),
        Err(text) => Err(text@),
    }
}

/// The world that a graph asks.
pub trait Outside: Sized {
    /// What has been asked so far.
    spec fn past(&self) -> Seq<Event>;

    /// Whether the world can answer like that.
    spec fn gives(&self, event: Event) -> bool;

    /// Hands an entry to the log.
    fn append(&mut self, entry: &RedoEntry) -> (answer: StorageResult<()>)
        ensures
            final(self).past() == old(self).past().push(Event::Append(entry@, outcome(answer))),
            old(self).gives(Event::Append(entry@, outcome(answer))),
            forall|event: Event| #[trigger] final(self).gives(event) == old(self).gives(event),
    ;

    /// Makes the log safe up to its end.
    fn flush(&mut self) -> (answer: StorageResult<()>)
        ensures
            final(self).past() == old(self).past().push(Event::Flush(outcome(answer))),
            old(self).gives(Event::Flush(outcome(answer))),
            forall|event: Event| #[trigger] final(self).gives(event) == old(self).gives(event),
    ;

    /// Drops the entries of the log before a position.
    fn truncate(&mut self, lsn: u64) -> (answer: StorageResult<()>)
        ensures
            final(self).past() == old(self).past().push(Event::Truncate(lsn, outcome(answer))),
            old(self).gives(Event::Truncate(lsn, outcome(answer))),
            forall|event: Event| #[trigger] final(self).gives(event) == old(self).gives(event),
    ;

    /// Makes a file.
    fn create(&mut self, path: &String) -> (answer: Result<(), String>)
        ensures
            final(self).past() == old(self).past().push(Event::Create(path@, said(answer))),
            old(self).gives(Event::Create(path@, said(answer))),
            forall|event: Event| #[trigger] final(self).gives(event) == old(self).gives(event),
    ;

    /// Turns a checkpoint into bytes.
    fn serialize(&mut self, checkpoint: &GraphCheckpoint) -> (answer: Result<Vec<u8>, String>)
        ensures
            final(self).past() == old(self).past().push(
                Event::Serialize(checkpoint@, bytes_said(answer)),
            ),
            old(self).gives(Event::Serialize(checkpoint@, bytes_said(answer))),
            forall|event: Event| #[trigger] final(self).gives(event) == old(self).gives(event),
    ;

    /// Writes bytes to a file.
    fn write(&mut self, path: &String, bytes: &Vec<u8>) -> (answer: Result<(), String>)
        ensures
            final(self).past() == old(self).past().push(Event::Write(path@, bytes@, said(answer))),
            old(self).gives(Event::Write(path@, bytes@, said(answer))),
            forall|event: Event| #[trigger] final(self).gives(event) == old(self).gives(event),
    ;

    /// Removes a file.
    fn remove(&mut self, path: &String) -> (answer: Result<(), String>)
        ensures
            final(self).past() == old(self).past().push(Event::Remove(path@, said(answer))),
            old(self).gives(Event::Remove(path@, said(answer))),
            forall|event: Event| #[trigger] final(self).gives(event) == old(self).gives(event),
    ;

    /// The time, in nanoseconds.
    fn time(&mut self) -> (time: u128)
        ensures
            final(self).past() == old(self).past().push(Event::Time(time)),
            old(self).gives(Event::Time(time)),
            forall|event: Event| #[trigger] final(self).gives(event) == old(self).gives(event),
    ;
}

/// Whether nothing but asking has happened to the world: what was asked before is still remembered,
/// what was asked since is what the world can answer, and its answers are those it could give.
pub open spec fn goes_on<O: Outside>(before: O, after: O) -> bool {
    &&& before.past().len() <= after.past().len()
    &&& after.past().take(before.past().len() as int) == before.past()
    &&& forall|i: int|
        before.past().len() <= i < after.past().len() ==> before.gives(#[trigger] after.past()[i])
    &&& forall|event: Event| #[trigger] after.gives(event) == before.gives(event)
}

/// What was asked of the world between two moments.
pub open spec fn asked<O: Outside>(before: O, after: O) -> Seq<Event> {
    after.past().skip(before.past().len() as int)
}

/// Whether the log never fails.
pub open spec fn log_is_safe<O: Outside>(out: O) -> bool {
    &&& forall|entry: RedoView, answer: Result<(), ErrorView>| #[trigger]
        out.gives(Event::Append(entry, answer)) ==> answer is Ok
    &&& forall|answer: Result<(), ErrorView>| #[trigger]
        out.gives(Event::Flush(answer)) ==> answer is Ok
}

/// Nothing is asked while nothing happens.
pub(crate) proof fn lemma_nothing<O: Outside>(out: O)
    ensures
        goes_on(out, out),
        asked(out, out) == Seq::<Event>::empty(),
{
    assert(out.past().take(out.past().len() as int) =~= out.past());
    assert(asked(out, out) =~= Seq::empty());
}

/// What is asked in two stretches is asked in one.
pub(crate) proof fn lemma_further<O: Outside>(first: O, second: O, third: O)
    requires
        goes_on(first, second),
        goes_on(second, third),
    ensures
        goes_on(first, third),
        asked(first, third) == asked(first, second) + asked(second, third),
{
    let n = first.past().len() as int;
    let m = second.past().len() as int;
    assert(third.past().take(n) =~= third.past().take(m).take(n));
    assert(asked(first, third) =~= asked(first, second) + asked(second, third)) by {
        assert forall|i: int| 0 <= i < asked(first, third).len() implies #[trigger] asked(
            first,
            third,
        )[i] == (asked(first, second) + asked(second, third))[i] by {
            if i + n < m {
                assert(third.past()[i + n] == third.past().take(m)[i + n]);
            }
        }
    }
    assert forall|i: int| n <= i < third.past().len() implies first.gives(
        #[trigger] third.past()[i],
    ) by {
        if i < m {
            assert(third.past()[i] == third.past().take(m)[i]);
            assert(first.gives(second.past()[i]));
        } else {
            assert(second.gives(third.past()[i]));
        }
    }
}

/// What is asked once is one event.
pub(crate) proof fn lemma_once<O: Outside>(before: O, after: O, event: Event)
    requires
        after.past() == before.past().push(event),
        before.gives(event),
        forall|event: Event| #[trigger] after.gives(event) == before.gives(event),
    ensures
        goes_on(before, after),
        asked(before, after) == seq![event],
{
    assert(after.past().take(before.past().len() as int) =~= before.past());
    assert(asked(before, after) =~= seq![event]);
}

/// One more event is one more event.
pub(crate) proof fn lemma_one_more<O: Outside>(first: O, before: O, after: O, event: Event)
    requires
        goes_on(first, before),
        after.past() == before.past().push(event),
        before.gives(event),
        forall|event: Event| #[trigger] after.gives(event) == before.gives(event),
    ensures
        goes_on(first, after),
        asked(first, after) == asked(first, before).push(event),
{
    lemma_once(before, after, event);
    lemma_further(first, before, after);
    assert(asked(first, after) =~= asked(first, before).push(event));
}

/// A world that is asked through functions.
pub struct World<
    A: Fn(&RedoEntry) -> StorageResult<()>,
    F: Fn() -> StorageResult<()>,
    T: Fn(u64) -> StorageResult<()>,
    C: Fn(&String) -> Result<(), String>,
    S: Fn(&GraphCheckpoint) -> Result<Vec<u8>, String>,
    W: Fn(&String, &Vec<u8>) -> Result<(), String>,
    D: Fn(&String) -> Result<(), String>,
    N: Fn() -> u128,
> {
    append: A,
    flush: F,
    truncate: T,
    create: C,
    serialize: S,
    write: W,
    remove: D,
    clock: N,
    past: Ghost<Seq<Event>>,
}

/// Whether functions that stand for the world can answer like that.
pub open spec fn answers<
    A: Fn(&RedoEntry) -> StorageResult<()>,
    F: Fn() -> StorageResult<()>,
    T: Fn(u64) -> StorageResult<()>,
    C: Fn(&String) -> Result<(), String>,
    S: Fn(&GraphCheckpoint) -> Result<Vec<u8>, String>,
    W: Fn(&String, &Vec<u8>) -> Result<(), String>,
    D: Fn(&String) -> Result<(), String>,
    N: Fn() -> u128,
>(
    append: A,
    flush: F,
    truncate: T,
    create: C,
    serialize: S,
    write: W,
    remove: D,
    clock: N,
    event: Event,
) -> bool {
    match event {
        Event::Append(entry, answer) => exists|given: RedoEntry, got: StorageResult<()>| #[trigger]
            call_ensures(append, (&given,), got) && given@ == entry && outcome(got) == answer,
        Event::Flush(answer) => exists|got: StorageResult<()>| #[trigger]
            call_ensures(flush, (), got) && outcome(got) == answer,
        Event::Truncate(lsn, answer) => exists|given: u64, got: StorageResult<()>| #[trigger]
            call_ensures(truncate, (given,), got) && given == lsn && outcome(got) == answer,
        Event::Create(path, answer) => exists|given: String, got: Result<(), String>| #[trigger]
            call_ensures(create, (&given,), got) && given@ == path && said(got) == answer,
        Event::Serialize(checkpoint, answer) => exists|
            given: GraphCheckpoint,
            got: Result<Vec<u8>, String>,
        | #[trigger]
            call_ensures(serialize, (&given,), got) && given@ == checkpoint && bytes_said(got)
                == answer,
        Event::Write(path, bytes, answer) => exists|
            given: String,
            file: Vec<u8>,
            got: Result<(), String>,
        | #[trigger]
            call_ensures(write, (&given, &file), got) && given@ == path && file@ == bytes && said(
                got,
            ) == answer,
        Event::Remove(path, answer) => exists|given: String, got: Result<(), String>| #[trigger]
            call_ensures(remove, (&given,), got) && given@ == path && said(got) == answer,
        Event::Time(time) => call_ensures(clock, (), time),
    }
}

impl<
    A: Fn(&RedoEntry) -> StorageResult<()>,
    F: Fn() -> StorageResult<()>,
    T: Fn(u64) -> StorageResult<()>,
    C: Fn(&String) -> Result<(), String>,
    S: Fn(&GraphCheckpoint) -> Result<Vec<u8>, String>,
    W: Fn(&String, &Vec<u8>) -> Result<(), String>,
    D: Fn(&String) -> Result<(), String>,
    N: Fn() -> u128,
> World<A, F, T, C, S, W, D, N> {
    #[verifier::type_invariant]
    spec fn ready(self) -> bool {
        &&& forall|entry: &RedoEntry| #[trigger] call_requires(self.append, (entry,))
        &&& call_requires(self.flush, ())
        &&& forall|lsn: u64| #[trigger] call_requires(self.truncate, (lsn,))
        &&& forall|path: &String| #[trigger] call_requires(self.create, (path,))
        &&& forall|checkpoint: &GraphCheckpoint| #[trigger]
            call_requires(self.serialize, (checkpoint,))
        &&& forall|path: &String, file: &Vec<u8>| #[trigger]
            call_requires(self.write, (path, file))
        &&& forall|path: &String| #[trigger] call_requires(self.remove, (path,))
        &&& call_requires(self.clock, ())
    }

    /// A world that has not been asked yet, with functions that take any argument.
    pub fn new(
        append: A,
        flush: F,
        truncate: T,
        create: C,
        serialize: S,
        write: W,
        remove: D,
        clock: N,
    ) -> (world: Self)
        requires
            forall|entry: &RedoEntry| #[trigger] call_requires(append, (entry,)),
            call_requires(flush, ()),
            forall|lsn: u64| #[trigger] call_requires(truncate, (lsn,)),
            forall|path: &String| #[trigger] call_requires(create, (path,)),
            forall|checkpoint: &GraphCheckpoint| #[trigger]
                call_requires(serialize, (checkpoint,)),
            forall|path: &String, file: &Vec<u8>| #[trigger] call_requires(write, (path, file)),
            forall|path: &String| #[trigger] call_requires(remove, (path,)),
            call_requires(clock, ()),
        ensures
            world.past() == Seq::<Event>::empty(),
            forall|event: Event| #[trigger]
                world.gives(event) == answers(
                    append,
                    flush,
                    truncate,
                    create,
                    serialize,
                    write,
                    remove,
                    clock,
                    event,
                ),
    {
        World {
            append,
            flush,
            truncate,
            create,
            serialize,
            write,
            remove,
            clock,
            past: Ghost(Seq::empty()),
        }
    }
}

impl<
    A: Fn(&RedoEntry) -> StorageResult<()>,
    F: Fn() -> StorageResult<()>,
    T: Fn(u64) -> StorageResult<()>,
    C: Fn(&String) -> Result<(), String>,
    S: Fn(&GraphCheckpoint) -> Result<Vec<u8>, String>,
    W: Fn(&String, &Vec<u8>) -> Result<(), String>,
    D: Fn(&String) -> Result<(), String>,
    N: Fn() -> u128,
> Outside for World<A, F, T, C, S, W, D, N> {
    closed spec fn past(&self) -> Seq<Event> {
        self.past@
    }

    closed spec fn gives(&self, event: Event) -> bool {
        answers(
            self.append,
            self.flush,
            self.truncate,
            self.create,
            self.serialize,
            self.write,
            self.remove,
            self.clock,
            event,
        )
    }

    fn append(&mut self, entry: &RedoEntry) -> (answer: StorageResult<()>) {
        proof {
            use_type_invariant(&*self);
        }
        let append = &self.append;
        let answer = append(entry);
        assert(call_ensures(self.append, (entry,), answer));
        self.past = Ghost(self.past@.push(Event::Append(entry@, outcome(answer))));
        answer
    }

    fn flush(&mut self) -> (answer: StorageResult<()>) {
        proof {
            use_type_invariant(&*self);
        }
        let flush = &self.flush;
        let answer = flush();
        assert(call_ensures(self.flush, (), answer));
        self.past = Ghost(self.past@.push(Event::Flush(outcome(answer))));
        answer
    }

    fn truncate(&mut self, lsn: u64) -> (answer: StorageResult<()>) {
        proof {
            use_type_invariant(&*self);
        }
        let truncate = &self.truncate;
        let answer = truncate(lsn);
        assert(call_ensures(self.truncate, (lsn,), answer));
        self.past = Ghost(self.past@.push(Event::Truncate(lsn, outcome(answer))));
        answer
    }

    fn create(&mut self, path: &String) -> (answer: Result<(), String>) {
        proof {
            use_type_invariant(&*self);
        }
        let create = &self.create;
        let answer = create(path);
        assert(call_ensures(self.create, (path,), answer));
        self.past = Ghost(self.past@.push(Event::Create(path@, said(answer))));
        answer
    }

    fn serialize(&mut self, checkpoint: &GraphCheckpoint) -> (answer: Result<Vec<u8>, String>) {
        proof {
            use_type_invariant(&*self);
        }
        let serialize = &self.serialize;
        let answer = serialize(checkpoint);
        assert(call_ensures(self.serialize, (checkpoint,), answer));
        self.past = Ghost(self.past@.push(Event::Serialize(checkpoint@, bytes_said(answer))));
        answer
    }

    fn write(&mut self, path: &String, bytes: &Vec<u8>) -> (answer: Result<(), String>) {
        proof {
            use_type_invariant(&*self);
        }
        let write = &self.write;
        let answer = write(path, bytes);
        assert(call_ensures(self.write, (path, bytes), answer));
        self.past = Ghost(self.past@.push(Event::Write(path@, bytes@, said(answer))));
        answer
    }

    fn remove(&mut self, path: &String) -> (answer: Result<(), String>) {
        proof {
            use_type_invariant(&*self);
        }
        let remove = &self.remove;
        let answer = remove(path);
        assert(call_ensures(self.remove, (path,), answer));
        self.past = Ghost(self.past@.push(Event::Remove(path@, said(answer))));
        answer
    }

    fn time(&mut self) -> (time: u128) {
        proof {
            use_type_invariant(&*self);
        }
        let clock = &self.clock;
        let time: u128 = clock();
        self.past = Ghost(self.past@.push(Event::Time(time)));
        time
    }
}

} // verus!
