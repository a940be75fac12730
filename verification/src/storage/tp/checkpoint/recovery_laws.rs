//! What a recovery replays of the log.

use vstd::prelude::*;

#[allow(unused_imports)]
use super::manager::{is_candidate, ConfigView, FoundFile};
#[allow(unused_imports)]
use super::names::joined;
#[allow(unused_imports)]
use super::recovery::{
    applies, considers, empty_graph, entries_from, finds, found_name, law_most_recent, recovered,
    recovers, replays_log, searches, Candidate,
};
#[allow(unused_imports)]
use super::snapshot::{restored, CheckpointView, GraphCheckpoint};
#[allow(unused_imports)]
use crate::storage::error::{ErrorView, StorageResult};
#[allow(unused_imports)]
use crate::storage::tp::memory_graph::{GraphView, MemoryGraph};
#[allow(unused_imports)]
use crate::storage::tp::model::{RedoEntry, RedoView};
#[allow(unused_imports)]
use crate::storage::tp::transaction::redo_view;

verus! {

/// Whether some entries are those of a log from a position on, whatever they record, in the order
/// of the log: the `i`th of them is the entry at the `i`th of ascending places, and the places are
/// those of all entries with a position that is not smaller.
pub open spec fn is_log_from(
    kept: Seq<RedoView>,
    log: Seq<RedoView>,
    lsn: u64,
    places: Seq<int>,
) -> bool {
    &&& places.len() == kept.len()
    &&& forall|i: int, j: int|
        0 <= i < j < places.len() ==> (#[trigger] places[i]) < (#[trigger] places[j])
    &&& forall|i: int|
        0 <= i < places.len() ==> 0 <= (#[trigger] places[i]) < log.len() && kept[i]
            == log[places[i]] && log[places[i]].lsn >= lsn
    &&& forall|p: int|
        0 <= p < log.len() && (#[trigger] log[p]).lsn >= lsn ==> places.contains(p)
}

/// The entries that are replayed from a position on are all the entries of the log at that position
/// and behind it, whatever they record, none before it, and they keep the order of the log.
pub proof fn law_replayed_entries(log: Seq<RedoView>, lsn: u64) -> (places: Seq<int>)
    ensures
        is_log_from(entries_from(log, lsn), log, lsn, places),
    decreases log.len(),
{
    reveal(Seq::filter);
    if log.len() == 0 {
        Seq::empty()
    } else {
        let front = log.drop_last();
        let before = law_replayed_entries(front, lsn);
        let last = log.len() - 1;
        let kept = entries_from(log, lsn);
        let earlier = entries_from(front, lsn);
        let places = if log.last().lsn >= lsn {
            before.push(last)
        } else {
            before
        };
        assert(kept == if log.last().lsn >= lsn {
            earlier.push(log.last())
        } else {
            earlier
        });
        assert forall|i: int| 0 <= i < places.len() implies 0 <= (#[trigger] places[i]) < log.len()
            && kept[i] == log[places[i]] && log[places[i]].lsn >= lsn by {
            if i < before.len() {
                assert(places[i] == before[i]);
                assert(front[before[i]] == log[before[i]]);
            }
        }
        assert forall|p: int| 0 <= p < log.len() && (#[trigger] log[p]).lsn >= lsn implies
            places.contains(p) by {
            if p < last {
                assert(front[p] == log[p]);
                assert(before.contains(p));
                let i = choose|i: int| 0 <= i < before.len() && before[i] == p;
                assert(places[i] == p);
            } else {
                assert(places[before.len() as int] == last);
            }
        }
        places
    }
}

/// Whether a list of entries is what a log holds.
pub open spec fn holds_log(list: Seq<RedoEntry>, log: Seq<RedoView>) -> bool {
    list.len() == log.len() && forall|i: int|
        0 <= i < log.len() ==> (#[trigger] list[i])@ == log[i]
}

/// Whether a result is that of applying the entries of a log from a position on to a graph. Where
/// there are none, it is the graph.
pub open spec fn is_replay<A: Fn(MemoryGraph, Vec<RedoEntry>) -> StorageResult<MemoryGraph>>(
    apply: A,
    graph: GraphView,
    log: Seq<RedoView>,
    lsn: u64,
    result: Result<GraphView, ErrorView>,
) -> bool {
    if forall|p: int| 0 <= p < log.len() ==> (#[trigger] log[p]).lsn < lsn {
        result == Ok::<GraphView, ErrorView>(graph)
    } else {
        exists|
            start: MemoryGraph,
            list: Vec<RedoEntry>,
            answer: StorageResult<MemoryGraph>,
            kept: Seq<RedoView>,
            places: Seq<int>,
        |
            {
                &&& #[trigger] call_ensures(apply, (start, list), answer)
                &&& start@ == graph
                &&& #[trigger] is_log_from(kept, log, lsn, places)
                &&& holds_log(list@, kept)
                &&& match answer {
                    Ok(after) => result == Ok::<GraphView, ErrorView>(after@),
                    Err(error) => result == Err::<GraphView, ErrorView>(error@),
                }
            }
    }
}

proof fn lemma_replays<
    R: Fn() -> StorageResult<Vec<RedoEntry>>,
    A: Fn(MemoryGraph, Vec<RedoEntry>) -> StorageResult<MemoryGraph>,
>(
    read_all: R,
    apply: A,
    graph: GraphView,
    lsn: u64,
    log: Seq<RedoView>,
    result: Result<GraphView, ErrorView>,
)
    requires
        replays_log(read_all, apply, graph, lsn, result),
        forall|answer: StorageResult<Vec<RedoEntry>>| #[trigger]
            call_ensures(read_all, (), answer) ==> (answer matches Ok(list) && holds_log(
                list@,
                log,
            )),
    ensures
        is_replay(apply, graph, log, lsn, result),
{
    let places = law_replayed_entries(log, lsn);
    let kept = entries_from(log, lsn);
    let answer = choose|answer: StorageResult<Vec<RedoEntry>>| #[trigger]
        call_ensures(read_all, (), answer) && match answer {
            Err(error) => result == Err::<GraphView, ErrorView>(error@),
            Ok(entries) => applies(apply, graph, entries_from(redo_view(entries@), lsn), result),
        };
    let entries = answer->Ok_0;
    assert(redo_view(entries@) =~= log);
    if forall|p: int| 0 <= p < log.len() ==> (#[trigger] log[p]).lsn < lsn {
        if kept.len() > 0 {
            assert(log[places[0]].lsn >= lsn);
        }
    } else {
        let p = choose|p: int| 0 <= p < log.len() && !((#[trigger] log[p]).lsn < lsn);
        assert(places.contains(p));
        let (start, list, got) = choose|
            start: MemoryGraph,
            list: Vec<RedoEntry>,
            got: StorageResult<MemoryGraph>,
        | #[trigger]
            call_ensures(apply, (start, list), got) && start@ == graph && redo_view(list@) == kept
                && recovered(got) == result;
        assert(holds_log(list@, kept)) by {
            assert forall|i: int| 0 <= i < kept.len() implies (#[trigger] list@[i])@ == kept[i] by {
                assert(redo_view(list@)[i] == list@[i]@);
            }
        }
        assert(call_ensures(apply, (start, list), got));
        assert(is_log_from(kept, log, lsn, places));
    }
}

/// A recovery from a checkpoint applies to the graph that the checkpoint describes exactly the
/// entries of the log at the position of the checkpoint and behind it, in the order of the log.
pub proof fn law_recovers_from_checkpoint<
    L: Fn(&String) -> StorageResult<GraphCheckpoint>,
    R: Fn() -> StorageResult<Vec<RedoEntry>>,
    A: Fn(MemoryGraph, Vec<RedoEntry>) -> StorageResult<MemoryGraph>,
>(
    name: Seq<char>,
    config: ConfigView,
    load: L,
    read_all: R,
    apply: A,
    checkpoint: CheckpointView,
    log: Seq<RedoView>,
    result: Result<GraphView, ErrorView>,
)
    requires
        recovers(Some(name), config, load, read_all, apply, result),
        forall|path: String, answer: StorageResult<GraphCheckpoint>| #[trigger]
            call_ensures(load, (&path,), answer) && path@ == name ==> (answer matches Ok(loaded)
                && loaded@ == checkpoint),
        forall|answer: StorageResult<Vec<RedoEntry>>| #[trigger]
            call_ensures(read_all, (), answer) ==> (answer matches Ok(list) && holds_log(
                list@,
                log,
            )),
    ensures
        is_replay(apply, restored(checkpoint, config), log, checkpoint.metadata.lsn, result),
{
    let (path, answer) = choose|path: String, answer: StorageResult<GraphCheckpoint>| #[trigger]
        call_ensures(load, (&path,), answer) && path@ == name && match answer {
            Err(error) => result == Err::<GraphView, ErrorView>(error@),
            Ok(loaded) => replays_log(
                read_all,
                apply,
                restored(loaded@, config),
                loaded.metadata.lsn,
                result,
            ),
        };
    let loaded = answer->Ok_0;
    assert(loaded@.metadata == loaded.metadata);
    lemma_replays(
        read_all,
        apply,
        restored(checkpoint, config),
        checkpoint.metadata.lsn,
        log,
        result,
    );
}

/// A recovery without a checkpoint applies the whole log to an empty graph.
pub proof fn law_recovers_from_log<
    L: Fn(&String) -> StorageResult<GraphCheckpoint>,
    R: Fn() -> StorageResult<Vec<RedoEntry>>,
    A: Fn(MemoryGraph, Vec<RedoEntry>) -> StorageResult<MemoryGraph>,
>(
    config: ConfigView,
    load: L,
    read_all: R,
    apply: A,
    log: Seq<RedoView>,
    result: Result<GraphView, ErrorView>,
)
    requires
        recovers(None, config, load, read_all, apply, result),
        forall|answer: StorageResult<Vec<RedoEntry>>| #[trigger]
            call_ensures(read_all, (), answer) ==> (answer matches Ok(list) && holds_log(
                list@,
                log,
            )),
    ensures
        exists|graph: GraphView| #[trigger]
            is_replay(apply, graph, log, 0, result) && graph.store.vertices.dom() == Set::<
                u64,
            >::empty() && graph.store.edges.dom() == Set::<u64>::empty()
                && graph.store.adjacency.dom() == Set::<u64>::empty() && graph.next_lsn == 0
                && graph.manager.active.dom() == Set::<u64>::empty()
                && graph.checkpoint_config == config,
{
    let graph = empty_graph(config);
    lemma_replays(read_all, apply, graph, 0, log, result);
    assert(graph.store.vertices.dom() =~= Set::empty());
    assert(graph.store.edges.dom() =~= Set::empty());
    assert(graph.store.adjacency.dom() =~= Set::empty());
    assert(graph.manager.active.dom() =~= Set::empty());
    assert(is_replay(apply, graph, log, 0, result));
}

/// Where nothing can be read of the log or of the checkpoint, that is what comes out.
pub proof fn law_recovery_fails<
    L: Fn(&String) -> StorageResult<GraphCheckpoint>,
    R: Fn() -> StorageResult<Vec<RedoEntry>>,
    A: Fn(MemoryGraph, Vec<RedoEntry>) -> StorageResult<MemoryGraph>,
>(
    name: Option<Seq<char>>,
    config: ConfigView,
    load: L,
    read_all: R,
    apply: A,
    error: ErrorView,
    result: Result<GraphView, ErrorView>,
)
    requires
        recovers(name, config, load, read_all, apply, result),
        name is Some && (forall|path: String, answer: StorageResult<GraphCheckpoint>| #[trigger]
            call_ensures(load, (&path,), answer) && Some(path@) == name ==> (answer matches Err(got)
                && got@ == error)) || (name is None && forall|
            answer: StorageResult<Vec<RedoEntry>>,
        | #[trigger]
            call_ensures(read_all, (), answer) ==> (answer matches Err(got) && got@ == error)),
    ensures
        result == Err::<GraphView, ErrorView>(error),
{
}

/// Of several checkpoints that were modified last at the same time, the first that was found is the
/// most recent one: every file found before it was modified earlier.
pub proof fn law_first_of_most_recent<M: Fn(&String) -> Result<u128, String>>(
    files: Seq<FoundFile>,
    config: ConfigView,
    modified: M,
    times: spec_fn(Seq<char>) -> u128,
    found: Candidate,
) -> (at: int)
    requires
        forall|path: &String, answer: Result<u128, String>| #[trigger]
            call_ensures(modified, (path,), answer) ==> answer == Ok::<u128, String>(times(path@)),
        finds(files, config, modified, Ok(Some(found))),
    ensures
        0 <= at < files.len(),
        files[at].is_file && files[at].name@.len() >= config.checkpoint_prefix.len()
            && files[at].name@.subrange(0, config.checkpoint_prefix.len() as int)
            == config.checkpoint_prefix,
        found.0 == joined(config.checkpoint_dir, files[at].name@),
        found.1 == times(found.0),
        forall|i: int|
            0 <= i < at && is_candidate(#[trigger] files[i], config.checkpoint_prefix) ==> times(
                joined(config.checkpoint_dir, files[i].name@),
            ) < found.1,
        forall|i: int|
            at <= i < files.len() && is_candidate(#[trigger] files[i], config.checkpoint_prefix)
                ==> times(joined(config.checkpoint_dir, files[i].name@)) <= found.1,
    decreases files.len(),
{
    let before = choose|before: Result<Option<Candidate>, ErrorView>|
        finds(files.drop_last(), config, modified, before) && #[trigger] considers(
            before,
            files.last(),
            config,
            modified,
            Ok(Some(found)),
        );
    let last = files.len() - 1;
    let rest = files.drop_last();
    let file = files[last];
    assert(before is Ok);
    assert forall|i: int| 0 <= i < last implies #[trigger] files[i] == rest[i] by {}
    let path = joined(config.checkpoint_dir, file.name@);
    match before->Ok_0 {
        None => {
            law_most_recent(rest, config, modified, times, None);
            last
        },
        Some(earlier) => {
            let at = law_first_of_most_recent(rest, config, modified, times, earlier);
            if is_candidate(file, config.checkpoint_prefix) && times(path) > earlier.1 {
                last
            } else {
                at
            }
        },
    }
}

/// Where no time of change fails, looking for the most recent checkpoint in a directory gives the
/// path of a file that starts as checkpoints do and that no such file was changed after, and nothing
/// exactly where there is no such file. A directory that cannot be listed is an error.
pub proof fn law_search<M: Fn(&String) -> Result<u128, String>>(
    listing: Result<Vec<FoundFile>, String>,
    config: ConfigView,
    modified: M,
    times: spec_fn(Seq<char>) -> u128,
    result: Result<Option<Seq<char>>, ErrorView>,
)
    requires
        forall|path: &String, answer: Result<u128, String>| #[trigger]
            call_ensures(modified, (path,), answer) ==> answer == Ok::<u128, String>(times(path@)),
        searches(listing, config, modified, result),
    ensures
        listing matches Err(text) ==> result == Err::<Option<Seq<char>>, ErrorView>(
            ErrorView::CheckpointIo(text@),
        ),
        result == Ok::<Option<Seq<char>>, ErrorView>(None) ==> forall|i: int|
            0 <= i < listing->Ok_0@.len() ==> !is_candidate(
                #[trigger] listing->Ok_0@[i],
                config.checkpoint_prefix,
            ),
        listing is Ok ==> result is Ok,
        result matches Ok(Some(path)) ==> {
            let files = listing->Ok_0@;
            &&& exists|i: int|
                0 <= i < files.len() && is_candidate(#[trigger] files[i], config.checkpoint_prefix)
                    && path == joined(config.checkpoint_dir, files[i].name@)
            &&& forall|i: int|
                0 <= i < files.len() && is_candidate(#[trigger] files[i], config.checkpoint_prefix)
                    ==> times(joined(config.checkpoint_dir, files[i].name@)) <= times(path)
        },
{
    if let Ok(files) = listing {
        let latest = choose|latest: Result<Option<Candidate>, ErrorView>| #[trigger]
            finds(files@, config, modified, latest) && found_name(latest) == result;
        lemma_search_succeeds(files@, config, modified, times, latest);
        law_most_recent(files@, config, modified, times, latest->Ok_0);
    }
}

proof fn lemma_search_succeeds<M: Fn(&String) -> Result<u128, String>>(
    files: Seq<FoundFile>,
    config: ConfigView,
    modified: M,
    times: spec_fn(Seq<char>) -> u128,
    latest: Result<Option<Candidate>, ErrorView>,
)
    requires
        forall|path: &String, answer: Result<u128, String>| #[trigger]
            call_ensures(modified, (path,), answer) ==> answer == Ok::<u128, String>(times(path@)),
        finds(files, config, modified, latest),
    ensures
        latest is Ok,
    decreases files.len(),
{
    if files.len() > 0 {
        let before = choose|before: Result<Option<Candidate>, ErrorView>|
            finds(files.drop_last(), config, modified, before) && #[trigger] considers(
                before,
                files.last(),
                config,
                modified,
                latest,
            );
        lemma_search_succeeds(files.drop_last(), config, modified, times, before);
    }
}

} // verus!
