//! Recovery of a graph, and the checkpoints that a graph makes of itself.

use vstd::prelude::*;

#[allow(unused_imports)]
use super::manager::{
    auto_created, auto_creates, created, creates, is_candidate, is_uuid_text, text_view,
    CheckpointsView, ConfigView,
};
use super::manager::{CheckpointManagerConfig, FoundFile};
#[allow(unused_imports)]
use super::names::joined;
use super::names::{join_path, starts_with};
use super::snapshot::GraphCheckpoint;
#[allow(unused_imports)]
use super::snapshot::{is_complete, restored};
#[allow(unused_imports)]
use crate::storage::error::ErrorView;
use crate::storage::error::{CheckpointError, StorageError, StorageResult};
#[allow(unused_imports)]
use crate::storage::tp::manager::ManagerView;
use crate::storage::tp::memory_graph::MemoryGraph;
#[allow(unused_imports)]
use crate::storage::tp::memory_graph::GraphView;
use crate::storage::tp::model::RedoEntry;
#[allow(unused_imports)]
use crate::storage::tp::model::{RedoView, StoreView};
use crate::storage::tp::outside::Outside;
#[allow(unused_imports)]
use crate::storage::tp::outside::{asked, goes_on, lemma_nothing, Event};
#[allow(unused_imports)]
use crate::storage::tp::transaction::redo_view;

verus! {

/// What a graph without a manager of checkpoints answers.
pub const NO_MANAGER: &'static str = "No checkpoint manager configured";

/// A file's path and when it was modified.
pub type Candidate = (Seq<char>, u128);

/// The more recent of a file and the most recent one so far. Of two that were modified at the same
/// time it is the first.
pub open spec fn more_recent(found: Option<Candidate>, path: Seq<char>, time: u128) -> Option<
    Candidate,
> {
    match found {
        Some(latest) => if time > latest.1 {
            Some((path, time))
        } else {
            Some(latest)
        },
        None => Some((path, time)),
    }
}

/// What considering one more file can come to.
pub open spec fn considers<M: Fn(&String) -> Result<u128, String>>(
    before: Result<Option<Candidate>, ErrorView>,
    file: FoundFile,
    config: ConfigView,
    modified: M,
    after: Result<Option<Candidate>, ErrorView>,
) -> bool {
    match before {
        Err(error) => after == Err::<Option<Candidate>, ErrorView>(error),
        Ok(found) => if is_candidate(file, config.checkpoint_prefix) {
            exists|path: String, answer: Result<u128, String>| #[trigger]
                call_ensures(modified, (&path,), answer) && path@ == joined(
                    config.checkpoint_dir,
                    file.name@,
                ) && match answer {
                    Ok(time) => after == Ok::<Option<Candidate>, ErrorView>(
                        more_recent(found, path@, time),
                    ),
                    Err(text) => after == Err::<Option<Candidate>, ErrorView>(
                        ErrorView::CheckpointIo(text@),
                    ),
                }
        } else {
            after == Ok::<Option<Candidate>, ErrorView>(found)
        },
    }
}

/// What looking for the most recent checkpoint among files can come to.
pub open spec fn finds<M: Fn(&String) -> Result<u128, String>>(
    files: Seq<FoundFile>,
    config: ConfigView,
    modified: M,
    result: Result<Option<Candidate>, ErrorView>,
) -> bool
    decreases files.len(),
{
    if files.len() == 0 {
        result == Ok::<Option<Candidate>, ErrorView>(None)
    } else {
        exists|before: Result<Option<Candidate>, ErrorView>|
            finds(files.drop_last(), config, modified, before) && #[trigger] considers(
                before,
                files.last(),
                config,
                modified,
                result,
            )
    }
}

proof fn lemma_error_stays<M: Fn(&String) -> Result<u128, String>>(
    files: Seq<FoundFile>,
    config: ConfigView,
    modified: M,
    error: ErrorView,
    n: int,
)
    requires
        0 <= n <= files.len(),
        finds(files.take(n), config, modified, Err(error)),
    ensures
        finds(files, config, modified, Err(error)),
    decreases files.len() - n,
{
    if n < files.len() {
        let more = files.take(n + 1);
        assert(more.drop_last() =~= files.take(n));
        assert(considers::<M>(Err(error), more.last(), config, modified, Err(error)));
        assert(finds(more, config, modified, Err(error)));
        lemma_error_stays(files, config, modified, error, n + 1);
    } else {
        assert(files.take(n) =~= files);
    }
}

/// What looking for the most recent checkpoint came to, as to the name.
pub open spec fn found_name(result: Result<Option<Candidate>, ErrorView>) -> Result<
    Option<Seq<char>>,
    ErrorView,
> {
    match result {
        Ok(Some(latest)) => Ok(Some(latest.0)),
        Ok(None) => Ok(None),
        Err(error) => Err(error),
    }
}

/// What a search came to.
pub open spec fn search_outcome(result: StorageResult<Option<String>>) -> Result<
    Option<Seq<char>>,
    ErrorView,
> {
    match result {
        Ok(name) => Ok(text_view(name)),
        Err(error) => Err(error@),
    }
}

/// What looking for the most recent checkpoint in a directory can come to.
pub open spec fn searches<M: Fn(&String) -> Result<u128, String>>(
    listing: Result<Vec<FoundFile>, String>,
    config: ConfigView,
    modified: M,
    result: Result<Option<Seq<char>>, ErrorView>,
) -> bool {
    match listing {
        Err(text) => result == Err::<Option<Seq<char>>, ErrorView>(
            ErrorView::CheckpointIo(text@),
        ),
        Ok(files) => exists|latest: Result<Option<Candidate>, ErrorView>| #[trigger]
            finds(files@, config, modified, latest) && found_name(latest) == result,
    }
}

/// The entries of the log from a position on.
pub open spec fn entries_from(entries: Seq<RedoView>, lsn: u64) -> Seq<RedoView> {
    entries.filter(|entry: RedoView| entry.lsn >= lsn)
}

/// Keeps the entries of the log from a position on.
fn keep_entries_from(entries: Vec<RedoEntry>, lsn: u64) -> (kept: Vec<RedoEntry>)
    ensures
        redo_view(kept@) == entries_from(redo_view(entries@), lsn),
{
    let ghost all = redo_view(entries@);
    let ghost passes = |entry: RedoView| entry.lsn >= lsn;
    let mut kept: Vec<RedoEntry> = Vec::new();
    let mut rest: Vec<RedoEntry> = entries;
    // The entries are taken from the front by going backwards through the reversed rest.
    let mut reversed: Vec<RedoEntry> = Vec::new();
    let count: usize = rest.len();
    for i in 0..count
        invariant
            rest@.len() == count - i,
            count == all.len(),
            reversed@.len() == i,
            forall|j: int| 0 <= j < count - i ==> (#[trigger] rest@[j])@ == all[j],
            forall|j: int| 0 <= j < i ==> (#[trigger] reversed@[j])@ == all[count - 1 - j],
    {
        if let Some(entry) = rest.pop() {
            reversed.push(entry);
        }
    }
    for i in 0..count
        invariant
            reversed@.len() == count - i,
            count == all.len(),
            passes == (|entry: RedoView| entry.lsn >= lsn),
            forall|j: int|
                0 <= j < count - i ==> (#[trigger] reversed@[j])@ == all[count - 1 - j],
            redo_view(kept@) == all.take(i as int).filter(passes),
    {
        let ghost earlier = all.take(i as int);
        let ghost before = kept@;
        assert(all.take(i + 1) =~= earlier.push(all[i as int]));
        if let Some(entry) = reversed.pop() {
            assert(entry@ == all[i as int]);
            proof {
                lemma_filter_push(earlier, all[i as int], passes);
            }
            if entry.lsn >= lsn {
                kept.push(entry);
                assert(redo_view(kept@) =~= redo_view(before).push(entry@));
            }
        }
    }
    assert(all.take(all.len() as int) =~= all);
    kept
}

proof fn lemma_filter_push(s: Seq<RedoView>, x: RedoView, passes: spec_fn(RedoView) -> bool)
    ensures
        s.push(x).filter(passes) == if passes(x) {
            s.filter(passes).push(x)
        } else {
            s.filter(passes)
        },
{
    reveal(Seq::filter);
    assert(s.push(x).drop_last() =~= s);
}

/// What a recovery can come to: the graph of the most recent checkpoint with the entries of the
/// log that are not in it applied, or an empty graph with all entries applied where there is none.
pub open spec fn recovers<
    L: Fn(&String) -> StorageResult<GraphCheckpoint>,
    R: Fn() -> StorageResult<Vec<RedoEntry>>,
    A: Fn(MemoryGraph, Vec<RedoEntry>) -> StorageResult<MemoryGraph>,
>(
    name: Option<Seq<char>>,
    config: ConfigView,
    load: L,
    read_all: R,
    apply: A,
    result: Result<GraphView, ErrorView>,
) -> bool {
    match name {
        None => replays_log(read_all, apply, empty_graph(config), 0, result),
        Some(name) => exists|path: String, answer: StorageResult<GraphCheckpoint>| #[trigger]
            call_ensures(load, (&path,), answer) && path@ == name && match answer {
                Err(error) => result == Err::<GraphView, ErrorView>(error@),
                Ok(checkpoint) => replays_log(
                    read_all,
                    apply,
                    restored(checkpoint@, config),
                    checkpoint.metadata.lsn,
                    result,
                ),
            },
    }
}

/// An empty graph, with a configuration for its checkpoints.
pub open spec fn empty_graph(config: ConfigView) -> GraphView {
    GraphView {
        store: StoreView {
            vertices: Map::empty(),
            edges: Map::empty(),
            adjacency: Map::empty(),
            undo: Map::empty(),
            next_undo: 0,
        },
        manager: ManagerView::initial(),
        next_lsn: 0,
        checkpoints: None,
        checkpoint_config: config,
    }
}

/// A graph without its manager of checkpoints.
pub open spec fn without_manager(graph: GraphView) -> GraphView {
    GraphView { checkpoints: None, ..graph }
}

/// What applying entries of the log to a graph can come to. Nothing is done where there are none.
pub open spec fn applies<A: Fn(MemoryGraph, Vec<RedoEntry>) -> StorageResult<MemoryGraph>>(
    apply: A,
    graph: GraphView,
    entries: Seq<RedoView>,
    result: Result<GraphView, ErrorView>,
) -> bool {
    if entries.len() == 0 {
        result == Ok::<GraphView, ErrorView>(graph)
    } else {
        exists|start: MemoryGraph, list: Vec<RedoEntry>, answer: StorageResult<MemoryGraph>|
            #[trigger]
            call_ensures(apply, (start, list), answer) && start@ == graph && redo_view(list@)
                == entries && recovered(answer) == result
    }
}

/// What reading the log and applying its entries from a position on, in the order of the log, can
/// come to.
pub open spec fn replays_log<
    R: Fn() -> StorageResult<Vec<RedoEntry>>,
    A: Fn(MemoryGraph, Vec<RedoEntry>) -> StorageResult<MemoryGraph>,
>(
    read_all: R,
    apply: A,
    graph: GraphView,
    lsn: u64,
    result: Result<GraphView, ErrorView>,
) -> bool {
    exists|answer: StorageResult<Vec<RedoEntry>>| #[trigger]
        call_ensures(read_all, (), answer) && match answer {
            Err(error) => result == Err::<GraphView, ErrorView>(error@),
            Ok(entries) => applies(apply, graph, entries_from(redo_view(entries@), lsn), result),
        }
}

/// What a recovery came to.
pub open spec fn recovered(result: StorageResult<MemoryGraph>) -> Result<GraphView, ErrorView> {
    match result {
        Ok(graph) => Ok(graph@),
        Err(error) => Err(error@),
    }
}

/// Reads the log and applies its entries from a position on.
fn replay_log<
    R: Fn() -> StorageResult<Vec<RedoEntry>>,
    A: Fn(MemoryGraph, Vec<RedoEntry>) -> StorageResult<MemoryGraph>,
>(graph: MemoryGraph, lsn: u64, read_all: &R, apply: &A) -> (result: StorageResult<MemoryGraph>)
    requires
        graph.wf(),
        call_requires(*read_all, ()),
        can_apply(*apply),
    ensures
        result matches Ok(after) ==> after.wf(),
        replays_log(*read_all, *apply, graph@, lsn, recovered(result)),
{
    match read_all() {
        Ok(all) => {
            let ghost entries = entries_from(redo_view(all@), lsn);
            let list = keep_entries_from(all, lsn);
            assert(redo_view(list@) == entries);
            if list.len() == 0 {
                assert(applies(*apply, graph@, entries, Ok(graph@)));
                return Ok(graph);
            }
            let result = apply(graph, list);
            assert(applies(*apply, graph@, entries, recovered(result)));
            result
        },
        Err(error) => Err(error),
    }
}

/// Whether entries of the log can be applied to every well-formed graph, and leave it well formed.
pub open spec fn can_apply<A: Fn(MemoryGraph, Vec<RedoEntry>) -> StorageResult<MemoryGraph>>(
    apply: A,
) -> bool {
    &&& forall|graph: MemoryGraph, list: Vec<RedoEntry>|
        graph.wf() ==> #[trigger] call_requires(apply, (graph, list))
    &&& forall|graph: MemoryGraph, list: Vec<RedoEntry>, after: MemoryGraph|
        graph.wf() && #[trigger] call_ensures(apply, (graph, list), Ok(after)) ==> after.wf()
}

impl MemoryGraph {
    /// The path of the file in a directory that was modified last and looks like a checkpoint.
    pub fn find_most_recent_checkpoint<M: Fn(&String) -> Result<u128, String>>(
        config: &CheckpointManagerConfig,
        listing: &Result<Vec<FoundFile>, String>,
        modified: &M,
    ) -> (result: StorageResult<Option<String>>)
        requires
            forall|path: &String| #[trigger] call_requires(*modified, (path,)),
        ensures
            searches(*listing, config@, *modified, search_outcome(result)),
    {
        let files = match listing {
            Ok(files) => files,
            Err(text) => {
                return Err(StorageError::Checkpoint(CheckpointError::Io(text.clone())));
            },
        };
        let mut latest_path: Option<String> = None;
        let mut latest_time: u128 = 0;
        let ghost mut latest: Option<Candidate> = None;
        assert(files@.take(0) =~= Seq::empty());
        for i in 0..files.len()
            invariant
                *listing == Ok::<Vec<FoundFile>, String>(*files),
                forall|path: &String| #[trigger] call_requires(*modified, (path,)),
                text_view(latest_path) == match latest {
                    Some(found) => Some(found.0),
                    None => None,
                },
                latest matches Some(found) ==> found.1 == latest_time,
                finds(files@.take(i as int), config@, *modified, Ok(latest)),
        {
            let file = &files[i];
            let ghost seen = files@.take(i + 1);
            let ghost before = latest;
            proof {
                assert(seen.drop_last() =~= files@.take(i as int));
                assert(seen.last() == *file);
            }
            if file.is_file && starts_with(file.name.as_str(), config.checkpoint_prefix.as_str()) {
                let path = join_path(config.checkpoint_dir.as_str(), file.name.as_str());
                let ghost full = path;
                let answer = modified(&path);
                assert(call_ensures(*modified, (&full,), answer));
                match answer {
                    Ok(time) => {
                        let newer = match &latest_path {
                            Some(_) => time > latest_time,
                            None => true,
                        };
                        if newer {
                            latest_path = Some(path);
                            latest_time = time;
                        }
                        proof {
                            latest = more_recent(before, full@, time);
                        }
                    },
                    Err(text) => {
                        let ghost error = ErrorView::CheckpointIo(text@);
                        proof {
                            assert(considers::<M>(
                                Ok(before),
                                seen.last(),
                                config@,
                                *modified,
                                Err(error),
                            ));
                            assert(finds(seen, config@, *modified, Err(error)));
                            lemma_error_stays(files@, config@, *modified, error, i + 1);
                            assert(exists|latest: Result<Option<Candidate>, ErrorView>| #[trigger]
                                finds(files@, config@, *modified, latest) && found_name(latest)
                                    == Err::<Option<Seq<char>>, ErrorView>(error)) by {
                                let failed: Result<Option<Candidate>, ErrorView> = Err(error);
                                assert(finds(files@, config@, *modified, failed));
                            }
                            assert(*listing matches Ok(all) && all@ == files@);
                        }
                        return Err(StorageError::Checkpoint(CheckpointError::Io(text)));
                    },
                }
            }
            proof {
                assert(considers::<M>(Ok(before), seen.last(), config@, *modified, Ok(latest)));
                assert(finds(seen, config@, *modified, Ok(latest)));
            }
        }
        assert(files@.take(files@.len() as int) =~= files@);
        Ok(latest_path)
    }

    /// Recovers a graph: from the most recent checkpoint and the entries of the log that are not in
    /// it, or from the log alone. The entries are handed to `apply`, in the order of the log,
    /// together with the graph that they are to be applied to. The graph has the configuration for
    /// its own checkpoints.
    pub fn recover_from_checkpoint_and_wal<
        M: Fn(&String) -> Result<u128, String>,
        L: Fn(&String) -> StorageResult<GraphCheckpoint>,
        R: Fn() -> StorageResult<Vec<RedoEntry>>,
        A: Fn(MemoryGraph, Vec<RedoEntry>) -> StorageResult<MemoryGraph>,
    >(
        config: &CheckpointManagerConfig,
        listing: &Result<Vec<FoundFile>, String>,
        modified: &M,
        load: &L,
        read_all: &R,
        apply: &A,
    ) -> (result: StorageResult<MemoryGraph>)
        requires
            forall|path: &String| #[trigger] call_requires(*modified, (path,)),
            forall|path: &String| #[trigger] call_requires(*load, (path,)),
            forall|path: &String, checkpoint: GraphCheckpoint| #[trigger]
                call_ensures(*load, (path,), Ok(checkpoint)) ==> is_complete(checkpoint@),
            call_requires(*read_all, ()),
            can_apply(*apply),
        ensures
            result matches Ok(graph) ==> graph.wf(),
            exists|found: Result<Option<Seq<char>>, ErrorView>| #[trigger]
                searches(*listing, config@, *modified, found) && match found {
                    Err(error) => recovered(result) == Err::<GraphView, ErrorView>(error),
                    Ok(name) => recovers(
                        name,
                        config@,
                        *load,
                        *read_all,
                        *apply,
                        recovered(result),
                    ),
                },
    {
        let found = match Self::find_most_recent_checkpoint(config, listing, modified) {
            Ok(found) => found,
            Err(error) => {
                assert(searches(
                    *listing,
                    config@,
                    *modified,
                    Err(error@),
                ));
                return Err(error);
            },
        };
        assert(searches(
            *listing,
            config@,
            *modified,
            Ok(text_view(found)),
        ));
        match found {
            None => {
                let graph = MemoryGraph::with_config_fresh(config.duplicate());
                replay_log(graph, 0, read_all, apply)
            },
            Some(path) => {
                let checkpoint = match load(&path) {
                    Ok(checkpoint) => checkpoint,
                    Err(error) => {
                        return Err(error);
                    },
                };
                let lsn: u64 = checkpoint.metadata.lsn;
                let graph = match checkpoint.restore(config.duplicate()) {
                    Ok(graph) => graph,
                    Err(error) => {
                        return Err(error);
                    },
                };
                let result = replay_log(graph, lsn, read_all, apply);
                assert(replays_log(
                    *read_all,
                    *apply,
                    restored(checkpoint@, config@),
                    lsn,
                    recovered(result),
                ));
                result
            },
        }
    }

    /// Makes a checkpoint with the manager of checkpoints.
    pub fn create_managed_checkpoint<O: Outside>(
        &mut self,
        description: Option<String>,
        out: &mut O,
    ) -> (result: StorageResult<String>)
        requires
            old(self).wf(),
        ensures
            final(self).wf(),
            goes_on(*old(out), *final(out)),
            match old(self)@.checkpoints {
                None => {
                    &&& final(self)@ == old(self)@
                    &&& asked(*old(out), *final(out)).len() == 0
                    &&& result matches Err(error) && error@ == ErrorView::DirectoryError(
                        NO_MANAGER@,
                    )
                },
                Some(before) => exists|id: Seq<char>, after: CheckpointsView| #[trigger]
                    is_uuid_text(id) && #[trigger] creates(
                        before,
                        without_manager(old(self)@),
                        text_view(description),
                        asked(*old(out), *final(out)),
                        id,
                        after,
                        without_manager(final(self)@),
                        created(result),
                    ) && final(self)@.checkpoints == Some(after),
            },
    {
        match self.checkpoint_manager.take() {
            Some(mut manager) => {
                let result = manager.create_checkpoint(self, description, out);
                let ghost after = manager@;
                self.checkpoint_manager = Some(manager);
                assert(self@.checkpoints == Some(after));
                result
            },
            None => {
                proof {
                    lemma_nothing(*out);
                }
                let text = NO_MANAGER.to_string();
                Err(StorageError::Checkpoint(CheckpointError::DirectoryError(text)))
            },
        }
    }

    /// Makes an automatic checkpoint if there is a manager of checkpoints and it is time for one.
    pub fn check_auto_checkpoint<O: Outside>(&mut self, out: &mut O) -> (result: StorageResult<
        Option<String>,
    >)
        requires
            old(self).wf(),
        ensures
            final(self).wf(),
            goes_on(*old(out), *final(out)),
            auto_checks(
                old(self)@,
                asked(*old(out), *final(out)),
                final(self)@,
                auto_created(result),
            ),
    {
        match self.checkpoint_manager.take() {
            Some(mut manager) => {
                let result = manager.check_auto_checkpoint(self, out);
                let ghost after = manager@;
                self.checkpoint_manager = Some(manager);
                assert(self@.checkpoints == Some(after));
                result
            },
            None => {
                proof {
                    lemma_nothing(*out);
                }
                Ok(None)
            },
        }
    }
}

/// Whether looking whether it is time for an automatic checkpoint leads from one state to another,
/// and asks that of the world.
pub open spec fn auto_checks(
    graph: GraphView,
    events: Seq<Event>,
    graph_after: GraphView,
    made: Result<Option<Seq<char>>, ErrorView>,
) -> bool {
    match graph.checkpoints {
        None => events.len() == 0 && graph_after == graph && made == Ok::<
            Option<Seq<char>>,
            ErrorView,
        >(None),
        Some(before) => exists|after: CheckpointsView| #[trigger]
            auto_creates(
                before,
                without_manager(graph),
                events,
                after,
                without_manager(graph_after),
                made,
            ) && graph_after.checkpoints == Some(after),
    }
}

/// Where there is no checkpoint, all entries of the log are applied.
pub proof fn law_whole_log(entries: Seq<RedoView>)
    ensures
        entries_from(entries, 0) == entries,
    decreases entries.len(),
{
    let passes = |entry: RedoView| entry.lsn >= 0u64;
    reveal(Seq::filter);
    if entries.len() > 0 {
        law_whole_log(entries.drop_last());
        assert(entries =~= entries.drop_last().push(entries.last()));
    } else {
        assert(entries.filter(passes) =~= entries);
    }
}

/// The most recent checkpoint is at least as recent as every other, where the files tell when they
/// were modified.
pub proof fn law_most_recent<M: Fn(&String) -> Result<u128, String>>(
    files: Seq<FoundFile>,
    config: ConfigView,
    modified: M,
    times: spec_fn(Seq<char>) -> u128,
    latest: Option<Candidate>,
)
    requires
        forall|path: &String, answer: Result<u128, String>| #[trigger]
            call_ensures(modified, (path,), answer) ==> answer == Ok::<u128, String>(times(path@)),
        finds(files, config, modified, Ok(latest)),
    ensures
        latest is None ==> forall|i: int|
            0 <= i < files.len() ==> !is_candidate(#[trigger] files[i], config.checkpoint_prefix),
        latest matches Some(found) ==> {
            &&& exists|i: int|
                0 <= i < files.len() && is_candidate(#[trigger] files[i], config.checkpoint_prefix)
                    && joined(config.checkpoint_dir, files[i].name@) == found.0
            &&& found.1 == times(found.0)
            &&& forall|i: int|
                0 <= i < files.len() && is_candidate(#[trigger] files[i], config.checkpoint_prefix)
                    ==> times(joined(config.checkpoint_dir, files[i].name@)) <= found.1
        },
    decreases files.len(),
{
    if files.len() > 0 {
        let before = choose|before: Result<Option<Candidate>, ErrorView>|
            finds(files.drop_last(), config, modified, before) && #[trigger] considers(
                before,
                files.last(),
                config,
                modified,
                Ok(latest),
            );
        let last = files.len() - 1;
        assert(before is Ok);
        law_most_recent(files.drop_last(), config, modified, times, before->Ok_0);
        assert forall|i: int| 0 <= i < last implies #[trigger] files[i] == files.drop_last()[i] by {}
        if is_candidate(files[last], config.checkpoint_prefix) {
            assert(latest == more_recent(
                before->Ok_0,
                joined(config.checkpoint_dir, files[last].name@),
                times(joined(config.checkpoint_dir, files[last].name@)),
            ));
        }
        if before->Ok_0 is Some && latest == before->Ok_0 {
            let found = latest->0;
            let i = choose|i: int|
                0 <= i < last && is_candidate(
                    #[trigger] files.drop_last()[i],
                    config.checkpoint_prefix,
                ) && joined(config.checkpoint_dir, files.drop_last()[i].name@) == found.0;
            assert(joined(config.checkpoint_dir, files[i].name@) == found.0);
        }
    }
}

} // verus!
