//! The manager of checkpoints: which there are, when to make one, and which to keep.

use chrono::Local;
use uuid::Uuid;
use vstd::prelude::*;

#[allow(unused_imports)]
use super::names::{id_in_name, joined, name_with_id, starts};
use super::names::{checkpoint_file, checkpoint_id, join_path, starts_with};
use super::snapshot::{CheckpointMetadata, GraphCheckpoint};
#[allow(unused_imports)]
use super::snapshot::{is_complete, is_snapshot, restored, saves, CheckpointView};
use crate::collections::skip::skip_map_is_empty;
use crate::common::text::text_eq;
#[allow(unused_imports)]
use crate::storage::error::ErrorView;
use crate::storage::error::{CheckpointError, StorageError, StorageResult};
use crate::storage::tp::memory_graph::MemoryGraph;
#[allow(unused_imports)]
use crate::storage::tp::memory_graph::GraphView;
use crate::storage::tp::outside::Outside;
#[allow(unused_imports)]
use crate::storage::tp::outside::{
    asked, goes_on, lemma_further, lemma_nothing, lemma_once, lemma_one_more, said, Event,
};
#[allow(unused_imports)]
use crate::storage::tp::transaction::outcome;

verus! {

/// The directory of the checkpoints, unless another is given.
pub const DEFAULT_CHECKPOINT_DIR: &'static str = "checkpoints";

/// What the names of the files start with, unless something else is given.
pub const DEFAULT_CHECKPOINT_PREFIX: &'static str = "checkpoint";

/// How many checkpoints are kept, unless another number is given.
pub const MAX_CHECKPOINTS: usize = 5;

/// How far apart automatic checkpoints are, in seconds, unless another distance is given.
pub const AUTO_CHECKPOINT_INTERVAL_SECS: u64 = 30;

/// How long active transactions are waited for, in seconds, unless another time is given.
pub const DEFAULT_CHECKPOINT_TIMEOUT_SECS: u64 = 30;

/// The number of nanoseconds in a second.
pub const NANOS_PER_SEC: u128 = 1_000_000_000;

/// What is known of a checkpoint that has a file.
#[derive(Debug)]
pub struct CheckpointEntry {
    /// The identifier.
    pub id: String,
    /// The path of the file: the directory of the checkpoints, and the name in it.
    pub path: String,
    /// What is known of the checkpoint itself.
    pub metadata: CheckpointMetadata,
    /// What somebody said of it.
    pub description: Option<String>,
    /// When the file was made, in seconds.
    pub created_at: u64,
}

/// What a checkpoint that has a file is.
pub struct EntryView {
    /// The identifier.
    pub id: Seq<char>,
    /// The path of the file: the directory of the checkpoints, and the name in it.
    pub path: Seq<char>,
    /// What is known of the checkpoint itself.
    pub metadata: CheckpointMetadata,
    /// What somebody said of it.
    pub description: Option<Seq<char>>,
    /// When the file was made, in seconds.
    pub created_at: u64,
}

/// What an optional text is.
pub open spec fn text_view(text: Option<String>) -> Option<Seq<char>> {
    match text {
        Some(text) => Some(text@),
        None => None,
    }
}

impl View for CheckpointEntry {
    type V = EntryView;

    open spec fn view(&self) -> EntryView {
        EntryView {
            id: self.id@,
            path: self.path@,
            metadata: self.metadata,
            description: text_view(self.description),
            created_at: self.created_at,
        }
    }
}

/// How checkpoints are made and kept.
#[derive(Debug)]
pub struct CheckpointManagerConfig {
    /// The directory of the checkpoints.
    pub checkpoint_dir: String,
    /// How many checkpoints are kept. Zero means all.
    pub max_checkpoints: usize,
    /// How far apart automatic checkpoints are, in seconds. Zero means that there are none.
    pub auto_checkpoint_interval_secs: u64,
    /// What the names of the files start with.
    pub checkpoint_prefix: String,
    /// How long active transactions are waited for, in seconds.
    pub transaction_timeout_secs: u64,
}

/// How checkpoints are made and kept.
pub struct ConfigView {
    /// The directory of the checkpoints.
    pub checkpoint_dir: Seq<char>,
    /// How many checkpoints are kept. Zero means all.
    pub max_checkpoints: usize,
    /// How far apart automatic checkpoints are, in seconds. Zero means that there are none.
    pub auto_checkpoint_interval_secs: u64,
    /// What the names of the files start with.
    pub checkpoint_prefix: Seq<char>,
    /// How long active transactions are waited for, in seconds.
    pub transaction_timeout_secs: u64,
}

impl View for CheckpointManagerConfig {
    type V = ConfigView;

    open spec fn view(&self) -> ConfigView {
        ConfigView {
            checkpoint_dir: self.checkpoint_dir@,
            max_checkpoints: self.max_checkpoints,
            auto_checkpoint_interval_secs: self.auto_checkpoint_interval_secs,
            checkpoint_prefix: self.checkpoint_prefix@,
            transaction_timeout_secs: self.transaction_timeout_secs,
        }
    }
}

impl Default for CheckpointManagerConfig {
    fn default() -> (config: Self)
        ensures
            config@ == (ConfigView {
                checkpoint_dir: DEFAULT_CHECKPOINT_DIR@,
                max_checkpoints: MAX_CHECKPOINTS,
                auto_checkpoint_interval_secs: AUTO_CHECKPOINT_INTERVAL_SECS,
                checkpoint_prefix: DEFAULT_CHECKPOINT_PREFIX@,
                transaction_timeout_secs: DEFAULT_CHECKPOINT_TIMEOUT_SECS,
            }),
    {
        CheckpointManagerConfig {
            checkpoint_dir: DEFAULT_CHECKPOINT_DIR.to_string(),
            max_checkpoints: MAX_CHECKPOINTS,
            auto_checkpoint_interval_secs: AUTO_CHECKPOINT_INTERVAL_SECS,
            checkpoint_prefix: DEFAULT_CHECKPOINT_PREFIX.to_string(),
            transaction_timeout_secs: DEFAULT_CHECKPOINT_TIMEOUT_SECS,
        }
    }
}

impl CheckpointManagerConfig {
    /// The same configuration again.
    pub fn duplicate(&self) -> (copy: Self)
        ensures
            copy@ == self@,
    {
        CheckpointManagerConfig {
            checkpoint_dir: self.checkpoint_dir.clone(),
            max_checkpoints: self.max_checkpoints,
            auto_checkpoint_interval_secs: self.auto_checkpoint_interval_secs,
            checkpoint_prefix: self.checkpoint_prefix.clone(),
            transaction_timeout_secs: self.transaction_timeout_secs,
        }
    }
}

/// A file that was found in the directory of the checkpoints.
#[derive(Debug)]
pub struct FoundFile {
    /// The name.
    pub name: String,
    /// Whether it is a regular file.
    pub is_file: bool,
}

/// The manager of the checkpoints of a graph.
#[derive(Debug)]
pub struct CheckpointManager {
    config: CheckpointManagerConfig,
    checkpoints: Vec<CheckpointEntry>,
    last_auto_checkpoint: Option<u128>,
}

/// What the manager of checkpoints holds.
#[verifier::ext_equal]
pub struct CheckpointsView {
    /// How checkpoints are made and kept.
    pub config: ConfigView,
    /// The checkpoints.
    pub entries: Seq<EntryView>,
    /// When the last checkpoint was made, in nanoseconds.
    pub last_auto: Option<u128>,
}

/// What checkpoints of a list are.
pub open spec fn listed_views(list: Seq<&CheckpointEntry>) -> Seq<EntryView> {
    list.map_values(|entry: &CheckpointEntry| entry@)
}

/// What checkpoints are.
pub open spec fn entry_views(entries: Seq<CheckpointEntry>) -> Seq<EntryView> {
    entries.map_values(|entry: CheckpointEntry| entry@)
}

impl View for CheckpointManager {
    type V = CheckpointsView;

    closed spec fn view(&self) -> CheckpointsView {
        CheckpointsView {
            config: self.config@,
            entries: entry_views(self.checkpoints@),
            last_auto: self.last_auto_checkpoint,
        }
    }
}

/// Whether the `i`th of the checkpoints has an identifier.
pub open spec fn has_id(entries: Seq<EntryView>, i: int, id: Seq<char>) -> bool {
    0 <= i < entries.len() && entries[i].id == id
}

/// Whether no two checkpoints have the same identifier.
pub open spec fn ids_differ(entries: Seq<EntryView>) -> bool {
    forall|i: int, j: int|
        0 <= i < j < entries.len() ==> (#[trigger] entries[i]).id != (#[trigger] entries[j]).id
}

/// Whether there is a checkpoint with an identifier.
pub open spec fn is_known(entries: Seq<EntryView>, id: Seq<char>) -> bool {
    exists|i: int| has_id(entries, i, id)
}

/// Where the checkpoint with an identifier is.
pub open spec fn position_of(entries: Seq<EntryView>, id: Seq<char>) -> int {
    choose|i: int| has_id(entries, i, id)
}

/// The checkpoints with one more. It takes the place of one with the same identifier.
pub open spec fn with_entry(entries: Seq<EntryView>, entry: EntryView) -> Seq<EntryView> {
    if is_known(entries, entry.id) {
        entries.update(position_of(entries, entry.id), entry)
    } else {
        entries.push(entry)
    }
}

/// Where the oldest of the checkpoints is: the first of those that were made at the same time.
pub open spec fn is_oldest(entries: Seq<EntryView>, i: int) -> bool {
    &&& 0 <= i < entries.len()
    &&& forall|j: int|
        0 <= j < entries.len() ==> entries[i].created_at <= (#[trigger] entries[j]).created_at
    &&& forall|j: int| 0 <= j < i ==> entries[i].created_at < (#[trigger] entries[j]).created_at
}

/// Where the oldest of the checkpoints is.
pub open spec fn oldest(entries: Seq<EntryView>) -> int {
    choose|i: int| is_oldest(entries, i)
}

/// How many checkpoints are too many.
pub open spec fn surplus(view: CheckpointsView) -> nat {
    if view.config.max_checkpoints == 0 || view.entries.len() <= view.config.max_checkpoints {
        0
    } else {
        (view.entries.len() - view.config.max_checkpoints) as nat
    }
}

/// Whether removing a number of the oldest checkpoints asks and comes to that. Where a file cannot
/// be removed, its checkpoint is forgotten nevertheless, and the others stay.
pub open spec fn prunes(
    entries: Seq<EntryView>,
    count: nat,
    events: Seq<Event>,
    after: Seq<EntryView>,
    result: Result<(), ErrorView>,
) -> bool
    decreases count,
{
    if count == 0 {
        events.len() == 0 && after == entries && result == Ok::<(), ErrorView>(())
    } else {
        let rest = entries.remove(oldest(entries));
        &&& events.len() > 0
        &&& events[0] matches Event::Remove(path, answer)
        &&& path == entries[oldest(entries)].path
        &&& match answer {
            Ok(_) => prunes(rest, (count - 1) as nat, events.drop_first(), after, result),
            Err(text) => events.len() == 1 && after == rest && result == Err::<(), ErrorView>(
                ErrorView::CheckpointIo(text),
            ),
        }
    }
}

/// Whether applying the retention policy asks and comes to that.
pub open spec fn retains(
    before: CheckpointsView,
    events: Seq<Event>,
    after: CheckpointsView,
    result: Result<(), ErrorView>,
) -> bool {
    &&& after.config == before.config
    &&& after.last_auto == before.last_auto
    &&& prunes(before.entries, surplus(before), events, after.entries, result)
}

/// Whether a file that was found looks like one of a checkpoint.
pub open spec fn is_candidate(file: FoundFile, prefix: Seq<char>) -> bool {
    file.is_file && starts(file.name@, prefix)
}

/// The entry of a checkpoint that was loaded from a file.
pub open spec fn entry_of(
    name: Seq<char>,
    config: ConfigView,
    metadata: CheckpointMetadata,
) -> EntryView {
    EntryView {
        id: id_in_name(name, config.checkpoint_prefix),
        path: joined(config.checkpoint_dir, name),
        metadata,
        description: None,
        created_at: metadata.timestamp,
    }
}

/// What looking at a file that was found can come to: what looks like a checkpoint and can be
/// loaded is one more checkpoint.
pub open spec fn looks_at<L: Fn(&String) -> StorageResult<GraphCheckpoint>>(
    entries: Seq<EntryView>,
    file: FoundFile,
    config: ConfigView,
    load: L,
    after: Seq<EntryView>,
) -> bool {
    if is_candidate(file, config.checkpoint_prefix) {
        exists|path: String, answer: StorageResult<GraphCheckpoint>| #[trigger]
            call_ensures(load, (&path,), answer) && path@ == joined(
                config.checkpoint_dir,
                file.name@,
            ) && match answer {
                Ok(checkpoint) => after == with_entry(
                    entries,
                    entry_of(file.name@, config, checkpoint.metadata),
                ),
                Err(_) => after == entries,
            }
    } else {
        after == entries
    }
}

/// What looking at files that were found, from the `i`th on, can come to.
pub open spec fn looks_through<L: Fn(&String) -> StorageResult<GraphCheckpoint>>(
    entries: Seq<EntryView>,
    files: Seq<FoundFile>,
    config: ConfigView,
    load: L,
    after: Seq<EntryView>,
) -> bool
    decreases files.len(),
{
    if files.len() == 0 {
        after == entries
    } else {
        exists|before: Seq<EntryView>|
            looks_through(entries, files.drop_last(), config, load, before) && #[trigger] looks_at(
                before,
                files.last(),
                config,
                load,
                after,
            )
    }
}

/// Whether a text is a hyphenated identifier: groups of eight, four, four, four and twelve lower
/// case hexadecimal digits.
pub open spec fn is_uuid_text(text: Seq<char>) -> bool {
    &&& text.len() == 36
    &&& forall|i: int|
        0 <= i < 36 ==> if i == 8 || i == 13 || i == 18 || i == 23 {
            #[trigger] text[i] == '-'
        } else {
            '0' <= text[i] <= '9' || 'a' <= text[i] <= 'f'
        }
}

/// `uuid::Uuid::new_v4` and its `to_string`: a random identifier in its hyphenated form. Which one
/// it is, is left to chance.
#[verifier::external_body]
fn random_id() -> (id: String)
    ensures
        is_uuid_text(id@),
{
    Uuid::new_v4().to_string()
}

/// `chrono::Local::now` and its `to_string`: the time of day as a text. Nothing is said of it, as
/// it depends on the clock and on where the machine is.
#[verifier::external_body]
fn local_time() -> (text: String) {
    Local::now().to_string()
}

pub(crate) proof fn lemma_position(entries: Seq<EntryView>, i: int, id: Seq<char>)
    requires
        ids_differ(entries),
        has_id(entries, i, id),
    ensures
        is_known(entries, id),
        position_of(entries, id) == i,
{
    let p = position_of(entries, id);
    assert(has_id(entries, p, id));
    if p < i {
        assert(entries[p].id != entries[i].id);
    } else if i < p {
        assert(entries[i].id != entries[p].id);
    }
}

pub(crate) proof fn lemma_with_entry(entries: Seq<EntryView>, entry: EntryView)
    requires
        ids_differ(entries),
    ensures
        ids_differ(with_entry(entries, entry)),
{
    let after = with_entry(entries, entry);
    if is_known(entries, entry.id) {
        let p = position_of(entries, entry.id);
        assert(has_id(entries, p, entry.id));
        assert forall|i: int, j: int| 0 <= i < j < after.len() implies (
        #[trigger] after[i]).id != (#[trigger] after[j]).id by {
            assert(entries[i].id != entries[j].id);
        }
    } else {
        assert forall|i: int, j: int| 0 <= i < j < after.len() implies (
        #[trigger] after[i]).id != (#[trigger] after[j]).id by {
            if j == entries.len() {
                assert(!has_id(entries, i, entry.id));
            } else {
                assert(entries[i].id != entries[j].id);
            }
        }
    }
}

proof fn lemma_removed(entries: Seq<EntryView>, i: int)
    requires
        ids_differ(entries),
        0 <= i < entries.len(),
    ensures
        ids_differ(entries.remove(i)),
{
    let after = entries.remove(i);
    assert forall|a: int, b: int| 0 <= a < b < after.len() implies (#[trigger] after[a]).id != (
    #[trigger] after[b]).id by {
        let a0 = if a < i {
            a
        } else {
            a + 1
        };
        let b0 = if b < i {
            b
        } else {
            b + 1
        };
        assert(entries[a0].id != entries[b0].id);
    }
}

impl CheckpointManager {
    /// Whether no two checkpoints have the same identifier.
    pub open spec fn wf(&self) -> bool {
        ids_differ(self@.entries)
    }

    /// Where the checkpoint with an identifier is, if there is one.
    fn find(&self, id: &str) -> (position: Option<usize>)
        ensures
            match position {
                Some(i) => i < self.checkpoints@.len() && has_id(self@.entries, i as int, id@),
                None => !is_known(self@.entries, id@),
            },
    {
        for i in 0..self.checkpoints.len()
            invariant
                forall|j: int| 0 <= j < i ==> !#[trigger] has_id(self@.entries, j, id@),
        {
            if text_eq(self.checkpoints[i].id.as_str(), id) {
                assert(has_id(self@.entries, i as int, id@));
                return Some(i);
            }
        }
        assert forall|j: int| !has_id(self@.entries, j, id@) by {}
        None
    }

    /// Adds a checkpoint. It takes the place of one with the same identifier.
    fn insert(&mut self, entry: CheckpointEntry)
        requires
            old(self).wf(),
        ensures
            final(self).wf(),
            final(self)@ == (CheckpointsView {
                entries: with_entry(old(self)@.entries, entry@),
                ..old(self)@
            }),
    {
        let ghost before = self@.entries;
        let ghost added = entry@;
        proof {
            lemma_with_entry(before, added);
        }
        match self.find(entry.id.as_str()) {
            Some(i) => {
                proof {
                    lemma_position(before, i as int, added.id);
                }
                self.checkpoints.set(i, entry);
            },
            None => {
                self.checkpoints.push(entry);
            },
        }
        assert(self@.entries =~= with_entry(before, added));
    }

    /// A manager of the checkpoints whose files were found. The error is that of looking for
    /// files, and what cannot be loaded is passed over.
    pub fn new<L: Fn(&String) -> StorageResult<GraphCheckpoint>>(
        config: CheckpointManagerConfig,
        listing: Result<Vec<FoundFile>, String>,
        load: &L,
    ) -> (result: StorageResult<Self>)
        requires
            forall|path: &String| #[trigger] call_requires(*load, (path,)),
        ensures
            match result {
                Ok(manager) => {
                    &&& manager.wf()
                    &&& manager@.config == config@
                    &&& manager@.last_auto is None
                    &&& listing matches Ok(files) && looks_through(
                        Seq::empty(),
                        files@,
                        config@,
                        *load,
                        manager@.entries,
                    )
                },
                Err(error) => listing matches Err(text) && error@ == ErrorView::CheckpointIo(text@),
            },
    {
        let files = match listing {
            Ok(files) => files,
            Err(text) => {
                return Err(StorageError::Checkpoint(CheckpointError::Io(text)));
            },
        };
        let mut manager = CheckpointManager {
            config,
            checkpoints: Vec::new(),
            last_auto_checkpoint: None,
        };
        assert(manager@.entries =~= Seq::empty());
        manager.load_existing_checkpoints(&files, load);
        Ok(manager)
    }

    /// Adds the checkpoints among files that were found.
    fn load_existing_checkpoints<L: Fn(&String) -> StorageResult<GraphCheckpoint>>(
        &mut self,
        files: &Vec<FoundFile>,
        load: &L,
    )
        requires
            old(self).wf(),
            forall|path: &String| #[trigger] call_requires(*load, (path,)),
        ensures
            final(self).wf(),
            final(self)@.config == old(self)@.config,
            final(self)@.last_auto == old(self)@.last_auto,
            looks_through(
                old(self)@.entries,
                files@,
                old(self)@.config,
                *load,
                final(self)@.entries,
            ),
    {
        let ghost config = self@.config;
        assert(files@.take(0) =~= Seq::empty());
        for i in 0..files.len()
            invariant
                self.wf(),
                self@.config == old(self)@.config,
                self@.last_auto == old(self)@.last_auto,
                config == self@.config,
                forall|path: &String| #[trigger] call_requires(*load, (path,)),
                looks_through(
                    old(self)@.entries,
                    files@.take(i as int),
                    config,
                    *load,
                    self@.entries,
                ),
        {
            let ghost before = self@.entries;
            let file = &files[i];
            if file.is_file && starts_with(
                file.name.as_str(),
                self.config.checkpoint_prefix.as_str(),
            ) {
                match self.load_checkpoint_entry(&file.name, load) {
                    Ok(entry) => {
                        self.insert(entry);
                    },
                    Err(_) => {},
                }
            }
            proof {
                assert(looks_at(before, *file, config, *load, self@.entries));
                let seen = files@.take(i + 1);
                assert(seen.drop_last() =~= files@.take(i as int));
                assert(seen.last() == *file);
                assert(looks_through(old(self)@.entries, seen.drop_last(), config, *load, before));
                assert(looks_through(old(self)@.entries, seen, config, *load, self@.entries));
            }
        }
        assert(files@.take(files@.len() as int) =~= files@);
    }

    /// The entry of the checkpoint in a file.
    fn load_checkpoint_entry<L: Fn(&String) -> StorageResult<GraphCheckpoint>>(
        &self,
        name: &String,
        load: &L,
    ) -> (result: StorageResult<CheckpointEntry>)
        requires
            forall|path: &String| #[trigger] call_requires(*load, (path,)),
        ensures
            exists|path: String, answer: StorageResult<GraphCheckpoint>| #[trigger]
                call_ensures(*load, (&path,), answer) && path@ == joined(
                    self@.config.checkpoint_dir,
                    name@,
                ) && match answer {
                    Ok(checkpoint) => result matches Ok(entry) && entry@ == entry_of(
                        name@,
                        self@.config,
                        checkpoint.metadata,
                    ),
                    Err(error) => result == Err::<CheckpointEntry, StorageError>(error),
                },
    {
        let path = join_path(self.config.checkpoint_dir.as_str(), name.as_str());
        let ghost full = path;
        let checkpoint = match load(&path) {
            Ok(checkpoint) => checkpoint,
            Err(error) => {
                return Err(error);
            },
        };
        assert(call_ensures(*load, (&full,), Ok(checkpoint)));
        let id = checkpoint_id(name.as_str(), self.config.checkpoint_prefix.as_str());
        Ok(
            CheckpointEntry {
                id,
                path,
                metadata: checkpoint.metadata,
                description: None,
                created_at: checkpoint.metadata.timestamp,
            },
        )
    }

    /// The checkpoint with an identifier.
    pub fn get_checkpoint(&self, id: &str) -> (result: StorageResult<&CheckpointEntry>)
        requires
            self.wf(),
        ensures
            match result {
                Ok(entry) => {
                    &&& is_known(self@.entries, id@)
                    &&& entry@ == self@.entries[position_of(self@.entries, id@)]
                    &&& entry@.id == id@
                },
                Err(error) => !is_known(self@.entries, id@) && error@
                    == ErrorView::CheckpointNotFound(id@),
            },
    {
        match self.find(id) {
            Some(i) => {
                proof {
                    lemma_position(self@.entries, i as int, id@);
                }
                Ok(&self.checkpoints[i])
            },
            None => Err(
                StorageError::Checkpoint(CheckpointError::CheckpointNotFound(id.to_string())),
            ),
        }
    }

    /// All checkpoints, the most recent ones first. The order of checkpoints that were made at the
    /// same time is left open.
    pub fn list_checkpoints(&self) -> (list: Vec<&CheckpointEntry>)
        ensures
            listed_views(list@).to_multiset() == self@.entries.to_multiset(),
            forall|i: int, j: int|
                0 <= i < j < list@.len() ==> (#[trigger] list@[i]).created_at >= (
                #[trigger] list@[j]).created_at,
    {
        let mut list: Vec<&CheckpointEntry> = Vec::new();
        assert(listed_views(list@) =~= self@.entries.take(0));
        for i in 0..self.checkpoints.len()
            invariant
                listed_views(list@).to_multiset() == self@.entries.take(i as int).to_multiset(),
                forall|a: int, b: int|
                    0 <= a < b < list@.len() ==> (#[trigger] list@[a]).created_at >= (
                    #[trigger] list@[b]).created_at,
        {
            let entry = &self.checkpoints[i];
            let ghost before = list@;
            let mut at: usize = 0;
            while at < list.len() && list[at].created_at >= entry.created_at
                invariant
                    at <= list@.len(),
                    list@ == before,
                    forall|a: int|
                        0 <= a < at ==> (#[trigger] list@[a]).created_at >= entry.created_at,
                decreases list@.len() - at,
            {
                at = at + 1;
            }
            list.insert(at, entry);
            proof {
                let added = entry@;
                vstd::seq_lib::to_multiset_insert(listed_views(before), at as int, added);
                assert(listed_views(list@) =~= listed_views(before).insert(at as int, added));
                let seen = self@.entries.take(i as int);
                vstd::seq_lib::to_multiset_build(seen, added);
                assert(self@.entries.take(i + 1) =~= seen.push(added));
            }
        }
        assert(self@.entries.take(self@.entries.len() as int) =~= self@.entries);
        list
    }

    /// Loads the checkpoint with an identifier.
    pub fn load_checkpoint<L: Fn(&String) -> StorageResult<GraphCheckpoint>>(
        &self,
        id: &str,
        load: &L,
    ) -> (result: StorageResult<GraphCheckpoint>)
        requires
            self.wf(),
            forall|path: &String| #[trigger] call_requires(*load, (path,)),
        ensures
            if is_known(self@.entries, id@) {
                exists|path: String| #[trigger]
                    call_ensures(*load, (&path,), result) && path@ == self@.entries[position_of(
                        self@.entries,
                        id@,
                    )].path
            } else {
                result matches Err(error) && error@ == ErrorView::CheckpointNotFound(id@)
            },
    {
        match self.get_checkpoint(id) {
            Ok(entry) => load(&entry.path),
            Err(error) => Err(error),
        }
    }

    /// The graph that the checkpoint with an identifier describes, with a configuration for the
    /// checkpoints of that graph.
    pub fn restore_from_checkpoint<L: Fn(&String) -> StorageResult<GraphCheckpoint>>(
        &self,
        id: &str,
        checkpoint_config: CheckpointManagerConfig,
        load: &L,
    ) -> (result: StorageResult<MemoryGraph>)
        requires
            self.wf(),
            forall|path: &String| #[trigger] call_requires(*load, (path,)),
            forall|path: &String, checkpoint: GraphCheckpoint| #[trigger]
                call_ensures(*load, (path,), Ok(checkpoint)) ==> is_complete(checkpoint@),
        ensures
            if is_known(self@.entries, id@) {
                exists|path: String, answer: StorageResult<GraphCheckpoint>| #[trigger]
                    call_ensures(*load, (&path,), answer) && path@ == self@.entries[position_of(
                        self@.entries,
                        id@,
                    )].path && match answer {
                        Ok(checkpoint) => result matches Ok(graph) && graph.wf() && graph@
                            == restored(checkpoint@, checkpoint_config@),
                        Err(error) => result == Err::<MemoryGraph, StorageError>(error),
                    }
            } else {
                result matches Err(error) && error@ == ErrorView::CheckpointNotFound(id@)
            },
    {
        match self.load_checkpoint(id, load) {
            Ok(checkpoint) => checkpoint.restore(checkpoint_config),
            Err(error) => Err(error),
        }
    }

    /// Forgets the checkpoint with an identifier and removes its file. The checkpoint is forgotten
    /// even where its file cannot be removed.
    pub fn delete_checkpoint<O: Outside>(&mut self, id: &str, out: &mut O) -> (result:
        StorageResult<()>)
        requires
            old(self).wf(),
        ensures
            final(self).wf(),
            goes_on(*old(out), *final(out)),
            if is_known(old(self)@.entries, id@) {
                let at = position_of(old(self)@.entries, id@);
                &&& final(self)@ == (CheckpointsView {
                    entries: old(self)@.entries.remove(at),
                    ..old(self)@
                })
                &&& asked(*old(out), *final(out)).len() == 1
                &&& asked(*old(out), *final(out))[0] matches Event::Remove(path, answer)
                &&& path == old(self)@.entries[at].path
                &&& outcome(result) == match answer {
                    Ok(_) => Ok::<(), ErrorView>(()),
                    Err(text) => Err(ErrorView::CheckpointIo(text)),
                }
            } else {
                &&& final(self)@ == old(self)@
                &&& asked(*old(out), *final(out)).len() == 0
                &&& result matches Err(error) && error@ == ErrorView::CheckpointNotFound(id@)
            },
    {
        let ghost before = self@.entries;
        match self.find(id) {
            Some(i) => {
                proof {
                    lemma_position(before, i as int, id@);
                    lemma_removed(before, i as int);
                }
                let entry = self.checkpoints.remove(i);
                assert(self@.entries =~= before.remove(i as int));
                let answer = out.remove(&entry.path);
                proof {
                    lemma_once(*old(out), *out, Event::Remove(entry.path@, said(answer)));
                }
                match answer {
                    Ok(unit) => Ok(unit),
                    Err(text) => Err(StorageError::Checkpoint(CheckpointError::Io(text))),
                }
            },
            None => {
                proof {
                    lemma_nothing(*out);
                }
                Err(StorageError::Checkpoint(CheckpointError::CheckpointNotFound(id.to_string())))
            },
        }
    }

    /// Where the oldest checkpoint is.
    fn find_oldest(&self) -> (at: usize)
        requires
            self@.entries.len() > 0,
        ensures
            is_oldest(self@.entries, at as int),
    {
        let mut at: usize = 0;
        for i in 0..self.checkpoints.len()
            invariant
                self@.entries.len() == self.checkpoints@.len(),
                self@.entries.len() > 0,
                at < self.checkpoints@.len(),
                at <= i,
                forall|j: int|
                    0 <= j < i ==> self@.entries[at as int].created_at <= (
                    #[trigger] self@.entries[j]).created_at,
                forall|j: int|
                    0 <= j < at ==> self@.entries[at as int].created_at < (
                    #[trigger] self@.entries[j]).created_at,
        {
            if self.checkpoints[i].created_at < self.checkpoints[at].created_at {
                assert(self@.entries[i as int].created_at < self@.entries[at as int].created_at);
                at = i;
            }
        }
        at
    }

    /// Keeps only as many checkpoints as are wanted, the most recent ones.
    pub fn apply_retention_policy<O: Outside>(&mut self, out: &mut O) -> (result: StorageResult<()>)
        requires
            old(self).wf(),
        ensures
            final(self).wf(),
            goes_on(*old(out), *final(out)),
            retains(old(self)@, asked(*old(out), *final(out)), final(self)@, outcome(result)),
    {
        proof {
            lemma_nothing(*out);
        }
        if self.config.max_checkpoints == 0 || self.checkpoints.len()
            <= self.config.max_checkpoints {
            return Ok(());
        }
        let to_delete: usize = self.checkpoints.len() - self.config.max_checkpoints;
        self.prune(to_delete, out)
    }

    /// Removes a number of the oldest checkpoints.
    fn prune<O: Outside>(&mut self, count: usize, out: &mut O) -> (result: StorageResult<()>)
        requires
            old(self).wf(),
            count <= old(self)@.entries.len(),
        ensures
            final(self).wf(),
            goes_on(*old(out), *final(out)),
            final(self)@.config == old(self)@.config,
            final(self)@.last_auto == old(self)@.last_auto,
            prunes(
                old(self)@.entries,
                count as nat,
                asked(*old(out), *final(out)),
                final(self)@.entries,
                outcome(result),
            ),
        decreases count,
    {
        let ghost first = *out;
        proof {
            lemma_nothing(*out);
        }
        if count == 0 {
            return Ok(());
        }
        let ghost before = self@.entries;
        let at: usize = self.find_oldest();
        proof {
            lemma_oldest(before, at as int);
            lemma_removed(before, at as int);
        }
        let entry = self.checkpoints.remove(at);
        assert(self@.entries =~= before.remove(at as int));
        let answer = out.remove(&entry.path);
        let ghost second = *out;
        proof {
            lemma_once(first, second, Event::Remove(entry.path@, said(answer)));
        }
        match answer {
            Ok(_) => {
                let result = self.prune(count - 1, out);
                proof {
                    lemma_further(first, second, *out);
                    assert(asked(first, *out).drop_first() =~= asked(second, *out));
                }
                result
            },
            Err(text) => Err(StorageError::Checkpoint(CheckpointError::Io(text))),
        }
    }
}

proof fn lemma_oldest(entries: Seq<EntryView>, i: int)
    requires
        is_oldest(entries, i),
    ensures
        oldest(entries) == i,
{
    let other = oldest(entries);
    assert(is_oldest(entries, other));
    if other < i {
        assert(entries[i].created_at < entries[other].created_at);
    } else if i < other {
        assert(entries[other].created_at < entries[i].created_at);
    }
}

/// A time in whole seconds.
pub open spec fn in_secs(time: u128) -> u64 {
    #[verifier::truncate]
    ((time / NANOS_PER_SEC) as u64)
}

/// The path of a checkpoint's file.
pub open spec fn path_with_id(config: ConfigView, id: Seq<char>) -> Seq<char> {
    joined(config.checkpoint_dir, name_with_id(config.checkpoint_prefix, id))
}

/// The manager after a checkpoint was saved, before any is removed.
pub open spec fn with_saved(
    before: CheckpointsView,
    id: Seq<char>,
    metadata: CheckpointMetadata,
    description: Option<Seq<char>>,
    created: u128,
    now: u128,
) -> CheckpointsView {
    CheckpointsView {
        entries: with_entry(
            before.entries,
            EntryView {
                id,
                path: path_with_id(before.config, id),
                metadata,
                description,
                created_at: in_secs(created),
            },
        ),
        last_auto: Some(now),
        ..before
    }
}

/// Whether keeping a checkpoint that was just made asks and comes to that: the log is truncated,
/// the checkpoint is saved, it becomes known, and those that are too many are removed. The first
/// of these that fails is the last.
pub open spec fn keeps(
    before: CheckpointsView,
    checkpoint: CheckpointView,
    description: Option<Seq<char>>,
    events: Seq<Event>,
    id: Seq<char>,
    after: CheckpointsView,
    result: Result<Seq<char>, ErrorView>,
) -> bool {
    let lsn = checkpoint.metadata.lsn;
    let path = path_with_id(before.config, id);
    let ended = match result {
        Ok(_) => Ok::<(), ErrorView>(()),
        Err(error) => Err(error),
    };
    &&& result matches Ok(text) ==> text == id
    &&& {
        ||| {
            &&& ended is Err
            &&& events == seq![Event::Truncate(lsn, ended)]
            &&& after == before
        }
        ||| {
            &&& ended is Err
            &&& events.len() > 0
            &&& events[0] == Event::Truncate(lsn, Ok(()))
            &&& saves(checkpoint, path, events.drop_first(), ended)
            &&& after == before
        }
        ||| {
            &&& events.len() >= 6
            &&& events[0] == Event::Truncate(lsn, Ok(()))
            &&& saves(checkpoint, path, events.subrange(1, 4), Ok(()))
            &&& events[4] matches Event::Time(created)
            &&& events[5] matches Event::Time(now)
            &&& retains(
                with_saved(before, id, checkpoint.metadata, description, created, now),
                events.skip(6),
                after,
                ended,
            )
        }
    }
}

/// Whether making a checkpoint asks and comes to that. While transactions are active none is made.
pub open spec fn creates(
    before: CheckpointsView,
    graph: GraphView,
    description: Option<Seq<char>>,
    events: Seq<Event>,
    id: Seq<char>,
    after: CheckpointsView,
    graph_after: GraphView,
    result: Result<Seq<char>, ErrorView>,
) -> bool {
    if graph.manager.active != Map::<u64, u64>::empty() {
        &&& result == Err::<Seq<char>, ErrorView>(ErrorView::Timeout)
        &&& events.len() == 0
        &&& after == before
        &&& graph_after == graph
    } else {
        &&& graph_after == (GraphView { next_lsn: graph.next_lsn.wrapping_add(1), ..graph })
        &&& events.len() > 0
        &&& events[0] matches Event::Time(time)
        &&& exists|checkpoint: CheckpointView| #[trigger]
            is_snapshot(checkpoint, graph, in_secs(time)) && keeps(
                before,
                checkpoint,
                description,
                events.drop_first(),
                id,
                after,
                result,
            )
    }
}

/// What making a checkpoint came to.
pub open spec fn created(result: StorageResult<String>) -> Result<Seq<char>, ErrorView> {
    match result {
        Ok(id) => Ok(id@),
        Err(error) => Err(error@),
    }
}

/// How waiting for active transactions goes on.
#[derive(Debug, Clone, Copy, PartialEq, Eq, Structural)]
pub enum Quiescence {
    /// None is active.
    Reached,
    /// Some are active.
    Waiting,
    /// Some have been active for too long.
    TimedOut,
}

/// Whether it is time for an automatic checkpoint: they are made at all, and there was none, it is
/// far enough back, or the clock has been set back since.
pub open spec fn is_due(view: CheckpointsView, now: u128) -> bool {
    view.config.auto_checkpoint_interval_secs != 0 && match view.last_auto {
        Some(last) => now < last || (now - last) / (NANOS_PER_SEC as int)
            >= view.config.auto_checkpoint_interval_secs,
        None => true,
    }
}

impl CheckpointManager {
    /// Whether active transactions are to be waited for, after some nanoseconds of waiting.
    pub fn wait_for_transaction_quiescence(&self, graph: &MemoryGraph, waited: u128) -> (state:
        Quiescence)
        requires
            graph.wf(),
        ensures
            state == if graph@.manager.active == Map::<u64, u64>::empty() {
                Quiescence::Reached
            } else if waited > self@.config.transaction_timeout_secs * NANOS_PER_SEC {
                Quiescence::TimedOut
            } else {
                Quiescence::Waiting
            },
    {
        if skip_map_is_empty(&graph.txn_manager.active_txns) {
            return Quiescence::Reached;
        }
        let limit: u128 = self.config.transaction_timeout_secs as u128 * NANOS_PER_SEC;
        if waited > limit {
            Quiescence::TimedOut
        } else {
            Quiescence::Waiting
        }
    }

    /// Makes a checkpoint under an identifier of its own, and returns the identifier. Active
    /// transactions must have been waited for: where some are left, time is up.
    pub fn create_checkpoint<O: Outside>(
        &mut self,
        graph: &mut MemoryGraph,
        description: Option<String>,
        out: &mut O,
    ) -> (result: StorageResult<String>)
        requires
            old(self).wf(),
            old(graph).wf(),
        ensures
            final(self).wf(),
            final(graph).wf(),
            goes_on(*old(out), *final(out)),
            exists|id: Seq<char>| #[trigger]
                is_uuid_text(id) && creates(
                    old(self)@,
                    old(graph)@,
                    text_view(description),
                    asked(*old(out), *final(out)),
                    id,
                    final(self)@,
                    final(graph)@,
                    created(result),
                ),
    {
        let id = random_id();
        assert(is_uuid_text(id@));
        self.create_checkpoint_as(graph, description, id, out)
    }

    /// Makes a checkpoint under a given identifier.
    pub fn create_checkpoint_as<O: Outside>(
        &mut self,
        graph: &mut MemoryGraph,
        description: Option<String>,
        id: String,
        out: &mut O,
    ) -> (result: StorageResult<String>)
        requires
            old(self).wf(),
            old(graph).wf(),
        ensures
            final(self).wf(),
            final(graph).wf(),
            goes_on(*old(out), *final(out)),
            creates(
                old(self)@,
                old(graph)@,
                text_view(description),
                asked(*old(out), *final(out)),
                id@,
                final(self)@,
                final(graph)@,
                created(result),
            ),
    {
        let ghost first = *out;
        proof {
            lemma_nothing(*out);
        }
        if !skip_map_is_empty(&graph.txn_manager.active_txns) {
            return Err(StorageError::Checkpoint(CheckpointError::Timeout));
        }
        let time: u128 = out.time();
        let ghost second = *out;
        proof {
            lemma_once(first, second, Event::Time(time));
        }
        let secs: u64 = #[verifier::truncate] ((time / NANOS_PER_SEC) as u64);
        let checkpoint = GraphCheckpoint::new(graph, secs);
        let ghost made = checkpoint@;
        assert(is_snapshot(made, old(graph)@, in_secs(time)));
        let result = self.keep_checkpoint(checkpoint, description, id, out);
        proof {
            lemma_further(first, second, *out);
            assert(asked(first, *out).drop_first() =~= asked(second, *out));
            assert(asked(first, *out)[0] == Event::Time(time));
            assert(keeps(
                old(self)@,
                made,
                text_view(description),
                asked(first, *out).drop_first(),
                id@,
                self@,
                created(result),
            ));
            assert(asked(first, *out)[0] matches Event::Time(shown) && is_snapshot(
                made,
                old(graph)@,
                in_secs(shown),
            ));
        }
        result
    }

    /// Truncates the log, saves a checkpoint, and removes those that are too many.
    fn keep_checkpoint<O: Outside>(
        &mut self,
        checkpoint: GraphCheckpoint,
        description: Option<String>,
        id: String,
        out: &mut O,
    ) -> (result: StorageResult<String>)
        requires
            old(self).wf(),
        ensures
            final(self).wf(),
            goes_on(*old(out), *final(out)),
            keeps(
                old(self)@,
                checkpoint@,
                text_view(description),
                asked(*old(out), *final(out)),
                id@,
                final(self)@,
                created(result),
            ),
    {
        let ghost before = self@;
        let ghost first = *out;
        let lsn: u64 = checkpoint.metadata.lsn;
        let answer = out.truncate(lsn);
        let ghost second = *out;
        proof {
            lemma_once(first, second, Event::Truncate(lsn, outcome(answer)));
        }
        match answer {
            Ok(_) => {},
            Err(error) => {
                return Err(error);
            },
        }
        let name = checkpoint_file(self.config.checkpoint_prefix.as_str(), id.as_str());
        let path = join_path(self.config.checkpoint_dir.as_str(), name.as_str());
        let saved = checkpoint.save_to_file(&path, out);
        let ghost third = *out;
        proof {
            lemma_further(first, second, third);
            assert(asked(first, third).drop_first() =~= asked(second, third));
            assert(asked(first, third)[0] == Event::Truncate(lsn, Ok(())));
        }
        match saved {
            Ok(_) => {},
            Err(error) => {
                return Err(error);
            },
        }
        assert(asked(second, third).len() == 3);
        let made: u128 = out.time();
        let ghost fourth = *out;
        proof {
            lemma_one_more(first, third, fourth, Event::Time(made));
        }
        let created_at: u64 = #[verifier::truncate] ((made / NANOS_PER_SEC) as u64);
        let entry = CheckpointEntry {
            id: id.clone(),
            path,
            metadata: checkpoint.metadata,
            description,
            created_at,
        };
        self.insert(entry);
        let now: u128 = out.time();
        let ghost fifth = *out;
        proof {
            lemma_one_more(first, fourth, fifth, Event::Time(now));
        }
        self.last_auto_checkpoint = Some(now);
        assert(self@ == with_saved(
            before,
            id@,
            checkpoint.metadata,
            text_view(description),
            made,
            now,
        ));
        let kept = self.apply_retention_policy(out);
        proof {
            lemma_further(first, fifth, *out);
            let events = asked(first, *out);
            assert(events.subrange(1, 4) =~= asked(second, third));
            assert(events.skip(6) =~= asked(fifth, *out));
            assert(events[0] == Event::Truncate(lsn, Ok(())));
            assert(events[4] == Event::Time(made));
            assert(events[5] == Event::Time(now));
        }
        match kept {
            Ok(_) => Ok(id),
            Err(error) => Err(error),
        }
    }

    /// Whether it is time for an automatic checkpoint.
    pub fn auto_checkpoint_due(&self, now: u128) -> (due: bool)
        ensures
            due == is_due(self@, now),
    {
        if self.config.auto_checkpoint_interval_secs == 0 {
            return false;
        }
        match self.last_auto_checkpoint {
            Some(last) => if now < last {
                true
            } else {
                (now - last) / NANOS_PER_SEC >= self.config.auto_checkpoint_interval_secs as u128
            },
            None => true,
        }
    }

    /// Makes an automatic checkpoint if it is time for one. Returns its identifier if one was made.
    pub fn check_auto_checkpoint<O: Outside>(&mut self, graph: &mut MemoryGraph, out: &mut O) -> (
    result: StorageResult<Option<String>>)
        requires
            old(self).wf(),
            old(graph).wf(),
        ensures
            final(self).wf(),
            final(graph).wf(),
            goes_on(*old(out), *final(out)),
            auto_creates(
                old(self)@,
                old(graph)@,
                asked(*old(out), *final(out)),
                final(self)@,
                final(graph)@,
                auto_created(result),
            ),
    {
        let ghost first = *out;
        proof {
            lemma_nothing(*out);
        }
        if self.config.auto_checkpoint_interval_secs == 0 {
            return Ok(None);
        }
        let now: u128 = out.time();
        let ghost second = *out;
        proof {
            lemma_once(first, second, Event::Time(now));
        }
        if !self.auto_checkpoint_due(now) {
            return Ok(None);
        }
        let mut description = AUTO_DESCRIPTION.to_string();
        let time = local_time();
        description.append(time.as_str());
        let ghost text = time@;
        assert(is_auto_description(description@)) by {
            assert(description@ == AUTO_DESCRIPTION@ + text);
        }
        let made = self.create_checkpoint(graph, Some(description), out);
        proof {
            lemma_further(first, second, *out);
            assert(asked(first, *out).drop_first() =~= asked(second, *out));
            assert(asked(first, *out)[0] == Event::Time(now));
        }
        match made {
            Ok(id) => Ok(Some(id)),
            Err(error) => Err(error),
        }
    }
}

/// What the description of an automatic checkpoint starts with, before the time of day.
pub const AUTO_DESCRIPTION: &'static str = "Auto checkpoint at ";

/// Whether a text is the description of an automatic checkpoint.
pub open spec fn is_auto_description(text: Seq<char>) -> bool {
    exists|time: Seq<char>| text == AUTO_DESCRIPTION@ + time
}

/// What looking whether it is time for a checkpoint came to.
pub open spec fn auto_created(result: StorageResult<Option<String>>) -> Result<
    Option<Seq<char>>,
    ErrorView,
> {
    match result {
        Ok(Some(id)) => Ok(Some(id@)),
        Ok(None) => Ok(None),
        Err(error) => Err(error@),
    }
}

/// Whether looking whether it is time for a checkpoint asks and comes to that. The clock is not
/// even looked at where there are to be no automatic checkpoints.
pub open spec fn auto_creates(
    before: CheckpointsView,
    graph: GraphView,
    events: Seq<Event>,
    after: CheckpointsView,
    graph_after: GraphView,
    result: Result<Option<Seq<char>>, ErrorView>,
) -> bool {
    if before.config.auto_checkpoint_interval_secs == 0 {
        &&& result == Ok::<Option<Seq<char>>, ErrorView>(None)
        &&& events.len() == 0
        &&& after == before
        &&& graph_after == graph
    } else {
        &&& events.len() > 0
        &&& events[0] matches Event::Time(now)
        &&& if is_due(before, now) {
            &&& exists|text: Seq<char>, id: Seq<char>| #[trigger]
                is_auto_description(text) && #[trigger] is_uuid_text(id) && creates(
                    before,
                    graph,
                    Some(text),
                    events.drop_first(),
                    id,
                    after,
                    graph_after,
                    match result {
                        Ok(Some(made)) => Ok(made),
                        Ok(None) => Err(ErrorView::Timeout),
                        Err(error) => Err(error),
                    },
                )
            &&& result !== Ok::<Option<Seq<char>>, ErrorView>(None)
        } else {
            &&& result == Ok::<Option<Seq<char>>, ErrorView>(None)
            &&& events.len() == 1
            &&& after == before
            &&& graph_after == graph
        }
    }
}

} // verus!
