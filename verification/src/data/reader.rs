//! Chunks of data, shared between independent cursors.
use std::sync::Arc;

use vstd::prelude::*;
use vstd::string::*;

use crate::sorted_map::inserted;
use crate::sorted_map::lemma_inserted;
use crate::sorted_map::lemma_removed;
use crate::sorted_map::lemma_viewed_below;
use crate::sorted_map::lemma_viewed_inserted;
use crate::sorted_map::lemma_viewed_removed;
use crate::sorted_map::lookup;
use crate::sorted_map::ordered;
use crate::sorted_map::removed;
use crate::sorted_map::viewed;
use crate::sorted_map::Ranked;
use crate::sorted_map::SortedMap;
use crate::text::is_text;
use crate::types::Event;

verus! {

/// The extension of the files that can be read.
pub open spec fn data_extension() -> Seq<char> {
    "npz"@
}

/// Why a chunk could not be made available.
#[derive(Clone, Copy, Debug, PartialEq, Eq, Structural)]
pub enum LoadFault {
    /// The file could not be read. The number is that of the failure, by which whoever tried to read
    /// the file knows more of it.
    Unreadable(usize),
    /// A local timestamp cannot be moved by the offset.
    LocalTimestampOverflow,
    /// A local timestamp is not after the exchange timestamp any more.
    LocalNotAfterExchange,
    /// The offset is too large.
    LatencyOffsetOverflow,
    /// An exchange timestamp cannot be moved by the offset.
    ExchangeTimestampOverflow,
    /// A response timestamp cannot be moved by the offset.
    ResponseTimestampOverflow,
}

impl LoadFault {
    /// What went wrong.
    pub open spec fn said(self) -> Seq<char> {
        match self {
            LoadFault::Unreadable(_) => "the file could not be read"@,
            LoadFault::LocalTimestampOverflow => "local timestamp offset overflow"@,
            LoadFault::LocalNotAfterExchange =>
                "local timestamp must be greater than exchange timestamp after adjustment"@,
            LoadFault::LatencyOffsetOverflow => "latency offset overflow"@,
            LoadFault::ExchangeTimestampOverflow => "exchange timestamp offset overflow"@,
            LoadFault::ResponseTimestampOverflow => "response timestamp offset overflow"@,
        }
    }

    /// Says what went wrong.
    pub fn message(&self) -> (r: &'static str)
        ensures
            r@ == self.said(),
    {
        match self {
            LoadFault::Unreadable(_) => "the file could not be read",
            LoadFault::LocalTimestampOverflow => "local timestamp offset overflow",
            LoadFault::LocalNotAfterExchange =>
                "local timestamp must be greater than exchange timestamp after adjustment",
            LoadFault::LatencyOffsetOverflow => "latency offset overflow",
            LoadFault::ExchangeTimestampOverflow => "exchange timestamp offset overflow",
            LoadFault::ResponseTimestampOverflow => "response timestamp offset overflow",
        }
    }
}

/// Changes the rows of a chunk before it is published.
pub trait Preprocessor<D>: Copy {
    /// The rows after the change. An implementation that is not verified leaves this open.
    open spec fn processed(&self, rows: Seq<D>) -> Result<Seq<D>, LoadFault> {
        arbitrary()
    }

    /// Whether rows are changed at all. Rows that are not need not be copied.
    fn changes(&self) -> (r: bool)
        ensures
            !r ==> forall|rows: Seq<D>| #[trigger]
                self.processed(rows) == Ok::<Seq<D>, LoadFault>(rows),
    {
        true
    }

    /// Changes the rows.
    fn process(&self, rows: Vec<D>) -> (r: Result<Vec<D>, LoadFault>)
        ensures
            match self.processed(rows@) {
                Ok(after) => r is Ok && r->Ok_0@ == after,
                Err(fault) => r == Err::<Vec<D>, LoadFault>(fault),
            },
    ;
}

/// Leaves the rows as they are.
#[derive(Clone, Copy, Debug)]
pub struct Unchanged;

impl<D> Preprocessor<D> for Unchanged {
    open spec fn processed(&self, rows: Seq<D>) -> Result<Seq<D>, LoadFault> {
        Ok(rows)
    }

    fn changes(&self) -> (r: bool) {
        false
    }

    fn process(&self, rows: Vec<D>) -> (r: Result<Vec<D>, LoadFault>) {
        Ok(rows)
    }
}

/// A file or immutable in-memory chunk consumed by a [`Reader`].
#[derive(Debug)]
pub enum DataSource<D> {
    /// A file, with the extension of its name.
    File {
        /// The path.
        path: String,
        /// The extension.
        extension: Option<String>,
    },
    /// Rows in memory.
    Memory(Arc<Vec<D>>),
}

/// A file or immutable in-memory chunk.
pub enum SourceModel<D> {
    /// A file, with the extension of its name.
    File {
        /// The path.
        path: Seq<char>,
        /// The extension.
        extension: Option<Seq<char>>,
    },
    /// Rows in memory.
    Memory(Seq<D>),
}

impl<D> View for DataSource<D> {
    type V = SourceModel<D>;

    open spec fn view(&self) -> SourceModel<D> {
        match self {
            DataSource::File { path, extension } => SourceModel::File {
                path: path@,
                extension: match extension {
                    Some(extension) => Some(extension@),
                    None => None,
                },
            },
            DataSource::Memory(rows) => SourceModel::Memory(rows@),
        }
    }
}

impl<D> DataSource<D> {
    /// Rows in memory.
    pub fn memory(rows: Vec<D>) -> (r: DataSource<D>)
        ensures
            r@ == SourceModel::<D>::Memory(rows@),
    {
        DataSource::Memory(Arc::new(rows))
    }

    /// A file, with the extension of its name.
    pub fn file(path: String, extension: Option<String>) -> (r: DataSource<D>)
        ensures
            r@ == (SourceModel::<D>::File {
                path: path@,
                extension: match extension {
                    Some(extension) => Some(extension@),
                    None => None,
                },
            }),
    {
        DataSource::File { path, extension }
    }
}

/// The sources, looked at one by one.
pub open spec fn source_views<D>(sources: Seq<DataSource<D>>) -> Seq<SourceModel<D>> {
    Seq::new(sources.len(), |i: int| sources[i]@)
}

/// Another pointer to the same rows.
///
/// Calls `Arc::clone`, of which its documentation says that it creates another pointer to the same
/// allocation: the rows behind both pointers are the same.
#[verifier::external_body]
pub(crate) fn share<D>(rows: &Arc<Vec<D>>) -> (r: Arc<Vec<D>>)
    ensures
        r == *rows,
{
    rows.clone()
}

/// What is known of a chunk.
#[derive(Debug)]
pub enum CacheEntry<D> {
    /// It is being loaded.
    Loading,
    /// It is loaded, and nobody has it yet.
    Ready(Arc<Vec<D>>),
    /// It is in use by this many holders.
    Shared(Arc<Vec<D>>, u64),
    /// It could not be loaded.
    Failed(LoadFault),
}

/// What is known of a chunk.
pub enum EntryModel<D> {
    /// It is being loaded.
    Loading,
    /// It is loaded, and nobody has it yet.
    Ready(Seq<D>),
    /// It is in use by this many holders.
    Shared(Seq<D>, u64),
    /// It could not be loaded.
    Failed(LoadFault),
}

impl<D> View for CacheEntry<D> {
    type V = EntryModel<D>;

    open spec fn view(&self) -> EntryModel<D> {
        match self {
            CacheEntry::Loading => EntryModel::Loading,
            CacheEntry::Ready(rows) => EntryModel::Ready(rows@),
            CacheEntry::Shared(rows, holders) => EntryModel::Shared(rows@, *holders),
            CacheEntry::Failed(fault) => EntryModel::Failed(*fault),
        }
    }
}

/// The chunks that are loaded or being loaded. Cursors over the same sources share one cache.
#[derive(Debug)]
pub struct Cache<D> {
    entries: SortedMap<usize, CacheEntry<D>>,
    queue: Vec<usize>,
}

/// The chunks that are loaded or being loaded.
#[verifier::ext_equal]
pub struct CacheModel<D> {
    /// What is known of the chunks, by their places among the sources.
    pub entries: Seq<(usize, EntryModel<D>)>,
    /// The chunks that someone has to load.
    pub queue: Seq<usize>,
}

impl<D> View for Cache<D> {
    type V = CacheModel<D>;

    closed spec fn view(&self) -> CacheModel<D> {
        CacheModel { entries: viewed(self.entries@), queue: self.queue@ }
    }
}

impl<D> CacheModel<D> {
    /// What is known of a chunk.
    pub open spec fn entry(self, key: usize) -> Option<EntryModel<D>> {
        lookup(self.entries, key as int)
    }

    /// The cache with something else known of a chunk.
    pub open spec fn with(self, key: usize, entry: EntryModel<D>) -> CacheModel<D> {
        CacheModel { entries: inserted(self.entries, key, entry), ..self }
    }

    /// The cache after a chunk was asked for.
    pub open spec fn asked(self, key: usize) -> CacheModel<D> {
        CacheModel { queue: self.queue.push(key), ..self.with(key, EntryModel::Loading) }
    }

    /// The rows of a chunk that can be handed out, and the cache after that.
    pub open spec fn checked_out(self, key: usize) -> (CacheModel<D>, Option<Seq<D>>) {
        match self.entry(key) {
            Some(EntryModel::Ready(rows)) => (
                self.with(key, EntryModel::Shared(rows, 1)),
                Some(rows),
            ),
            Some(EntryModel::Shared(rows, holders)) => if holders < u64::MAX {
                (self.with(key, EntryModel::Shared(rows, (holders + 1) as u64)), Some(rows))
            } else {
                (self, None)
            },
            _ => (self, None),
        }
    }

    /// The cache after a holder is done with a chunk. The last one takes the chunk with it.
    pub open spec fn released(self, key: usize) -> CacheModel<D> {
        match self.entry(key) {
            Some(EntryModel::Shared(rows, holders)) => if holders > 1 {
                self.with(key, EntryModel::Shared(rows, (holders - 1) as u64))
            } else {
                CacheModel { entries: removed(self.entries, key as int), ..self }
            },
            _ => self,
        }
    }
}

impl<D> Cache<D> {
    /// Whether the chunks are in order.
    pub closed spec fn wf(&self) -> bool {
        self.entries.wf()
    }

    /// The chunks of a cache stand in the order of their places.
    pub proof fn chunks_are_ordered(&self)
        requires
            self.wf(),
        ensures
            ordered(self@.entries),
    {
        assert forall|a: int, b: int| 0 <= a < b < self@.entries.len() implies (
        #[trigger] self@.entries[a]).0.rank() < (#[trigger] self@.entries[b]).0.rank() by {
            assert(self.entries@[a].0.rank() < self.entries@[b].0.rank());
        }
    }

    /// An empty cache.
    pub fn new() -> (r: Cache<D>)
        ensures
            r.wf(),
            r@ == (CacheModel::<D> { entries: Seq::empty(), queue: Seq::empty() }),
    {
        let r: Cache<D> = Cache { entries: SortedMap::new(), queue: Vec::new() };
        assert(r@ =~= (CacheModel::<D> { entries: Seq::empty(), queue: Seq::empty() }));
        r
    }

    /// Whether a chunk has to be loaded.
    pub fn needs_load(&self, key: usize) -> (r: bool)
        requires
            self.wf(),
        ensures
            r == (self@.entry(key) is None),
    {
        proof {
            lemma_viewed_below(self.entries@, key as int);
        }
        !self.entries.contains(&key)
    }

    /// Puts something known of a chunk in.
    fn put(&mut self, key: usize, entry: CacheEntry<D>)
        requires
            old(self).wf(),
        ensures
            final(self).wf(),
            final(self)@ == old(self)@.with(key, entry@),
    {
        proof {
            lemma_viewed_inserted(self.entries@, key, entry);
        }
        self.entries.insert(key, entry);
    }

    /// Asks for a chunk.
    pub fn prepare(&mut self, key: usize)
        requires
            old(self).wf(),
        ensures
            final(self).wf(),
            final(self)@ == old(self)@.asked(key),
    {
        self.put(key, CacheEntry::Loading);
        self.queue.push(key);
    }

    /// Takes the next chunk that someone has to load.
    pub fn take_request(&mut self) -> (r: Option<usize>)
        requires
            old(self).wf(),
        ensures
            final(self).wf(),
            match r {
                None => old(self)@.queue.len() == 0 && final(self)@ == old(self)@,
                Some(key) => old(self)@.queue.len() > 0 && key == old(self)@.queue[0]
                    && final(self)@ == (CacheModel { queue: old(self)@.queue.skip(1), ..old(self)@ }),
            },
    {
        if self.queue.len() == 0 {
            None
        } else {
            let key: usize = self.queue.remove(0);
            assert(self@ =~= (CacheModel { queue: old(self)@.queue.skip(1), ..old(self)@ }));
            Some(key)
        }
    }

    /// Publishes a chunk.
    pub fn set(&mut self, key: usize, rows: Arc<Vec<D>>)
        requires
            old(self).wf(),
        ensures
            final(self).wf(),
            final(self)@ == old(self)@.with(key, EntryModel::Ready(rows@)),
    {
        self.put(key, CacheEntry::Ready(rows));
    }

    /// Says that a chunk could not be loaded.
    pub fn fail(&mut self, key: usize, fault: LoadFault)
        requires
            old(self).wf(),
        ensures
            final(self).wf(),
            final(self)@ == old(self)@.with(key, EntryModel::Failed(fault)),
    {
        self.put(key, CacheEntry::Failed(fault));
    }

    /// Whether a chunk is being loaded.
    pub fn is_loading(&self, key: usize) -> (r: bool)
        requires
            self.wf(),
        ensures
            r == (self@.entry(key) == Some(EntryModel::<D>::Loading)),
    {
        proof {
            lemma_viewed_below(self.entries@, key as int);
        }
        match self.entries.get(&key) {
            Some(CacheEntry::Loading) => true,
            _ => false,
        }
    }

    /// Why a chunk could not be loaded, where it could not.
    pub fn error(&self, key: usize) -> (r: Option<LoadFault>)
        requires
            self.wf(),
        ensures
            r == match self@.entry(key) {
                Some(EntryModel::Failed(fault)) => Some(fault),
                _ => None,
            },
    {
        proof {
            lemma_viewed_below(self.entries@, key as int);
        }
        match self.entries.get(&key) {
            Some(CacheEntry::Failed(fault)) => Some(*fault),
            _ => None,
        }
    }

    /// Hands a chunk out to a further holder.
    pub fn checkout(&mut self, key: usize) -> (r: Option<Arc<Vec<D>>>)
        requires
            old(self).wf(),
        ensures
            final(self).wf(),
            final(self)@ == old(self)@.checked_out(key).0,
            match old(self)@.checked_out(key).1 {
                Some(rows) => r matches Some(found) && found@ == rows,
                None => r is None,
            },
    {
        proof {
            lemma_viewed_below(self.entries@, key as int);
        }
        let (rows, holders): (Arc<Vec<D>>, u64) = match self.entries.get(&key) {
            Some(CacheEntry::Ready(rows)) => (share(rows), 0),
            Some(CacheEntry::Shared(rows, holders)) => {
                if *holders == u64::MAX {
                    return None;
                }
                (share(rows), *holders)
            },
            _ => {
                return None;
            },
        };
        let kept: Arc<Vec<D>> = share(&rows);
        self.put(key, CacheEntry::Shared(kept, holders + 1));
        Some(rows)
    }

    /// Says that a holder is done with a chunk. After the last one the chunk is dropped.
    pub fn release(&mut self, key: usize)
        requires
            old(self).wf(),
        ensures
            final(self).wf(),
            final(self)@ == old(self)@.released(key),
    {
        proof {
            lemma_viewed_below(self.entries@, key as int);
            lemma_viewed_removed(self.entries@, key as int);
        }
        let (rows, holders): (Arc<Vec<D>>, u64) = match self.entries.get(&key) {
            Some(CacheEntry::Shared(rows, holders)) => (share(rows), *holders),
            _ => {
                return;
            },
        };
        if holders > 1 {
            self.put(key, CacheEntry::Shared(rows, holders - 1));
        } else {
            let _ = self.entries.remove(&key);
        }
    }
}

/// Why there is no next chunk.
#[derive(Debug)]
pub enum ReaderError {
    /// There is no further chunk.
    EndOfData,
    /// The file at this path has another extension than the files that can be read.
    UnsupportedExtension(String),
    /// The chunk from this path could not be made available.
    LoadFailed(String, LoadFault),
}

/// Why there is no next chunk.
pub enum ReaderFault {
    /// There is no further chunk.
    EndOfData,
    /// The file at this path has another extension than the files that can be read.
    UnsupportedExtension(Seq<char>),
    /// The chunk from this path could not be made available.
    LoadFailed(Seq<char>, LoadFault),
}

impl View for ReaderError {
    type V = ReaderFault;

    open spec fn view(&self) -> ReaderFault {
        match self {
            ReaderError::EndOfData => ReaderFault::EndOfData,
            ReaderError::UnsupportedExtension(path) => ReaderFault::UnsupportedExtension(path@),
            ReaderError::LoadFailed(path, fault) => ReaderFault::LoadFailed(path@, *fault),
        }
    }
}

impl ReaderFault {
    /// What went wrong.
    pub open spec fn said(self) -> Seq<char> {
        match self {
            ReaderFault::EndOfData => "end of data"@,
            ReaderFault::UnsupportedExtension(path) => "unsupported data file extension: "@ + path,
            ReaderFault::LoadFailed(path, _) => "failed to read "@ + path,
        }
    }
}

impl ReaderError {
    /// Says what went wrong.
    pub fn message(&self) -> (r: String)
        ensures
            r@ == self@.said(),
    {
        match self {
            ReaderError::EndOfData => "end of data".to_owned(),
            ReaderError::UnsupportedExtension(path) => {
                let mut text: String = "unsupported data file extension: ".to_owned();
                text.append(path.as_str());
                text
            },
            ReaderError::LoadFailed(path, _) => {
                let mut text: String = "failed to read ".to_owned();
                text.append(path.as_str());
                text
            },
        }
    }
}

/// What asking for a chunk does to the cache: rows in memory are published at once, and a file is
/// put in line to be loaded.
pub open spec fn chunk_asked<D>(source: SourceModel<D>, cache: CacheModel<D>, key: usize) -> Result<
    CacheModel<D>,
    ReaderFault,
> {
    if cache.entry(key) is Some {
        Ok(cache)
    } else {
        match source {
            SourceModel::Memory(rows) => Ok(cache.with(key, EntryModel::Ready(rows))),
            SourceModel::File { path, extension } => if extension == Some(data_extension()) {
                Ok(cache.asked(key))
            } else {
                Err(ReaderFault::UnsupportedExtension(path))
            },
        }
    }
}

/// The path of a source, in messages.
pub open spec fn source_path<D>(source: SourceModel<D>) -> Seq<char> {
    match source {
        SourceModel::File { path, .. } => path,
        SourceModel::Memory(_) => "<memory>"@,
    }
}

/// What asking for the next chunk gives: the cache, and the rows where they are there already. The
/// chunk behind it is asked for at the same time where chunks are loaded ahead.
pub open spec fn chunk_taken<D>(
    sources: Seq<SourceModel<D>>,
    parallel_load: bool,
    cache: CacheModel<D>,
    key: usize,
) -> Result<(CacheModel<D>, Option<Seq<D>>), ReaderFault> {
    if key >= sources.len() {
        Err(ReaderFault::EndOfData)
    } else {
        match chunk_asked(sources[key as int], cache, key) {
            Err(fault) => Err(fault),
            Ok(first) => {
                let ahead = if parallel_load && key + 1 < sources.len() {
                    chunk_asked(sources[key + 1], first, (key + 1) as usize)
                } else {
                    Ok(first)
                };
                match ahead {
                    Err(fault) => Err(fault),
                    Ok(asked) => match asked.entry(key) {
                        Some(EntryModel::Failed(fault)) => Err(
                            ReaderFault::LoadFailed(source_path(sources[key as int]), fault),
                        ),
                        _ => Ok(asked.checked_out(key)),
                    },
                }
            },
        }
    }
}

/// The cache after a chunk was asked for, and the one behind it where chunks are loaded ahead.
pub open spec fn cache_asked<D>(
    sources: Seq<SourceModel<D>>,
    parallel_load: bool,
    cache: CacheModel<D>,
    key: usize,
) -> CacheModel<D> {
    if key >= sources.len() {
        cache
    } else {
        match chunk_asked(sources[key as int], cache, key) {
            Err(_) => cache,
            Ok(first) => if parallel_load && key + 1 < sources.len() {
                match chunk_asked(sources[key + 1], first, (key + 1) as usize) {
                    Err(_) => first,
                    Ok(asked) => asked,
                }
            } else {
                first
            },
        }
    }
}

/// Builds a chunk reader.
#[derive(Debug)]
pub struct ReaderBuilder<D, P> {
    /// The chunks, in chronological order.
    pub sources: Vec<DataSource<D>>,
    /// Whether the chunk behind the next one is loaded at the same time.
    pub parallel_load: bool,
    /// What is done to the rows of a chunk before it is published.
    pub preprocessor: P,
}

/// The sources after the rows in memory were changed.
pub open spec fn prepared<D, P: Preprocessor<D>>(
    preprocessor: P,
    sources: Seq<SourceModel<D>>,
) -> Result<Seq<SourceModel<D>>, LoadFault>
    decreases sources.len(),
{
    if sources.len() == 0 {
        Ok(Seq::empty())
    } else {
        match prepared(preprocessor, sources.drop_last()) {
            Err(fault) => Err(fault),
            Ok(before) => match sources.last() {
                SourceModel::File { .. } => Ok(before.push(sources.last())),
                SourceModel::Memory(rows) => match preprocessor.processed(rows) {
                    Err(fault) => Err(fault),
                    Ok(after) => Ok(before.push(SourceModel::Memory(after))),
                },
            },
        }
    }
}

impl<D> ReaderBuilder<D, Unchanged> {
    /// A reader without chunks.
    pub fn new() -> (r: ReaderBuilder<D, Unchanged>)
        ensures
            r.sources@.len() == 0,
            !r.parallel_load,
    {
        ReaderBuilder { sources: Vec::new(), parallel_load: false, preprocessor: Unchanged }
    }
}

impl<D: Copy, P: Preprocessor<D>> ReaderBuilder<D, P> {
    /// Says whether the chunk behind the next one is loaded at the same time.
    pub fn parallel_load(self, parallel_load: bool) -> (r: ReaderBuilder<D, P>)
        ensures
            r == (ReaderBuilder { parallel_load, ..self }),
    {
        ReaderBuilder { sources: self.sources, parallel_load, preprocessor: self.preprocessor }
    }

    /// Says what is done to the rows of a chunk before it is published.
    pub fn preprocess<F: Preprocessor<D>>(self, preprocessor: F) -> (r: ReaderBuilder<D, F>)
        ensures
            r.sources == self.sources,
            r.parallel_load == self.parallel_load,
            r.preprocessor == preprocessor,
    {
        ReaderBuilder { sources: self.sources, parallel_load: self.parallel_load, preprocessor }
    }

    /// Sets chunks in chronological order.
    pub fn data(self, data: Vec<DataSource<D>>) -> (r: ReaderBuilder<D, P>)
        ensures
            r == (ReaderBuilder { sources: data, ..self }),
    {
        ReaderBuilder {
            sources: data,
            parallel_load: self.parallel_load,
            preprocessor: self.preprocessor,
        }
    }

    /// Builds the reader. The rows in memory are changed now, on a copy of their own, and those of
    /// files when they are loaded. Rows that are not changed are shared, not copied.
    pub fn build(self) -> (r: Result<Reader<D, P>, LoadFault>)
        ensures
            match prepared(self.preprocessor, source_views(self.sources@)) {
                Ok(sources) => {
                    &&& r is Ok
                    &&& r->Ok_0.chunks() == sources
                    &&& r->Ok_0.place() == 0
                    &&& r->Ok_0.loads_ahead() == self.parallel_load
                    &&& r->Ok_0.change() == self.preprocessor
                },
                Err(fault) => r is Err && r->Err_0 == fault,
            },
    {
        let mut sources: Vec<DataSource<D>> = Vec::new();
        let ghost all = source_views(self.sources@);
        let given: Vec<DataSource<D>> = self.sources;
        let changes: bool = self.preprocessor.changes();
        let mut i: usize = 0;
        assert(all.take(0) =~= Seq::empty());
        assert(source_views(sources@) =~= Seq::empty());
        while i < given.len()
            invariant
                i <= given@.len(),
                all == source_views(given@),
                all == source_views(self.sources@),
                !changes ==> forall|rows: Seq<D>| #[trigger]
                    self.preprocessor.processed(rows) == Ok::<Seq<D>, LoadFault>(rows),
                prepared(self.preprocessor, all.take(i as int)) == Ok::<
                    Seq<SourceModel<D>>,
                    LoadFault,
                >(source_views(sources@)),
            decreases given@.len() - i,
        {
            let ghost before = source_views(sources@);
            proof {
                assert(all.take(i + 1).drop_last() =~= all.take(i as int));
                assert(all.take(i + 1).last() == given@[i as int]@);
                lemma_prepared_fault(self.preprocessor, all, i + 1);
            }
            let source: DataSource<D> = match &given[i] {
                DataSource::File { path, extension } => DataSource::File {
                    path: path.as_str().to_owned(),
                    extension: match extension {
                        Some(extension) => Some(extension.as_str().to_owned()),
                        None => None,
                    },
                },
                DataSource::Memory(rows) => if !changes {
                    DataSource::Memory(share(rows))
                } else {
                    match self.preprocessor.process(copy_rows(rows)) {
                        Ok(rows) => DataSource::Memory(Arc::new(rows)),
                        Err(fault) => {
                            return Err(fault);
                        },
                    }
                },
            };
            let ghost last = source@;
            sources.push(source);
            assert(source_views(sources@) =~= before.push(last));
            i = i + 1;
        }
        assert(all.take(i as int) =~= all);
        Ok(
            Reader {
                sources: Arc::new(sources),
                next_source: 0,
                parallel_load: self.parallel_load,
                preprocessor: self.preprocessor,
            },
        )
    }
}

/// Copies rows.
fn copy_rows<D: Copy>(rows: &Vec<D>) -> (r: Vec<D>)
    ensures
        r@ == rows@,
{
    let mut r: Vec<D> = Vec::new();
    let mut i: usize = 0;
    while i < rows.len()
        invariant
            i <= rows@.len(),
            r@ =~= rows@.take(i as int),
        decreases rows@.len() - i,
    {
        r.push(rows[i]);
        i = i + 1;
    }
    r
}

/// A fault among the first sources stays the first one.
proof fn lemma_prepared_fault<D, P: Preprocessor<D>>(
    preprocessor: P,
    sources: Seq<SourceModel<D>>,
    k: int,
)
    requires
        0 <= k <= sources.len(),
    ensures
        prepared(preprocessor, sources.take(k)) matches Err(fault) ==> prepared(
            preprocessor,
            sources,
        ) == Err::<Seq<SourceModel<D>>, LoadFault>(fault),
    decreases sources.len(),
{
    if k == sources.len() {
        assert(sources.take(k) =~= sources);
    } else {
        assert(sources.drop_last().take(k) =~= sources.take(k));
        lemma_prepared_fault(preprocessor, sources.drop_last(), k);
    }
}

/// A cursor over chunks, which are loaded once and shared between cursors.
///
/// The cursor says which chunks have to be loaded, by putting them in line in the cache. Whoever
/// loads them hands them back with [`Reader::publish`].
#[derive(Debug)]
pub struct Reader<D, P> {
    sources: Arc<Vec<DataSource<D>>>,
    next_source: usize,
    parallel_load: bool,
    preprocessor: P,
}

impl<D> Reader<D, Unchanged> {
    /// A builder of a reader without chunks.
    pub fn builder() -> (r: ReaderBuilder<D, Unchanged>)
        ensures
            r.sources@.len() == 0,
            !r.parallel_load,
    {
        ReaderBuilder::new()
    }
}

impl<D, P> Reader<D, P> {
    /// The chunks.
    pub closed spec fn chunks(&self) -> Seq<SourceModel<D>> {
        source_views(self.sources@)
    }

    /// The place of the next chunk.
    pub closed spec fn place(&self) -> usize {
        self.next_source
    }

    /// Whether the chunk behind the next one is loaded at the same time.
    pub closed spec fn loads_ahead(&self) -> bool {
        self.parallel_load
    }

    /// What is done to the rows of a chunk before it is published.
    pub closed spec fn change(&self) -> P {
        self.preprocessor
    }
}

impl<D: Copy, P: Preprocessor<D>> Reader<D, P> {
    /// A further cursor at the same place.
    pub fn fork(&self) -> (r: Reader<D, P>)
        ensures
            r.chunks() == self.chunks(),
            r.place() == self.place(),
            r.loads_ahead() == self.loads_ahead(),
            r.change() == self.change(),
    {
        Reader {
            sources: share(&self.sources),
            next_source: self.next_source,
            parallel_load: self.parallel_load,
            preprocessor: self.preprocessor,
        }
    }

    /// Asks for the next chunk. There is none yet where it has to be loaded first: then its place is
    /// in line in the cache, and the cursor stays. Otherwise the cursor moves on.
    pub fn next_data(&mut self, cache: &mut Cache<D>) -> (r: Result<
        Option<Arc<Vec<D>>>,
        ReaderError,
    >)
        requires
            old(cache).wf(),
        ensures
            final(cache).wf(),
            final(self).chunks() == old(self).chunks(),
            final(self).loads_ahead() == old(self).loads_ahead(),
            final(self).change() == old(self).change(),
            match chunk_taken(
                old(self).chunks(),
                old(self).loads_ahead(),
                old(cache)@,
                old(self).place(),
            ) {
                Ok(after) => {
                    &&& r is Ok
                    &&& final(cache)@ == after.0
                    &&& match after.1 {
                        Some(rows) => r->Ok_0 matches Some(found) && found@ == rows
                            && final(self).place() == old(self).place() + 1,
                        None => r->Ok_0 is None && final(self).place() == old(self).place(),
                    }
                },
                Err(fault) => {
                    &&& r is Err
                    &&& r->Err_0@ == fault
                    &&& final(self).place() == old(self).place()
                    &&& final(cache)@ == cache_asked(
                        old(self).chunks(),
                        old(self).loads_ahead(),
                        old(cache)@,
                        old(self).place(),
                    )
                },
            },
    {
        let key: usize = self.next_source;
        if key >= self.sources.len() {
            return Err(ReaderError::EndOfData);
        }
        match self.load_data(cache, key) {
            Ok(()) => {},
            Err(error) => {
                return Err(error);
            },
        }
        if self.parallel_load && key + 1 < self.sources.len() {
            match self.load_data(cache, key + 1) {
                Ok(()) => {},
                Err(error) => {
                    return Err(error);
                },
            }
        }
        if let Some(fault) = cache.error(key) {
            let path: String = match &self.sources[key] {
                DataSource::File { path, .. } => path.as_str().to_owned(),
                DataSource::Memory(_) => "<memory>".to_owned(),
            };
            return Err(ReaderError::LoadFailed(path, fault));
        }
        match cache.checkout(key) {
            Some(rows) => {
                self.next_source = key + 1;
                Ok(Some(rows))
            },
            None => Ok(None),
        }
    }

    /// Asks for a chunk.
    fn load_data(&self, cache: &mut Cache<D>, key: usize) -> (r: Result<(), ReaderError>)
        requires
            old(cache).wf(),
            key < self.chunks().len(),
        ensures
            final(cache).wf(),
            match chunk_asked(self.chunks()[key as int], old(cache)@, key) {
                Ok(after) => r is Ok && final(cache)@ == after,
                Err(fault) => r is Err && r->Err_0@ == fault && final(cache)@ == old(cache)@,
            },
    {
        if !cache.needs_load(key) {
            return Ok(());
        }
        match &self.sources[key] {
            DataSource::Memory(rows) => {
                cache.set(key, share(rows));
                Ok(())
            },
            DataSource::File { path, extension } => {
                let supported: bool = match extension {
                    Some(extension) => is_text(extension, "npz"),
                    None => false,
                };
                if !supported {
                    return Err(ReaderError::UnsupportedExtension(path.as_str().to_owned()));
                }
                cache.prepare(key);
                Ok(())
            },
        }
    }

    /// The place of the next chunk.
    pub fn next_place(&self) -> (r: usize)
        ensures
            r == self.place(),
    {
        self.next_source
    }

    /// The path of a chunk that someone has to load.
    pub fn path(&self, key: usize) -> (r: Option<String>)
        ensures
            (if key < self.chunks().len() {
                match self.chunks()[key as int] {
                    SourceModel::File { path, .. } => r matches Some(found) && found@ == path,
                    SourceModel::Memory(_) => r is None,
                }
            } else {
                r is None
            }),
    {
        if key >= self.sources.len() {
            return None;
        }
        match &self.sources[key] {
            DataSource::File { path, .. } => Some(path.as_str().to_owned()),
            DataSource::Memory(_) => None,
        }
    }

    /// Publishes what was loaded for a chunk: its rows are changed, and are there from then on.
    pub fn publish(&self, cache: &mut Cache<D>, key: usize, loaded: Result<Vec<D>, LoadFault>)
        requires
            old(cache).wf(),
        ensures
            final(cache).wf(),
            final(cache)@ == old(cache)@.with(
                key,
                match loaded {
                    Err(fault) => EntryModel::Failed(fault),
                    Ok(rows) => match self.change().processed(rows@) {
                        Ok(after) => EntryModel::Ready(after),
                        Err(fault) => EntryModel::Failed(fault),
                    },
                },
            ),
    {
        match loaded {
            Err(fault) => {
                cache.fail(key, fault);
            },
            Ok(rows) => match self.preprocessor.process(rows) {
                Ok(rows) => {
                    cache.set(key, Arc::new(rows));
                },
                Err(fault) => {
                    cache.fail(key, fault);
                },
            },
        }
    }
}

/// An event whose local timestamp is moved by an offset.
pub open spec fn event_moved(event: Event, latency_offset: i64) -> Result<Event, LoadFault> {
    let local_ts = event.local_ts + latency_offset;
    if local_ts < i64::MIN || local_ts > i64::MAX {
        Err(LoadFault::LocalTimestampOverflow)
    } else if local_ts <= event.exch_ts {
        Err(LoadFault::LocalNotAfterExchange)
    } else {
        Ok(Event { local_ts: local_ts as i64, ..event })
    }
}

/// Events whose local timestamps are moved by an offset.
pub open spec fn events_moved(events: Seq<Event>, latency_offset: i64) -> Result<
    Seq<Event>,
    LoadFault,
>
    decreases events.len(),
{
    if events.len() == 0 {
        Ok(Seq::empty())
    } else {
        match events_moved(events.drop_last(), latency_offset) {
            Err(fault) => Err(fault),
            Ok(before) => match event_moved(events.last(), latency_offset) {
                Err(fault) => Err(fault),
                Ok(event) => Ok(before.push(event)),
            },
        }
    }
}

/// A fault among the first events stays the first one.
proof fn lemma_events_fault(events: Seq<Event>, latency_offset: i64, k: int)
    requires
        0 <= k <= events.len(),
    ensures
        events_moved(events.take(k), latency_offset) matches Err(fault) ==> events_moved(
            events,
            latency_offset,
        ) == Err::<Seq<Event>, LoadFault>(fault),
    decreases events.len(),
{
    if k == events.len() {
        assert(events.take(k) =~= events);
    } else {
        assert(events.drop_last().take(k) =~= events.take(k));
        lemma_events_fault(events.drop_last(), latency_offset, k);
    }
}

/// The event at which moving stops: its local timestamp is moved already, where it can be.
pub open spec fn event_left(event: Event, latency_offset: i64) -> Event {
    let local_ts = event.local_ts + latency_offset;
    if local_ts < i64::MIN || local_ts > i64::MAX {
        event
    } else {
        Event { local_ts: local_ts as i64, ..event }
    }
}

/// Whether moving stopped at an event with a fault: the events in front of it are moved, and those
/// behind it are as they were.
pub open spec fn stopped_at(
    before: Seq<Event>,
    latency_offset: i64,
    after: Seq<Event>,
    fault: LoadFault,
    k: int,
) -> bool {
    &&& 0 <= k < before.len()
    &&& events_moved(before.take(k), latency_offset) == Ok::<Seq<Event>, LoadFault>(after.take(k))
    &&& event_moved(before[k], latency_offset) == Err::<Event, LoadFault>(fault)
    &&& after[k] == event_left(before[k], latency_offset)
    &&& after.skip(k + 1) == before.skip(k + 1)
}

/// Applies a local timestamp offset before a feed chunk is published. There is an error where an
/// event would not be seen after it happened any more; the events behind it stay as they are.
pub fn adjust_feed_latency(data: &mut Vec<Event>, latency_offset: i64) -> (r: Result<
    (),
    LoadFault,
>)
    ensures
        final(data)@.len() == old(data)@.len(),
        match events_moved(old(data)@, latency_offset) {
            Ok(events) => r is Ok && final(data)@ == events,
            Err(fault) => r == Err::<(), LoadFault>(fault) && exists|k: int| #[trigger]
                stopped_at(old(data)@, latency_offset, final(data)@, fault, k),
        },
{
    let ghost all = data@;
    let mut i: usize = 0;
    assert(all.take(0) =~= Seq::empty());
    while i < data.len()
        invariant
            all == old(data)@,
            data@.len() == all.len(),
            i <= all.len(),
            events_moved(all.take(i as int), latency_offset) is Ok,
            events_moved(all.take(i as int), latency_offset)->Ok_0.len() == i,
            data@ =~= events_moved(all.take(i as int), latency_offset)->Ok_0 + all.skip(i as int),
        decreases all.len() - i,
    {
        proof {
            assert(data@[i as int] == all[i as int]);
            assert(all.take(i + 1).drop_last() =~= all.take(i as int));
            assert(all.take(i + 1).last() == all[i as int]);
            lemma_events_fault(all, latency_offset, i + 1);
        }
        let mut event: Event = data[i];
        match event.local_ts.checked_add(latency_offset) {
            Some(local_ts) => {
                event.local_ts = local_ts;
            },
            None => {
                proof {
                    let fault = LoadFault::LocalTimestampOverflow;
                    assert(data@.take(i as int) =~= events_moved(
                        all.take(i as int),
                        latency_offset,
                    )->Ok_0);
                    assert(data@.skip(i + 1) =~= all.skip(i + 1));
                    assert(stopped_at(all, latency_offset, data@, fault, i as int));
                }
                return Err(LoadFault::LocalTimestampOverflow);
            },
        }
        data.set(i, event);
        if event.local_ts <= event.exch_ts {
            proof {
                let fault = LoadFault::LocalNotAfterExchange;
                assert(data@.take(i as int) =~= events_moved(
                    all.take(i as int),
                    latency_offset,
                )->Ok_0);
                assert(data@.skip(i + 1) =~= all.skip(i + 1));
                assert(stopped_at(all, latency_offset, data@, fault, i as int));
            }
            return Err(LoadFault::LocalNotAfterExchange);
        }
        i = i + 1;
    }
    assert(all.take(i as int) =~= all);
    assert(all.skip(i as int) =~= Seq::empty());
    Ok(())
}

/// Moves the local timestamps of a feed.
#[derive(Clone, Copy, Debug)]
pub struct FeedOffset {
    /// By how much.
    pub latency_offset: i64,
}

impl Preprocessor<Event> for FeedOffset {
    open spec fn processed(&self, rows: Seq<Event>) -> Result<Seq<Event>, LoadFault> {
        events_moved(rows, self.latency_offset)
    }

    fn process(&self, rows: Vec<Event>) -> (r: Result<Vec<Event>, LoadFault>) {
        let mut rows: Vec<Event> = rows;
        match adjust_feed_latency(&mut rows, self.latency_offset) {
            Ok(()) => Ok(rows),
            Err(fault) => Err(fault),
        }
    }
}

/// Events of which every one is seen after it happened still are so after their local timestamps
/// were moved, and nothing else about them changes.
pub proof fn moved_events_are_seen_after_they_happen(events: Seq<Event>, latency_offset: i64, i: int)
    requires
        0 <= i < events.len(),
    ensures
        events_moved(events, latency_offset) matches Ok(after) ==> {
            &&& after.len() == events.len()
            &&& after[i].local_ts == events[i].local_ts + latency_offset
            &&& after[i].local_ts > after[i].exch_ts
            &&& after[i] == (Event { local_ts: after[i].local_ts, ..events[i] })
        },
    decreases events.len(),
{
    lemma_moved_length(events, latency_offset);
    lemma_moved_length(events.drop_last(), latency_offset);
    if i < events.len() - 1 {
        moved_events_are_seen_after_they_happen(events.drop_last(), latency_offset, i);
        assert(events.drop_last()[i] == events[i]);
    }
}

/// Moving keeps the number of events.
proof fn lemma_moved_length(events: Seq<Event>, latency_offset: i64)
    ensures
        events_moved(events, latency_offset) matches Ok(after) ==> after.len() == events.len(),
    decreases events.len(),
{
    if events.len() > 0 {
        lemma_moved_length(events.drop_last(), latency_offset);
    }
}

/// Cursors share published chunks: two cursors that come to a chunk that is there get the same rows,
/// and nothing is loaded for the second one.
pub proof fn cursors_share_published_chunks<D>(
    sources: Seq<SourceModel<D>>,
    cache: CacheModel<D>,
    key: usize,
    rows: Seq<D>,
)
    requires
        key < sources.len(),
        ordered(cache.entries),
        cache.entry(key) == Some(EntryModel::Ready(rows)),
    ensures
        chunk_taken(sources, false, cache, key) matches Ok(first) && first.1 == Some(rows) && (
        chunk_taken(sources, false, first.0, key) matches Ok(second) && second.1 == Some(rows)
            && second.0.queue == cache.queue),
{
    lemma_inserted(cache.entries, key, EntryModel::Shared(rows, 1));
}

/// A chunk that its last holder is done with is not kept: whoever comes to it asks for it again.
pub proof fn chunks_without_holders_are_dropped<D>(
    cache: CacheModel<D>,
    key: usize,
    rows: Seq<D>,
)
    requires
        ordered(cache.entries),
        cache.entry(key) == Some(EntryModel::Ready(rows)),
    ensures
        cache.checked_out(key).0.released(key).entry(key) is None,
{
    lemma_inserted(cache.entries, key, EntryModel::Shared(rows, 1));
    lemma_removed(cache.checked_out(key).0.entries, key as int);
}

/// A file is asked for once: while it is being loaded, asking again puts nothing in line.
pub proof fn files_are_asked_for_once<D>(source: SourceModel<D>, cache: CacheModel<D>, key: usize)
    requires
        ordered(cache.entries),
    ensures
        chunk_asked(source, cache, key) matches Ok(first) ==> chunk_asked(source, first, key)
            == Ok::<CacheModel<D>, ReaderFault>(first),
{
    lemma_inserted(cache.entries, key, EntryModel::Loading);
    match source {
        SourceModel::Memory(rows) => {
            lemma_inserted(cache.entries, key, EntryModel::Ready(rows));
        },
        _ => {},
    }
}

/// Events can be moved exactly where every local timestamp stays within its range and after that of
/// the exchange. The first event of which that does not hold is the one that is reported.
pub proof fn events_move_where_they_stay_after_the_exchange(
    events: Seq<Event>,
    latency_offset: i64,
    k: int,
)
    ensures
        events_moved(events, latency_offset) is Ok <==> forall|i: int|
            0 <= i < events.len() ==> (#[trigger] events[i]).local_ts + latency_offset >= i64::MIN
                && events[i].local_ts + latency_offset <= i64::MAX && events[i].local_ts
                + latency_offset > events[i].exch_ts,
        0 <= k < events.len() && events_moved(events.take(k), latency_offset) is Ok ==> {
            let local_ts = events[k].local_ts + latency_offset;
            &&& local_ts < i64::MIN || local_ts > i64::MAX ==> events_moved(events, latency_offset)
                == Err::<Seq<Event>, LoadFault>(LoadFault::LocalTimestampOverflow)
            &&& i64::MIN <= local_ts <= events[k].exch_ts ==> events_moved(events, latency_offset)
                == Err::<Seq<Event>, LoadFault>(LoadFault::LocalNotAfterExchange)
        },
    decreases events.len(),
{
    if events.len() > 0 {
        let front = events.drop_last();
        let n = events.len() - 1;
        events_move_where_they_stay_after_the_exchange(front, latency_offset, 0);
        assert(events[n] == events.last());
        if events_moved(events, latency_offset) is Ok {
            assert forall|i: int| 0 <= i < events.len() implies (#[trigger] events[i]).local_ts
                + latency_offset >= i64::MIN && events[i].local_ts + latency_offset <= i64::MAX
                && events[i].local_ts + latency_offset > events[i].exch_ts by {
                if i < n {
                    assert(front[i] == events[i]);
                }
            }
        }
        if forall|i: int|
            0 <= i < events.len() ==> (#[trigger] events[i]).local_ts + latency_offset >= i64::MIN
                && events[i].local_ts + latency_offset <= i64::MAX && events[i].local_ts
                + latency_offset > events[i].exch_ts {
            assert forall|i: int| 0 <= i < front.len() implies (#[trigger] front[i]).local_ts
                + latency_offset >= i64::MIN && front[i].local_ts + latency_offset <= i64::MAX
                && front[i].local_ts + latency_offset > front[i].exch_ts by {
                assert(front[i] == events[i]);
            }
            assert(events[n].local_ts + latency_offset > events[n].exch_ts);
        }
        if 0 <= k < events.len() && events_moved(events.take(k), latency_offset) is Ok {
            assert(events.take(k + 1).drop_last() =~= events.take(k));
            assert(events.take(k + 1).last() == events[k]);
            lemma_events_fault(events, latency_offset, k + 1);
        }
    }
}

/// Chunks are taken in the order of their sources: the one at the end has none behind it, one in
/// memory is there at once with its rows, and a file is asked for only where it has the extension of
/// data files.
pub proof fn chunks_come_from_their_sources<D>(
    sources: Seq<SourceModel<D>>,
    cache: CacheModel<D>,
    key: usize,
)
    requires
        ordered(cache.entries),
    ensures
        key >= sources.len() ==> chunk_taken(sources, false, cache, key) == Err::<
            (CacheModel<D>, Option<Seq<D>>),
            ReaderFault,
        >(ReaderFault::EndOfData),
        key < sources.len() && cache.entry(key) is None ==> match sources[key as int] {
            SourceModel::Memory(rows) => chunk_taken(sources, false, cache, key) matches Ok(after)
                && after.1 == Some(rows) && after.0.queue == cache.queue,
            SourceModel::File { path, extension } => {
                &&& extension == Some("npz"@) ==> (chunk_taken(
                    sources,
                    false,
                    cache,
                    key,
                ) matches Ok(after) && after.1 is None && after.0.queue == cache.queue.push(key))
                &&& extension != Some("npz"@) ==> chunk_taken(sources, false, cache, key) == Err::<
                    (CacheModel<D>, Option<Seq<D>>),
                    ReaderFault,
                >(ReaderFault::UnsupportedExtension(path))
            },
        },
        key < sources.len() ==> (cache.entry(key) matches Some(EntryModel::Failed(fault))
            ==> chunk_taken(sources, false, cache, key) == Err::<
            (CacheModel<D>, Option<Seq<D>>),
            ReaderFault,
        >(ReaderFault::LoadFailed(source_path(sources[key as int]), fault))),
{
    lemma_inserted(cache.entries, key, EntryModel::Loading);
    if key < sources.len() {
        if let SourceModel::Memory(rows) = sources[key as int] {
            lemma_inserted(cache.entries, key, EntryModel::Ready(rows));
        }
    }
}

} // verus!
