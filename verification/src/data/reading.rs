//! What holds of a cursor over chunks, whatever happens to the cache between its calls.
use vstd::prelude::*;

use crate::data::reader::cache_asked;
use crate::data::reader::chunk_asked;
use crate::data::reader::chunk_taken;
use crate::data::reader::data_extension;
use crate::data::reader::source_path;
use crate::data::reader::CacheModel;
use crate::data::reader::EntryModel;
use crate::data::reader::LoadFault;
use crate::data::reader::ReaderFault;
use crate::data::reader::SourceModel;
use crate::sorted_map::lemma_inserted;
use crate::sorted_map::lemma_removed;
use crate::sorted_map::ordered;

verus! {

/// What loading each source comes to: the rows of its chunk, or why it has none.
pub type Loads<D> = Seq<Result<Seq<D>, LoadFault>>;

/// Whether every source can be asked for: a file has the extension of the files that can be read,
/// and rows in memory are there.
pub open spec fn loadable<D>(sources: Seq<SourceModel<D>>, loads: Loads<D>) -> bool {
    &&& sources.len() == loads.len()
    &&& sources.len() < usize::MAX
    &&& forall|k: int|
        0 <= k < sources.len() ==> match #[trigger] sources[k] {
            SourceModel::File { extension, .. } => extension == Some(data_extension()),
            SourceModel::Memory(rows) => loads[k] == Ok::<Seq<D>, LoadFault>(rows),
        }
}

/// Whether what is known of a chunk fits what loading it comes to.
pub open spec fn fits<D>(entry: Option<EntryModel<D>>, load: Result<Seq<D>, LoadFault>) -> bool {
    match entry {
        None => true,
        Some(EntryModel::Loading) => true,
        Some(EntryModel::Ready(rows)) => load == Ok::<Seq<D>, LoadFault>(rows),
        Some(EntryModel::Shared(rows, _)) => load == Ok::<Seq<D>, LoadFault>(rows),
        Some(EntryModel::Failed(fault)) => load == Err::<Seq<D>, LoadFault>(fault),
    }
}

/// Whether a cache holds nothing but what loading the sources comes to.
pub open spec fn consistent<D>(cache: CacheModel<D>, loads: Loads<D>) -> bool {
    &&& ordered(cache.entries)
    &&& forall|k: usize| k < loads.len() ==> fits(#[trigger] cache.entry(k), loads[k as int])
}

/// What can happen to a cursor and the cache that it shares.
pub enum ReaderStep {
    /// The cursor asks for its next chunk.
    Ask,
    /// Another cursor asks for a chunk.
    AskElsewhere(usize),
    /// Someone takes the next chunk to load.
    TakeRequest,
    /// What loading a chunk came to is published.
    Publish(usize),
    /// A holder is done with a chunk.
    Release(usize),
}

/// A cursor and the cache that it shares, and what the cursor was given so far.
#[verifier::ext_equal]
pub struct ReaderRun<D> {
    /// The cache.
    pub cache: CacheModel<D>,
    /// The place of the cursor's next chunk.
    pub place: usize,
    /// What its calls gave.
    pub results: Seq<Result<Option<Seq<D>>, ReaderFault>>,
}

/// The cache after a cursor at a place asked for its next chunk.
pub open spec fn cache_after<D>(
    sources: Seq<SourceModel<D>>,
    parallel_load: bool,
    cache: CacheModel<D>,
    key: usize,
) -> CacheModel<D> {
    match chunk_taken(sources, parallel_load, cache, key) {
        Ok(after) => after.0,
        Err(_) => cache_asked(sources, parallel_load, cache, key),
    }
}

/// A run after a step.
pub open spec fn stepped<D>(
    sources: Seq<SourceModel<D>>,
    loads: Loads<D>,
    parallel_load: bool,
    run: ReaderRun<D>,
    step: ReaderStep,
) -> ReaderRun<D> {
    match step {
        ReaderStep::Ask => {
            let cache = cache_after(sources, parallel_load, run.cache, run.place);
            match chunk_taken(sources, parallel_load, run.cache, run.place) {
                Ok((_, Some(rows))) => ReaderRun {
                    cache,
                    place: (run.place + 1) as usize,
                    results: run.results.push(Ok(Some(rows))),
                },
                Ok((_, None)) => ReaderRun { cache, results: run.results.push(Ok(None)), ..run },
                Err(fault) => ReaderRun { cache, results: run.results.push(Err(fault)), ..run },
            }
        },
        ReaderStep::AskElsewhere(key) => ReaderRun {
            cache: cache_after(sources, parallel_load, run.cache, key),
            ..run
        },
        ReaderStep::TakeRequest => if run.cache.queue.len() > 0 {
            ReaderRun {
                cache: CacheModel { queue: run.cache.queue.skip(1), ..run.cache },
                ..run
            }
        } else {
            run
        },
        ReaderStep::Publish(key) => if key < loads.len() {
            ReaderRun {
                cache: run.cache.with(
                    key,
                    match loads[key as int] {
                        Ok(rows) => EntryModel::Ready(rows),
                        Err(fault) => EntryModel::Failed(fault),
                    },
                ),
                ..run
            }
        } else {
            run
        },
        ReaderStep::Release(key) => ReaderRun { cache: run.cache.released(key), ..run },
    }
}

/// A run after steps.
pub open spec fn run_after<D>(
    sources: Seq<SourceModel<D>>,
    loads: Loads<D>,
    parallel_load: bool,
    start: ReaderRun<D>,
    steps: Seq<ReaderStep>,
) -> ReaderRun<D>
    decreases steps.len(),
{
    if steps.len() == 0 {
        start
    } else {
        stepped(
            sources,
            loads,
            parallel_load,
            run_after(sources, loads, parallel_load, start, steps.drop_last()),
            steps.last(),
        )
    }
}

/// The chunks among what calls gave.
pub open spec fn given<D>(results: Seq<Result<Option<Seq<D>>, ReaderFault>>) -> Seq<Seq<D>>
    decreases results.len(),
{
    if results.len() == 0 {
        Seq::empty()
    } else {
        match results.last() {
            Ok(Some(rows)) => given(results.drop_last()).push(rows),
            _ => given(results.drop_last()),
        }
    }
}

/// Whether a call at a place gave what it should: nothing yet, the rows of that chunk, why there are
/// none, or the end.
pub open spec fn answers<D>(
    sources: Seq<SourceModel<D>>,
    loads: Loads<D>,
    key: int,
    result: Result<Option<Seq<D>>, ReaderFault>,
) -> bool {
    if key >= sources.len() {
        result == Err::<Option<Seq<D>>, ReaderFault>(ReaderFault::EndOfData)
    } else {
        match result {
            Ok(None) => true,
            Ok(Some(rows)) => loads[key] == Ok::<Seq<D>, LoadFault>(rows),
            Err(fault) => loads[key] matches Err(load_fault) && fault == ReaderFault::LoadFailed(
                source_path(sources[key]),
                load_fault,
            ),
        }
    }
}

/// Whether every call gave what it should, where the first one was made at a place.
pub open spec fn all_answer<D>(
    sources: Seq<SourceModel<D>>,
    loads: Loads<D>,
    place: int,
    results: Seq<Result<Option<Seq<D>>, ReaderFault>>,
) -> bool
    decreases results.len(),
{
    results.len() == 0 || {
        &&& all_answer(sources, loads, place, results.drop_last())
        &&& answers(
            sources,
            loads,
            place + given(results.drop_last()).len(),
            results.last(),
        )
    }
}

/// Asking for a chunk that can be loaded keeps a cache consistent, and knows of the chunk then.
proof fn lemma_asked<D>(
    sources: Seq<SourceModel<D>>,
    loads: Loads<D>,
    cache: CacheModel<D>,
    key: usize,
)
    requires
        loadable(sources, loads),
        consistent(cache, loads),
        key < sources.len(),
    ensures
        chunk_asked(sources[key as int], cache, key) matches Ok(after) && consistent(after, loads)
            && after.entry(key) is Some && (cache.entry(key) is Some ==> after == cache) && (
        forall|k: usize| k != key ==> #[trigger] after.entry(k) == cache.entry(k)),
{
    let source = sources[key as int];
    let entry = match source {
        SourceModel::Memory(rows) => EntryModel::Ready(rows),
        SourceModel::File { .. } => EntryModel::Loading,
    };
    lemma_inserted(cache.entries, key, entry);
    let after = chunk_asked(source, cache, key)->Ok_0;
    assert forall|k: usize| k < loads.len() implies fits(
        #[trigger] after.entry(k),
        loads[k as int],
    ) by {
        assert(fits(cache.entry(k), loads[k as int]));
    }
}

/// The first chunk stays as it is when the one behind it is asked for too.
proof fn lemma_asked_ahead<D>(
    sources: Seq<SourceModel<D>>,
    loads: Loads<D>,
    parallel_load: bool,
    cache: CacheModel<D>,
    key: usize,
)
    requires
        loadable(sources, loads),
        consistent(cache, loads),
        key < sources.len(),
    ensures
        ({
            let asked = cache_asked(sources, parallel_load, cache, key);
            &&& consistent(asked, loads)
            &&& asked.entry(key) is Some
            &&& cache.entry(key) is Some ==> asked.entry(key) == cache.entry(key)
            &&& match asked.entry(key) {
                Some(EntryModel::Failed(fault)) => chunk_taken(sources, parallel_load, cache, key)
                    == Err::<(CacheModel<D>, Option<Seq<D>>), ReaderFault>(
                    ReaderFault::LoadFailed(source_path(sources[key as int]), fault),
                ),
                _ => chunk_taken(sources, parallel_load, cache, key) == Ok::<
                    (CacheModel<D>, Option<Seq<D>>),
                    ReaderFault,
                >(asked.checked_out(key)),
            }
        }),
{
    lemma_asked(sources, loads, cache, key);
    let first = chunk_asked(sources[key as int], cache, key)->Ok_0;
    if parallel_load && key + 1 < sources.len() {
        lemma_asked(sources, loads, first, (key + 1) as usize);
    }
}

/// Handing a chunk out keeps a cache consistent.
proof fn lemma_checked_out<D>(cache: CacheModel<D>, loads: Loads<D>, key: usize)
    requires
        consistent(cache, loads),
        key < loads.len(),
    ensures
        consistent(cache.checked_out(key).0, loads),
        cache.checked_out(key).1 matches Some(rows) ==> loads[key as int] == Ok::<
            Seq<D>,
            LoadFault,
        >(rows),
        forall|k: usize|
            k != key ==> #[trigger] cache.checked_out(key).0.entry(k) == cache.entry(k),
        cache.checked_out(key).0.queue == cache.queue,
{
    assert(fits(cache.entry(key), loads[key as int]));
    match cache.entry(key) {
        Some(EntryModel::Ready(rows)) => {
            lemma_inserted(cache.entries, key, EntryModel::Shared(rows, 1));
        },
        Some(EntryModel::Shared(rows, holders)) => {
            lemma_inserted(cache.entries, key, EntryModel::Shared(rows, (holders + 1) as u64));
        },
        _ => {},
    }
    let after = cache.checked_out(key).0;
    assert forall|k: usize| k < loads.len() implies fits(
        #[trigger] after.entry(k),
        loads[k as int],
    ) by {
        assert(fits(cache.entry(k), loads[k as int]));
    }
}

/// A call keeps a cache consistent, and gives what it should.
proof fn lemma_call<D>(
    sources: Seq<SourceModel<D>>,
    loads: Loads<D>,
    parallel_load: bool,
    cache: CacheModel<D>,
    key: usize,
)
    requires
        loadable(sources, loads),
        consistent(cache, loads),
    ensures
        consistent(cache_after(sources, parallel_load, cache, key), loads),
        match chunk_taken(sources, parallel_load, cache, key) {
            Ok(after) => key < sources.len() && answers(
                sources,
                loads,
                key as int,
                Ok::<Option<Seq<D>>, ReaderFault>(after.1),
            ),
            Err(fault) => answers(
                sources,
                loads,
                key as int,
                Err::<Option<Seq<D>>, ReaderFault>(fault),
            ),
        },
{
    if key < sources.len() {
        lemma_asked_ahead(sources, loads, parallel_load, cache, key);
        let asked = cache_asked(sources, parallel_load, cache, key);
        assert(fits(asked.entry(key), loads[key as int]));
        lemma_checked_out(asked, loads, key);
    }
}

/// Publishing what loading a chunk comes to, and being done with a chunk, keep a cache consistent.
proof fn lemma_other_steps<D>(cache: CacheModel<D>, loads: Loads<D>, key: usize)
    requires
        consistent(cache, loads),
    ensures
        consistent(cache.released(key), loads),
        key < loads.len() ==> consistent(
            cache.with(
                key,
                match loads[key as int] {
                    Ok(rows) => EntryModel::Ready(rows),
                    Err(fault) => EntryModel::Failed(fault),
                },
            ),
            loads,
        ),
{
    if key < loads.len() {
        let entry = match loads[key as int] {
            Ok(rows) => EntryModel::Ready(rows),
            Err(fault) => EntryModel::Failed(fault),
        };
        lemma_inserted(cache.entries, key, entry);
        let after = cache.with(key, entry);
        assert forall|k: usize| k < loads.len() implies fits(
            #[trigger] after.entry(k),
            loads[k as int],
        ) by {
            if k != key {
                assert(after.entry(k) == cache.entry(k));
            }
        }
    }
    match cache.entry(key) {
        Some(EntryModel::Shared(rows, holders)) => {
            lemma_removed(cache.entries, key as int);
            if holders > 1 {
                lemma_inserted(cache.entries, key, EntryModel::Shared(rows, (holders - 1) as u64));
            }
            let after = cache.released(key);
            assert forall|k: usize| k < loads.len() implies fits(
                #[trigger] after.entry(k),
                loads[k as int],
            ) by {
                assert(fits(cache.entry(k), loads[k as int]));
                if k != key {
                    assert(after.entry(k) == cache.entry(k));
                }
            }
        },
        _ => {},
    }
}

/// Each call of a cursor gives the next chunk, in order, and the end behind the last one. Until a
/// chunk is there, a call gives nothing and the cursor stays. A chunk that could not be loaded gives
/// its error, and the cursor stays too. This holds whatever happens to the shared cache in between:
/// other cursors ask, chunks are loaded and published, and holders are done with them.
pub proof fn each_call_gives_the_next_chunk<D>(
    sources: Seq<SourceModel<D>>,
    loads: Loads<D>,
    parallel_load: bool,
    start: ReaderRun<D>,
    steps: Seq<ReaderStep>,
)
    requires
        loadable(sources, loads),
        consistent(start.cache, loads),
        start.place <= sources.len(),
        start.results.len() == 0,
    ensures
        ({
            let end = run_after(sources, loads, parallel_load, start, steps);
            &&& consistent(end.cache, loads)
            &&& start.place <= end.place <= sources.len()
            &&& end.place == start.place + given(end.results).len()
            &&& all_answer(sources, loads, start.place as int, end.results)
            &&& forall|i: int|
                0 <= i < given(end.results).len() ==> loads[start.place + i] == Ok::<
                    Seq<D>,
                    LoadFault,
                >(#[trigger] given(end.results)[i])
        }),
    decreases steps.len(),
{
    if steps.len() > 0 {
        let front = steps.drop_last();
        each_call_gives_the_next_chunk(sources, loads, parallel_load, start, front);
        let run = run_after(sources, loads, parallel_load, start, front);
        let end = run_after(sources, loads, parallel_load, start, steps);
        match steps.last() {
            ReaderStep::Ask => {
                lemma_call(sources, loads, parallel_load, run.cache, run.place);
                assert(end.results.drop_last() =~= run.results);
            },
            ReaderStep::AskElsewhere(key) => {
                lemma_call(sources, loads, parallel_load, run.cache, key);
            },
            ReaderStep::TakeRequest => {
                assert forall|k: usize| k < loads.len() implies fits(
                    #[trigger] end.cache.entry(k),
                    loads[k as int],
                ) by {
                    assert(end.cache.entry(k) == run.cache.entry(k));
                }
            },
            ReaderStep::Publish(key) => {
                lemma_other_steps(run.cache, loads, key);
            },
            ReaderStep::Release(key) => {
                lemma_other_steps(run.cache, loads, key);
            },
        }
    }
}

/// Loading ahead changes no chunk: two cursors over the same sources, of which one loads ahead and
/// the other does not, are given the same chunks by as many calls, whatever happens in between.
pub proof fn loading_ahead_changes_no_chunk<D>(
    sources: Seq<SourceModel<D>>,
    loads: Loads<D>,
    start: ReaderRun<D>,
    steps: Seq<ReaderStep>,
    ahead_steps: Seq<ReaderStep>,
)
    requires
        loadable(sources, loads),
        consistent(start.cache, loads),
        start.place <= sources.len(),
        start.results.len() == 0,
    ensures
        ({
            let plain = given(run_after(sources, loads, false, start, steps).results);
            let ahead = given(run_after(sources, loads, true, start, ahead_steps).results);
            plain.len() == ahead.len() ==> plain == ahead
        }),
{
    each_call_gives_the_next_chunk(sources, loads, false, start, steps);
    each_call_gives_the_next_chunk(sources, loads, true, start, ahead_steps);
    let plain = given(run_after(sources, loads, false, start, steps).results);
    let ahead = given(run_after(sources, loads, true, start, ahead_steps).results);
    if plain.len() == ahead.len() {
        assert forall|i: int| 0 <= i < plain.len() implies plain[i] == ahead[i] by {
            assert(loads[start.place + i] == Ok::<Seq<D>, LoadFault>(plain[i]));
            assert(loads[start.place + i] == Ok::<Seq<D>, LoadFault>(ahead[i]));
        }
        assert(plain =~= ahead);
    }
}

/// A chunk that was published is given by the next call, so that a cursor that waits for each of its
/// chunks is given all of them.
pub proof fn a_published_chunk_is_given<D>(
    sources: Seq<SourceModel<D>>,
    loads: Loads<D>,
    parallel_load: bool,
    cache: CacheModel<D>,
    key: usize,
)
    requires
        loadable(sources, loads),
        consistent(cache, loads),
        key < sources.len(),
    ensures
        ({
            let published = cache.with(
                key,
                match loads[key as int] {
                    Ok(rows) => EntryModel::Ready(rows),
                    Err(fault) => EntryModel::Failed(fault),
                },
            );
            match (chunk_taken(sources, parallel_load, published, key), loads[key as int]) {
                (Ok(after), Ok(rows)) => after.1 == Some(rows),
                (Err(fault), Err(load_fault)) => fault == ReaderFault::LoadFailed(
                    source_path(sources[key as int]),
                    load_fault,
                ),
                _ => false,
            }
        }),
{
    let entry = match loads[key as int] {
        Ok(rows) => EntryModel::Ready(rows),
        Err(fault) => EntryModel::Failed(fault),
    };
    lemma_inserted(cache.entries, key, entry);
    lemma_other_steps(cache, loads, key);
    lemma_asked_ahead(sources, loads, parallel_load, cache.with(key, entry), key);
}

/// A chunk that could not be loaded stays so: whatever happens, what is known of it is its fault, and
/// it is not put in line to be loaded a second time. Every call at it gives the same error.
pub proof fn a_failed_chunk_stays_failed<D>(
    sources: Seq<SourceModel<D>>,
    loads: Loads<D>,
    parallel_load: bool,
    start: ReaderRun<D>,
    steps: Seq<ReaderStep>,
    key: usize,
    fault: LoadFault,
)
    requires
        loadable(sources, loads),
        consistent(start.cache, loads),
        start.place <= sources.len(),
        start.results.len() == 0,
        key < sources.len(),
        start.cache.entry(key) == Some(EntryModel::<D>::Failed(fault)),
        !start.cache.queue.contains(key),
    ensures
        ({
            let end = run_after(sources, loads, parallel_load, start, steps);
            &&& end.cache.entry(key) == Some(EntryModel::<D>::Failed(fault))
            &&& !end.cache.queue.contains(key)
            &&& chunk_taken(sources, parallel_load, end.cache, key) == Err::<
                (CacheModel<D>, Option<Seq<D>>),
                ReaderFault,
            >(ReaderFault::LoadFailed(source_path(sources[key as int]), fault))
        }),
    decreases steps.len(),
{
    let end = run_after(sources, loads, parallel_load, start, steps);
    each_call_gives_the_next_chunk(sources, loads, parallel_load, start, steps);
    if steps.len() > 0 {
        let front = steps.drop_last();
        let run = run_after(sources, loads, parallel_load, start, front);
        a_failed_chunk_stays_failed(sources, loads, parallel_load, start, front, key, fault);
        each_call_gives_the_next_chunk(sources, loads, parallel_load, start, front);
        match steps.last() {
            ReaderStep::Ask => {
                lemma_call_keeps_failed(sources, loads, parallel_load, run.cache, run.place, key);
            },
            ReaderStep::AskElsewhere(other) => {
                lemma_call_keeps_failed(sources, loads, parallel_load, run.cache, other, key);
            },
            ReaderStep::TakeRequest => {
                assert(end.cache.entry(key) == run.cache.entry(key));
                assert(run.cache.queue.len() > 0 ==> forall|i: int|
                    0 <= i < run.cache.queue.skip(1).len() ==> #[trigger] run.cache.queue.skip(1)[i]
                        == run.cache.queue[i + 1]);
            },
            ReaderStep::Publish(other) => {
                assert(fits(run.cache.entry(key), loads[key as int]));
                if other < loads.len() {
                    let entry = match loads[other as int] {
                        Ok(rows) => EntryModel::Ready(rows),
                        Err(fault) => EntryModel::Failed(fault),
                    };
                    lemma_inserted(run.cache.entries, other, entry);
                }
            },
            ReaderStep::Release(other) => {
                match run.cache.entry(other) {
                    Some(EntryModel::Shared(rows, holders)) => {
                        lemma_removed(run.cache.entries, other as int);
                        lemma_inserted(
                            run.cache.entries,
                            other,
                            EntryModel::Shared(rows, (holders - 1) as u64),
                        );
                    },
                    _ => {},
                }
            },
        }
    }
    lemma_asked_ahead(sources, loads, parallel_load, end.cache, key);
}

/// Asking leaves a chunk alone that is known already.
proof fn lemma_asked_keeps<D>(
    sources: Seq<SourceModel<D>>,
    loads: Loads<D>,
    cache: CacheModel<D>,
    asked: usize,
    key: usize,
)
    requires
        loadable(sources, loads),
        consistent(cache, loads),
        asked < sources.len(),
        cache.entry(key) is Some,
        !cache.queue.contains(key),
    ensures
        chunk_asked(sources[asked as int], cache, asked) matches Ok(after) && after.entry(key)
            == cache.entry(key) && !after.queue.contains(key),
{
    lemma_asked(sources, loads, cache, asked);
    let after = chunk_asked(sources[asked as int], cache, asked)->Ok_0;
    if asked != key && after.queue != cache.queue {
        assert(after.queue == cache.queue.push(asked));
        assert forall|i: int| 0 <= i < after.queue.len() implies #[trigger] after.queue[i] != key by {
            if i < cache.queue.len() {
                assert(after.queue[i] == cache.queue[i]);
            }
        }
    }
}

/// A call leaves a chunk alone that could not be loaded.
proof fn lemma_call_keeps_failed<D>(
    sources: Seq<SourceModel<D>>,
    loads: Loads<D>,
    parallel_load: bool,
    cache: CacheModel<D>,
    place: usize,
    key: usize,
)
    requires
        loadable(sources, loads),
        consistent(cache, loads),
        cache.entry(key) matches Some(EntryModel::Failed(_)),
        !cache.queue.contains(key),
    ensures
        cache_after(sources, parallel_load, cache, place).entry(key) == cache.entry(key),
        !cache_after(sources, parallel_load, cache, place).queue.contains(key),
{
    if place < sources.len() {
        lemma_asked(sources, loads, cache, place);
        lemma_asked_keeps(sources, loads, cache, place, key);
        let first = chunk_asked(sources[place as int], cache, place)->Ok_0;
        if parallel_load && place + 1 < sources.len() {
            lemma_asked_keeps(sources, loads, first, (place + 1) as usize, key);
        }
        lemma_asked_ahead(sources, loads, parallel_load, cache, place);
        let asked = cache_asked(sources, parallel_load, cache, place);
        lemma_checked_out(asked, loads, place);
    }
}

/// A new cache holds nothing, so that it fits any sources.
pub proof fn an_empty_cache_is_consistent<D>(loads: Loads<D>)
    ensures
        consistent(CacheModel::<D> { entries: Seq::empty(), queue: Seq::empty() }, loads),
{
}

} // verus!
