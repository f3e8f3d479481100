use vstd::prelude::*;
use vstd::slice::slice_subrange;

verus! {

/// Samples in one analysis window: 100 ms of audio (`SAMPLE_RATE / 10`).
pub const WINDOW_SIZE: usize = 1600;

/// Samples of continuous silence after speech that end a chunk: 2 s
/// (`2 * SAMPLE_RATE`).
pub const MIN_SILENCE_SAMPLES: usize = 32_000;

/// Longest run of samples emitted without a silence boundary: 60 s
/// (`60 * SAMPLE_RATE`).
pub const MAX_CHUNK_SAMPLES: usize = 960_000;

/// Splits a stream of audio samples into speech chunks.
///
/// The caller decides whether one window of `WINDOW_SIZE` samples holds
/// speech (an energy test on the samples); the chunker decides which windows
/// are looked at, tracks how much silence followed the last speech, and cuts
/// the buffered samples into chunks.
pub struct VadChunker<T> {
    buffer: Vec<T>,
    min_silence_samples: usize,
    max_chunk_samples: usize,
    silence_counter: usize,
    speech_detected: bool,
}

/// The abstract state of a `VadChunker`.
pub struct VadState<T> {
    /// Samples received and not yet emitted.
    pub buffer: Seq<T>,
    /// Samples counted as silence since the last window with speech.
    pub silence: nat,
    /// Whether a window with speech was seen since the last chunk.
    pub speech: bool,
    /// Silence that closes a chunk after speech.
    pub min_silence: nat,
    /// Length of a chunk forced out when no silence boundary comes.
    pub max_chunk: nat,
}

impl<T> View for VadChunker<T> {
    type V = VadState<T>;

    closed spec fn view(&self) -> VadState<T> {
        VadState {
            buffer: self.buffer@,
            silence: self.silence_counter as nat,
            speech: self.speech_detected,
            min_silence: self.min_silence_samples as nat,
            max_chunk: self.max_chunk_samples as nat,
        }
    }
}

/// Where the scan of windows starts when `new_len - old_len` samples arrive
/// after `old_len` buffered ones: the last full window before the new
/// samples is looked at again.
pub open spec fn scan_start(old_len: int) -> int {
    if old_len > WINDOW_SIZE {
        old_len - WINDOW_SIZE
    } else {
        0
    }
}

/// Number of whole windows that fit in `[from, len)`, one after another.
pub open spec fn window_count(from: int, len: int) -> nat
    decreases len - from,
{
    if from + WINDOW_SIZE <= len {
        1 + window_count(from + WINDOW_SIZE, len)
    } else {
        0
    }
}

/// The `k`-th window of a scan that starts at `start`.
pub open spec fn window_at<T>(buffer: Seq<T>, start: int, k: int) -> Seq<T> {
    buffer.subrange(start + k * WINDOW_SIZE, start + k * WINDOW_SIZE + WINDOW_SIZE)
}

/// `verdict` is an answer that `is_speech` can give on a slice holding `window`.
pub open spec fn judged<T, F: Fn(&[T]) -> bool>(is_speech: F, window: Seq<T>, verdict: bool) -> bool {
    exists|s: &[T]| s@ == window && call_ensures(is_speech, (s,), verdict)
}

/// `verdicts` are answers of `is_speech`, in order, on the windows that a
/// feed of `samples` to a chunker in state `st` scans.
pub open spec fn verdicts_of<T, F: Fn(&[T]) -> bool>(
    is_speech: F,
    st: VadState<T>,
    samples: Seq<T>,
    verdicts: Seq<bool>,
) -> bool {
    let all = st.buffer + samples;
    let start = scan_start(st.buffer.len() as int);
    &&& verdicts.len() == window_count(start, all.len() as int)
    &&& forall|k: int|
        0 <= k < verdicts.len() ==> judged(is_speech, window_at(all, start, k), #[trigger] verdicts[k])
}

/// Silence counter and speech flag after a run of window verdicts, in order:
/// speech resets the counter, silence adds one window to it.
pub open spec fn after_windows(silence: nat, speech: bool, verdicts: Seq<bool>) -> (nat, bool)
    decreases verdicts.len(),
{
    if verdicts.len() == 0 {
        (silence, speech)
    } else {
        let prev = after_windows(silence, speech, verdicts.drop_last());
        if verdicts.last() {
            (0, true)
        } else {
            ((prev.0 + WINDOW_SIZE) as nat, prev.1)
        }
    }
}

/// The state once the samples have been appended and the windows judged,
/// before any chunk is cut.
pub open spec fn scanned<T>(st: VadState<T>, samples: Seq<T>, verdicts: Seq<bool>) -> VadState<T> {
    let counters = after_windows(st.silence, st.speech, verdicts);
    VadState {
        buffer: st.buffer + samples,
        silence: counters.0,
        speech: counters.1,
        min_silence: st.min_silence,
        max_chunk: st.max_chunk,
    }
}

/// Cuts a chunk where one is due.
///
/// After speech, enough silence ends a chunk: the samples before the
/// silence leave as the chunk and the silence is dropped. Otherwise a full
/// buffer gives up its first `max_chunk` samples.
pub open spec fn settle<T>(st: VadState<T>) -> (VadState<T>, Option<Seq<T>>) {
    let len = st.buffer.len();
    if st.speech && st.silence >= st.min_silence && len > st.silence {
        (
            VadState { buffer: Seq::empty(), silence: 0, speech: false, ..st },
            Some(st.buffer.take(len - st.silence)),
        )
    } else if len >= st.max_chunk {
        (
            VadState { buffer: st.buffer.skip(st.max_chunk as int), silence: 0, speech: false, ..st },
            Some(st.buffer.take(st.max_chunk as int)),
        )
    } else {
        (st, None)
    }
}

/// The state and answer of `flush`.
pub open spec fn flushed<T>(st: VadState<T>) -> (VadState<T>, Option<Seq<T>>) {
    if st.buffer.len() == 0 {
        (st, None)
    } else {
        (VadState { buffer: Seq::empty(), silence: 0, speech: false, ..st }, Some(st.buffer))
    }
}

/// The contents of an optional chunk.
pub open spec fn chunk_view<T>(chunk: Option<Vec<T>>) -> Option<Seq<T>> {
    match chunk {
        Some(v) => Some(v@),
        None => None,
    }
}

proof fn lemma_window_count_bound(from: int, len: int)
    ensures
        window_count(from, len) * WINDOW_SIZE <= if len >= from { len - from } else { 0 },
    decreases len - from,
{
    if from + WINDOW_SIZE <= len {
        lemma_window_count_bound(from + WINDOW_SIZE, len);
    }
}

proof fn lemma_after_windows_bound(silence: nat, speech: bool, verdicts: Seq<bool>)
    ensures
        after_windows(silence, speech, verdicts).0 <= silence + verdicts.len() * WINDOW_SIZE,
    decreases verdicts.len(),
{
    if verdicts.len() > 0 {
        lemma_after_windows_bound(silence, speech, verdicts.drop_last());
    }
}

/// The state of a new chunker.
pub open spec fn fresh<T>() -> VadState<T> {
    VadState {
        buffer: Seq::empty(),
        silence: 0,
        speech: false,
        min_silence: MIN_SILENCE_SAMPLES as nat,
        max_chunk: MAX_CHUNK_SAMPLES as nat,
    }
}

/// What every chunker satisfies: the default timing, and cleared counters
/// whenever nothing is buffered.
pub open spec fn vad_wf<T>(st: VadState<T>) -> bool {
    &&& st.min_silence == MIN_SILENCE_SAMPLES
    &&& st.max_chunk == MAX_CHUNK_SAMPLES
    &&& st.buffer.len() == 0 ==> st.silence == 0 && !st.speech
}

/// `verdicts` has one verdict per window that a feed of `samples` scans.
pub open spec fn verdicts_fit<T>(st: VadState<T>, samples: Seq<T>, verdicts: Seq<bool>) -> bool {
    verdicts.len() == window_count(scan_start(st.buffer.len() as int), (st.buffer + samples).len() as int)
}

/// Every feed of the run got one verdict per window it scans.
pub open spec fn run_fits<T>(st: VadState<T>, feeds: Seq<Seq<T>>, verdicts: Seq<Seq<bool>>) -> bool
    decreases feeds.len(),
{
    &&& feeds.len() == verdicts.len()
    &&& feeds.len() > 0 ==> {
        &&& run_fits(st, feeds.drop_last(), verdicts.drop_last())
        &&& verdicts_fit(
            run_state(st, feeds.drop_last(), verdicts.drop_last()),
            feeds.last(),
            verdicts.last(),
        )
    }
}

/// The new state and the chunk of one feed whose windows got `verdicts`.
pub open spec fn feed_step<T>(st: VadState<T>, samples: Seq<T>, verdicts: Seq<bool>) -> (VadState<T>, Option<Seq<T>>) {
    settle(scanned(st, samples, verdicts))
}

/// The state after feeding `feeds` in order, feed `i` getting the window
/// verdicts `verdicts[i]`.
pub open spec fn run_state<T>(st: VadState<T>, feeds: Seq<Seq<T>>, verdicts: Seq<Seq<bool>>) -> VadState<T>
    decreases feeds.len(),
{
    if feeds.len() == 0 {
        st
    } else {
        feed_step(run_state(st, feeds.drop_last(), verdicts.drop_last()), feeds.last(), verdicts.last()).0
    }
}

/// The chunks handed out, in order, while feeding `feeds`.
pub open spec fn run_chunks<T>(st: VadState<T>, feeds: Seq<Seq<T>>, verdicts: Seq<Seq<bool>>) -> Seq<Seq<T>>
    decreases feeds.len(),
{
    if feeds.len() == 0 {
        Seq::empty()
    } else {
        let prev = run_chunks(st, feeds.drop_last(), verdicts.drop_last());
        match feed_step(run_state(st, feeds.drop_last(), verdicts.drop_last()), feeds.last(), verdicts.last()).1 {
            Some(c) => prev.push(c),
            None => prev,
        }
    }
}

/// A feed loses no sample and keeps the chunker well formed. When no chunk
/// is cut, the buffer is the old buffer followed by the new samples. When
/// one is cut, either it is a full 60 s chunk and the rest stays buffered,
/// or it closes on at least 2 s of silence after speech: it is then a
/// non-empty prefix, that silence is dropped and nothing stays buffered. A
/// cut resets the silence counter and the speech flag.
pub proof fn lemma_feed_keeps_samples<T>(st: VadState<T>, samples: Seq<T>, verdicts: Seq<bool>)
    requires
        vad_wf(st),
        verdicts_fit(st, samples, verdicts),
    ensures
        vad_wf(feed_step(st, samples, verdicts).0),
        ({
            let all = st.buffer + samples;
            let next = feed_step(st, samples, verdicts).0;
            match feed_step(st, samples, verdicts).1 {
                None => next.buffer == all,
                Some(chunk) => {
                    &&& next.silence == 0
                    &&& !next.speech
                    &&& (chunk.len() == MAX_CHUNK_SAMPLES && chunk + next.buffer == all) || (0
                        < chunk.len() && chunk == all.take(chunk.len() as int) && next.buffer.len()
                        == 0 && all.len() - chunk.len() >= MIN_SILENCE_SAMPLES)
                },
            }
        }),
{
    let all = st.buffer + samples;
    let mid = scanned(st, samples, verdicts);
    assert(mid.buffer == all);
    if mid.buffer.len() == 0 {
        assert(samples.len() == 0 && st.buffer.len() == 0);
        assert(window_count(scan_start(0), 0) == 0);
        assert(verdicts.len() == 0);
        assert(after_windows(st.silence, st.speech, verdicts) == (st.silence, st.speech));
    }
    if let Some(chunk) = settle(mid).1 {
        if !(mid.speech && mid.silence >= mid.min_silence && all.len() > mid.silence) {
            assert(chunk + settle(mid).0.buffer =~= all);
        }
    }
}

/// A feed of at most 2 s of samples to a chunker holding less than 60 s
/// leaves it holding less than 60 s, and any chunk it hands out is
/// non-empty and at most 60 s long.
pub proof fn lemma_buffer_stays_below_max<T>(st: VadState<T>, samples: Seq<T>, verdicts: Seq<bool>)
    requires
        vad_wf(st),
        verdicts_fit(st, samples, verdicts),
        st.buffer.len() < MAX_CHUNK_SAMPLES,
        samples.len() <= MIN_SILENCE_SAMPLES,
    ensures
        feed_step(st, samples, verdicts).0.buffer.len() < MAX_CHUNK_SAMPLES,
        feed_step(st, samples, verdicts).1 matches Some(c) ==> 1 <= c.len() <= MAX_CHUNK_SAMPLES,
{
    lemma_feed_keeps_samples(st, samples, verdicts);
}

/// Over any run of feeds of at most 2 s each, starting from a well-formed
/// chunker holding less than 60 s (a new one, say), the chunker keeps
/// holding less than 60 s and every chunk handed out is between one sample
/// and 60 s long.
pub proof fn lemma_run_chunks_bounded<T>(st: VadState<T>, feeds: Seq<Seq<T>>, verdicts: Seq<Seq<bool>>)
    requires
        vad_wf(st),
        run_fits(st, feeds, verdicts),
        st.buffer.len() < MAX_CHUNK_SAMPLES,
        feeds.len() == verdicts.len(),
        forall|i: int| 0 <= i < feeds.len() ==> #[trigger] feeds[i].len() <= MIN_SILENCE_SAMPLES,
    ensures
        vad_wf(run_state(st, feeds, verdicts)),
        run_state(st, feeds, verdicts).buffer.len() < MAX_CHUNK_SAMPLES,
        forall|k: int|
            0 <= k < run_chunks(st, feeds, verdicts).len() ==> 1 <= #[trigger] run_chunks(
                st,
                feeds,
                verdicts,
            )[k].len() <= MAX_CHUNK_SAMPLES,
    decreases feeds.len(),
{
    if feeds.len() > 0 {
        let fs = feeds.drop_last();
        let vs = verdicts.drop_last();
        assert forall|i: int| 0 <= i < fs.len() implies #[trigger] fs[i].len() <= MIN_SILENCE_SAMPLES by {
            assert(fs[i] == feeds[i]);
        }
        lemma_run_chunks_bounded(st, fs, vs);
        let prev = run_state(st, fs, vs);
        assert(feeds.last() == feeds[feeds.len() - 1]);
        lemma_buffer_stays_below_max(prev, feeds.last(), verdicts.last());
        lemma_feed_keeps_samples(prev, feeds.last(), verdicts.last());
        let before = run_chunks(st, fs, vs);
        let after = run_chunks(st, feeds, verdicts);
        assert forall|k: int| 0 <= k < after.len() implies 1 <= #[trigger] after[k].len() <= MAX_CHUNK_SAMPLES by {
            if k < before.len() {
                assert(after[k] == before[k]);
            }
        }
    }
}

/// A feed that cuts no chunk on silence: either nothing is cut and the
/// samples are kept, or a full 60 s chunk is cut and the rest is kept.
proof fn lemma_forced_cut_only<T>(st: VadState<T>, samples: Seq<T>, verdicts: Seq<bool>)
    requires
        vad_wf(st),
        !(scanned(st, samples, verdicts).speech && scanned(st, samples, verdicts).silence
            >= MIN_SILENCE_SAMPLES),
    ensures
        ({
            let all = st.buffer + samples;
            let next = feed_step(st, samples, verdicts).0;
            match feed_step(st, samples, verdicts).1 {
                None => next.buffer == all && all.len() < MAX_CHUNK_SAMPLES,
                Some(c) => c.len() == MAX_CHUNK_SAMPLES && all.len() >= MAX_CHUNK_SAMPLES && c == all.take(
                    MAX_CHUNK_SAMPLES as int,
                ) && next.buffer == all.skip(MAX_CHUNK_SAMPLES as int),
            }
        }),
{
}

/// Without speech, no chunk is cut on silence: a chunker whose speech flag
/// is down (a new or flushed one) and whose windows are all judged silent
/// hands out a chunk only once it holds 60 s, and then exactly its first
/// 60 s; otherwise it keeps all it was fed. The flag stays down.
pub proof fn lemma_quiet_feed<T>(st: VadState<T>, samples: Seq<T>, verdicts: Seq<bool>)
    requires
        vad_wf(st),
        verdicts_fit(st, samples, verdicts),
        !st.speech,
        forall|k: int| 0 <= k < verdicts.len() ==> !#[trigger] verdicts[k],
    ensures
        !feed_step(st, samples, verdicts).0.speech,
        ({
            let all = st.buffer + samples;
            let next = feed_step(st, samples, verdicts).0;
            match feed_step(st, samples, verdicts).1 {
                None => next.buffer == all && all.len() < MAX_CHUNK_SAMPLES,
                Some(c) => all.len() >= MAX_CHUNK_SAMPLES && c == all.take(MAX_CHUNK_SAMPLES as int)
                    && next.buffer == all.skip(MAX_CHUNK_SAMPLES as int),
            }
        }),
{
    lemma_quiet_windows_add_up(st.silence, st.speech, verdicts);
    lemma_forced_cut_only(st, samples, verdicts);
}

/// Continuous speech is never cut early: a chunker whose silence counter is
/// zero (a new one, say) and whose windows are all judged speech hands out
/// only full 60 s chunks, each the first 60 s of what it holds; the counter
/// stays zero.
pub proof fn lemma_speech_feed<T>(st: VadState<T>, samples: Seq<T>, verdicts: Seq<bool>)
    requires
        vad_wf(st),
        verdicts_fit(st, samples, verdicts),
        st.silence == 0,
        forall|k: int| 0 <= k < verdicts.len() ==> #[trigger] verdicts[k],
    ensures
        feed_step(st, samples, verdicts).0.silence == 0,
        ({
            let all = st.buffer + samples;
            let next = feed_step(st, samples, verdicts).0;
            match feed_step(st, samples, verdicts).1 {
                None => next.buffer == all && all.len() < MAX_CHUNK_SAMPLES,
                Some(c) => all.len() >= MAX_CHUNK_SAMPLES && c == all.take(MAX_CHUNK_SAMPLES as int)
                    && next.buffer == all.skip(MAX_CHUNK_SAMPLES as int),
            }
        }),
{
    lemma_quiet_windows_add_up(st.silence, st.speech, verdicts);
    if verdicts.len() > 0 {
        assert(verdicts.last() == verdicts[verdicts.len() - 1]);
    }
    lemma_forced_cut_only(st, samples, verdicts);
}

/// Over a run of feeds whose windows are all judged silent, starting from a
/// chunker with its speech flag down (a new or flushed one): every chunk
/// handed out is a full 60 s, and the chunks in order followed by what
/// stays buffered are exactly what was held and fed, so no sample is lost.
pub proof fn lemma_quiet_run<T>(st: VadState<T>, feeds: Seq<Seq<T>>, verdicts: Seq<Seq<bool>>)
    requires
        vad_wf(st),
        run_fits(st, feeds, verdicts),
        !st.speech,
        feeds.len() == verdicts.len(),
        forall|i: int, k: int| 0 <= i < verdicts.len() && 0 <= k < verdicts[i].len() ==> !#[trigger] verdicts[i][k],
    ensures
        vad_wf(run_state(st, feeds, verdicts)),
        !run_state(st, feeds, verdicts).speech,
        forall|k: int|
            0 <= k < run_chunks(st, feeds, verdicts).len() ==> #[trigger] run_chunks(
                st,
                feeds,
                verdicts,
            )[k].len() == MAX_CHUNK_SAMPLES,
        run_chunks(st, feeds, verdicts).flatten_alt() + run_state(st, feeds, verdicts).buffer == st.buffer
            + feeds.flatten_alt(),
    decreases feeds.len(),
{
    if feeds.len() > 0 {
        let fs = feeds.drop_last();
        let vs = verdicts.drop_last();
        assert forall|i: int, k: int| 0 <= i < vs.len() && 0 <= k < vs[i].len() implies !#[trigger] vs[i][k] by {
            assert(vs[i] == verdicts[i]);
        }
        lemma_quiet_run(st, fs, vs);
        let prev = run_state(st, fs, vs);
        let v = verdicts.last();
        assert forall|k: int| 0 <= k < v.len() implies !#[trigger] v[k] by {
            assert(v == verdicts[verdicts.len() - 1]);
        }
        lemma_quiet_feed(prev, feeds.last(), v);
        lemma_feed_keeps_samples(prev, feeds.last(), v);
        lemma_run_step_keeps_order(st, feeds, verdicts);
    }
}

/// Over a run of feeds whose windows are all judged speech, starting from a
/// chunker whose silence counter is zero (a new one, say): every chunk
/// handed out is a full 60 s, and the chunks in order followed by what
/// stays buffered are exactly what was held and fed.
pub proof fn lemma_speech_run<T>(st: VadState<T>, feeds: Seq<Seq<T>>, verdicts: Seq<Seq<bool>>)
    requires
        vad_wf(st),
        run_fits(st, feeds, verdicts),
        st.silence == 0,
        feeds.len() == verdicts.len(),
        forall|i: int, k: int| 0 <= i < verdicts.len() && 0 <= k < verdicts[i].len() ==> #[trigger] verdicts[i][k],
    ensures
        vad_wf(run_state(st, feeds, verdicts)),
        run_state(st, feeds, verdicts).silence == 0,
        forall|k: int|
            0 <= k < run_chunks(st, feeds, verdicts).len() ==> #[trigger] run_chunks(
                st,
                feeds,
                verdicts,
            )[k].len() == MAX_CHUNK_SAMPLES,
        run_chunks(st, feeds, verdicts).flatten_alt() + run_state(st, feeds, verdicts).buffer == st.buffer
            + feeds.flatten_alt(),
    decreases feeds.len(),
{
    if feeds.len() > 0 {
        let fs = feeds.drop_last();
        let vs = verdicts.drop_last();
        assert forall|i: int, k: int| 0 <= i < vs.len() && 0 <= k < vs[i].len() implies #[trigger] vs[i][k] by {
            assert(vs[i] == verdicts[i]);
        }
        lemma_speech_run(st, fs, vs);
        let prev = run_state(st, fs, vs);
        let v = verdicts.last();
        assert forall|k: int| 0 <= k < v.len() implies #[trigger] v[k] by {
            assert(v == verdicts[verdicts.len() - 1]);
        }
        lemma_speech_feed(prev, feeds.last(), v);
        lemma_feed_keeps_samples(prev, feeds.last(), v);
        lemma_run_step_keeps_order(st, feeds, verdicts);
    }
}

/// One more feed of a run: when the last feed keeps every sample (its chunk,
/// if any, followed by its buffer is what it held and was fed), the
/// concatenation of all chunks and the buffer grows by that feed.
proof fn lemma_run_step_keeps_order<T>(st: VadState<T>, feeds: Seq<Seq<T>>, verdicts: Seq<Seq<bool>>)
    requires
        feeds.len() > 0,
        run_chunks(st, feeds.drop_last(), verdicts.drop_last()).flatten_alt() + run_state(
            st,
            feeds.drop_last(),
            verdicts.drop_last(),
        ).buffer == st.buffer + feeds.drop_last().flatten_alt(),
        ({
            let prev = run_state(st, feeds.drop_last(), verdicts.drop_last());
            let step = feed_step(prev, feeds.last(), verdicts.last());
            match step.1 {
                None => step.0.buffer == prev.buffer + feeds.last(),
                Some(c) => c + step.0.buffer == prev.buffer + feeds.last(),
            }
        }),
    ensures
        run_chunks(st, feeds, verdicts).flatten_alt() + run_state(st, feeds, verdicts).buffer == st.buffer
            + feeds.flatten_alt(),
{
    let fs = feeds.drop_last();
    let vs = verdicts.drop_last();
    let prev = run_state(st, fs, vs);
    let step = feed_step(prev, feeds.last(), verdicts.last());
    let before = run_chunks(st, fs, vs);
    assert(feeds.flatten_alt() == fs.flatten_alt() + feeds.last());
    match step.1 {
        None => {
            assert(run_chunks(st, feeds, verdicts) == before);
            assert(before.flatten_alt() + step.0.buffer =~= (before.flatten_alt() + prev.buffer) + feeds.last());
            assert(st.buffer + feeds.flatten_alt() =~= (st.buffer + fs.flatten_alt()) + feeds.last());
        },
        Some(c) => {
            let after = before.push(c);
            assert(run_chunks(st, feeds, verdicts) == after);
            assert(after.drop_last() == before);
            assert(after.flatten_alt() == before.flatten_alt() + c);
            assert(after.flatten_alt() + step.0.buffer =~= before.flatten_alt() + (c + step.0.buffer));
            assert((before.flatten_alt() + prev.buffer) + feeds.last() =~= before.flatten_alt() + (
            prev.buffer + feeds.last()));
            assert(st.buffer + feeds.flatten_alt() =~= (st.buffer + fs.flatten_alt()) + feeds.last());
        },
    }
}

/// A window with speech resets the silence counter; windows without speech
/// each add `WINDOW_SIZE` samples to it and leave the speech flag as it was.
pub proof fn lemma_quiet_windows_add_up(silence: nat, speech: bool, verdicts: Seq<bool>)
    ensures
        verdicts.len() > 0 && verdicts.last() ==> after_windows(silence, speech, verdicts) == (0nat, true),
        (forall|k: int| 0 <= k < verdicts.len() ==> !#[trigger] verdicts[k]) ==> after_windows(
            silence,
            speech,
            verdicts,
        ) == ((silence + verdicts.len() * WINDOW_SIZE) as nat, speech),
    decreases verdicts.len(),
{
    if verdicts.len() > 0 {
        lemma_quiet_windows_add_up(silence, speech, verdicts.drop_last());
        if forall|k: int| 0 <= k < verdicts.len() ==> !#[trigger] verdicts[k] {
            assert forall|k: int| 0 <= k < verdicts.drop_last().len() implies !#[trigger] verdicts.drop_last()[k] by {
                assert(verdicts.drop_last()[k] == verdicts[k]);
            }
            assert(!verdicts[verdicts.len() - 1]);
        }
    }
}

/// The windows a feed judges: the scan starts with the last full window of
/// what was held before the feed (at the start of the buffer when less than
/// a window was held), goes on window after window, and stops when less than
/// a window is left; every judged window lies within the buffer.
pub proof fn lemma_scan_windows<T>(held: Seq<T>, samples: Seq<T>)
    ensures
        ({
            let all = held + samples;
            let start = scan_start(held.len() as int);
            let n = window_count(start, all.len() as int);
            &&& held.len() >= WINDOW_SIZE ==> n >= 1 && window_at(all, start, 0) == held.skip(
                held.len() - WINDOW_SIZE,
            )
            &&& held.len() < WINDOW_SIZE ==> start == 0
            &&& start + n * WINDOW_SIZE <= all.len()
            &&& all.len() < start + n * WINDOW_SIZE + WINDOW_SIZE
        }),
{
    let all = held + samples;
    let start = scan_start(held.len() as int);
    lemma_window_count_bound(start, all.len() as int);
    lemma_window_count_tail(start, all.len() as int);
    if held.len() >= WINDOW_SIZE {
        assert(window_at(all, start, 0) =~= held.skip(held.len() - WINDOW_SIZE));
    }
}

/// After the last whole window less than a window is left.
proof fn lemma_window_count_tail(from: int, len: int)
    requires
        from <= len,
    ensures
        len < from + window_count(from, len) * WINDOW_SIZE + WINDOW_SIZE,
    decreases len - from,
{
    if from + WINDOW_SIZE <= len {
        lemma_window_count_tail(from + WINDOW_SIZE, len);
    }
}

/// The timing at 16 kHz: windows of 100 ms, 2 s of silence to close a
/// chunk, 60 s at most per forced chunk.
pub proof fn lemma_timing()
    ensures
        WINDOW_SIZE * 10 == crate::SAMPLE_RATE,
        MIN_SILENCE_SAMPLES == 2 * crate::SAMPLE_RATE,
        MAX_CHUNK_SAMPLES == 60 * crate::SAMPLE_RATE,
{
}

/// A feed raises the speech flag exactly when one of its windows is judged
/// speech (or the flag was already up); silent windows never lower it.
pub proof fn lemma_speech_flag(silence: nat, speech: bool, verdicts: Seq<bool>)
    ensures
        after_windows(silence, speech, verdicts).1 == (speech || exists|k: int|
            0 <= k < verdicts.len() && #[trigger] verdicts[k]),
    decreases verdicts.len(),
{
    if verdicts.len() > 0 {
        let d = verdicts.drop_last();
        lemma_speech_flag(silence, speech, d);
        if exists|k: int| 0 <= k < d.len() && #[trigger] d[k] {
            let k = choose|k: int| 0 <= k < d.len() && #[trigger] d[k];
            assert(verdicts[k] == d[k]);
        }
        if exists|k: int| 0 <= k < verdicts.len() && #[trigger] verdicts[k] {
            let k = choose|k: int| 0 <= k < verdicts.len() && #[trigger] verdicts[k];
            if k < d.len() {
                assert(d[k] == verdicts[k]);
            } else {
                assert(verdicts.last());
            }
        }
    }
}

/// After a window judged speech, the silence counter holds exactly the
/// windows judged silent that follow the last such window, `WINDOW_SIZE`
/// samples each, whatever it held before.
pub proof fn lemma_silence_after_last_speech(silence: nat, speech: bool, verdicts: Seq<bool>, k: int)
    requires
        0 <= k < verdicts.len(),
        verdicts[k],
        forall|j: int| k < j < verdicts.len() ==> !#[trigger] verdicts[j],
    ensures
        after_windows(silence, speech, verdicts).0 == (verdicts.len() - 1 - k) * WINDOW_SIZE,
        after_windows(silence, speech, verdicts).1,
    decreases verdicts.len(),
{
    if k < verdicts.len() - 1 {
        let d = verdicts.drop_last();
        assert(d[k] == verdicts[k]);
        assert forall|j: int| k < j < d.len() implies !#[trigger] d[j] by {
            assert(d[j] == verdicts[j]);
        }
        lemma_silence_after_last_speech(silence, speech, d, k);
        assert(!verdicts[verdicts.len() - 1]);
    }
}

/// A feed whose windows hold speech followed by at least 2 s of windows
/// judged silent closes a chunk on that silence: the chunk is every sample
/// held and fed except the last `t` ones, where `t` is the length of the
/// silent windows after the last speech window; it holds that speech window
/// whole, and nothing stays buffered.
pub proof fn lemma_silence_cut_after_speech<T>(st: VadState<T>, samples: Seq<T>, verdicts: Seq<bool>, k: int)
    requires
        vad_wf(st),
        verdicts_fit(st, samples, verdicts),
        0 <= k < verdicts.len(),
        verdicts[k],
        forall|j: int| k < j < verdicts.len() ==> !#[trigger] verdicts[j],
        (verdicts.len() - 1 - k) * WINDOW_SIZE >= MIN_SILENCE_SAMPLES,
    ensures
        ({
            let all = st.buffer + samples;
            let t = (verdicts.len() - 1 - k) * WINDOW_SIZE;
            &&& t < all.len()
            &&& feed_step(st, samples, verdicts).1 == Some(all.take(all.len() - t))
            &&& feed_step(st, samples, verdicts).0.buffer.len() == 0
            &&& scan_start(st.buffer.len() as int) + (k + 1) * WINDOW_SIZE <= all.len() - t
        }),
{
    let all = st.buffer + samples;
    let start = scan_start(st.buffer.len() as int);
    lemma_silence_after_last_speech(st.silence, st.speech, verdicts, k);
    lemma_window_count_bound(start, all.len() as int);
    assert(start <= all.len());
    assert(start + verdicts.len() * WINDOW_SIZE <= all.len());
}

/// Flushing hands out the whole buffer, if any, and leaves the chunker in
/// exactly the state of a new one, so it behaves like a new one on every
/// later feed: a second flush gives nothing.
pub proof fn lemma_flush_renews<T>(st: VadState<T>)
    requires
        vad_wf(st),
    ensures
        flushed(st).0 == fresh::<T>(),
        flushed(st).1 == (if st.buffer.len() == 0 {
            None
        } else {
            Some(st.buffer)
        }),
        flushed(flushed(st).0).1 is None,
{
    if st.buffer.len() == 0 {
        assert(st.buffer == Seq::<T>::empty());
    }
}

impl<T> VadChunker<T> {
    #[verifier::type_invariant]
    spec fn inv(self) -> bool {
        vad_wf(self@)
    }

    /// A chunker with an empty buffer and the default timing: 2 s of silence
    /// end a chunk, 60 s force one out.
    pub fn new() -> (r: Self)
        ensures
            r@ == fresh::<T>(),
            vad_wf(r@),
    {
        VadChunker {
            buffer: Vec::new(),
            min_silence_samples: MIN_SILENCE_SAMPLES,
            max_chunk_samples: MAX_CHUNK_SAMPLES,
            silence_counter: 0,
            speech_detected: false,
        }
    }

    /// Samples buffered and not yet emitted.
    pub fn buffered_len(&self) -> (r: usize)
        ensures
            r == self@.buffer.len(),
    {
        self.buffer.len()
    }

    /// Samples counted as silence since the last speech.
    pub fn silence_samples(&self) -> (r: usize)
        ensures
            r == self@.silence,
    {
        self.silence_counter
    }

    /// Feeds new samples. Returns a speech chunk if a boundary is detected.
    ///
    /// The samples are appended to the buffer. Windows of `WINDOW_SIZE`
    /// samples are then judged by `is_speech`, one after another, starting
    /// with the last full window before the new samples; a window with speech
    /// resets the silence counter, a silent one adds its length to it. Last,
    /// a chunk is cut where `settle` says one is due.
    pub fn feed<F: Fn(&[T]) -> bool>(&mut self, samples: Vec<T>, is_speech: F) -> (chunk: Option<Vec<T>>)
        requires
            old(self)@.buffer.len() + samples@.len() + WINDOW_SIZE <= usize::MAX,
            old(self)@.silence + samples@.len() + WINDOW_SIZE <= usize::MAX,
            forall|s: &[T]| call_requires(is_speech, (s,)),
        ensures
            exists|verdicts: Seq<bool>|
                {
                    &&& #[trigger] verdicts_of(is_speech, old(self)@, samples@, verdicts)
                    &&& final(self)@ == settle(scanned(old(self)@, samples@, verdicts)).0
                    &&& chunk_view(chunk) == settle(scanned(old(self)@, samples@, verdicts)).1
                },
            vad_wf(old(self)@),
            vad_wf(final(self)@),
    {
        proof {
            use_type_invariant(&*self);
        }
        let ghost st0 = self@;
        let ghost all = self@.buffer + samples@;
        let n = samples.len();
        let ghost fed = samples@;
        let mut incoming = samples;
        let silence0 = self.silence_counter;
        let speech0 = self.speech_detected;
        self.silence_counter = 0;
        self.speech_detected = false;
        let mut buffer: Vec<T> = Vec::new();
        std::mem::swap(&mut buffer, &mut self.buffer);
        buffer.append(&mut incoming);
        self.buffer = buffer;
        self.silence_counter = silence0;
        self.speech_detected = speech0;
        let new_len = self.buffer.len();
        assert(self.buffer@ == all);

        let mut offset: usize = if new_len > n + WINDOW_SIZE {
            new_len - n - WINDOW_SIZE
        } else {
            0
        };
        let ghost start = offset as int;
        assert(start == scan_start(st0.buffer.len() as int));
        let ghost mut verdicts: Seq<bool> = Seq::empty();

        while offset + WINDOW_SIZE <= new_len
            invariant
                self.buffer@ == all,
                new_len == all.len(),
                all.len() == st0.buffer.len() + n,
                st0.buffer.len() + n + WINDOW_SIZE <= usize::MAX,
                st0.silence + n + WINDOW_SIZE <= usize::MAX,
                start == scan_start(st0.buffer.len() as int),
                offset == start + verdicts.len() * WINDOW_SIZE,
                verdicts.len() + window_count(offset as int, new_len as int) == window_count(
                    start,
                    new_len as int,
                ),
                forall|k: int|
                    0 <= k < verdicts.len() ==> judged(
                        is_speech,
                        window_at(all, start, k),
                        #[trigger] verdicts[k],
                    ),
                (self.silence_counter as nat, self.speech_detected) == after_windows(
                    st0.silence,
                    st0.speech,
                    verdicts,
                ),
                self.min_silence_samples == st0.min_silence,
                self.max_chunk_samples == st0.max_chunk,
                vad_wf(st0),
                offset <= new_len,
                forall|s: &[T]| call_requires(is_speech, (s,)),
            decreases new_len - offset,
        {
            let window = slice_subrange(self.buffer.as_slice(), offset, offset + WINDOW_SIZE);
            let loud = is_speech(window);
            proof {
                assert(window@ == window_at(all, start, verdicts.len() as int));
                lemma_after_windows_bound(st0.silence, st0.speech, verdicts);
            }
            if loud {
                self.speech_detected = true;
                self.silence_counter = 0;
            } else {
                self.silence_counter = self.silence_counter + WINDOW_SIZE;
            }
            proof {
                let ghost old_verdicts = verdicts;
                verdicts = verdicts.push(loud);
                assert(verdicts.drop_last() == old_verdicts);
                assert forall|k: int| 0 <= k < verdicts.len() implies judged(
                    is_speech,
                    window_at(all, start, k),
                    #[trigger] verdicts[k],
                ) by {
                    if k < old_verdicts.len() {
                        assert(verdicts[k] == old_verdicts[k]);
                    } else {
                        assert(window@ == window_at(all, start, k));
                    }
                }
            }
            offset = offset + WINDOW_SIZE;
        }
        assert(window_count(offset as int, new_len as int) == 0);
        assert(self@ == scanned(st0, fed, verdicts));
        let chunk = self.settle_now();
        assert(verdicts_of(is_speech, st0, fed, verdicts));
        proof {
            use_type_invariant(&*self);
        }
        chunk
    }

    /// Cuts a chunk from the buffer if one is due (see `settle`).
    fn settle_now(&mut self) -> (chunk: Option<Vec<T>>)
        ensures
            final(self)@ == settle(old(self)@).0,
            chunk_view(chunk) == settle(old(self)@).1,
    {
        proof {
            use_type_invariant(&*self);
        }
        let len = self.buffer.len();
        if self.speech_detected && self.silence_counter >= self.min_silence_samples {
            let split_point = len.saturating_sub(self.silence_counter);
            if split_point > 0 {
                self.silence_counter = 0;
                self.speech_detected = false;
                let mut chunk: Vec<T> = Vec::new();
                std::mem::swap(&mut chunk, &mut self.buffer);
                chunk.truncate(split_point);
                return Some(chunk);
            }
        }
        if len >= self.max_chunk_samples {
            self.silence_counter = 0;
            self.speech_detected = false;
            let mut chunk: Vec<T> = Vec::new();
            std::mem::swap(&mut chunk, &mut self.buffer);
            let rest = chunk.split_off(self.max_chunk_samples);
            self.buffer = rest;
            return Some(chunk);
        }
        None
    }

    /// Flushes the remaining buffer (for graceful shutdown).
    pub fn flush(&mut self) -> (chunk: Option<Vec<T>>)
        ensures
            final(self)@ == flushed(old(self)@).0,
            chunk_view(chunk) == flushed(old(self)@).1,
            vad_wf(old(self)@),
            vad_wf(final(self)@),
    {
        proof {
            use_type_invariant(&*self);
        }
        if self.buffer.len() == 0 {
            return None;
        }
        self.silence_counter = 0;
        self.speech_detected = false;
        let mut chunk: Vec<T> = Vec::new();
        std::mem::swap(&mut chunk, &mut self.buffer);
        Some(chunk)
    }
}

} // verus!
