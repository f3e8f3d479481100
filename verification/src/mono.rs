use vstd::prelude::*;
use vstd::slice::{slice_subrange, slice_to_vec};
use vstd::arithmetic::div_mod::{lemma_fundamental_div_mod, lemma_fundamental_div_mod_converse};

verus! {

/// Interleaved samples cut into frames of `channels` samples, in order; the
/// last frame may be shorter.
pub open spec fn frames<T>(data: Seq<T>, channels: nat) -> Seq<Seq<T>>
    recommends
        channels > 0,
    decreases data.len(),
{
    if data.len() == 0 || channels == 0 {
        Seq::empty()
    } else if data.len() <= channels {
        seq![data]
    } else {
        seq![data.take(channels as int)] + frames(data.skip(channels as int), channels)
    }
}

/// There is one frame per `channels` samples, the last one possibly
/// partial: the number of samples divided by `channels`, rounded up.
pub proof fn lemma_frame_count<T>(data: Seq<T>, channels: nat)
    requires
        channels > 0,
    ensures
        frames(data, channels).len() == (data.len() + channels - 1) / (channels as int),
        forall|k: int| 0 <= k < frames(data, channels).len() ==> #[trigger] frames(data, channels)[k].len() > 0,
    decreases data.len(),
{
    let c = channels as int;
    let len = data.len() as int;
    if len == 0 {
        lemma_fundamental_div_mod_converse(c - 1, c, 0, c - 1);
    } else if len <= c {
        lemma_fundamental_div_mod_converse(len + c - 1, c, 1, len - 1);
    } else {
        let rest = data.skip(c);
        lemma_frame_count(rest, channels);
        let q = (rest.len() + c - 1) / c;
        lemma_fundamental_div_mod(rest.len() + c - 1, c);
        let r = (rest.len() + c - 1) % c;
        assert(len + c - 1 == (q + 1) * c + r) by (nonlinear_arith)
            requires
                rest.len() + c - 1 == c * q + r,
                rest.len() == len - c,
        ;
        lemma_fundamental_div_mod_converse(len + c - 1, c, q + 1, r);
        let f = frames(data, channels);
        assert(f == seq![data.take(c)] + frames(rest, channels));
        assert forall|k: int| 0 <= k < f.len() implies #[trigger] f[k].len() > 0 by {
            if k > 0 {
                assert(f[k] == frames(rest, channels)[k - 1]);
            }
        }
    }
}

/// Cutting into frames loses and reorders nothing: the frames put back
/// together are the samples, and every frame but the last holds exactly
/// `channels` samples.
pub proof fn lemma_frames_partition<T>(data: Seq<T>, channels: nat)
    requires
        channels > 0,
    ensures
        frames(data, channels).flatten() == data,
        forall|k: int|
            0 <= k < frames(data, channels).len() - 1 ==> #[trigger] frames(data, channels)[k].len()
                == channels,
    decreases data.len(),
{
    let f = frames(data, channels);
    if data.len() == 0 {
    } else if data.len() <= channels {
        assert(f == seq![data]);
        assert(f.drop_first().len() == 0);
        assert(f.drop_first().flatten() == Seq::<T>::empty());
        assert(f.first() == data);
        assert(f.flatten() == f.first() + f.drop_first().flatten());
        assert(f.flatten() == data + Seq::<T>::empty());
        assert(data + Seq::<T>::empty() == data);
    } else {
        let rest = data.skip(channels as int);
        lemma_frames_partition(rest, channels);
        assert(f == seq![data.take(channels as int)] + frames(rest, channels));
        assert(f.first() == data.take(channels as int));
        assert(f.drop_first() == frames(rest, channels));
        assert(data.take(channels as int) + rest == data);
        assert(f.flatten() == f.first() + f.drop_first().flatten());
        assert forall|k: int| 0 <= k < f.len() - 1 implies #[trigger] f[k].len() == channels by {
            if k > 0 {
                assert(f[k] == frames(rest, channels)[k - 1]);
            }
        }
    }
}

/// `sample` is an answer of `fold` on a slice holding `frame`.
pub open spec fn folded<T, F: Fn(&[T]) -> T>(fold: F, frame: Seq<T>, sample: T) -> bool {
    exists|s: &[T]| s@ == frame && call_ensures(fold, (s,), sample)
}

/// Turns interleaved multi-channel audio into one channel: each frame of
/// `channels` samples becomes the one sample that `fold` makes of it (the
/// average of the channels). Audio with at most one channel is copied as it
/// is.
pub fn to_mono<T: Copy, F: Fn(&[T]) -> T>(data: &[T], channels: usize, fold: F) -> (r: Vec<T>)
    requires
        forall|s: &[T]| call_requires(fold, (s,)),
    ensures
        channels <= 1 ==> r@ == data@,
        channels > 1 ==> r@.len() == frames(data@, channels as nat).len() && forall|k: int|
            0 <= k < r@.len() ==> folded(fold, frames(data@, channels as nat)[k], #[trigger] r@[k]),
{
    if channels <= 1 {
        return slice_to_vec(data);
    }
    let ghost all = frames(data@, channels as nat);
    let ghost mut done: Seq<Seq<T>> = Seq::empty();
    let n = data.len();
    let mut out: Vec<T> = Vec::new();
    let mut offset: usize = 0;
    assert(data@.skip(0) == data@);
    while offset < n
        invariant
            n == data@.len(),
            channels > 1,
            offset <= n,
            all == frames(data@, channels as nat),
            all == done + frames(data@.skip(offset as int), channels as nat),
            out@.len() == done.len(),
            forall|k: int| 0 <= k < out@.len() ==> folded(fold, done[k], #[trigger] out@[k]),
            forall|s: &[T]| call_requires(fold, (s,)),
        decreases n - offset,
    {
        let ghost rest = data@.skip(offset as int);
        let end = if n - offset > channels {
            offset + channels
        } else {
            n
        };
        let frame = slice_subrange(data, offset, end);
        let v = fold(frame);
        proof {
            assert(frame@ == data@.subrange(offset as int, end as int));
            if n - offset > channels {
                assert(rest.take(channels as int) == frame@);
                assert(rest.skip(channels as int) == data@.skip(end as int));
                assert(frames(rest, channels as nat) == seq![frame@] + frames(
                    data@.skip(end as int),
                    channels as nat,
                ));
            } else {
                assert(rest == frame@);
                assert(data@.skip(end as int).len() == 0);
                assert(frames(rest, channels as nat) == seq![frame@]);
            }
            assert(all == done.push(frame@) + frames(data@.skip(end as int), channels as nat));
        }
        let ghost before = out@;
        let ghost done_before = done;
        out.push(v);
        proof {
            done = done.push(frame@);
            assert forall|k: int| 0 <= k < out@.len() implies folded(fold, done[k], #[trigger] out@[k]) by {
                if k < before.len() {
                    assert(out@[k] == before[k]);
                    assert(done[k] == done_before[k]);
                } else {
                    assert(frame@ == done[k]);
                }
            }
        }
        offset = end;
    }
    assert(frames(data@.skip(n as int), channels as nat) == Seq::<Seq<T>>::empty());
    assert(done == all);
    out
}

} // verus!
