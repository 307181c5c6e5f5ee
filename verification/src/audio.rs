//! Spreading the engine's interleaved stereo output over the channels of an
//! audio device buffer.

use vstd::prelude::*;

verus! {

/// The most frames processed in one audio callback.
pub const MAX_FRAMES: usize = 8192;

/// How many frames one callback processes for a device buffer of
/// `output_len` samples over `channels` channels.
pub fn audio_frames(output_len: usize, channels: usize) -> (frames: usize)
    requires
        channels > 0,
    ensures
        frames == if output_len / channels < MAX_FRAMES {
            output_len / channels
        } else {
            MAX_FRAMES
        },
        frames * channels <= output_len,
{
    let frames = output_len / channels;
    proof {
        vstd::arithmetic::div_mod::lemma_fundamental_div_mod(output_len as int, channels as int);
        assert(frames * channels <= output_len) by (nonlinear_arith)
            requires
                frames == output_len / channels,
                output_len == channels * (output_len / channels) + output_len % channels,
                output_len % channels >= 0,
        ;
    }
    if frames < MAX_FRAMES {
        frames
    } else {
        proof {
            assert(MAX_FRAMES * channels <= frames * channels) by (nonlinear_arith)
                requires
                    MAX_FRAMES <= frames,
                    channels > 0,
            ;
        }
        MAX_FRAMES
    }
}

/// The sample a device buffer holds at position `k` after spreading: in
/// frame `k / channels`, channel 0 takes the left sample, channel 1 the
/// right one, every other channel and every sample past the last frame is
/// silent.
pub open spec fn spread_sample<T>(
    stereo: Seq<T>,
    channels: int,
    frames: int,
    silence: T,
    k: int,
) -> T {
    if k < frames * channels {
        let frame = k / channels;
        let ch = k % channels;
        if ch == 0 {
            stereo[2 * frame]
        } else if ch == 1 {
            stereo[2 * frame + 1]
        } else {
            silence
        }
    } else {
        silence
    }
}

/// In every written frame `f` of a device with `channels` channels, channel
/// 0 holds the left sample `stereo[2f]`, channel 1 the right sample
/// `stereo[2f + 1]`, and every further channel is silent.
pub proof fn lemma_spread_channels<T>(stereo: Seq<T>, channels: int, frames: int, silence: T, f: int, ch: int)
    requires
        channels > 0,
        0 <= f < frames,
        0 <= ch < channels,
    ensures
        0 <= f * channels + ch < frames * channels,
        spread_sample(stereo, channels, frames, silence, f * channels + ch) == if ch == 0 {
            stereo[2 * f]
        } else if ch == 1 {
            stereo[2 * f + 1]
        } else {
            silence
        },
{
    let k = f * channels + ch;
    assert(k < frames * channels) by (nonlinear_arith)
        requires
            k == f * channels + ch,
            0 <= f < frames,
            0 <= ch < channels,
    ;
    assert(0 <= k) by (nonlinear_arith)
        requires
            k == f * channels + ch,
            0 <= f,
            0 <= ch,
            channels > 0,
    ;
    vstd::arithmetic::div_mod::lemma_fundamental_div_mod_converse(k, channels, f, ch);
}

/// Write `frames` interleaved stereo frames of `stereo` into `output`, a
/// buffer of `channels` interleaved channels, and silence the rest of it.
pub fn spread_stereo<T: Copy>(
    stereo: &[T],
    output: &mut [T],
    channels: usize,
    frames: usize,
    silence: T,
)
    requires
        channels > 0,
        frames * channels <= old(output)@.len(),
        2 * frames <= stereo@.len(),
    ensures
        final(output)@.len() == old(output)@.len(),
        forall|k: int|
            0 <= k < final(output)@.len() ==> #[trigger] final(output)@[k] == spread_sample(
                stereo@,
                channels as int,
                frames as int,
                silence,
                k,
            ),
        forall|f: int, ch: int|
            #![trigger final(output)@[f * channels + ch]]
            0 <= f < frames && 0 <= ch < channels ==> final(output)@[f * channels + ch] == if ch == 0 {
                stereo@[2 * f]
            } else if ch == 1 {
                stereo@[2 * f + 1]
            } else {
                silence
            },
        forall|k: int| frames * channels <= k < final(output)@.len() ==> #[trigger] final(output)@[k] == silence,
{
    let n = output.len();
    let sl = stereo.len();
    let mut i: usize = 0;
    while i < frames
        invariant
            channels > 0,
            i <= frames,
            frames * channels <= n,
            n == output@.len(),
            2 * frames <= stereo@.len(),
            sl == stereo@.len(),
            forall|k: int|
                0 <= k < i * channels ==> #[trigger] output@[k] == spread_sample(
                    stereo@,
                    channels as int,
                    frames as int,
                    silence,
                    k,
                ),
        decreases frames - i,
    {
        assert((i + 1) * channels <= frames * channels) by (nonlinear_arith)
            requires
                i < frames,
                channels > 0,
        ;
        assert((i + 1) * channels == i * channels + channels) by (nonlinear_arith);
        let base = i * channels;
        let mut ch: usize = 0;
        while ch < channels
            invariant
                channels > 0,
                i < frames,
                base == i * channels,
                base + channels <= frames * channels,
                frames * channels <= n,
                n == output@.len(),
                2 * frames <= stereo@.len(),
                sl == stereo@.len(),
                ch <= channels,
                forall|k: int|
                    0 <= k < base + ch ==> #[trigger] output@[k] == spread_sample(
                        stereo@,
                        channels as int,
                        frames as int,
                        silence,
                        k,
                    ),
            decreases channels - ch,
        {
            let v = if ch == 0 {
                stereo[i * 2]
            } else if ch == 1 {
                stereo[i * 2 + 1]
            } else {
                silence
            };
            let ghost k = base + ch;
            proof {
                vstd::arithmetic::div_mod::lemma_fundamental_div_mod_converse(
                    k as int,
                    channels as int,
                    i as int,
                    ch as int,
                );
                assert(k < frames * channels);
            }
            output[base + ch] = v;
            ch = ch + 1;
        }
        i = i + 1;
    }
    let mut k: usize = frames * channels;
    while k < n
        invariant
            channels > 0,
            frames * channels <= k <= n,
            n == output@.len(),
            forall|j: int|
                0 <= j < k ==> #[trigger] output@[j] == spread_sample(
                    stereo@,
                    channels as int,
                    frames as int,
                    silence,
                    j,
                ),
        decreases n - k,
    {
        output[k] = silence;
        k = k + 1;
    }
    proof {
        assert forall|f: int, ch: int|
            0 <= f < frames && 0 <= ch < channels implies #[trigger] output@[f * channels + ch] == if ch == 0 {
                stereo@[2 * f]
            } else if ch == 1 {
                stereo@[2 * f + 1]
            } else {
                silence
            } by {
            lemma_spread_channels(stereo@, channels as int, frames as int, silence, f, ch);
        }
    }
}

} // verus!
