//! Downmixing interleaved multi-channel frames to mono, and spreading mono
//! samples back over the channels of an output frame.

use vstd::prelude::*;

verus! {

/// Sum of a sequence of samples.
pub open spec fn sum_of(s: Seq<i16>) -> int
    decreases s.len(),
{
    if s.len() == 0 {
        0
    } else {
        sum_of(s.drop_last()) + s.last() as int
    }
}

/// Integer division truncated toward zero, as Rust's `/` does on signed values.
pub open spec fn trunc_div(a: int, n: int) -> int {
    if a >= 0 {
        a / n
    } else {
        -((-a) / n)
    }
}

/// The mono frame of an `n`-channel interleaved frame: each complete group of
/// `n` samples becomes its truncated average; a trailing partial group is dropped.
pub open spec fn downmixed(s: Seq<i16>, n: nat) -> Seq<i16> {
    Seq::new(
        s.len() / n,
        |k: int| trunc_div(sum_of(s.subrange(k * n, k * n + n)), n as int) as i16,
    )
}

/// The output frame of `frame_len` samples over `ch` channels filled from `mono`:
/// the first `min(mono.len(), frame_len / ch)` mono samples are each repeated
/// over the `ch` channels of their group, and every other position is silence.
pub open spec fn upmixed(mono: Seq<i16>, frame_len: nat, ch: nat) -> Seq<i16> {
    Seq::new(
        frame_len,
        |i: int|
            if i / (ch as int) < mono.len() && i / (ch as int) < frame_len / ch {
                mono[i / (ch as int)]
            } else {
                0
            },
    )
}

/// How many mono samples an output frame of `frame_len` samples over `ch`
/// channels takes from `available` ones.
pub open spec fn mono_taken(available: nat, frame_len: nat, ch: nat) -> nat {
    if available < frame_len / ch {
        available
    } else {
        frame_len / ch
    }
}

proof fn lemma_sum_extend(s: Seq<i16>, a: int, j: int)
    requires
        0 <= a <= a + j < s.len(),
        0 <= j,
    ensures
        sum_of(s.subrange(a, a + j + 1)) == sum_of(s.subrange(a, a + j)) + s[a + j] as int,
{
    assert(s.subrange(a, a + j + 1).drop_last() =~= s.subrange(a, a + j));
}

/// Truncated average of the `n` samples of `data` that start at `start`.
fn group_average(data: &[i16], start: usize, n: usize) -> (r: i16)
    requires
        n >= 1,
        start + n <= data@.len(),
    ensures
        r as int == trunc_div(sum_of(data@.subrange(start as int, start + n)), n as int),
{
    let len = data.len();
    let mut acc: i128 = 0;
    let mut j: usize = 0;
    while j < n
        invariant
            j <= n,
            len == data@.len(),
            start + n <= data@.len(),
            acc as int == sum_of(data@.subrange(start as int, start + j)),
            -32768 * (j as int) <= acc as int <= 32767 * (j as int),
        decreases n - j,
    {
        proof {
            lemma_sum_extend(data@, start as int, j as int);
        }
        acc = acc + data[start + j] as i128;
        j = j + 1;
    }
    let nn = n as i128;
    let avg: i128 = if acc >= 0 {
        acc / nn
    } else {
        -((-acc) / nn)
    };
    proof {
        let a = acc as int;
        let m = n as int;
        if a >= 0 {
            assert(a / m <= 32767) by (nonlinear_arith)
                requires a <= 32767 * m, m >= 1, a >= 0;
            assert(a / m >= 0) by (nonlinear_arith)
                requires m >= 1, a >= 0;
        } else {
            assert((-a) / m <= 32768) by (nonlinear_arith)
                requires -a <= 32768 * m, m >= 1, -a >= 0;
            assert((-a) / m >= 0) by (nonlinear_arith)
                requires m >= 1, -a >= 0;
        }
    }
    avg as i16
}

/// Downmixes an interleaved frame of `channels` channels to mono.
pub fn convert_to_mono(data: &[i16], channels: usize) -> (r: Vec<i16>)
    requires
        channels >= 1,
    ensures
        r@ == downmixed(data@, channels as nat),
{
    let len = data.len();
    let groups = len / channels;
    let mut out: Vec<i16> = Vec::with_capacity(groups);
    let mut k: usize = 0;
    let mut start: usize = 0;
    while k < groups
        invariant
            channels >= 1,
            data@.len() <= usize::MAX,
            groups == data@.len() / (channels as nat),
            k <= groups,
            start == k * channels,
            out@.len() == k,
            forall|m: int|
                0 <= m < k ==> #[trigger] out@[m] == downmixed(data@, channels as nat)[m],
        decreases groups - k,
    {
        proof {
            let n = channels as int;
            let len = data@.len() as int;
            assert((k as int + 1) * n <= len) by (nonlinear_arith)
                requires k < len / n, n >= 1, len >= 0;
            assert((k as int + 1) * n == k * n + n) by (nonlinear_arith);
        }
        let avg = group_average(data, start, channels);
        out.push(avg);
        k = k + 1;
        start = start + channels;
    }
    assert(out@ =~= downmixed(data@, channels as nat));
    out
}

/// Fills an output frame of `frame_len` samples over `channels` channels from
/// the mono samples available, repeating each across its channels and
/// zero-filling what the mono samples do not cover.
pub fn upmix(mono: &[i16], frame_len: usize, channels: usize) -> (r: Vec<i16>)
    requires
        channels >= 1,
    ensures
        r@ == upmixed(mono@, frame_len as nat, channels as nat),
{
    let per_channel = frame_len / channels;
    let taken = if mono.len() < per_channel {
        mono.len()
    } else {
        per_channel
    };
    let mut out: Vec<i16> = Vec::with_capacity(frame_len);
    let mut i: usize = 0;
    while i < frame_len
        invariant
            channels >= 1,
            per_channel == frame_len / channels,
            taken == mono_taken(mono@.len(), frame_len as nat, channels as nat),
            i <= frame_len,
            out@.len() == i,
            forall|m: int|
                0 <= m < i ==> #[trigger] out@[m] == upmixed(
                    mono@,
                    frame_len as nat,
                    channels as nat,
                )[m],
        decreases frame_len - i,
    {
        let q = i / channels;
        if q < taken {
            out.push(mono[q]);
        } else {
            out.push(0);
        }
        i = i + 1;
    }
    assert(out@ =~= upmixed(mono@, frame_len as nat, channels as nat));
    out
}

/// With a single channel, downmixing leaves every frame unchanged.
pub proof fn lemma_downmix_single_channel(s: Seq<i16>)
    ensures
        downmixed(s, 1) == s,
{
    assert forall|k: int| 0 <= k < s.len() implies #[trigger] downmixed(s, 1)[k] == s[k] by {
        let g = s.subrange(k * 1, k * 1 + 1);
        assert(g.drop_last() =~= Seq::<i16>::empty());
        assert(sum_of(g.drop_last()) == 0);
        assert(g.last() == s[k]);
        assert(sum_of(g) == s[k] as int);
    }
    assert(downmixed(s, 1) =~= s);
}

/// With a single channel and an output frame as long as the mono samples,
/// upmixing leaves them unchanged.
pub proof fn lemma_upmix_single_channel(s: Seq<i16>)
    ensures
        upmixed(s, s.len(), 1) == s,
{
    assert(upmixed(s, s.len(), 1) =~= s);
}

} // verus!
