use vstd::prelude::*;

use crate::text::{decimal, hex_literal, hex_string, push_decimal, push_signed_decimal, signed_decimal};

verus! {

/// Sample rate of the audio the filter graph produces.
pub const OUTPUT_SAMPLE_RATE: u32 = 16_000;

/// Level under which audio counts as silence, in dB.
pub const SILENCE_THRESHOLD_DB: i32 = -50;

/// How long audio must stay under the threshold to be removed, in seconds,
/// as the filter reads it.
pub const SILENCE_WINDOW_SECS: &'static str = "0.5";

/// The channel layout handed to the filter graph: `stereo` when the decoder
/// gives none, else its channel mask in hexadecimal.
pub open spec fn channel_layout_text(unspecified: bool, mask: nat) -> Seq<char> {
    if unspecified {
        "stereo"@
    } else {
        hex_literal(mask)
    }
}

/// The arguments of the `abuffer` source: the decoder's rate (also as the
/// time base), sample format and channel layout.
pub open spec fn abuffer_args(rate: nat, fmt: Seq<char>, layout: Seq<char>) -> Seq<char> {
    "time_base=1/"@ + decimal(rate) + ":sample_rate="@ + decimal(rate) + ":sample_fmt="@ + fmt
        + ":channel_layout="@ + layout
}

/// The filter chain: decoded audio is resampled to 16 kHz mono, silence is
/// removed, and the result is formatted as signed 16-bit mono samples.
pub open spec fn filter_graph_text(rate: nat, fmt: Seq<char>, layout: Seq<char>) -> Seq<char> {
    "abuffer="@ + abuffer_args(rate, fmt, layout) + " [step1]; [step1] aresample=out_sample_rate="@
        + decimal(OUTPUT_SAMPLE_RATE as nat)
        + ":out_chlayout=mono:filter_size=64:cutoff=0.97 [step2]; [step2] silenceremove=start_periods=1:start_duration="@
        + SILENCE_WINDOW_SECS@ + ":start_threshold="@ + signed_decimal(SILENCE_THRESHOLD_DB as int)
        + "dB:stop_periods=-1:stop_duration="@ + SILENCE_WINDOW_SECS@ + ":stop_threshold="@
        + signed_decimal(SILENCE_THRESHOLD_DB as int)
        + "dB [step3]; [step3] aformat=sample_fmts=s16:channel_layouts=mono:sample_rates="@
        + decimal(OUTPUT_SAMPLE_RATE as nat) + " [step4]; [step4] abuffersink"@
}

/// The channel layout argument for a decoder whose layout is `unspecified`
/// or has channel mask `mask`.
pub fn channel_layout_arg(unspecified: bool, mask: u64) -> (r: String)
    ensures
        r@ == channel_layout_text(unspecified, mask as nat),
{
    if unspecified {
        String::from_str("stereo")
    } else {
        hex_string(mask)
    }
}

/// The description of the filter graph for audio decoded at `rate` Hz in
/// sample format `fmt` with channel layout `layout`.
pub fn filter_graph_spec(rate: u32, fmt: &str, layout: &str) -> (r: String)
    ensures
        r@ == filter_graph_text(rate as nat, fmt@, layout@),
{
    let mut r = String::from_str("abuffer=");
    r.append("time_base=1/");
    push_decimal(&mut r, rate as u64);
    r.append(":sample_rate=");
    push_decimal(&mut r, rate as u64);
    r.append(":sample_fmt=");
    r.append(fmt);
    r.append(":channel_layout=");
    r.append(layout);
    r.append(" [step1]; [step1] aresample=out_sample_rate=");
    push_decimal(&mut r, OUTPUT_SAMPLE_RATE as u64);
    r.append(
        ":out_chlayout=mono:filter_size=64:cutoff=0.97 [step2]; [step2] silenceremove=start_periods=1:start_duration=",
    );
    r.append(SILENCE_WINDOW_SECS);
    r.append(":start_threshold=");
    push_signed_decimal(&mut r, SILENCE_THRESHOLD_DB as i64);
    r.append("dB:stop_periods=-1:stop_duration=");
    r.append(SILENCE_WINDOW_SECS);
    r.append(":stop_threshold=");
    push_signed_decimal(&mut r, SILENCE_THRESHOLD_DB as i64);
    r.append("dB [step3]; [step3] aformat=sample_fmts=s16:channel_layouts=mono:sample_rates=");
    push_decimal(&mut r, OUTPUT_SAMPLE_RATE as u64);
    r.append(" [step4]; [step4] abuffersink");
    assert(r@ == filter_graph_text(rate as nat, fmt@, layout@));
    r
}

} // verus!
