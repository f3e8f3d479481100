use vstd::prelude::*;

verus! {

/// What waiting a while on a channel gave.
#[derive(Debug, Clone, Copy, PartialEq, Eq, Structural)]
pub enum Received {
    /// A batch of samples arrived.
    Samples,
    /// Nothing arrived in time.
    Timeout,
    /// Every sender is gone.
    Disconnected,
}

/// What the speech-detection stage does next.
#[derive(Debug, Clone, Copy, PartialEq, Eq, Structural)]
pub enum VadAction {
    /// Feed the samples that arrived to the chunker.
    Feed,
    /// Wait again.
    Wait,
    /// Hand out what the chunker still holds and stop.
    FlushAndStop,
}

/// The speech-detection stage feeds what arrives; it stops, flushing first,
/// once its input is gone, or when a wait times out after stop was asked.
pub fn vad_action(received: Received, stop_requested: bool) -> (a: VadAction)
    ensures
        a == match received {
            Received::Samples => VadAction::Feed,
            Received::Timeout => if stop_requested {
                VadAction::FlushAndStop
            } else {
                VadAction::Wait
            },
            Received::Disconnected => VadAction::FlushAndStop,
        },
{
    match received {
        Received::Samples => VadAction::Feed,
        Received::Timeout => if stop_requested {
            VadAction::FlushAndStop
        } else {
            VadAction::Wait
        },
        Received::Disconnected => VadAction::FlushAndStop,
    }
}

/// The mixer stops waiting for the microphone once its input is gone and a
/// stop was asked.
pub fn mixer_stops_on_receive(received: Received, stop_requested: bool) -> (r: bool)
    ensures
        r == (received == Received::Disconnected && stop_requested),
{
    received == Received::Disconnected && stop_requested
}

/// After a round the mixer stops when a stop was asked and nothing is left
/// buffered.
pub fn mixer_stops_after_round(stop_requested: bool, drained: bool) -> (r: bool)
    ensures
        r == (stop_requested && drained),
{
    stop_requested && drained
}

/// A transcription is written out only when it holds some text.
pub fn worth_writing(text: &str) -> (r: bool)
    ensures
        r == (text@.len() > 0),
{
    !text.is_empty()
}

} // verus!
