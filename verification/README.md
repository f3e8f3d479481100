# transcribe

Turns the audio of a video file, or live microphone and system audio, into
text with a Whisper model.

`src/` is the library, verified with Verus:

- `args`: the command line, read into file or live mode.
- `vad`: the speech chunker of live mode, generic over the sample type; the
  caller supplies the energy test of a window.
- `mixer`, `mono`, `pcm`: mixing microphone and system audio, folding
  channels into one, reading 16-bit samples from bytes.
- `segment`: cutting a long recording into 30-minute segment files.
- `filter`: the FFmpeg filter graph description.
- `transcript`, `text`: transcript text, file names, number formatting.
- `devices`: choosing an input device by name, or a monitor source.
- `pipeline`: the decisions of the live-mode stages.

`app/` is the program around it: FFmpeg decoding, audio capture, Whisper,
threads, files and the network, and the floating-point sample arithmetic.

Segment files are named `part_000.wav`, `part_001.wav`, ..., and the
transcript of each is written as `transcricao_part_000.wav.txt` and so on in
the output directory.
