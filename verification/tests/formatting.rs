use transcribe::pcm::{pcm16_samples, pcm16_samples_in_order};
use transcribe::filter::{channel_layout_arg, filter_graph_spec};
use transcribe::segment::{segment_file_name, SegmentCursor, SEGMENT_SAMPLES};
use transcribe::text::{trim_str, hex_string, push_decimal, push_signed_decimal, zero_padded_decimal};
use transcribe::transcript::{join_segment_texts, transcript_file_path, transcript_line};

#[test]
fn decimal_numbers() {
    let mut s = String::from("n=");
    push_decimal(&mut s, 0);
    assert_eq!(s, "n=0");
    let mut s = String::new();
    push_decimal(&mut s, 16_000);
    assert_eq!(s, "16000");
    let mut s = String::new();
    push_decimal(&mut s, u64::MAX);
    assert_eq!(s, u64::MAX.to_string());
    let mut s = String::new();
    push_signed_decimal(&mut s, -50);
    assert_eq!(s, "-50");
    let mut s = String::new();
    push_signed_decimal(&mut s, i64::MIN);
    assert_eq!(s, i64::MIN.to_string());
}

#[test]
fn zero_padding() {
    assert_eq!(zero_padded_decimal(0, 3), "000");
    assert_eq!(zero_padded_decimal(7, 3), "007");
    assert_eq!(zero_padded_decimal(42, 3), "042");
    assert_eq!(zero_padded_decimal(1234, 3), "1234");
    assert_eq!(zero_padded_decimal(5, 0), "5");
}

#[test]
fn hexadecimal() {
    assert_eq!(hex_string(0), "0x0");
    assert_eq!(hex_string(3), "0x3");
    assert_eq!(hex_string(255), "0xff");
    assert_eq!(hex_string(0x60f), format!("{:#x}", 0x60fu64));
}

#[test]
fn segment_names() {
    assert_eq!(segment_file_name(0), "part_000.wav");
    assert_eq!(segment_file_name(12), "part_012.wav");
    assert_eq!(segment_file_name(1234), "part_1234.wav");
}

#[test]
fn segments_rotate_every_seg_len_samples() {
    assert_eq!(SEGMENT_SAMPLES, 16_000 * 1800);
    let mut c = SegmentCursor::new(3);
    assert!(!c.is_open());
    let mut opened = Vec::new();
    let mut rotated = Vec::new();
    for i in 0..8 {
        let step = c.place_sample();
        if let Some(k) = step.open_part {
            opened.push((i, k));
        }
        if let Some(k) = step.rotate_to {
            rotated.push((i, k));
        }
    }
    assert_eq!(opened, vec![(0, 0)]);
    assert_eq!(rotated, vec![(3, 1), (6, 2)]);
    assert_eq!(c.part_index(), 2);
    assert!(c.is_open());
}

#[test]
fn zero_length_segments_rotate_on_every_sample() {
    let mut c = SegmentCursor::new(0);
    let s = c.place_sample();
    assert_eq!(s.open_part, Some(0));
    assert_eq!(s.rotate_to, Some(1));
    let s = c.place_sample();
    assert_eq!(s.open_part, None);
    assert_eq!(s.rotate_to, Some(2));
}

#[test]
fn channel_layouts() {
    assert_eq!(channel_layout_arg(true, 3), "stereo");
    assert_eq!(channel_layout_arg(false, 3), "0x3");
    assert_eq!(channel_layout_arg(false, 0x3f), "0x3f");
    assert_eq!(channel_layout_arg(false, 0), "0x0");
}

#[test]
fn filter_graph_description() {
    let expected = "abuffer=time_base=1/44100:sample_rate=44100:sample_fmt=fltp:channel_layout=0x3 [step1]; \
         [step1] aresample=out_sample_rate=16000:out_chlayout=mono:filter_size=64:cutoff=0.97 [step2]; \
         [step2] silenceremove=start_periods=1:start_duration=0.5:start_threshold=-50dB:stop_periods=-1:stop_duration=0.5:stop_threshold=-50dB [step3]; \
         [step3] aformat=sample_fmts=s16:channel_layouts=mono:sample_rates=16000 [step4]; \
         [step4] abuffersink";
    assert_eq!(filter_graph_spec(44100, "fltp", "0x3"), expected);
}

#[test]
fn segment_texts_are_trimmed_and_joined() {
    let segs = vec![Some(" hello ".to_string()), None, Some("world\n".to_string())];
    assert_eq!(join_segment_texts(&segs), "hello\nworld");
    let segs = vec![Some("  ".to_string()), Some(" a".to_string())];
    assert_eq!(join_segment_texts(&segs), "a");
    let segs = vec![Some("a".to_string()), Some("\u{3000} ".to_string())];
    assert_eq!(join_segment_texts(&segs), "a\n");
    assert_eq!(join_segment_texts(&Vec::new()), "");
}

#[test]
fn transcript_lines_and_paths() {
    assert_eq!(transcript_line("2024-01-01 10:00:00", "olá"), "[2024-01-01 10:00:00] olá\n");
    assert_eq!(
        transcript_file_path("out", "part_000.wav"),
        "out/transcricao_part_000.wav.txt"
    );
}

#[test]
fn pcm_bytes_become_samples() {
    let bytes = [0x01u8, 0x00, 0xff, 0xff, 0x00, 0x80, 0x07];
    let samples = pcm16_samples(&bytes);
    assert_eq!(samples.len(), 3);
    assert_eq!(samples[0], i16::from_ne_bytes([0x01, 0x00]));
    assert_eq!(samples[1], -1);
    assert_eq!(samples[2], i16::from_ne_bytes([0x00, 0x80]));
    let little = samples[0] == 1;
    let expect: Vec<i16> = bytes
        .chunks_exact(2)
        .map(|p| if little { i16::from_le_bytes([p[0], p[1]]) } else { i16::from_be_bytes([p[0], p[1]]) })
        .collect();
    assert_eq!(samples, expect);
    assert!(pcm16_samples(&[]).is_empty());
    assert!(pcm16_samples(&[9]).is_empty());
}

#[test]
fn segment_names_never_collide() {
    let mut names: Vec<String> = (0..1100).map(segment_file_name).collect();
    names.sort();
    names.dedup();
    assert_eq!(names.len(), 1100);
}

#[test]
fn trimming_matches_str_trim() {
    let cases = [
        "", " ", "  a  ", "\t\n x y \r\n", "\u{3000}olá\u{a0}", "\u{200b}z\u{200b}", "\u{85}\u{2028}q\u{205f}",
        "no-trim",
    ];
    for c in cases {
        assert_eq!(trim_str(c), c.trim());
    }
}

#[test]
fn pcm_bytes_in_a_given_order() {
    let bytes = [0x34u8, 0x12, 0x00, 0x80, 0xff, 0x7f, 0x01];
    assert_eq!(pcm16_samples_in_order(&bytes, true), vec![0x1234, i16::MIN, i16::MAX]);
    assert_eq!(pcm16_samples_in_order(&bytes, false), vec![0x3412, 0x0080, -129]);
    assert!(pcm16_samples_in_order(&[], false).is_empty());
}
