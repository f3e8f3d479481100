use transcribe::devices::{contains_str, find_monitor_device, find_named_device};
use transcribe::mixer::{mix_buffers, Mixer};
use transcribe::mono::to_mono;
use transcribe::pipeline::{
    mixer_stops_after_round, mixer_stops_on_receive, vad_action, worth_writing, Received, VadAction,
};

fn names(items: &[Option<&str>]) -> Vec<Option<String>> {
    items.iter().map(|n| n.map(|s| s.to_string())).collect()
}

#[test]
fn substring_search() {
    assert!(contains_str("alsa_output.pci.analog-stereo.monitor", ".monitor"));
    assert!(contains_str("Monitor of Built-in Audio", "Monitor"));
    assert!(!contains_str("Built-in Microphone", "Monitor"));
    assert!(contains_str("abc", ""));
    assert!(!contains_str("ab", "abc"));
    assert!(contains_str("ação", "ção"));
}

#[test]
fn named_device_is_the_first_match() {
    let list = names(&[Some("Built-in"), None, Some("USB Mic"), Some("USB Mic")]);
    assert_eq!(find_named_device(&list, "USB Mic"), Some(2));
    assert_eq!(find_named_device(&list, "Headset"), None);
    assert_eq!(find_named_device(&Vec::new(), "USB Mic"), None);
}

#[test]
fn monitor_device_is_the_first_monitor() {
    let list = names(&[
        Some("default"),
        None,
        Some("alsa_output.pci.analog-stereo.monitor"),
        Some("Monitor of HDMI"),
    ]);
    assert_eq!(find_monitor_device(&list), Some(2));
    let list = names(&[Some("Monitor of HDMI")]);
    assert_eq!(find_monitor_device(&list), Some(0));
    let list = names(&[Some("default"), Some("monitor lowercase")]);
    assert_eq!(find_monitor_device(&list), None);
}

fn clamp_sum(m: f32, s: f32) -> f32 {
    (m + s).clamp(-1.0, 1.0)
}

#[test]
fn mixing_pads_and_clamps() {
    let mut mic = vec![0.5f32, 0.8];
    let mut sys = vec![0.7f32];
    let out = mix_buffers(&mut mic, &mut sys, 0.0, clamp_sum);
    assert_eq!(out, vec![1.0, 0.8]);
    assert!(mic.is_empty() && sys.is_empty());
}

#[test]
fn mixing_passes_a_lone_buffer_through() {
    let mut mic = vec![1.5f32, -2.0];
    let mut sys: Vec<f32> = Vec::new();
    assert_eq!(mix_buffers(&mut mic, &mut sys, 0.0, clamp_sum), vec![1.5, -2.0]);
    let mut mic: Vec<f32> = Vec::new();
    let mut sys = vec![0.25f32];
    assert_eq!(mix_buffers(&mut mic, &mut sys, 0.0, clamp_sum), vec![0.25]);
    assert!(sys.is_empty());
}

#[test]
fn mixer_rounds() {
    let mut m: Mixer<f32> = Mixer::new();
    assert!(m.is_drained());
    assert_eq!(m.mix(0.0, clamp_sum), None);
    m.push_mic(vec![0.1, 0.2]);
    m.push_sys(vec![0.3]);
    m.push_mic(vec![0.4]);
    assert!(!m.is_drained());
    let out = m.mix(0.0, clamp_sum).expect("something was buffered");
    assert_eq!(out.len(), 3);
    assert!((out[0] - 0.4).abs() < 1e-6);
    assert!((out[1] - 0.2).abs() < 1e-6);
    assert!((out[2] - 0.4).abs() < 1e-6);
    assert!(m.is_drained());
}

#[test]
fn stereo_to_mono_averages_frames() {
    let data = [1.0f32, 3.0, 5.0, 7.0, 9.0];
    let avg = |f: &[f32]| f.iter().sum::<f32>() / 2.0;
    assert_eq!(to_mono(&data, 2, avg), vec![2.0, 6.0, 4.5]);
    assert_eq!(to_mono(&data, 1, avg), data.to_vec());
    assert_eq!(to_mono(&data, 0, avg), data.to_vec());
    assert_eq!(to_mono(&[] as &[f32], 2, avg), Vec::<f32>::new());
}

#[test]
fn stage_decisions() {
    assert_eq!(vad_action(Received::Samples, true), VadAction::Feed);
    assert_eq!(vad_action(Received::Timeout, false), VadAction::Wait);
    assert_eq!(vad_action(Received::Timeout, true), VadAction::FlushAndStop);
    assert_eq!(vad_action(Received::Disconnected, false), VadAction::FlushAndStop);
    assert!(mixer_stops_on_receive(Received::Disconnected, true));
    assert!(!mixer_stops_on_receive(Received::Disconnected, false));
    assert!(!mixer_stops_on_receive(Received::Timeout, true));
    assert!(mixer_stops_after_round(true, true));
    assert!(!mixer_stops_after_round(true, false));
    assert!(!mixer_stops_after_round(false, true));
    assert!(worth_writing("hi"));
    assert!(!worth_writing(""));
}

#[test]
fn mono_signal_has_one_sample_per_frame() {
    let avg3 = |f: &[i32]| f.iter().sum::<i32>() / 3;
    for len in 0..10usize {
        let data: Vec<i32> = (0..len as i32).collect();
        assert_eq!(to_mono(&data, 3, avg3).len(), (len + 2) / 3);
    }
}

#[test]
fn mixing_order_does_not_matter_for_a_symmetric_mix() {
    let a = vec![0.25f32, -0.5, 0.75];
    let b = vec![0.5f32, 0.75];
    let ab = mix_buffers(&mut a.clone(), &mut b.clone(), 0.0, clamp_sum);
    let ba = mix_buffers(&mut b.clone(), &mut a.clone(), 0.0, clamp_sum);
    assert_eq!(ab, ba);
    assert_eq!(ab, vec![0.75, 0.25, 0.75]);
}
