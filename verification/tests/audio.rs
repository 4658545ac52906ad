use kotoma::audio::{
    auto_detect_error_message, detect_system_audio_candidates, find_device, list_devices_split,
    missing_device_error, mixed_label, needs_resampling, plan_capture, secondary_request,
    stream_label, stream_target, CandidateSearch, CapturePlan, MixBuffer, Platform, ProcState,
    SecondaryRequest, StreamTarget, MACOS_HINT, SECONDARY_CAP_SAMPLES,
};

fn names(list: &[&str]) -> Vec<String> {
    list.iter().map(|s| s.to_string()).collect()
}

#[test]
fn windows_offers_the_default_output() {
    let c = detect_system_audio_candidates(
        Platform::Windows,
        Some("Speakers"),
        &names(&["Mic", "BlackHole 2ch", "x.monitor"]),
    );
    assert_eq!(c, vec!["loopback:Speakers"]);
    assert!(detect_system_audio_candidates(Platform::Windows, None, &names(&["Mic"])).is_empty());
}

#[test]
fn macos_falls_back_to_virtual_drivers() {
    let c = detect_system_audio_candidates(
        Platform::MacOs,
        Some("Speakers"),
        &names(&["VB-Cable", "BLACKHOLE 2ch", "BlackHole 16ch", "Mic"]),
    );
    assert_eq!(c, vec!["loopback:Speakers", "BLACKHOLE 2ch", "VB-Cable"]);
}

#[test]
fn linux_offers_every_monitor() {
    let c = detect_system_audio_candidates(
        Platform::Linux,
        Some("Speakers"),
        &names(&["a.monitor", "Mic", "b.monitor"]),
    );
    assert_eq!(c, vec!["a.monitor", "b.monitor"]);
    assert!(detect_system_audio_candidates(Platform::Other, Some("S"), &names(&["a.monitor"]))
        .is_empty());
}

#[test]
fn choices_hold_each_device_once() {
    let (mic, sys) = list_devices_split(&names(&["Mic", "default", "Mic"]), &names(&["Out", "Out"]));
    assert_eq!(mic, vec!["(none)", "default", "Mic"]);
    assert_eq!(sys, vec!["(none)", "(auto)", "Mic", "default", "loopback:Out"]);
}

#[test]
fn each_platform_says_what_is_missing() {
    assert!(auto_detect_error_message(Platform::Windows).contains("no default output device."));
    assert!(auto_detect_error_message(Platform::MacOs).contains("BlackHole"));
    assert!(auto_detect_error_message(Platform::Linux).contains("*.monitor"));
    assert!(auto_detect_error_message(Platform::Other).contains("not supported"));
}

#[test]
fn secondary_choices() {
    assert!(matches!(secondary_request(Some("(auto)")), SecondaryRequest::Auto));
    assert!(matches!(secondary_request(Some("auto")), SecondaryRequest::Auto));
    assert!(matches!(secondary_request(Some("(none)")), SecondaryRequest::Absent));
    assert!(matches!(secondary_request(Some("")), SecondaryRequest::Absent));
    assert!(matches!(secondary_request(None), SecondaryRequest::Absent));
    match secondary_request(Some("Out")) {
        SecondaryRequest::Named(n) => assert_eq!(n, "Out"),
        _ => panic!("not named"),
    }
}

#[test]
fn plans_of_capture() {
    let plan = |p: &str, s: Option<&str>, d: &[&str]| {
        plan_capture(Platform::Linux, p, secondary_request(s), names(d))
    };
    match plan("Mic", None, &[]) {
        Ok(CapturePlan::Primary(p)) => assert_eq!(p, "Mic"),
        _ => panic!("not primary"),
    }
    match plan("(none)", Some("Out"), &[]) {
        Ok(CapturePlan::Secondary(c)) => assert_eq!(c, vec!["Out"]),
        _ => panic!("not secondary"),
    }
    match plan("Mic", Some("(auto)"), &["a", "b"]) {
        Ok(CapturePlan::Mixed { primary, candidates }) => {
            assert_eq!(primary, "Mic");
            assert_eq!(candidates, vec!["a", "b"]);
        }
        _ => panic!("not mixed"),
    }
    assert_eq!(plan("", None, &["a"]).err(), Some("no audio source selected".to_string()));
    assert_eq!(
        plan("Mic", Some("auto"), &[]).err(),
        Some(auto_detect_error_message(Platform::Linux).to_string())
    );
    assert_eq!(mixed_label("Mic", "Out"), "Mic + Out");
}

#[test]
fn candidates_are_tried_in_order() {
    let mut s = CandidateSearch::new(names(&["a", "b"]));
    assert_eq!(s.current(), Some(("a", false)));
    s.failed("no a".to_string());
    assert_eq!(s.current(), Some(("b", true)));
    s.failed("no b".to_string());
    assert_eq!(s.current(), None);
    let e = s.give_up(Platform::MacOs);
    assert_eq!(e.base, "no b");
    assert_eq!(e.hint, Some(MACOS_HINT));
    let e = CandidateSearch::new(vec![]).give_up(Platform::Linux);
    assert_eq!(e.base, auto_detect_error_message(Platform::Linux));
    assert_eq!(e.hint, None);
}

#[test]
fn targets_of_choices() {
    match stream_target("loopback:Out") {
        StreamTarget::Loopback(n) => assert_eq!(n, "Out"),
        _ => panic!("no loopback"),
    }
    assert!(matches!(stream_target("default"), StreamTarget::DefaultInput));
    assert_eq!(
        missing_device_error(&stream_target("loopback:Out")),
        "output device not found: Out"
    );
    assert_eq!(missing_device_error(&stream_target("Mic")), "input device not found: Mic");
    assert_eq!(missing_device_error(&stream_target("default")), "no default input device");
}

#[test]
fn labels_lead_back_to_their_device() {
    let label = stream_label(Some("Out"), true);
    assert_eq!(label, "loopback:Out");
    match stream_target(&label) {
        StreamTarget::Loopback(n) => assert_eq!(n, "Out"),
        _ => panic!("no loopback"),
    }
    assert_eq!(stream_label(None, false), "unknown");
}

#[test]
fn devices_are_found_by_name() {
    let list = vec![None, Some("b".to_string()), Some("a".to_string()), Some("a".to_string())];
    assert_eq!(find_device(&list, "a"), Some(2));
    assert_eq!(find_device(&list, "c"), None);
}

#[test]
fn mix_runs_dry_to_the_primary() {
    let mut b: MixBuffer<i32> = MixBuffer::new();
    b.push(&vec![1, 2]);
    let mut chunk = vec![10, 20, 30];
    b.mix_into(&mut chunk, |a, s| a + s);
    assert_eq!(chunk, vec![11, 22, 30]);
    b.push(&vec![5, 6, 7]);
    let mut chunk = vec![100];
    b.mix_into(&mut chunk, |a, s| a + s);
    assert_eq!(chunk, vec![105]);
    let mut chunk = vec![0, 0, 0];
    b.mix_into(&mut chunk, |a, s| a + s);
    assert_eq!(chunk, vec![6, 7, 0]);
}

#[test]
fn mix_buffer_drops_its_oldest() {
    let mut b: MixBuffer<usize> = MixBuffer::new();
    b.push(&(0..SECONDARY_CAP_SAMPLES + 3).collect());
    let mut chunk = vec![0usize; 2];
    b.mix_into(&mut chunk, |_, s| s);
    assert_eq!(chunk, vec![3, 4]);
}

#[test]
fn channels_become_one() {
    let mut p: ProcState<i32> = ProcState::new(2);
    p.push(&vec![1, 3, 10, 20, 7], |f: &[i32]| f.iter().sum::<i32>() / 2);
    assert_eq!(p.take_all(), Some(vec![2, 15]));
    assert_eq!(p.take_all(), None);
    let mut p: ProcState<i32> = ProcState::new(1);
    p.push(&vec![1, 2, 3], |f: &[i32]| f[0]);
    assert_eq!(p.take_block(4), None);
    assert_eq!(p.take_block(2), Some(vec![1, 2]));
    assert_eq!(p.take_all(), Some(vec![3]));
}

#[test]
fn dropped_chunks_warn_now_and_then() {
    let mut p: ProcState<i32> = ProcState::new(1);
    assert!(p.note_dropped(1));
    assert!(!p.note_dropped(1));
    assert!(!p.note_dropped(97));
    assert!(p.note_dropped(1));
    assert_eq!(p.dropped_chunks(), 100);
}

#[test]
fn only_other_rates_are_resampled() {
    assert!(!needs_resampling(16_000));
    assert!(needs_resampling(48_000));
}
