use glidewin::recording::{
    recording_file_name, thread_result, Recorder, Recording, ThreadEnd,
};
use glidewin::wav::encode_wav_bytes;

#[test]
fn two_seconds_make_a_chunk() {
    let mut r = Recording::new(4, 2);
    r.add_sound(&[1; 15]);
    assert_eq!(r.take_chunk(true), None);
    r.add_sound(&[1]);
    assert_eq!(r.take_chunk(true), Some(encode_wav_bytes(&[1; 16], 4, 2)));
    assert_eq!(r.take_chunk(true), None);
}

#[test]
fn too_little_sound_waits_for_its_chunk() {
    let mut r = Recording::new(4, 1);
    r.add_sound(&[1; 7]);
    assert_eq!(r.take_chunk(true), None);
    r.add_sound(&[2; 3]);
    let all = [1, 1, 1, 1, 1, 1, 1, 2, 2, 2];
    assert_eq!(r.take_chunk(true), Some(encode_wav_bytes(&all, 4, 1)));
}

#[test]
fn the_tail_holds_all_sound_since_the_last_chunk() {
    let mut r = Recording::new(4, 1);
    r.add_sound(&[9; 8]);
    assert!(r.take_chunk(true).is_some());
    r.add_sound(&[1]);
    assert_eq!(r.take_chunk(true), None);
    r.add_sound(&[2]);
    assert_eq!(r.take_tail(true), Some(encode_wav_bytes(&[1, 2], 4, 1)));
}

#[test]
fn without_a_key_sound_waits() {
    let mut r = Recording::new(2, 1);
    r.add_sound(&[3; 4]);
    assert_eq!(r.take_chunk(false), None);
    assert_eq!(r.take_chunk(true), Some(encode_wav_bytes(&[3; 4], 2, 1)));
}

#[test]
fn half_a_second_makes_a_tail() {
    let mut r = Recording::new(5, 1);
    r.add_sound(&[1]);
    assert_eq!(r.take_tail(true), None);
    r.add_sound(&[1, 2]);
    assert_eq!(r.take_tail(true), Some(encode_wav_bytes(&[1, 2], 5, 1)));
}

#[test]
fn a_tail_without_a_key_is_dropped() {
    let mut r = Recording::new(4, 1);
    r.add_sound(&[1; 8]);
    assert_eq!(r.take_tail(false), None);
    assert_eq!(r.take_chunk(true), None);
}

#[test]
fn sound_adds_up() {
    let mut a = Recording::new(1, 1);
    a.add_sound(&[1]);
    a.add_sound(&[2, 3]);
    let mut b = Recording::new(1, 1);
    b.add_sound(&[1, 2, 3]);
    assert_eq!(a.take_chunk(true), b.take_chunk(true));
}

#[test]
fn sound_is_transcribed_once() {
    let mut r = Recording::new(1, 1);
    r.add_sound(&[1, 2]);
    assert!(r.take_chunk(true).is_some());
    r.add_sound(&[3, 4]);
    assert_eq!(r.take_tail(true), Some(encode_wav_bytes(&[3, 4], 1, 1)));
}

#[test]
fn the_transcript_joins_the_pieces() {
    let mut r = Recording::new(16000, 1);
    assert_eq!(r.add_text(Ok("hello".to_string())), Some("hello".to_string()));
    assert_eq!(r.add_text(Ok(String::new())), None);
    assert_eq!(r.add_text(Err("no".to_string())), None);
    assert_eq!(r.add_text(Ok("world".to_string())), Some("world".to_string()));
    assert_eq!(r.transcript(), "hello world");
}

#[test]
fn what_a_file_cannot_hold_is_told() {
    for (rate, channels) in [(8000, 0), (0, 1)] {
        let r = Recording::new(rate, channels);
        assert!(!r.may_take_chunk(true));
        assert!(!r.may_take_tail(true));
        assert!(r.may_take_chunk(false));
        assert!(r.may_take_tail(false));
    }
    let r = Recording::new(u32::MAX, 1);
    assert!(r.may_take_chunk(true));
    let mut r = Recording::new(1, 1);
    r.add_sound(&[0; 10]);
    assert!(r.may_take_chunk(true));
    assert!(r.may_take_tail(true));
}

#[test]
fn one_recording_at_a_time() {
    let mut recorder: Recorder<u8> = Recorder::new();
    assert_eq!(recorder.stop(), Err("Not currently recording".to_string()));
    assert_eq!(recorder.may_start(), Ok(()));
    recorder.started(7);
    assert_eq!(recorder.may_start(), Err("Already recording".to_string()));
    assert_eq!(recorder.stop(), Ok(7));
    assert_eq!(recorder.stop(), Err("Not currently recording".to_string()));
    assert_eq!(recorder.may_start(), Ok(()));
}

#[test]
fn how_the_thread_ended() {
    assert_eq!(thread_result(ThreadEnd::Finished), Ok(()));
    assert_eq!(thread_result(ThreadEnd::Failed("disk".to_string())), Err("disk".to_string()));
    assert_eq!(thread_result(ThreadEnd::Panicked), Err("Recording thread panicked".to_string()));
}

#[test]
fn recordings_are_named_after_the_second() {
    assert_eq!(recording_file_name(1700000000), "glidewin_recording_1700000000.wav");
    assert_ne!(recording_file_name(2), recording_file_name(20));
}
