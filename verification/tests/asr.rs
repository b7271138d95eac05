use echochamber::asr::{
    place_cues, srt_output_path, wanted_writers, wav_file_name, wav_usable, whisper_args,
    whisper_lang,
};
use echochamber::config::SubtitlesConfig;
use echochamber::state::AsrStatus;
use echochamber::subtitles::{Cue, SubtitleClock};

#[test]
fn whisper_language_names() {
    assert_eq!(whisper_lang(" English "), "en");
    assert_eq!(whisper_lang("EN"), "en");
    assert_eq!(whisper_lang("russian"), "ru");
    assert_eq!(whisper_lang("auto"), "auto");
    assert_eq!(whisper_lang("de"), "auto");
}

#[test]
fn whisper_needs_a_model() {
    let mut subs = SubtitlesConfig::default();
    subs.whisper_model = "  ".into();
    assert_eq!(
        whisper_args(&subs, "/tmp/a.wav", "/tmp/a").unwrap_err(),
        "subtitles.whisper_model is empty"
    );
    subs.whisper_model = "m.bin".into();
    subs.language = "ru".into();
    let args = whisper_args(&subs, "/tmp/a.wav", "/tmp/a").unwrap();
    assert_eq!(
        args,
        ["-m", "m.bin", "-f", "/tmp/a.wav", "-l", "ru", "-nt", "-np", "-osrt", "-of", "/tmp/a"]
    );
    assert_eq!(srt_output_path("/tmp/a"), "/tmp/a.srt");
    assert_eq!(wav_file_name(1234), "echo_asr_1234.wav");
}

#[test]
fn small_chunks_and_writers() {
    assert!(!wav_usable(4000));
    assert!(wav_usable(4001));
    assert_eq!(wanted_writers(true, false), (true, true));
    assert_eq!(wanted_writers(false, true), (false, true));
    assert_eq!(wanted_writers(false, false), (false, false));
}

#[test]
fn chunk_cues_land_after_earlier_chunks() {
    let mut clock = SubtitleClock::default();
    let first = place_cues(
        &mut clock,
        vec![Cue { start: 0, end: 1_500, text: "a".into() }, Cue { start: 1_000, end: 2_000, text: "b".into() }],
        0,
        5,
    );
    assert_eq!(first.len(), 1);
    assert_eq!((first[0].start, first[0].end), (0, 1_500));
    let second = place_cues(&mut clock, vec![Cue { start: 500, end: 900, text: "c".into() }], 1, 5);
    assert_eq!(second.len(), 1);
    assert_eq!((second[0].start, second[0].end), (5_500, 5_900));
    assert_eq!(second[0].text, "c");
}

#[test]
fn status_counts_cues_and_keeps_errors_apart() {
    let mut st = AsrStatus::default();
    st.record_error("whisper-cli failed".into());
    assert_eq!(st.last_error.as_deref(), Some("whisper-cli failed"));
    st.record_cue("hello".into());
    assert_eq!(st.cues, 1);
    assert_eq!(st.last_text.as_deref(), Some("hello"));
    assert!(st.last_error.is_none());
}
