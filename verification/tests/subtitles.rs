use echochamber::config::SubtitleStyle;
use echochamber::subtitles::{
    ass_event, ass_ts, generate_ass_header, parse_srt, srt_entry, srt_ts, Cue, SubtitleClock,
};

#[test]
fn timestamps_format() {
    let d: u64 = 3_661_230;
    assert_eq!(srt_ts(d), "01:01:01,230");
    assert_eq!(ass_ts(d), "1:01:01.23");
}

#[test]
fn clock_skips_non_monotonic() {
    let mut c = SubtitleClock::default();
    let a = c.map(8_000, 10_000).unwrap();
    assert_eq!(a.0, 0);
    assert!(c.map(8_000, 9_000).is_none());
    let b = c.map(11_000, 13_000).unwrap();
    assert_eq!(b.0, 3_000);
}

#[test]
fn ass_and_srt_roundtrip_files() {
    let cue = Cue {
        start: 1230,
        end: 2500,
        text: "hello world".into(),
    };
    let srt_text = srt_entry(1, &cue);
    assert!(srt_text.contains("00:00:01,230 --> 00:00:02,500"));
    let ass_text = generate_ass_header(SubtitleStyle::Modern) + &ass_event(&cue);
    assert!(ass_text.contains("[V4+ Styles]"));
    assert!(ass_text.contains("Dialogue: 0,0:00:01.23,0:00:02.50,Default,,0,0,0,,hello world"));
}

#[test]
fn parse_whisper_srt() {
    let text = "\
1
00:00:00,000 --> 00:00:01,500
hello

2
00:00:01,500 --> 00:00:02,000
world
";
    let cues = parse_srt(text);
    assert_eq!(cues.len(), 2);
    assert_eq!(cues[0].text, "hello");
    assert_eq!(cues[1].end, 2_000);
}

#[test]
fn srt_entry_is_numbered_block() {
    let cue = Cue { start: 0, end: 1500, text: "hi".into() };
    assert_eq!(srt_entry(7, &cue), "7\n00:00:00,000 --> 00:00:01,500\nhi\n\n");
}

#[test]
fn ass_event_joins_lines_with_ass_breaks() {
    let cue = Cue { start: 61_000, end: 62_340, text: "one\ntwo".into() };
    assert_eq!(
        ass_event(&cue),
        "Dialogue: 0,0:01:01.00,0:01:02.34,Default,,0,0,0,,one\\Ntwo\n"
    );
}

#[test]
fn kept_cues_never_overlap() {
    let mut c = SubtitleClock::default();
    let mut last_end = 0;
    for (s, e) in [(5_000, 6_000), (5_500, 7_000), (6_000, 6_500), (9_000, 8_000), (9_000, 12_000)] {
        if let Some((a, b)) = c.map(s, e) {
            assert!(a >= last_end);
            assert!(b > a);
            last_end = b;
        }
    }
    assert_eq!(last_end, 7_000);
    c.reset();
    assert_eq!(c.map(100, 200), Some((0, 100)));
}

#[test]
fn srt_parsing_skips_bad_blocks_and_joins_text() {
    let text = "1\r\n00:00:01,000 --> 00:00:02,000\r\nfirst\r\nline\r\n\r\nnot a number\nstray\n\n3\n00:00:03,5 --> 00:00:04,25\nthird\n";
    let cues = parse_srt(text);
    assert_eq!(cues.len(), 2);
    assert_eq!(cues[0].start, 1_000);
    assert_eq!(cues[0].text, "first line");
    assert_eq!(cues[1].start, 3_500);
    assert_eq!(cues[1].end, 4_250);
}

#[test]
fn header_names_the_style() {
    let h = generate_ass_header(SubtitleStyle::Broadcast);
    assert!(h.starts_with("[Script Info]"));
    assert!(h.contains("[Events]"));
}

#[test]
fn written_srt_reads_back_as_the_same_cues() {
    let cues = vec![
        Cue { start: 0, end: 1_500, text: "hello".into() },
        Cue { start: 1_500, end: 2_000, text: "a -> b, c".into() },
        Cue { start: 3_723_004, end: 3_725_999, text: "late night".into() },
        Cue { start: 400_000_000_000, end: 400_000_000_001, text: "far".into() },
    ];
    let mut file = String::new();
    for (i, c) in cues.iter().enumerate() {
        file.push_str(&srt_entry(i as u32 + 1, c));
    }
    let back = parse_srt(&file);
    assert_eq!(back.len(), cues.len());
    for (a, b) in back.iter().zip(cues.iter()) {
        assert_eq!((a.start, a.end, a.text.as_str()), (b.start, b.end, b.text.as_str()));
    }
}

#[test]
fn one_entry_reads_back_with_or_without_its_index() {
    let with_index = format!("1\n{} --> {}\n  hello there \n", srt_ts(1_000), srt_ts(2_500));
    let cues = parse_srt(&with_index);
    assert_eq!(cues.len(), 1);
    assert_eq!((cues[0].start, cues[0].end, cues[0].text.as_str()), (1_000, 2_500, "hello there"));
    let without = format!("{} --> {}\nhi\n", srt_ts(3_723_004), srt_ts(3_724_000));
    let cues = parse_srt(&without);
    assert_eq!(cues.len(), 1);
    assert_eq!((cues[0].start, cues[0].end, cues[0].text.as_str()), (3_723_004, 3_724_000, "hi"));
    let crlf = format!("{} --> {}\nhey\r\n", srt_ts(0), srt_ts(10));
    let cues = parse_srt(&crlf);
    assert_eq!(cues.len(), 1);
    assert_eq!((cues[0].start, cues[0].end, cues[0].text.as_str()), (0, 10, "hey"));
}

#[test]
fn kept_cues_never_overlap_over_a_run() {
    let mut c = SubtitleClock::default();
    let calls = [(5_000, 6_000), (5_500, 7_000), (7_000, 7_000), (9_000, 8_000), (6_000, 9_000), (10_000, 12_000)];
    let kept: Vec<(u64, u64)> = calls.iter().filter_map(|&(s, e)| c.map(s, e)).collect();
    assert_eq!(kept, vec![(0, 1_000), (1_000, 4_000), (5_000, 7_000)]);
    for (i, a) in kept.iter().enumerate() {
        assert!(a.0 < a.1);
        for b in &kept[i + 1..] {
            assert!(a.1 <= b.0);
        }
    }
    c.reset();
    assert_eq!(c.map(4, 4), None);
    assert_eq!(c.map(100, 150), Some((0, 50)));
}
