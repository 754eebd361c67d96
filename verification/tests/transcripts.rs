//! Turning episodes into text.

use podbatch::amount::parse_amount;
use podbatch::document::Format;
use podbatch::document::Style;
use podbatch::transcribe::after_attempt;
use podbatch::transcribe::answer_in;
use podbatch::transcribe::audio_in;
use podbatch::transcribe::audio_millis;
use podbatch::transcribe::clip;
use podbatch::transcribe::clock;
use podbatch::transcribe::convert_args;
use podbatch::transcribe::convert_reason;
use podbatch::transcribe::into_turns;
use podbatch::transcribe::listen_args;
use podbatch::transcribe::listen_reason;
use podbatch::transcribe::parse_segment;
use podbatch::transcribe::parse_speakers;
use podbatch::transcribe::parse_timestamp;
use podbatch::transcribe::quote_json;
use podbatch::transcribe::request_body;
use podbatch::transcribe::scratch_name;
use podbatch::transcribe::segment_updates;
use podbatch::transcribe::speakers_in;
use podbatch::transcribe::transcript_path;
use podbatch::transcribe::write_transcript;
use podbatch::transcribe::Action;
use podbatch::transcribe::Event;
use podbatch::transcribe::FolderEntry;
use podbatch::transcribe::Job;
use podbatch::transcribe::JsonField;
use podbatch::transcribe::Labelling;
use podbatch::transcribe::Made;
use podbatch::transcribe::ScratchStep;
use podbatch::transcribe::Segment;
use podbatch::transcribe::Settings;
use podbatch::transcribe::Stage;
use podbatch::transcribe::Status;
use podbatch::transcribe::Turn;
use podbatch::transcribe::Update;
use podbatch::transcribe::LAST_MOMENT;

fn seg(start: u128, text: &str, turn_ends: bool) -> Segment {
    Segment { start, text: text.into(), turn_ends }
}

/// Two runs must not be handed the same directory, and neither must a
/// directory somebody else prepared: a name that is taken is never used.
#[test]
fn a_scratch_directory_is_new_and_ours_alone() {
    assert_ne!(scratch_name(1), scratch_name(2), "two runs were given the same directory");
    assert_eq!(scratch_name(0xAB), "podbatch-transcribe-00000000000000ab");
    assert_eq!(after_attempt(1, Made::Taken), ScratchStep::TryAnother);
    assert_eq!(after_attempt(8, Made::Taken), ScratchStep::GiveUp);
    assert_eq!(after_attempt(1, Made::Created), ScratchStep::Use);
    assert_eq!(after_attempt(1, Made::Refused), ScratchStep::GiveUp);
}

#[test]
fn reads_a_segment_line() {
    let line = "[00:00:02.000 --> 00:00:05.000]   Welcome back to the show.";
    assert_eq!(parse_segment(line), Some(seg(2_000, "Welcome back to the show.", false)));
}

#[test]
fn a_speaker_mark_ends_the_turn_and_leaves_the_text_clean() {
    let line = "[00:01:02.500 --> 00:01:06.000]   Glad to be here. [SPEAKER_TURN]";
    let parsed = parse_segment(line).expect("a segment");
    assert_eq!(parsed.text, "Glad to be here.");
    assert!(parsed.turn_ends);
    assert_eq!(parsed.start, 62_500);
}

#[test]
fn anything_that_is_not_a_segment_is_ignored() {
    for line in [
        "",
        "whisper_init_from_file_with_params_no_state: loading model",
        "system_info: n_threads = 4",
        "[not a timestamp] hello",
    ] {
        assert_eq!(parse_segment(line), None, "{line:?} was taken for a segment");
    }
}

#[test]
fn segments_gather_into_turns_at_the_speaker_marks() {
    let segments = vec![
        seg(0, "Welcome back.", false),
        seg(2_000, "Good to see you.", true),
        seg(4_000, "Glad to be here.", true),
        seg(6_000, "Let's get into it.", false),
    ];
    let turns = into_turns(segments);

    assert_eq!(turns.len(), 3);
    assert_eq!(turns[0].text, "Welcome back. Good to see you.");
    assert_eq!(turns[1].text, "Glad to be here.");
    assert_eq!(turns[2].text, "Let's get into it.");
    // Alternating, not counting up: the third turn is the first speaker
    // again, which for two voices is the only thing a turn mark can mean.
    assert_eq!(turns.iter().map(|t| t.speaker).collect::<Vec<_>>(), vec![1, 2, 1]);
}

/// An hour of two people talking must not come out claiming hundreds of them,
/// one for every turn.
#[test]
fn a_long_conversation_has_two_speakers_not_hundreds() {
    let segments: Vec<Segment> =
        (0..300).map(|i| seg(i * 1000, "Something said.", true)).collect();
    let turns = into_turns(segments);

    assert_eq!(turns.len(), 300, "every turn should survive");
    let mut speakers: Vec<usize> = turns.iter().map(|t| t.speaker).collect();
    speakers.sort_unstable();
    speakers.dedup();
    assert_eq!(speakers, vec![1, 2], "only two voices can be inferred");

    // And they alternate rather than clumping.
    assert_eq!(turns[0].speaker, 1);
    assert_eq!(turns[1].speaker, 2);
    assert_eq!(turns[2].speaker, 1);
}

#[test]
fn a_trailing_turn_with_no_final_mark_is_still_kept() {
    let turns = into_turns(vec![seg(0, "The last word.", false)]);
    assert_eq!(turns.len(), 1);
    assert_eq!(turns[0].text, "The last word.");
}

#[test]
fn reads_ollamas_speaker_list() {
    let body = r#"{"response":"{\"speakers\":[1,2,1,3]}","done":true}"#;
    assert_eq!(parse_speakers(body, 4).expect("speakers"), vec![1, 2, 1, 3]);
}

/// The important one. A short list quietly padded out would shift every
/// following turn onto the wrong person.
#[test]
fn a_list_of_the_wrong_length_is_refused() {
    let body = r#"{"response":"{\"speakers\":[1,2]}","done":true}"#;
    let error = parse_speakers(body, 5).expect_err("should have been refused");
    assert!(error.contains("2 turns out of 5"), "{error}");
}

#[test]
fn nonsense_from_ollama_is_an_error_rather_than_a_guess() {
    for body in [
        r#"{"response":"not json at all","done":true}"#,
        r#"{"response":"{\"speakers\":[0,1]}","done":true}"#,
        r#"{"response":"{\"speakers\":[\"one\",\"two\"]}","done":true}"#,
        r#"{"error":"model not found"}"#,
        "{}",
    ] {
        assert!(parse_speakers(body, 2).is_err(), "{body} was accepted");
    }
}

#[test]
fn timestamps_become_a_clock() {
    assert_eq!(clock(0), "00:00:00");
    assert_eq!(clock(65_400), "00:01:05");
    assert_eq!(clock(3_725_000), "01:02:05");
}

#[test]
fn a_transcript_goes_next_to_its_audio() {
    assert_eq!(
        transcript_path("/shows/ep/2024-01-01 Episode.mp3", Format::Text),
        "/shows/ep/2024-01-01 Episode.txt"
    );
    assert_eq!(
        transcript_path("/shows/ep/2024-01-01 Episode.mp3", Format::Docx),
        "/shows/ep/2024-01-01 Episode.docx"
    );
}

fn entry(name: &str) -> FolderEntry {
    FolderEntry { name: name.into(), is_file: true }
}

#[test]
fn only_audio_is_offered_for_transcription() {
    let entries: Vec<FolderEntry> =
        ["c.flac", "a.mp3", "b.m4a", "notes.txt", "cover.jpg"].iter().map(|n| entry(n)).collect();
    assert_eq!(audio_in(&entries), vec!["a.mp3", "b.m4a", "c.flac"]);
    let folder = vec![FolderEntry { name: "d.mp3".into(), is_file: false }];
    assert!(audio_in(&folder).is_empty(), "a folder is not an episode");
}

/// Whichever way it is written, the file says which kind of numbering it
/// got — the two are not interchangeable and a reader has to be able to tell.
#[test]
fn the_transcript_says_which_kind_of_numbering_it_has() {
    let turns = vec![Turn { start: 1_000, text: "Hello.".into(), speaker: 1 }];

    for (labelled, expected) in
        [(true, "same person throughout"), (false, "alternate between two voices")]
    {
        let bytes = write_transcript(
            "ep.mp3",
            "PodBatch",
            &turns,
            labelled,
            Format::Text,
            Style::default(),
        );
        let written = String::from_utf8(bytes).expect("text");
        assert!(written.contains(expected), "{written}");
        assert!(written.contains("[00:00:01] Speaker 1: Hello."), "{written}");
    }
}

fn job(label_speakers: bool, skip_existing: bool) -> Job {
    Job::new(&Settings {
        files: vec!["one.mp3".into(), "two.mp3".into()],
        label_speakers,
        skip_existing,
        format: Format::Text,
        style: Style::default(),
    })
}

fn lines(updates: &[Update]) -> Vec<String> {
    updates
        .iter()
        .filter_map(|u| match u {
            Update::Log(m) | Update::Problem(m) => Some(m.clone()),
            _ => None,
        })
        .collect()
}

#[test]
fn a_run_goes_through_every_file() {
    let mut job = job(false, true);
    let (action, _) = job.step(Event::Begin { scratch: Ok(()), ollama: true }, false);
    assert_eq!(action, Action::Look { file: 0 });
    let (action, said) = job.step(Event::Looked { there: true }, false);
    assert_eq!(action, Action::Look { file: 1 });
    assert_eq!(lines(&said), vec!["one.mp3 — already transcribed"]);
    let (action, said) = job.step(Event::Looked { there: false }, false);
    assert_eq!(action, Action::Convert { file: 1 });
    assert!(matches!(
        said.last(),
        Some(Update::Status { file: 1, status: Status::Working(Stage::Converting) })
    ));
    let (action, _) = job.step(Event::Converted { outcome: Ok(()), ran: true }, false);
    assert_eq!(action, Action::Listen { file: 1 });
    let (action, _) = job.step(Event::Heard(Ok(3)), false);
    assert_eq!(action, Action::Write { file: 1, labelled: false });
    let (action, said) = job.step(Event::Written(Ok(())), false);
    assert_eq!(action, Action::Finish { cancelled: false });
    assert_eq!(lines(&said), vec!["two.mp3 → two.txt"]);
    assert!(matches!(said.last(), Some(Update::Finished { cancelled: false })));
}

/// Losing Ollama costs the nice version of the answer, not the answer, and what
/// is written then owns up to the blunter numbering.
#[test]
fn a_labelling_failure_still_writes_the_transcript() {
    let mut job = job(true, false);
    let (action, said) = job.step(Event::Begin { scratch: Ok(()), ollama: true }, false);
    assert_eq!(action, Action::Convert { file: 0 });
    assert!(lines(&said)[0].starts_with("Speakers will be kept consistent using Ollama ("));
    job.step(Event::Converted { outcome: Ok(()), ran: true }, false);
    let (action, _) = job.step(Event::Heard(Ok(1)), false);
    assert_eq!(action, Action::Label { file: 0 });
    let (action, said) = job.step(Event::Labelled(Err("gone".into())), false);
    assert_eq!(action, Action::Write { file: 0, labelled: false });
    assert_eq!(
        lines(&said),
        vec!["Could not follow the speakers through one.mp3 (gone) — numbering each turn instead"]
    );
    let (action, _) = job.step(Event::Labelled(Ok(())), false);
    assert_eq!(action, Action::Write { file: 0, labelled: true });
}

#[test]
fn failures_are_said_unless_the_run_was_stopped() {
    let mut run = job(false, false);
    run.step(Event::Begin { scratch: Ok(()), ollama: false }, false);
    let (action, said) =
        run.step(Event::Converted { outcome: Err("bad".into()), ran: true }, false);
    assert_eq!(action, Action::Convert { file: 1 });
    assert_eq!(lines(&said), vec!["FFmpeg could not read one.mp3", "one.mp3 — bad"]);
    run.step(Event::Converted { outcome: Ok(()), ran: true }, false);
    let (action, said) = run.step(Event::Heard(Err("killed".into())), true);
    assert_eq!(action, Action::Finish { cancelled: true });
    assert!(lines(&said).is_empty());

    let mut run = job(true, false);
    let (action, said) =
        run.step(Event::Begin { scratch: Err("full".into()), ollama: true }, false);
    assert_eq!(action, Action::Finish { cancelled: false });
    assert_eq!(lines(&said), vec!["Nowhere to put the converted audio — full"]);

    let mut run = job(true, false);
    run.step(Event::Begin { scratch: Ok(()), ollama: false }, false);
    run.step(Event::Converted { outcome: Ok(()), ran: true }, false);
    let (_, said) = run.step(Event::Heard(Ok(0)), false);
    assert_eq!(lines(&said), vec!["one.mp3 — no speech found"]);
    let (_, said) = run.step(Event::Written(Err("read-only".into())), false);
    assert_eq!(lines(&said), vec!["two.mp3 — read-only"]);
}

/// Long conversations are asked about a piece at a time, each piece with the
/// end of the one before it.
#[test]
fn labelling_asks_in_overlapping_chunks() {
    let turns: Vec<Turn> = (0..70u128)
        .map(|i| Turn { start: i * 1000, text: format!("turn {i}."), speaker: 1 })
        .collect();
    let mut labelling = Labelling::new(turns.clone());
    let mut asked = 0;
    while let Some(question) = labelling.question() {
        asked += 1;
        assert!(question.expected > 0);
        assert!(question.prompt.contains(&format!("turn {}", (asked - 1) * 30)), "{}", question.prompt);
        labelling.accept((0..question.expected).map(|i| i % 3 + 1).collect());
        assert!(asked < 10);
    }
    let done = labelling.finish();
    assert_eq!(done.len(), 70);
    for (before, after) in turns.iter().zip(&done) {
        assert_eq!((before.start, &before.text), (after.start, &after.text));
    }
    assert_eq!(done[0].speaker, 1);
    assert_eq!(done[1].speaker, 2);
}

/// The body of the request really is the prompt, quoted as JSON wants it.
#[test]
fn a_request_quotes_its_prompt() {
    let body = request_body("model:1b", "say \"hi\"\nand go");
    assert!(body.contains(r#""say \"hi\"\nand go""#), "{body}");
    assert!(body.contains("model:1b"), "{body}");
    let value: serde_json::Value = serde_json::from_str(&body).expect("valid JSON");
    assert_eq!(value["prompt"], "say \"hi\"\nand go");
    assert_eq!(value["model"], "model:1b");
}

/// Texts are quoted exactly as `serde_json` quotes them, and read back the same.
#[test]
fn texts_are_quoted_as_json_wants_them() {
    let mut texts: Vec<String> =
        (0..0x3000).filter_map(char::from_u32).map(|c| format!("a{c}b")).collect();
    texts.extend(["", "\"", "\\\\", "emoji 🍺", "tab\tand\u{7f}"].map(String::from));
    for text in texts {
        let quoted = quote_json(&text);
        assert_eq!(quoted, serde_json::to_string(&text).expect("quoted"));
        assert_eq!(serde_json::from_str::<String>(&quoted).expect("read"), text);
    }
}

#[test]
fn the_reason_a_reply_cannot_be_read_is_given() {
    let words = |text: &str| {
        serde_json::from_str::<serde_json::Value>(text).expect_err("not JSON").to_string()
    };
    assert_eq!(
        parse_speakers("nonsense", 1),
        Err(format!("Ollama sent something unreadable — {}", words("nonsense")))
    );
    assert_eq!(
        parse_speakers(r#"{"response":"[1,"}"#, 1),
        Err(format!("Ollama's JSON did not parse — {}", words("[1,")))
    );
}

#[test]
fn answers_are_read_field_by_field() {
    let field = |key: &str, text: Option<&str>, list: Option<Vec<Option<u64>>>| JsonField {
        key: key.into(),
        text: text.map(|t| t.into()),
        numbers: list,
    };
    assert_eq!(
        answer_in(&vec![field("response", Some("words"), None)]).as_deref(),
        Ok("words")
    );
    assert!(answer_in(&vec![field("error", Some("no model"), None)])
        .unwrap_err()
        .contains("no model"));
    assert!(answer_in(&vec![]).is_err());
    assert_eq!(
        speakers_in(&vec![field("speakers", None, Some(vec![Some(2), Some(1)]))], 2),
        Ok(vec![2, 1])
    );
    assert!(speakers_in(&vec![field("speakers", None, Some(vec![Some(2), None]))], 2).is_err());
    assert!(speakers_in(&vec![field("speakers", None, Some(vec![Some(0), Some(1)]))], 2).is_err());
}

#[test]
fn the_programs_are_told_what_they_need() {
    let args = convert_args("in.mp3", "out.wav");
    assert!(args.contains(&"in.mp3".to_string()));
    assert_eq!(args.last().map(|a| a.as_str()), Some("out.wav"));
    assert_eq!(
        listen_args("m.bin", "out.wav"),
        vec!["-m", "m.bin", "-f", "out.wav", "-tdrz", "-bs", "1"]
    );
    assert_eq!(audio_millis(32_000), 1_000);
    assert_eq!(convert_reason("one\ntwo\n\n"), "two");
    assert_eq!(convert_reason(""), "FFmpeg could not read it");
    assert!(!listen_reason(&vec![]).is_empty());
    assert_eq!(clip("short"), "short");
}

#[test]
fn a_segment_is_told_with_its_progress() {
    let said = segment_updates(3, &seg(500, "Hi.", false), 1_000);
    assert!(matches!(
        said[0],
        Update::Progress { file: 3, heard_ms: 500, total_ms: 1_000 }
    ));
    assert!(matches!(&said[1], Update::Line { text } if text == "Hi."));
    assert_eq!(segment_updates(3, &seg(500, "Hi.", false), 0).len(), 1);
}

fn letters(text: &str) -> Vec<char> {
    text.chars().collect()
}

/// A part of a timestamp is any number a program might print: what is a number
/// and what is not, and which, is the same as for a float.
#[test]
fn numbers_are_read_like_floats() {
    for text in [
        "0", "00", "7", "59", "2.5", "2.", ".5", "0.001", "62.125", "+3", "-3", "-0.25", "1e3", "1E3",
        "1e+3", "1.5e-3", "12.5E2", "4294967296", "99999999999", "1e10", "-1e10", "0e99999999999999",
        "1e-400", "000000000000000000000000000000000000000012", "12345678.000000001", "5.e1",
        ".5e1", "", ".", "+", "-", "e", "e3", "1e", "1e+", "1e-", ".e3", "1.2.3", "1,5", "1 2", "--1",
        "+-1", "0x10", "1_000", "one", "1f", "1e2.5", "1e2e3", "\u{0661}",
    ] {
        let float = text.parse::<f64>().ok();
        let ours = parse_amount(&letters(text));
        assert_eq!(ours.is_some(), float.is_some(), "{text:?}");
        if let (Some(float), Some(ours)) = (float, ours) {
            assert!(!ours.up && !ours.down, "{text:?}");
            let value = ours.units as f64 / 1e12;
            assert!((value - float).abs() <= float.abs() * 1e-12 + 1e-12, "{text:?}: {value}");
        }
    }
    for text in ["inf", "INF", "Infinity", "+inf", "-inf", "-Infinity", "nan", "NaN", "-nan"] {
        let float = text.parse::<f64>().expect("a float");
        let ours = parse_amount(&letters(text)).expect("no number, but said so");
        assert_eq!(ours.up, float.is_nan() || float > 0.0, "{text:?}");
        assert_eq!(ours.down, float.is_nan() || float < 0.0, "{text:?}");
    }
    for text in ["infinit", "in", "nano", "inf1", "i\u{0307}nf"] {
        assert!(parse_amount(&letters(text)).is_none() && text.parse::<f64>().is_err(), "{text:?}");
    }
}

#[test]
fn numbers_too_large_to_hold_are_held_at_the_limit() {
    let most = 10i128.pow(34);
    for text in ["1e22", "1e23", "1e400", "9999999999999999999999999", "1e99999999999999999999999999"] {
        assert_eq!(parse_amount(&letters(text)).map(|a| a.units), Some(most), "{text:?}");
    }
    assert_eq!(parse_amount(&letters("-1e30")).map(|a| a.units), Some(-most));
    assert_eq!(parse_amount(&letters("9e21")).map(|a| a.units), Some(most / 10 * 9));
    assert_eq!(parse_amount(&letters("1e-12")).map(|a| a.units), Some(1));
    assert_eq!(parse_amount(&letters("1e-13")).map(|a| a.units), Some(0));
    assert_eq!(
        parse_amount(&letters("5e-99999999999999999999999999999999999999999")).map(|a| a.units),
        Some(0)
    );
}

#[test]
fn timestamps_are_read_in_any_shape_a_number_has() {
    for (text, millis) in [
        ("00:01:02.500", 62_500),
        ("00:01:02,500", 62_500),
        (" 00 : 01 : 02,500 ", 62_500),
        ("1:2:3", 3_723_000),
        ("1:2:3:4", 3_723_000),
        ("0.0005:0:0", 1_800),
        ("+1:-1:0", 3_540_000),
        ("0:0:-5", 0),
        ("-1:59:0", 0),
        ("1e1:0:0", 36_000_000),
        ("4294967296:0:0", 15_461_882_265_600_000),
        ("0:nan:5", 0),
        ("0:-inf:5", 0),
        ("inf:-inf:5", 0),
        ("inf:0:5", LAST_MOMENT),
        ("1e20:0:0", LAST_MOMENT),
        ("1e400:0:0", LAST_MOMENT),
    ] {
        assert_eq!(parse_timestamp(&letters(text)), Some(millis), "{text:?}");
    }
    for text in ["", "1:2", "1:2:", "a:2:3", "1,5:2:3", "1:2:3.4.5", "::"] {
        assert_eq!(parse_timestamp(&letters(text)), None, "{text:?}");
    }
    assert_eq!(
        parse_segment("[1e3:00:00.000 --> 1e3:00:05.000] Late."),
        Some(seg(3_600_000_000, "Late.", false))
    );
}

/// What is written beside a turn is the float's whole seconds, as many as 64
/// bits hold.
#[test]
fn a_clock_never_runs_past_its_last_moment() {
    assert_eq!(clock(LAST_MOMENT), "5124095576030431:00:15");
    assert_eq!(clock(LAST_MOMENT + 1), "5124095576030431:00:15");
    assert_eq!(clock(u128::MAX), "5124095576030431:00:15");
    assert_eq!(f64::INFINITY.max(0.0) as u64, 5_124_095_576_030_431 * 3600 + 15);
    assert_eq!(clock(parse_timestamp(&letters("26:03:59.999")).unwrap()), "26:03:59");
}

/// Progress is never more than the whole.
#[test]
fn a_segment_past_the_end_is_the_whole_of_it() {
    let said = segment_updates(0, &seg(LAST_MOMENT, "Hi.", false), 1_000);
    assert!(matches!(said[0], Update::Progress { file: 0, heard_ms: 1_000, total_ms: 1_000 }));
}
