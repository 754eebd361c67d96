//! The logs, and the tags written into episodes.

use id3::TagLike;
use podbatch::logs::folder_path;
use podbatch::logs::moved_aside;
use podbatch::logs::LogFile;
use podbatch::logs::Logs;
use podbatch::logs::Moment;
use podbatch::logs::Outcome;
use podbatch::logs::ROTATE_AT;
use podbatch::tags::describe;
use podbatch::tags::takes_tags;
use podbatch::tags::Details;
use podbatch::tags::MAGIC;
use podbatch::util::Published;

fn details() -> Details {
    Details {
        show: "My Show".into(),
        title: "Episode One".into(),
        published: Some(Published { year: 2025, month: 8, day: 5, hour: 10, minute: 0 }),
        description: Some("What happened, and to whom.".into()),
        feed_url: "https://one.test/feed.xml".into(),
    }
}

/// An MP3 stream, near enough: an MPEG frame sync and then some bytes.
fn mp3(len: usize) -> Vec<u8> {
    let mut bytes = vec![0xFF, 0xFB, 0x90, 0x00];
    bytes.extend((0..len).map(|i| (i % 251) as u8));
    bytes
}

/// An MP4 container — the shape an `.m4a` episode arrives in.
fn m4a(len: usize) -> Vec<u8> {
    let mut bytes = vec![0, 0, 0, 0x18];
    bytes.extend(b"ftypM4A ");
    bytes.extend((0..len).map(|i| (i % 251) as u8));
    bytes
}

#[test]
fn containers_are_told_apart_by_their_first_bytes() {
    assert!(takes_tags(&mp3(64)));
    assert!(takes_tags(b"ID3\x04\x00\x00\x00\x00\x00\x00rest"));
    assert!(takes_tags(b"FORM\0\0\0\0AIFF"));
    assert!(takes_tags(b"RIFF\0\0\0\0WAVE"));

    assert!(!takes_tags(&m4a(64)));
    assert!(!takes_tags(b"OggS\0\x02\0\0\0\0\0\0"));
    // "FORM" alone is not enough — that is IFF, and only some of it is AIFF.
    assert!(!takes_tags(b"FORM\0\0\0\08SVX"));
    assert!(!takes_tags(b"\xff"));
    assert!(!takes_tags(b""));
}

/// The tag is the only place the episode's identity survives, so it is
/// worth reading back rather than assuming the write took.
#[test]
fn writes_what_the_feed_said_and_leaves_the_audio_alone() {
    let audio = mp3(2000);
    assert!(takes_tags(&audio[..MAGIC]));
    let mut tag = id3::Tag::new();
    describe(&mut tag, &details());

    let mut tagged = Vec::new();
    tag.write_to(&mut tagged, id3::Version::Id3v24).expect("write");
    tagged.extend(&audio);

    let tag = id3::Tag::read_from2(std::io::Cursor::new(&tagged)).expect("read back");
    assert_eq!(tag.title(), Some("Episode One"));
    assert_eq!(tag.album(), Some("My Show"));
    assert_eq!(tag.artist(), Some("My Show"));
    assert_eq!(tag.year(), Some(2025));
    assert_eq!(
        tag.date_recorded().map(|d| (d.year, d.month, d.day, d.hour, d.minute)),
        Some((2025, Some(8), Some(5), Some(10), Some(0)))
    );
    assert_eq!(
        tag.comments().next().map(|c| c.text.as_str()),
        Some("What happened, and to whom.")
    );

    assert!(tagged.len() > audio.len());
    assert!(tagged.ends_with(&audio), "the audio was altered");
}

/// An M4A arrives called `.mp3` often enough. Tagging it on the strength of
/// that name would leave an episode no player will open.
#[test]
fn a_file_that_only_looks_like_an_mp3_is_left_exactly_as_it_landed() {
    assert!(!takes_tags(&m4a(2000)[..MAGIC]));
}

/// A file too short to identify is not a file to write a tag onto.
#[test]
fn a_truncated_file_is_left_alone_rather_than_guessed_at() {
    assert!(!takes_tags(b"no"));
}

/// Describing an episode again replaces what was said and keeps what was not,
/// such as the cover a publisher embedded.
#[test]
fn describing_again_replaces_and_keeps() {
    let mut tag = id3::Tag::new();
    tag.set_text("TIT2", "Old title");
    tag.set_text("TCOM", "A composer");
    tag.add_frame(id3::frame::Picture {
        mime_type: "image/png".into(),
        picture_type: id3::frame::PictureType::CoverFront,
        description: String::new(),
        data: vec![1, 2, 3],
    });
    describe(&mut tag, &details());
    describe(&mut tag, &Details { title: "Episode One, again".into(), ..details() });
    assert_eq!(tag.title(), Some("Episode One, again"));
    assert_eq!(tag.get("TCOM").and_then(|f| f.content().text()), Some("A composer"));
    assert_eq!(tag.pictures().count(), 1);
    assert_eq!(tag.comments().count(), 1);
    assert_eq!(tag.frames().filter(|f| f.id() == "TIT2").count(), 1);
    assert_eq!(
        tag.get("WFED").and_then(|f| f.content().link()),
        Some("https://one.test/feed.xml")
    );
}

/// Ours are in the tag even where something of another kind stands under one of
/// our letters.
#[test]
fn a_frame_of_another_kind_does_not_keep_ours_out() {
    let mut tag = id3::Tag::new();
    tag.add_frame(id3::Frame::with_content(
        "TIT2",
        id3::Content::Link("https://odd.test".into()),
    ));
    describe(&mut tag, &details());
    assert!(tag
        .frames()
        .any(|f| f.id() == "TIT2" && f.content().text() == Some("Episode One")));
}

#[test]
fn an_episode_with_little_known_is_described_by_what_is() {
    let mut tag = id3::Tag::new();
    describe(&mut tag, &Details { published: None, description: None, ..details() });
    assert_eq!(tag.title(), Some("Episode One"));
    assert!(tag.year().is_none());
    assert_eq!(tag.comments().count(), 0);
}

/// What each file gets, as it would be written.
#[test]
fn each_file_gets_what_belongs_in_it() {
    let mut logs = Logs::new();
    assert_eq!(logs.open(Some("/logs".into()), Ok(())).as_deref(), Ok("/logs"));
    let now = Moment { secs: 1_760_000_000, millis: 7 };

    let mut lines = logs.debug(now, "a detail nobody needs to see");
    lines.extend(logs.record(now, Outcome::Done, "an episode that landed"));
    lines.extend(logs.record(now, Outcome::Failed, "one that didn't"));
    let written = |file: LogFile| {
        let texts: Vec<String> =
            lines.iter().filter(|l| l.file == file).map(|l| l.text.clone()).collect();
        texts.join("\n")
    };
    let output = written(LogFile::Output);
    let debug = written(LogFile::Debug);

    // Operations, with their outcome, in the file that is a record of them.
    assert!(output.contains("DONE an episode that landed"), "{output}");
    assert!(output.contains("FAIL one that didn't"), "{output}");
    // The detail belongs only to the debug log.
    assert!(!output.contains("a detail nobody needs"), "{output}");

    // Which the debug log has, along with everything the other one said —
    // it is meant to read as the whole story.
    assert!(debug.contains("a detail nobody needs to see"), "{debug}");
    assert!(debug.contains("DONE an episode that landed"), "{debug}");
    assert!(debug.contains("FAIL one that didn't"), "{debug}");

    // Every line is stamped, so a log kept across runs can be read in order.
    for line in output.lines() {
        assert!(line.starts_with("20") && line.contains('Z'), "unstamped: {line}");
    }
}

#[test]
fn logs_that_could_not_be_opened_say_so_and_write_nothing() {
    let now = Moment { secs: 0, millis: 0 };
    let mut logs = Logs::new();
    assert!(logs.debug(now, "early").is_empty());
    assert!(logs.status().is_err());
    assert!(logs.open(None, Ok(())).is_err());
    assert!(logs.status().is_err());
    assert!(logs.record(now, Outcome::Note, "late").is_empty());
    // The first answer stands.
    assert!(logs.open(Some("/logs".into()), Ok(())).is_err());

    let mut logs = Logs::new();
    assert!(logs.open(Some("/logs".into()), Err("read-only".into())).unwrap_err().contains("read-only"));
}

/// The logs live with the downloads, under one folder in the home
/// directory, rather than wherever the platform files application data —
/// which is a place most people cannot name, let alone find.
#[test]
fn the_logs_go_under_the_home_directory() {
    assert_eq!(
        folder_path(Some("/home/me"), Some("/data"), Some("/config")).as_deref(),
        Some("/home/me/Podbatch/Logging")
    );
    assert_eq!(folder_path(None, Some("/data"), None).as_deref(), Some("/data/PodBatch"));
    assert_eq!(folder_path(None, None, Some("/config")).as_deref(), Some("/config/PodBatch"));
    assert_eq!(folder_path(None, None, None), None);
}

#[test]
fn outcomes_tag_the_same_width() {
    let widths: Vec<usize> = [Outcome::Done, Outcome::Skipped, Outcome::Failed, Outcome::Note]
        .iter()
        .map(|o| o.tag().len())
        .collect();
    assert!(widths.iter().all(|&w| w == widths[0]), "{widths:?}");
}

/// One generation back is kept, and no log grows past its limit and stays.
#[test]
fn a_full_log_is_moved_aside_rather_than_grown() {
    assert_eq!(
        moved_aside("/logs/debug.log", Some(ROTATE_AT + 1)).as_deref(),
        Some("/logs/debug.log.old")
    );
    assert_eq!(moved_aside("/logs/debug.log", Some(ROTATE_AT)), None);
    assert_eq!(moved_aside("/logs/debug.log", None), None);
}

/// A second call opens nothing and says what the first one said.
#[test]
fn opening_the_logs_twice_is_harmless() {
    let mut logs = Logs::new();
    assert_eq!(logs.to_start(None), None);
    assert_eq!(logs.to_start(Some("/logs")).as_deref(), Some("/logs"));
    assert_eq!(logs.open(Some("/logs".into()), Ok(())).as_deref(), Ok("/logs"));
    assert_eq!(logs.to_start(Some("/elsewhere")), None);
    assert_eq!(logs.open(Some("/elsewhere".into()), Err("full".into())).as_deref(), Ok("/logs"));
    assert_eq!(logs.status().as_deref(), Ok("/logs"));

    let mut logs = Logs::new();
    assert_eq!(logs.open(Some("/logs".into()), Err("full".into())), Err("full".to_string()));
    assert_eq!(logs.to_start(Some("/logs")), None);
    assert_eq!(logs.open(Some("/logs".into()), Ok(())), Err("full".to_string()));
}
