//! The window's state: what is listed, counted, asked and answered.

use podbatch::app::actions::describe_action;
use podbatch::app::actions::dropped_path;
use podbatch::app::actions::shortcuts;
use podbatch::app::actions::Action;
use podbatch::app::cue_for;
use podbatch::app::default_out_dir;
use podbatch::app::news::cue_is_due;
use podbatch::app::news::InstallUpdate;
use podbatch::app::panes::audio_status;
use podbatch::app::panes::feed_status;
use podbatch::app::panes::selection_text;
use podbatch::app::panes::total_notes;
use podbatch::app::panes::AudioNote;
use podbatch::app::panes::DownloadButton;
use podbatch::app::panes::JobBar;
use podbatch::app::panes::Tone;
use podbatch::app::panes::TranscribeButton;
use podbatch::app::transcripts::AudioFile;
use podbatch::app::AudioRow;
use podbatch::app::Effect;
use podbatch::app::EpisodeRow;
use podbatch::app::FeedRow;
use podbatch::app::Outcome;
use podbatch::app::OutputKind;
use podbatch::app::PodBatchApp;
use podbatch::app::Tab;
use podbatch::app::Totals;
use podbatch::app::CUE_EPISODE_DONE;
use podbatch::app::CUE_RUN_ENDED;
use podbatch::app::CUE_SOMETHING_FAILED;
use podbatch::app::OUTPUT_LIMIT;
use podbatch::document::Format;
use podbatch::engine::Cancel;
use podbatch::engine::EpisodeInfo;
use podbatch::engine::EpisodeStatus;
use podbatch::engine::FeedStatus;
use podbatch::engine::Plan;
use podbatch::engine::Proceed;
use podbatch::engine::Update;
use podbatch::logs::folder_path;
use podbatch::logs::Outcome as Filed;
use podbatch::opml;
use podbatch::opml::Subscription;
use podbatch::questions::answer;
use podbatch::questions::plan_headline;
use podbatch::questions::plan_lines;
use podbatch::questions::Dialog;
use podbatch::questions::Speed;
use podbatch::sound::Cue;
use podbatch::theme::palette;
use podbatch::theme::Rgb;
use podbatch::tools;
use podbatch::tools::elide_path;
use podbatch::transcribe;
use podbatch::transcribe::audio_in;
use podbatch::transcribe::transcript_path;
use podbatch::transcribe::FolderEntry;
use podbatch::transcribe::Stage;
use podbatch::transcribe::Status;
use podbatch::util::Rate;

/// A window with nothing in it, and its sounds off.
fn test_app() -> PodBatchApp {
    let mut app = PodBatchApp::new("/tmp/out".into(), Ok("/tmp/logs".into()));
    app.output.clear();
    app.todo.clear();
    app.play_sounds = false;
    app
}

fn episode(status: EpisodeStatus, done: u64) -> EpisodeRow {
    EpisodeRow { title: "t".into(), file_name: "t.mp3".into(), status, done, total: None }
}

fn feed(selected: bool, episodes: Vec<EpisodeRow>) -> FeedRow {
    FeedRow {
        title: "show".into(),
        url: "https://x.test/feed".into(),
        selected,
        folder: String::new(),
        status: FeedStatus::Done,
        episodes,
        listed: true,
    }
}

fn per_second(bytes: u64) -> Rate {
    Rate { bytes, micros: 1_000_000 }
}

/// What a question says on screen, all of it.
fn painted(app: &PodBatchApp) -> String {
    match app.wording(Some("/home/me"), '/') {
        Some(w) => format!(
            "{}\n{}\n{}\n{}\n{}\n",
            w.headline,
            w.lines.join("\n"),
            w.command.clone().map(|c| c + "\nCopy command").unwrap_or_default(),
            w.yes,
            w.no
        ),
        None => String::new(),
    }
}

/// A frame with Escape pressed in it, as far as the state goes.
fn escaping(app: &mut PodBatchApp) {
    if app.hears_shortcuts(false) {
        app.perform(Action::Stop);
    }
    let first_frame = app.focus_dialog;
    app.answered(answer(None, true, first_frame), 0);
}

/// A frame with nothing pressed in it.
fn frame(app: &mut PodBatchApp) -> String {
    let text = painted(app);
    let first_frame = app.focus_dialog;
    app.answered(answer(None, false, first_frame), 0);
    text
}

#[test]
fn finished_covers_every_terminal_state() {
    assert!(episode(EpisodeStatus::Done, 0).finished());
    assert!(episode(EpisodeStatus::Skipped, 0).finished());
    assert!(episode(EpisodeStatus::Failed("x".into()), 0).finished());
    assert!(!episode(EpisodeStatus::Pending, 0).finished());
    assert!(!episode(EpisodeStatus::Downloading, 0).finished());
    // Cancelled episodes stay unfinished: the run stopped, they didn't.
    assert!(!episode(EpisodeStatus::Cancelled, 0).finished());
}

/// An un-ticked podcast must not move the numbers on the bar, or un-ticking
/// one that has already been downloaded would show a run as incomplete.
#[test]
fn totals_only_count_the_selected_podcasts() {
    let mut app = test_app();
    app.feeds = vec![
        feed(
            true,
            vec![
                episode(EpisodeStatus::Done, 100),
                episode(EpisodeStatus::Failed("no".into()), 0),
            ],
        ),
        feed(false, vec![episode(EpisodeStatus::Done, 5_000)]),
    ];

    let totals = app.totals();
    assert_eq!(totals.episodes, 2);
    assert_eq!(totals.finished, 2);
    assert_eq!(totals.downloaded, 1);
    assert_eq!(totals.failed, 1);
    // Only the ticked podcast's bytes.
    assert_eq!(totals.bytes, 100);
}

#[test]
fn one_failure_is_enough_to_make_the_run_a_failure() {
    let totals = |downloaded, failed| Totals {
        episodes: downloaded + failed,
        finished: downloaded + failed,
        downloaded,
        failed,
        ..Totals::default()
    };
    assert_eq!(cue_for(&totals(3, 0)), Cue::Success);
    assert_eq!(cue_for(&totals(0, 0)), Cue::Success);
    assert_eq!(cue_for(&totals(99, 1)), Cue::Failure);
}

/// The engine only ever hears about the ticked podcasts, so its feed numbers
/// are not the window's. Getting this wrong would post every episode's
/// progress against the wrong show.
#[test]
fn engine_indices_map_back_through_the_selection() {
    let mut app = test_app();
    app.feeds = vec![feed(false, vec![]), feed(true, vec![]), feed(true, vec![])];
    app.feeds[1].title = "second".into();
    app.feeds[2].title = "third".into();
    app.running_map = vec![1, 2];

    assert_eq!(app.feeds[app.row_index(0).unwrap()].title, "second");
    assert_eq!(app.feeds[app.row_index(1).unwrap()].title, "third");
    assert!(app.row_index(2).is_none());
}

fn read_opml(text: &str) -> Result<Vec<Subscription>, String> {
    opml::parse_str(text).map_err(|e| e.message())
}

#[test]
fn a_bad_opml_file_reports_instead_of_leaving_a_stale_list() {
    let good =
        r#"<opml><body><outline type="rss" text="A" xmlUrl="https://a.test/f"/></body></opml>"#;
    let bad = "not xml at all";

    let mut app = test_app();
    app.load_opml("good.opml".into(), read_opml(good));
    assert_eq!(app.feeds.len(), 1);
    assert!(app.feeds[0].selected, "podcasts start ticked");
    assert_eq!(
        app.output.last().map(|l| l.text.as_str()),
        Some("Loaded 1 podcast from good.opml")
    );

    app.load_opml("bad.opml".into(), read_opml(bad));
    assert!(app.feeds.is_empty(), "a failed load must not leave the old list");
    assert_eq!(app.output.last().map(|l| l.kind), Some(OutputKind::Bad));
    assert!(app.output.last().unwrap().text.starts_with("bad.opml: not valid XML: "));
    assert_eq!(app.opml_path.as_deref(), Some("bad.opml"));
}

/// Two actions on one chord means one of them silently never happens.
#[test]
fn no_two_shortcuts_share_a_chord() {
    let all = shortcuts();
    for (i, a) in all.iter().enumerate() {
        for b in all.iter().skip(i + 1) {
            assert!(a.chord != b.chord, "two actions share {:?}", a.chord);
        }
    }
}

/// Every action must be reachable from the keyboard, and every listed
/// shortcut must describe itself — the Settings pane prints this table
/// verbatim.
#[test]
fn every_action_has_exactly_one_shortcut_and_a_description() {
    let all = shortcuts();
    let actions: Vec<Action> = all.iter().map(|s| s.action).collect();

    for expected in [
        Action::ChooseOpml,
        Action::Start,
        Action::Stop,
        Action::Show(Tab::Downloads),
        Action::Show(Tab::Transcripts),
        Action::Show(Tab::Settings),
        Action::SelectAll,
        Action::SelectNone,
        Action::ChooseAudioFolder,
        Action::Transcribe,
    ] {
        let count = actions.iter().filter(|&&a| a == expected).count();
        assert_eq!(count, 1, "{expected:?} should have exactly one shortcut");
    }
    assert_eq!(actions.len(), 10, "an action was added without a test");

    for s in &all {
        assert!(!s.description.is_empty(), "{:?} has no description", s.action);
        assert_eq!(s.description, describe_action(s.action));
    }
}

fn runs_started(app: &PodBatchApp) -> usize {
    app.todo.iter().filter(|e| matches!(e, Effect::StartRun(_))).count()
}

/// A shortcut must not be able to reach a state a click could not. Starting
/// a second run over a live one would leak the first engine's channel and
/// double the traffic.
#[test]
fn shortcuts_respect_the_same_guards_as_the_buttons() {
    let mut app = test_app();
    app.feeds = vec![feed(true, vec![])];
    app.running = true;

    app.perform(Action::SelectNone);
    assert!(app.feeds[0].selected, "selection is frozen while running");

    app.perform(Action::Start);
    assert_eq!(runs_started(&app), 0, "a second run must not start over a live one");

    // Escape with nothing running is a no-op, not a crash.
    app.running = false;
    app.perform(Action::Stop);
    assert!(!app.cancelling);
}

#[test]
fn tab_shortcuts_move_between_tabs() {
    let mut app = test_app();
    app.perform(Action::Show(Tab::Settings));
    assert_eq!(app.tab, Tab::Settings);
    app.perform(Action::Show(Tab::Downloads));
    assert_eq!(app.tab, Tab::Downloads);

    // Starting a run brings the tab that shows it back into view; watching
    // progress from the Settings tab is not a thing anyone asked for.
    app.feeds = vec![feed(true, vec![])];
    app.tab = Tab::Settings;
    app.perform(Action::Start);
    assert_eq!(app.tab, Tab::Downloads);
    assert_eq!(runs_started(&app), 1);
}

#[test]
fn select_all_and_none_cover_every_podcast() {
    let mut app = test_app();
    app.feeds = vec![feed(true, vec![]), feed(false, vec![])];

    app.perform(Action::SelectNone);
    assert_eq!(app.selected_count(), 0);
    app.perform(Action::SelectAll);
    assert_eq!(app.selected_count(), 2);
}

/// Escape is a key that gets pressed by accident, and it must not throw away
/// however much of a run has not finished: it asks.
#[test]
fn stopping_asks_before_it_stops() {
    let mut app = test_app();
    app.feeds = vec![feed(true, vec![])];
    app.running = true;
    app.cancel = Some(Cancel::new());

    app.perform(Action::Stop);
    assert!(matches!(app.dialog, Some(Dialog::Stop)));
    assert!(!app.cancelling, "asking is not stopping");

    // Saying no leaves the run exactly as it was.
    let dialog = app.dialog.take().expect("dialog");
    app.declined(dialog);
    assert!(!app.cancelling);
    assert!(app.running);

    // Saying yes is what actually stops it.
    app.perform(Action::Stop);
    let dialog = app.dialog.take().expect("dialog");
    app.agreed(dialog, 0);
    assert!(app.cancelling);
    assert!(app.cancel.as_ref().unwrap().is_cancelled());
}

/// Turning down the confirmation has to release the engine, which is
/// sitting on the question waiting to be told either way. Leaving it there
/// would hang the run — and the window — for good.
#[test]
fn declining_the_confirmation_stops_the_run() {
    let mut app = test_app();
    app.running = true;
    app.cancel = Some(Cancel::new());
    app.proceed = Some(Proceed::new());

    app.declined(Dialog::Confirm(Plan::default()));
    assert!(app.cancelling, "the engine was left waiting on an answer");
    assert!(!app.proceed.as_ref().unwrap().is_go());
}

#[test]
fn confirming_lets_the_engine_go() {
    let mut app = test_app();
    app.running = true;
    app.proceed = Some(Proceed::new());

    app.agreed(Dialog::Confirm(Plan::default()), 7);
    assert!(
        app.downloads_began.is_some(),
        "the clock the next estimate is built on starts here"
    );
    assert!(app.proceed.as_ref().unwrap().is_go());
}

/// What the box actually says. The numbers are the whole reason it exists,
/// so each one has to survive the sentence it is put in.
#[test]
fn the_confirmation_says_how_much_and_how_long() {
    let plan = Plan {
        episodes: 40,
        bytes: 40 * 1024 * 1024,
        unsized_episodes: 0,
        skipped: 12,
        probed_rate: Some(per_second(1024 * 1024)),
    };

    assert_eq!(plan_headline(&plan), "Download 40 episodes?");
    let lines = plan_lines(&plan, Some(Speed::Measured(per_second(1024 * 1024))), 4).join("\n");
    assert!(lines.contains("40.0 MB to fetch"), "{lines}");
    assert!(lines.contains("1.0 MB/s"), "{lines}");
    // 40 MB at 1 MB/s is 40 seconds, which is worded as its own bound —
    // "about less than a minute" is what a lazier join produces here.
    assert!(lines.contains("that is less than a minute."), "{lines}");
    assert!(lines.contains("12 episodes already downloaded"), "{lines}");

    // The same plan over a slower line, where the figure is a real one and
    // does take a hedge in front of it.
    let slow = plan_lines(&plan, Some(Speed::Measured(per_second(64 * 1024))), 4).join("\n");
    assert!(slow.contains("that is about 11 minutes."), "{slow}");
}

/// An estimate with nothing behind it is worse than no estimate: it is the
/// number the user will plan their evening around.
#[test]
fn an_unmeasurable_run_says_so_rather_than_guessing() {
    let plan =
        Plan { episodes: 3, bytes: 0, unsized_episodes: 3, skipped: 0, probed_rate: None };

    let lines = plan_lines(&plan, None, 4).join("\n");
    assert!(lines.contains("None of them says how big it is"), "{lines}");
    assert!(lines.contains("anyone's guess"), "{lines}");
    assert!(!lines.contains("already downloaded"), "{lines}");

    // A known size with no rate still declines to put a time on it.
    let sized = Plan { bytes: 5_000_000, unsized_episodes: 0, ..plan };
    let lines = plan_lines(&sized, None, 4).join("\n");
    assert!(lines.contains("4.8 MB to fetch"), "{lines}");
    assert!(lines.contains("anyone's guess"), "{lines}");
}

/// Episodes that don't declare a size are not in the byte count, so the
/// estimate built from it is a floor and has to be worded as one.
#[test]
fn an_estimate_missing_some_sizes_is_given_as_a_minimum() {
    let plan = Plan {
        episodes: 10,
        bytes: 10 * 1024 * 1024,
        unsized_episodes: 4,
        skipped: 0,
        probed_rate: Some(per_second(1024)),
    };

    let lines = plan_lines(&plan, plan.probed_rate.map(Speed::Probed), 1).join("\n");
    assert!(lines.contains("4 episodes that don't say how big they are"), "{lines}");
    assert!(lines.contains("at least"), "{lines}");
}

/// A whole box, word for word.
#[test]
fn the_confirmation_reads_as_a_paragraph() {
    let plan = Plan {
        episodes: 47,
        bytes: 3_435_973_837,
        unsized_episodes: 4,
        skipped: 12,
        probed_rate: Some(per_second(2_516_583)),
    };
    assert_eq!(plan_headline(&plan), "Download 47 episodes?");
    assert_eq!(
        plan_lines(&plan, plan.probed_rate.map(Speed::Probed), 4),
        vec![
            "3.2 GB to fetch, plus 4 episodes that don't say how big they are.",
            "At around 2.4 MB/s on one connection, that is at least 23 minutes — likely quicker, \
             with 4 downloading at once.",
            "12 episodes already downloaded, and will be left alone.",
        ]
    );
}

/// The confirmation as it is put, and answered the way an accidental Escape
/// answers it: the dialog takes the key before the shortcuts can read it as
/// "stop the run".
#[test]
fn the_confirmation_paints_and_escape_answers_it_rather_than_the_run() {
    let mut app = test_app();
    app.feeds = vec![feed(true, vec![])];
    app.running = true;
    app.cancel = Some(Cancel::new());
    app.proceed = Some(Proceed::new());
    app.ask(Dialog::Confirm(Plan {
        episodes: 40,
        bytes: 40 * 1024 * 1024,
        unsized_episodes: 0,
        skipped: 0,
        probed_rate: Some(per_second(1024 * 1024)),
    }));

    frame(&mut app);
    let painted = frame(&mut app);
    assert!(
        painted.contains("Download 40 episodes?"),
        "the question never reached the screen: {painted}"
    );
    assert!(painted.contains("40.0 MB to fetch"), "{painted}");
    assert!(painted.contains("1.0 MB/s"), "{painted}");

    assert!(!app.hears_shortcuts(false));
    escaping(&mut app);

    assert!(app.dialog.is_none(), "Escape should have dismissed the box");
    assert!(
        app.cancelling,
        "declining to start the downloads has to let the waiting engine go"
    );
}

/// A key pressed before a question existed must not answer it.
#[test]
fn a_question_cannot_be_answered_by_a_key_pressed_before_it_was_asked() {
    let mut app = test_app();
    app.running = true;
    app.cancel = Some(Cancel::new());
    app.proceed = Some(Proceed::new());
    frame(&mut app);

    // The engine's plan lands in the same frame the key is pressed.
    app.put_plan(Plan { episodes: 5, bytes: 500, ..Plan::default() });
    escaping(&mut app);
    assert!(app.dialog.is_some(), "the box was answered by a press that predates it");
    assert!(!app.cancelling, "and the run was cancelled by it");

    // Escape from here on does answer it, because now it has been seen.
    escaping(&mut app);
    assert!(app.dialog.is_none());
    assert!(app.cancelling);
}

/// A question already on screen must not be swapped for another one.
#[test]
fn a_plan_arriving_mid_question_waits_its_turn() {
    let mut app = test_app();
    app.running = true;
    app.cancel = Some(Cancel::new());
    app.proceed = Some(Proceed::new());
    app.ask(Dialog::Stop);

    app.put_plan(Plan { episodes: 5, ..Plan::default() });
    assert!(
        matches!(app.dialog, Some(Dialog::Stop)),
        "the question on screen was swapped underneath the user"
    );
    assert!(app.pending_plan.is_some());

    // Carrying on brings the plan up as the next question.
    let dialog = app.dialog.take().expect("dialog");
    app.declined(dialog);
    assert!(matches!(app.dialog, Some(Dialog::Confirm(_))));
    assert!(app.pending_plan.is_none());
}

/// And stopping at that question drops the plan rather than asking about a
/// run that no longer exists.
#[test]
fn stopping_discards_a_plan_that_was_waiting_behind_the_question() {
    let mut app = test_app();
    app.running = true;
    app.cancel = Some(Cancel::new());
    app.proceed = Some(Proceed::new());
    app.ask(Dialog::Stop);
    app.put_plan(Plan { episodes: 5, ..Plan::default() });

    let dialog = app.dialog.take().expect("dialog");
    app.agreed(dialog, 0);
    assert!(app.cancelling);
    assert!(app.pending_plan.is_none(), "asked about a run that was stopped");
    assert!(app.dialog.is_none());
}

/// A dozen episodes finishing at once is one sound, not a dozen — but the
/// cue that says the whole run is over is never the one that gets dropped.
#[test]
fn cues_are_spaced_out_except_the_one_that_ends_the_run() {
    let now = 60_000_000;
    let just_now = now - 50_000;
    let a_while_ago = now - 5_000_000;

    assert!(cue_is_due(CUE_EPISODE_DONE, None, now), "the first cue always plays");
    assert!(!cue_is_due(CUE_EPISODE_DONE, Some(just_now), now));
    assert!(!cue_is_due(CUE_SOMETHING_FAILED, Some(just_now), now));
    assert!(cue_is_due(CUE_EPISODE_DONE, Some(a_while_ago), now));
    assert!(cue_is_due(CUE_RUN_ENDED, Some(just_now), now));
    // The edge of the gap.
    assert!(!cue_is_due(CUE_EPISODE_DONE, Some(now - 699_999), now));
    assert!(cue_is_due(CUE_EPISODE_DONE, Some(now - 700_000), now));
}

/// Where episodes go before anyone has said otherwise. It is only a
/// default — the folder is a setting — but it is the one almost every run
/// uses, and it sits next to `~/Podbatch/Logging` on purpose.
#[test]
fn episodes_default_to_a_folder_beside_the_logs() {
    assert_eq!(default_out_dir(Some("/home/me")), "/home/me/Podbatch/Downloads");
    assert_eq!(default_out_dir(None), "./Podbatch/Downloads");
    assert_eq!(
        folder_path(Some("/home/me"), None, None).as_deref(),
        Some("/home/me/Podbatch/Logging")
    );
}

#[test]
fn elides_the_home_directory() {
    assert_eq!(elide_path("/home/me/podcasts", Some("/home/me"), '/'), "~/podcasts");
    assert_eq!(elide_path("C:\\me\\podcasts", Some("C:\\me"), '\\'), "~\\podcasts");
    assert_eq!(elide_path("/home/me", Some("/home/me"), '/'), "~/");
    // A path outside the home directory is shown exactly as it is, on
    // whichever platform's own separator it was built with.
    assert_eq!(elide_path("./opt/media", Some("/home/me"), '/'), "./opt/media");
    assert_eq!(elide_path("/home/meg/media", Some("/home/me"), '/'), "/home/meg/media");
    assert_eq!(elide_path("/home/me/x", None, '/'), "/home/me/x");
}

// ---- transcripts ----------------------------------------------------------

/// A machine with everything on it, so a test can choose what to take away.
fn all_tools_present() -> Vec<tools::Found> {
    tools::Tool::all()
        .iter()
        .map(|tool| tools::Found {
            tool: *tool,
            presence: tools::Presence::Ready("here".into()),
            path: Some("/usr/bin/thing".into()),
        })
        .collect()
}

fn without(tool: tools::Tool) -> Vec<tools::Found> {
    all_tools_present()
        .into_iter()
        .map(|mut f| {
            if f.tool == tool {
                f.presence = tools::Presence::Missing;
                f.path = None;
            }
            f
        })
        .collect()
}

/// What reading a folder with these files in it gives.
fn folder_of_audio(names: &[&str], format: Format) -> Vec<AudioFile> {
    let entries: Vec<FolderEntry> =
        names.iter().map(|n| FolderEntry { name: n.to_string(), is_file: true }).collect();
    audio_in(&entries)
        .into_iter()
        .map(|name| {
            let path = format!("/audio/{name}");
            let transcript = transcript_path(&path, format);
            AudioFile {
                transcribed: names.iter().any(|n| format!("/audio/{n}") == transcript),
                path,
                name,
            }
        })
        .collect()
}

fn load_folder(app: &mut PodBatchApp, names: &[&str]) {
    let files = folder_of_audio(names, app.transcript_format);
    app.load_audio_folder("/audio".into(), files, Some("/home/me"), '/');
}

/// The rows of the tab: what is missing offers to be put right, and a present
/// package manager is not worth a line.
#[test]
fn the_transcripts_tab_paints_its_pieces() {
    let mut app = test_app();
    app.tab = Tab::Transcripts;
    app.tools = without(tools::Tool::Whisper);

    let rows = app.tool_rows();
    assert!(rows.iter().all(|r| r.tool != tools::Tool::PackageManager));
    assert_eq!(rows.len(), 5);
    let whisper = rows.iter().find(|r| r.tool == tools::Tool::Whisper).expect("Whisper");
    assert_eq!(whisper.tool.label(), "Whisper");
    assert!(whisper.detail.is_none(), "the missing piece offers a way to put it right");
    assert_eq!((whisper.mark, whisper.tone), ("✖", Tone::Bad));
    // The ones that are there do not.
    assert_eq!(rows.iter().filter(|r| r.detail.is_none()).count(), 1);
    assert!(!app.lacks_manager());

    app.tools = without(tools::Tool::Ollama);
    let rows = app.tool_rows();
    let ollama = rows.iter().find(|r| r.tool == tools::Tool::Ollama).expect("Ollama");
    assert_eq!((ollama.mark, ollama.tone), ("=", Tone::Muted));

    app.tools = without(tools::Tool::PackageManager);
    assert!(app.lacks_manager());
    assert_eq!(app.tool_rows().len(), 6);
    app.tools = Vec::new();
    assert!(!app.lacks_manager());
}

#[test]
fn the_tab_lists_the_audio_in_the_folder_and_ignores_the_rest() {
    let mut app = test_app();
    load_folder(&mut app, &["one.mp3", "two.m4a", "notes.txt", "art.jpg"]);

    let listed: Vec<&str> = app.audio.iter().map(|a| a.name.as_str()).collect();
    assert_eq!(listed, vec!["one.mp3", "two.m4a"]);
    assert!(app.audio.iter().all(|a| a.selected), "new files start ticked");
    assert_eq!(app.output.last().unwrap().text, "2 audio files in /audio");

    load_folder(&mut app, &["notes.txt"]);
    assert_eq!(app.output.last().unwrap().text, "No audio files in /audio");
    assert_eq!(app.output.last().unwrap().kind, OutputKind::Muted);
}

/// An episode with a transcript beside it starts unticked, so "transcribe"
/// on a folder half done means the half that isn't.
///
/// Which file counts as "the transcript" follows the chosen format: a `.txt`
/// sitting next to an episode says nothing about whether the Word document
/// you asked for exists.
#[test]
fn an_already_transcribed_episode_starts_unticked() {
    let names = ["done.mp3", "todo.mp3", "done.docx"];
    let mut app = test_app();
    load_folder(&mut app, &names);

    let done = app.audio.iter().find(|a| a.name == "done.mp3").expect("done");
    let todo = app.audio.iter().find(|a| a.name == "todo.mp3").expect("todo");
    assert!(!done.selected, "an existing transcript should start unticked");
    assert!(todo.selected);

    // Switch format and the .docx no longer answers the question.
    app.transcript_format = Format::Pdf;
    load_folder(&mut app, &names);
    assert!(
        app.audio.iter().all(|a| a.selected),
        "a .docx should not count as a PDF transcript"
    );
}

/// The whole point of the Ollama step being optional.
#[test]
fn transcribing_is_possible_without_ollama_but_not_without_whisper() {
    let mut app = test_app();

    app.tools = without(tools::Tool::Ollama);
    assert!(app.can_transcribe(), "Ollama is optional");
    app.tools = without(tools::Tool::OllamaModel);
    assert!(app.can_transcribe(), "the Ollama model is optional");

    for required in
        [tools::Tool::Ffmpeg, tools::Tool::Whisper, tools::Tool::WhisperModel]
    {
        app.tools = without(required);
        assert!(!app.can_transcribe(), "{required:?} should be required");
    }
}

fn installs_started(app: &PodBatchApp) -> usize {
    app.todo.iter().filter(|e| matches!(e, Effect::StartInstall { .. })).count()
}

fn brew_whisper() -> tools::Install {
    tools::Install::Run {
        program: "brew".into(),
        args: vec!["install".into(), "whisper-cpp".into()],
        display: "brew install whisper-cpp".into(),
    }
}

/// The user's rule: nothing lands on the machine without being asked about.
#[test]
fn nothing_is_installed_without_being_asked_first() {
    let mut app = test_app();
    app.tools = without(tools::Tool::Whisper);
    app.ask(Dialog::Install { tool: tools::Tool::Whisper, install: brew_whisper() });

    assert!(app.dialog.is_some(), "asking should put a question up");
    assert!(app.installing.is_none(), "nothing may run before the answer");

    // Said no: still nothing.
    let dialog = app.dialog.take().expect("a dialog");
    app.declined(dialog);
    assert!(app.installing.is_none(), "a refusal must not install anything");
    assert_eq!(installs_started(&app), 0);

    // Said yes: that one, and it says so.
    app.agreed(Dialog::Install { tool: tools::Tool::Whisper, install: brew_whisper() }, 0);
    assert_eq!(app.installing, Some(tools::Tool::Whisper));
    assert_eq!(installs_started(&app), 1);
    assert_eq!(app.output.last().unwrap().text, "Running: brew install whisper-cpp");
}

fn site(platform: tools::Platform) -> tools::Site {
    tools::Site { platform, ollama: None, model_path: "/models/m.bin".into() }
}

/// What is agreed to has to be what is shown, so the command goes in the box
/// verbatim rather than being described.
#[test]
fn the_install_question_shows_the_command_that_will_run() {
    let mut app = test_app();
    app.tab = Tab::Transcripts;
    app.ask_install(
        tools::Tool::Whisper,
        Some(tools::Manager::Homebrew),
        &site(tools::Platform::MacOs),
    );

    let painted = frame(&mut app);
    assert!(painted.contains("Install Whisper?"), "{painted}");
    assert!(painted.contains("brew install whisper-cpp"), "{painted}");
    assert!(painted.contains("Copy command"), "{painted}");
}

/// A bootstrap that needs a password is never offered as something we run.
#[test]
fn a_missing_package_manager_offers_a_terminal_rather_than_an_install() {
    let mut app = test_app();
    app.tab = Tab::Transcripts;
    app.ask_install(tools::Tool::PackageManager, None, &site(tools::Platform::MacOs));

    let painted = frame(&mut app);
    assert!(painted.contains("Open Terminal"), "{painted}");
    assert!(
        !painted.contains("Install\n") && painted.contains("Nothing is installed by pressing"),
        "{painted}"
    );
    // And a yes opens one, and runs nothing.
    app.answered(Some(true), 0);
    assert_eq!(installs_started(&app), 0);
    assert!(app.todo.iter().any(|e| matches!(e, Effect::OpenTerminal)));
}

/// The two kinds of speaker numbering are not interchangeable, so the box
/// that starts a run says which one is about to happen.
#[test]
fn the_transcribe_question_says_which_kind_of_numbering_it_will_do() {
    let mut app = test_app();
    app.tab = Tab::Transcripts;
    app.ask(Dialog::Transcribe { files: 3, labelling: true });
    let text = frame(&mut app);
    assert!(text.contains("Transcribe 3 episodes?"), "{text}");
    assert!(text.contains("same person throughout"), "{text}");

    let mut app = test_app();
    app.tab = Tab::Transcripts;
    app.ask(Dialog::Transcribe { files: 1, labelling: false });
    let text = frame(&mut app);
    assert!(text.contains("Transcribe 1 episode?"), "{text}");
    assert!(text.contains("alternate between Speaker 1"), "{text}");
}

/// Starting is guarded the same way the button is: no files, no tools, or a
/// run already going all mean the question is never asked.
#[test]
fn transcribing_cannot_start_from_a_state_the_button_would_refuse() {
    let mut app = test_app();
    app.tools = all_tools_present();
    load_folder(&mut app, &["one.mp3"]);

    // Nothing ticked.
    app.audio.iter_mut().for_each(|a| a.selected = false);
    app.ask_transcribe();
    assert!(app.dialog.is_none(), "nothing ticked should ask nothing");
    assert_eq!(app.transcribe_button(), TranscribeButton::NeedsFiles);

    // Ticked, but the tools are gone.
    app.audio.iter_mut().for_each(|a| a.selected = true);
    app.tools = without(tools::Tool::Whisper);
    app.ask_transcribe();
    assert!(app.dialog.is_none(), "no Whisper should ask nothing");
    assert_eq!(app.transcribe_button(), TranscribeButton::NeedsTools);

    // Ticked, tools present, but already running.
    app.tools = all_tools_present();
    app.transcribing = true;
    app.ask_transcribe();
    assert!(app.dialog.is_none(), "a second run must not be startable");
    assert_eq!(app.transcribe_button(), TranscribeButton::Stop { enabled: true });

    // And nothing in the way: it asks.
    app.transcribing = false;
    assert_eq!(app.transcribe_button(), TranscribeButton::Ready);
    app.ask_transcribe();
    assert!(matches!(app.dialog, Some(Dialog::Transcribe { files: 1, labelling: true })));
    app.installing = Some(tools::Tool::Ollama);
    assert_eq!(app.transcribe_button(), TranscribeButton::Busy);
}

/// The transcript belongs in the file the user asked for, and nowhere else.
#[test]
fn the_transcript_reaches_the_screen_without_reaching_the_logs() {
    let mut app = test_app();

    app.show(OutputKind::Muted, "a line of transcript".into());
    assert_eq!(app.output.len(), 1, "it should be on screen");
    assert!(app.todo.is_empty(), "and nowhere else");

    app.say(OutputKind::Plain, "something that happened".into());
    assert_eq!(app.output.len(), 2);
    assert_eq!(app.todo.len(), 1);
}

/// The box holds a run's worth of lines and no more, however long the
/// episode. A transcript is thousands of lines and must not grow it without
/// bound.
#[test]
fn the_output_box_stays_bounded_while_a_transcript_pours_in() {
    let mut app = test_app();
    for i in 0..OUTPUT_LIMIT + 500 {
        app.show(OutputKind::Muted, format!("line {i}"));
    }
    assert_eq!(app.output.len(), OUTPUT_LIMIT);
    // The newest survive, not the oldest.
    assert_eq!(
        app.output.last().map(|l| l.text.as_str()),
        Some(format!("line {}", OUTPUT_LIMIT + 499).as_str())
    );
    assert_eq!(app.output[0].text, "line 500");
}

/// Ticking acts on whichever list is in front of the user.
#[test]
fn select_all_follows_the_tab_it_is_pressed_on() {
    let mut app = test_app();
    app.feeds = vec![feed(false, vec![])];
    load_folder(&mut app, &["one.mp3"]);
    app.audio.iter_mut().for_each(|a| a.selected = false);

    app.tab = Tab::Transcripts;
    app.perform(Action::SelectAll);
    assert!(app.audio[0].selected, "the episodes should have been ticked");
    assert!(!app.feeds[0].selected, "the podcasts should have been left alone");

    app.tab = Tab::Downloads;
    app.perform(Action::SelectAll);
    assert!(app.feeds[0].selected);
}

/// WCAG's relative luminance, and the contrast between two opaque colours.
fn contrast(a: Rgb, b: Rgb) -> f32 {
    fn channel(value: u8) -> f32 {
        let value = value as f32 / 255.0;
        if value <= 0.03928 {
            value / 12.92
        } else {
            ((value + 0.055) / 1.055).powf(2.4)
        }
    }
    fn luminance(c: Rgb) -> f32 {
        0.2126 * channel(c.0) + 0.7152 * channel(c.1) + 0.0722 * channel(c.2)
    }
    let (a, b) = (luminance(a), luminance(b));
    (a.max(b) + 0.05) / (a.min(b) + 0.05)
}

/// Every colour that carries meaning is legible on every surface it is drawn
/// on, in both themes.
#[test]
fn every_palette_colour_clears_the_contrast_floor() {
    let light = [Rgb(255, 255, 255), Rgb(244, 246, 249), Rgb(236, 239, 243)];
    let dark = [
        Rgb(20, 24, 31),
        Rgb(28, 33, 41),
        Rgb(13, 16, 21),
        Rgb(32, 38, 47),
        Rgb(38, 45, 55),
    ];
    let cases: [(&str, bool, Rgb, &[Rgb]); 2] =
        [("light", false, Rgb(18, 22, 28), &light), ("dark", true, Rgb(240, 244, 249), &dark)];

    for (theme, dark_mode, text, surfaces) in cases {
        let palette = palette(dark_mode);
        let colours = [
            ("ok", palette.ok),
            ("warn", palette.warn),
            ("bad", palette.bad),
            ("muted", palette.muted),
            ("accent", palette.accent),
            ("text", text),
        ];
        for (name, colour) in colours {
            for surface in surfaces {
                let ratio = contrast(colour, *surface);
                assert!(
                    ratio >= 4.5,
                    "{theme} {name} is {ratio:.2}:1 on {surface:?}, under the 4.5:1 floor"
                );
            }
        }
    }
}

// ---- what a run says ------------------------------------------------------

#[test]
fn the_window_opens_saying_where_the_logs_are() {
    let app = PodBatchApp::new("/out".into(), Ok("/home/me/Podbatch/Logging".into()));
    assert_eq!(app.output[0].text, "Logging to /home/me/Podbatch/Logging");
    assert_eq!(app.output[0].kind, OutputKind::Muted);
    assert_eq!(app.headline(), "Ready.");
    assert!(!app.animates());

    let app = PodBatchApp::new("/out".into(), Err("disk full".into()));
    assert_eq!(app.output[0].text, "No log files this time — disk full");
    assert_eq!(app.output[0].kind, OutputKind::Bad);
    assert_eq!(app.out_dir, "/out");
    assert_eq!(app.concurrency, 4);
}

/// Two podcasts, the second of which is ticked, and a run on it.
fn running_app() -> PodBatchApp {
    let mut app = test_app();
    app.play_sounds = true;
    app.feeds = vec![feed(false, vec![]), feed(true, vec![])];
    app.feeds[1].title = "The Show".into();
    app.start();
    app
}

fn info(title: &str, file_name: &str, size_hint: Option<u64>) -> EpisodeInfo {
    EpisodeInfo { title: title.into(), file_name: file_name.into(), size_hint }
}

fn cues(app: &PodBatchApp) -> Vec<Cue> {
    app.todo
        .iter()
        .filter_map(|e| match e {
            Effect::Play(c) => Some(*c),
            _ => None,
        })
        .collect()
}

#[test]
fn a_run_is_followed_from_the_first_feed_to_the_last_cue() {
    let mut app = running_app();
    assert!(app.running);
    assert_eq!(app.running_map, vec![1]);
    assert_eq!(app.headline(), "Reading feeds — 0/1 done");
    assert!(matches!(
        &app.todo[0],
        Effect::Debug(line) if line == "run starting: 1 podcast(s), into /tmp/out, 4 at a time, \
limit none, skip existing true"
    ));
    match &app.todo[1] {
        Effect::StartRun(settings) => {
            assert_eq!(settings.subscriptions.len(), 1);
            assert_eq!(settings.subscriptions[0].title, "The Show");
            assert_eq!(settings.limit, None);
        }
        other => panic!("{other:?}"),
    }

    app.drain(
        &vec![
            Update::FeedFolder { feed: 0, name: "The Show".into() },
            Update::FeedStatus { feed: 0, status: FeedStatus::Fetching },
        ],
        0,
    );
    assert_eq!(app.feeds[1].folder, "The Show");
    assert_eq!(feed_status(&app.feeds[1]).text, "reading…");

    app.drain(
        &vec![
            Update::Episodes {
                feed: 0,
                episodes: vec![
                    info("One", "010126-0000.mp3", Some(6_000_000)),
                    info("Two", "020126-0000.mp3", None),
                    info("Three", "030126-0000.mp3", None),
                ],
            },
            Update::FeedStatus { feed: 0, status: FeedStatus::Downloading },
            Update::Planned(Plan { episodes: 2, bytes: 6_000_000, ..Plan::default() }),
        ],
        1_000_000,
    );
    assert_eq!(app.headline(), "Feeds read — waiting for you");
    assert!(!app.animates(), "nothing moves while the question is up");
    assert_eq!(app.output.last().unwrap().text, "Download 2 episodes?");
    app.answered(Some(true), 2_000_000);
    assert!(app.proceed.as_ref().unwrap().is_go());
    assert_eq!(app.headline(), "0/3 episodes");
    assert!(app.animates());

    app.drain(
        &vec![
            Update::Progress { feed: 0, episode: 0, done: 6_000_000, total: Some(6_000_000) },
            Update::EpisodeStatus { feed: 0, episode: 0, status: EpisodeStatus::Done },
            Update::EpisodeStatus { feed: 0, episode: 1, status: EpisodeStatus::Skipped },
            // Nobody's episode, and nobody's podcast.
            Update::EpisodeStatus { feed: 0, episode: 9, status: EpisodeStatus::Done },
            Update::EpisodeStatus { feed: 5, episode: 0, status: EpisodeStatus::Done },
        ],
        3_000_000,
    );
    assert_eq!(
        app.output[app.output.len() - 2].text,
        "✔ The Show — One → 010126-0000.mp3 (5.7 MB)"
    );
    assert_eq!(
        app.output.last().unwrap().text,
        "= The Show — Two → 020126-0000.mp3 (already downloaded)"
    );
    assert!(matches!(
        app.todo.iter().rev().find(|e| matches!(e, Effect::Record { .. })),
        Some(Effect::Record { outcome: Filed::Skipped, .. })
    ));
    assert_eq!(cues(&app), vec![Cue::Success]);
    assert_eq!(feed_status(&app.feeds[1]).text, "2/3");
    assert_eq!(app.headline(), "2/3 episodes");

    // A failure a moment later is too soon to be heard, but the end never is.
    app.drain(
        &vec![Update::EpisodeStatus {
            feed: 0,
            episode: 2,
            status: EpisodeStatus::Failed("timed out".into()),
        }],
        3_100_000,
    );
    assert_eq!(app.output.last().unwrap().text, "✖ The Show — Three: timed out");
    assert_eq!(cues(&app), vec![Cue::Success]);
    app.drain(
        &vec![
            Update::FeedStatus { feed: 0, status: FeedStatus::Done },
            Update::Finished { cancelled: false },
        ],
        4_000_000,
    );
    assert_eq!(cues(&app), vec![Cue::Success, Cue::Failure]);
    assert_eq!(app.outcome, Some(Outcome::Completed));
    assert!(!app.running && app.cancel.is_none() && app.proceed.is_none());
    assert_eq!(app.headline(), "Finished — 3/3 episodes");
    assert_eq!(app.measured_rate, Some(Rate { bytes: 6_000_000, micros: 2_000_000 }));
    let note = feed_status(&app.feeds[1]);
    assert_eq!((note.text.as_str(), note.tone), ("1 failed", Tone::Bad));
    let notes = total_notes(&app.totals());
    let said: Vec<&str> = notes.iter().map(|n| n.text.as_str()).collect();
    assert_eq!(said, vec!["· 1 downloaded (5.7 MB)", "· 1 already had", "· 1 failed"]);
}

#[test]
fn a_stopped_run_says_so_and_measures_nothing() {
    let mut app = running_app();
    app.downloads_began = Some(0);
    app.ask(Dialog::Stop);
    app.drain(&vec![Update::Finished { cancelled: true }], 90_000_000);
    assert_eq!(app.outcome, Some(Outcome::Stopped));
    assert_eq!(app.headline(), "Stopped at 0/0 episodes");
    assert!(app.measured_rate.is_none());
    assert!(app.dialog.is_none(), "a question about a run that has ended asks nothing");
    assert!(cues(&app).is_empty());
}

#[test]
fn a_run_too_short_or_too_small_measures_nothing() {
    for (bytes, micros, kept) in [
        (4 * 1024 * 1024, 2_000_000, true),
        (4 * 1024 * 1024 - 1, 2_000_000, false),
        (4 * 1024 * 1024, 1_999_999, false),
    ] {
        let mut app = test_app();
        app.feeds = vec![feed(true, vec![episode(EpisodeStatus::Done, bytes)])];
        app.downloads_began = Some(5);
        app.note_rate(false, 5 + micros);
        assert_eq!(app.measured_rate.is_some(), kept);
        assert!(app.downloads_began.is_none());
    }
}

#[test]
fn a_run_with_nothing_ticked_does_not_start() {
    let mut app = test_app();
    app.feeds = vec![feed(false, vec![])];
    assert_eq!(app.download_button(), DownloadButton::NeedsPodcasts);
    app.start();
    assert!(!app.running);
    assert_eq!(app.output.last().unwrap().text, "Tick at least one podcast first.");
    assert_eq!(app.output.last().unwrap().kind, OutputKind::Bad);

    app.feeds[0].selected = true;
    assert_eq!(app.download_button(), DownloadButton::Ready);
    app.limit_enabled = true;
    app.limit = 0;
    app.start();
    assert!(matches!(
        app.todo.last(),
        Some(Effect::StartRun(s)) if s.limit == Some(1)
    ));
    assert_eq!(app.download_button(), DownloadButton::Stop { enabled: true });
    app.perform(Action::Stop);
    assert_eq!(app.download_button(), DownloadButton::Stop { enabled: false });
    app.answered(Some(true), 0);
    assert_eq!(app.download_button(), DownloadButton::Stopping);
}

#[test]
fn a_run_with_nothing_to_fetch_asks_nothing() {
    let mut app = running_app();
    let lines = app.output.len();
    app.drain(&vec![Update::Planned(Plan::default())], 0);
    assert!(app.dialog.is_none());
    assert_eq!(app.output.len(), lines);
    app.drain(&vec![Update::Planned(Plan { skipped: 3, ..Plan::default() })], 0);
    assert!(app.dialog.is_none());
    assert_eq!(
        app.output.last().unwrap().text,
        "Every episode is already downloaded — nothing to fetch."
    );
}

#[test]
fn log_lines_are_plain_and_problems_are_bad() {
    let mut app = running_app();
    app.drain(&vec![Update::Log("read".into()), Update::Problem("broke".into())], 0);
    let n = app.output.len();
    assert_eq!((app.output[n - 2].text.as_str(), app.output[n - 2].kind), ("read", OutputKind::Plain));
    assert_eq!((app.output[n - 1].text.as_str(), app.output[n - 1].kind), ("broke", OutputKind::Bad));
    app.drain(
        &vec![Update::FeedStatus { feed: 7, status: FeedStatus::Failed("gone".into()) }],
        0,
    );
    assert_eq!(cues(&app), vec![Cue::Failure], "a lost podcast is heard even so");
}

#[test]
fn a_measured_speed_beats_a_probed_one() {
    let mut app = test_app();
    let plan = Plan { episodes: 1, bytes: 1, probed_rate: Some(per_second(5)), ..Plan::default() };
    assert_eq!(app.speed(&plan), Some(Speed::Probed(per_second(5))));
    app.measured_rate = Some(per_second(9));
    assert_eq!(app.speed(&plan), Some(Speed::Measured(per_second(9))));
    app.measured_rate = None;
    assert_eq!(app.speed(&Plan::default()), None);
}

#[test]
fn what_is_dropped_is_a_folder_or_a_list() {
    let mut app = test_app();
    assert_eq!(dropped_path(&vec!["".into(), "/a".into(), "/b".into()]).as_deref(), Some("/a"));
    assert_eq!(dropped_path(&vec!["".into()]), None);
    assert_eq!(app.dropped("/media".into(), true), None);
    assert_eq!(app.out_dir, "/media");
    assert_eq!(app.dropped("/x.opml".into(), false).as_deref(), Some("/x.opml"));
    app.running = true;
    assert_eq!(app.dropped("/y.opml".into(), false), None);
    assert_eq!(app.dropped("/other".into(), true), None);
    assert_eq!(app.out_dir, "/media");
}

#[test]
fn the_first_look_at_the_transcripts_tab_looks_the_machine_over() {
    let mut app = test_app();
    app.perform(Action::Show(Tab::Transcripts));
    assert!(matches!(app.todo.last(), Some(Effect::Survey)));
    app.surveyed(without(tools::Tool::Ffmpeg));
    assert!(matches!(
        app.todo.last(),
        Some(Effect::Debug(line)) if line == "transcription tools: 1 missing (FFmpeg)"
    ));
    let wishes = app.todo.len();
    app.perform(Action::Show(Tab::Transcripts));
    assert_eq!(app.todo.len(), wishes);
    app.surveyed(without(tools::Tool::Ollama));
    assert!(matches!(
        app.todo.last(),
        Some(Effect::Debug(line)) if line == "transcription tools: 0 missing"
    ));

    app.perform(Action::ChooseAudioFolder);
    assert!(matches!(app.todo.last(), Some(Effect::PickAudioFolder)));
    app.tab = Tab::Downloads;
    app.open_audio_folder("/home/me/a".into(), Vec::new(), Some("/home/me"), '/');
    assert_eq!(app.tab, Tab::Transcripts);
    assert_eq!(app.output.last().unwrap().text, "No audio files in ~/a");
    app.perform(Action::ChooseOpml);
    assert!(matches!(app.todo.last(), Some(Effect::PickOpml)));
}

fn transcribing_app() -> PodBatchApp {
    let mut app = test_app();
    app.play_sounds = true;
    app.tools = all_tools_present();
    load_folder(&mut app, &["one.mp3", "two.mp3"]);
    app.start_transcribing();
    app
}

#[test]
fn a_transcription_run_is_followed_to_its_end() {
    let mut app = transcribing_app();
    assert!(app.transcribing);
    assert_eq!(
        app.output.last().unwrap().text,
        "Transcribing 2 files, following speakers through each episode"
    );
    match app.todo.last() {
        Some(Effect::StartTranscribing(order)) => {
            assert_eq!(order.files, vec!["/audio/one.mp3", "/audio/two.mp3"]);
            assert!(order.label_speakers && order.skip_existing);
            assert_eq!(order.format, Format::Docx);
            assert_eq!(order.whisper, "/usr/bin/thing");
        }
        other => panic!("{other:?}"),
    }

    let cue = app.hear_transcribe(&transcribe::Update::Status {
        file: 0,
        status: Status::Working(Stage::Converting),
    });
    assert_eq!(cue, None);
    assert!(matches!(
        audio_status(&app.audio[0]),
        AudioNote::Words(n) if n.text == "converting…" && n.tone == Tone::Accent
    ));
    app.drain_transcribe(
        &vec![
            transcribe::Update::Status { file: 0, status: Status::Working(Stage::Transcribing) },
            transcribe::Update::Progress { file: 0, heard_ms: 30_000, total_ms: 60_000 },
            transcribe::Update::Line { text: "Hello.".into() },
        ],
        0,
    );
    assert!(matches!(
        audio_status(&app.audio[0]),
        AudioNote::Heard { heard: 30_000, length: 60_000 }
    ));
    assert_eq!(app.output.last().unwrap().text, "Hello.");
    match app.job_bar() {
        Some(JobBar::Transcribing { settled, total, working, parts }) => {
            assert_eq!((settled, total), (0, 2));
            assert_eq!(working.as_deref(), Some("one.mp3 — transcribing…"));
            assert_eq!(parts, vec![(30_000, 60_000)]);
        }
        other => panic!("{other:?}"),
    }

    app.drain_transcribe(
        &vec![
            transcribe::Update::Status { file: 0, status: Status::Done },
            transcribe::Update::Status { file: 1, status: Status::Failed("no audio".into()) },
            transcribe::Update::Log("saved".into()),
            transcribe::Update::Problem("lost".into()),
        ],
        0,
    );
    assert_eq!(cues(&app), vec![Cue::Failure]);
    assert!(app.audio[0].transcribed);
    assert_eq!((app.audio[0].heard, app.audio[0].length), (1, 1));
    app.drain_transcribe(&vec![transcribe::Update::Finished { cancelled: false }], 1);
    assert_eq!(app.output.last().unwrap().text, "Finished — 1 file transcribed");
    assert_eq!(app.output.last().unwrap().kind, OutputKind::Good);
    assert_eq!(cues(&app), vec![Cue::Failure, Cue::Success]);
    assert!(!app.transcribing && app.transcribe_cancel.is_none());
    assert!(app.job_bar().is_none());
}

/// The run is only told about the ticked episodes, so its file numbers are not
/// the window's.
#[test]
fn transcripts_are_reported_against_their_own_row() {
    let mut app = test_app();
    app.tools = all_tools_present();
    load_folder(&mut app, &["a.mp3", "b.mp3"]);
    app.audio[0].selected = false;
    app.start_transcribing();
    app.drain_transcribe(
        &vec![transcribe::Update::Status { file: 0, status: Status::Done }],
        0,
    );
    assert_eq!(app.audio[0].status, Status::Pending);
    assert!(!app.audio[0].transcribed);
    assert_eq!(app.audio[1].status, Status::Done);
    assert!(app.audio[1].transcribed);
    assert_eq!((app.audio[1].heard, app.audio[1].length), (1, 1));
    assert_eq!(app.track_index(1), None);
}

/// The folder can be read again while a run goes on — changing the format does
/// it — and what the run says next still reaches the right rows.
#[test]
fn a_folder_read_again_keeps_the_run_in_step() {
    let mut app = test_app();
    app.tools = all_tools_present();
    load_folder(&mut app, &["b.mp3", "c.mp3", "d.mp3"]);
    app.audio[1].selected = false;
    app.start_transcribing();
    assert_eq!((app.track_index(0), app.track_index(1), app.track_index(2)), (Some(0), Some(2), None));

    load_folder(&mut app, &["a.mp3", "b.mp3", "d.mp3"]);
    assert_eq!((app.track_index(0), app.track_index(1)), (Some(1), Some(2)));
    app.drain_transcribe(
        &vec![
            transcribe::Update::Status { file: 0, status: Status::Done },
            transcribe::Update::Progress { file: 1, heard_ms: 3, total_ms: 9 },
        ],
        0,
    );
    assert_eq!(app.audio[0].status, Status::Pending);
    assert_eq!(app.audio[1].status, Status::Done);
    assert_eq!((app.audio[2].heard, app.audio[2].length), (3, 9));

    // A file that is gone from the list has no row to mark, and gets it back if
    // it turns up again.
    load_folder(&mut app, &["d.mp3"]);
    assert_eq!((app.track_index(0), app.track_index(1)), (None, Some(0)));
    load_folder(&mut app, &["b.mp3", "d.mp3"]);
    assert_eq!((app.track_index(0), app.track_index(1)), (Some(0), Some(1)));
}

#[test]
fn stopping_a_transcription_is_asked_and_said() {
    let mut app = transcribing_app();
    app.ask(Dialog::StopTranscribing);
    app.answered(Some(false), 0);
    assert!(!app.transcribe_cancel.as_ref().unwrap().is_cancelled());
    app.ask(Dialog::StopTranscribing);
    app.answered(Some(true), 0);
    assert!(app.transcribe_cancel.as_ref().unwrap().is_cancelled());
    assert_eq!(app.output.last().unwrap().text, "Stopping — finishing the episode in hand…");
    app.drain_transcribe(&vec![transcribe::Update::Finished { cancelled: true }], 1);
    assert_eq!(app.output.last().unwrap().text, "Stopped — 0 files transcribed");
    assert_eq!(app.output.last().unwrap().kind, OutputKind::Muted);
}

#[test]
fn transcribing_without_a_tool_says_so() {
    let mut app = test_app();
    app.tools = without(tools::Tool::WhisperModel);
    load_folder(&mut app, &["one.mp3"]);
    app.start_transcribing();
    assert!(!app.transcribing);
    assert_eq!(
        app.output.last().unwrap().text,
        "Something needed for transcribing has gone missing — press Check again."
    );
    app.tools = without(tools::Tool::OllamaModel);
    app.start_transcribing();
    assert_eq!(
        app.output.last().unwrap().text,
        "Transcribing 1 file, alternating between two speakers"
    );
}

#[test]
fn an_install_is_followed_to_its_end() {
    let mut app = test_app();
    app.play_sounds = true;
    app.start_install(
        tools::Tool::WhisperModel,
        tools::Install::Download { url: "https://x.test/m".into(), to: "/m".into(), bytes: 2048 },
    );
    assert_eq!(app.output.last().unwrap().text, "Downloading Whisper speech model (2.0 KB)");
    match app.job_bar() {
        Some(JobBar::Installing { headline, detail, done }) => {
            assert_eq!(headline, "Installing Whisper speech model");
            assert_eq!(detail, "working…");
            assert_eq!(done, None);
        }
        other => panic!("{other:?}"),
    }
    app.drain_install(&vec![InstallUpdate::Progress { done: 1024, total: Some(2048) }], 0);
    match app.job_bar() {
        Some(JobBar::Installing { detail, done, .. }) => {
            assert_eq!(detail, "1.0 KB of 2.0 KB");
            assert_eq!(done, Some((1024, 2048)));
        }
        other => panic!("{other:?}"),
    }
    let lines = app.output.len();
    app.drain_install(
        &vec![
            InstallUpdate::Line("fetching".into()),
            InstallUpdate::Line("==> Pouring it".into()),
            InstallUpdate::Line("Error: no".into()),
        ],
        0,
    );
    assert_eq!(app.output.len(), lines + 2, "the chatter stays in the debug log");
    assert_eq!(app.output[lines].kind, OutputKind::Muted);
    assert_eq!(app.output[lines + 1].kind, OutputKind::Bad);
    app.drain_install(&vec![InstallUpdate::Finished(Err("no space".into()))], 0);
    assert_eq!(app.output.last().unwrap().text, "Whisper speech model — no space");
    assert!(app.installing.is_none() && app.transcribe_cancel.is_none());
    assert!(app.todo.iter().any(|e| matches!(e, Effect::Survey)));
    assert!(!app.todo.iter().any(|e| matches!(e, Effect::StartOllama)));

    app.installing = Some(tools::Tool::Ollama);
    app.drain_install(&vec![InstallUpdate::Finished(Ok(()))], 0);
    assert_eq!(app.output.last().unwrap().text, "Ollama is installed.");
    assert!(app.todo.iter().any(|e| matches!(e, Effect::StartOllama)));
    app.drain_install(&vec![InstallUpdate::Finished(Ok(()))], 0);
    assert_eq!(app.output.last().unwrap().text, "It is installed.");
}

#[test]
fn rows_say_how_they_stand() {
    let row = |status, transcribed| AudioRow {
        path: "/a".into(),
        name: "a".into(),
        selected: true,
        status,
        heard: 0,
        length: 0,
        transcribed,
    };
    for (status, transcribed, text, tone) in [
        (Status::Pending, false, "", Tone::Muted),
        (Status::Pending, true, "transcribed", Tone::Muted),
        (Status::Working(Stage::Labelling), false, "naming speakers…", Tone::Accent),
        (Status::Done, true, "done", Tone::Good),
        (Status::Skipped, true, "skipped", Tone::Muted),
        (Status::Failed("why".into()), false, "why", Tone::Bad),
    ] {
        match audio_status(&row(status, transcribed)) {
            AudioNote::Words(note) => assert_eq!((note.text.as_str(), note.tone), (text, tone)),
            other => panic!("{other:?}"),
        }
    }
    let mut f = feed(true, vec![episode(EpisodeStatus::Done, 1), episode(EpisodeStatus::Done, 1)]);
    assert_eq!(feed_status(&f).text, "2 episodes");
    assert_eq!(feed_status(&f).tone, Tone::Good);
    f.status = FeedStatus::Pending;
    assert_eq!(feed_status(&f).text, "");
    f.status = FeedStatus::Failed("gone".into());
    assert_eq!(feed_status(&f).text, "gone");
    assert_eq!(selection_text(1, 3), "1 of 3 selected");
}
