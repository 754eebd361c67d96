//! A run of the download engine, played out against a made-up server and disk.

use std::collections::BTreeMap;
use std::collections::BTreeSet;

use id3::TagLike;
use podbatch::engine::abandon;
use podbatch::engine::already_downloaded;
use podbatch::engine::begin_run;
use podbatch::engine::closing_status;
use podbatch::engine::folder_names;
use podbatch::engine::may_go;
use podbatch::engine::open_feed;
use podbatch::engine::opening_updates;
use podbatch::engine::part_path;
use podbatch::engine::probe_header;
use podbatch::engine::probe_target;
use podbatch::engine::probed_enough;
use podbatch::engine::range_header;
use podbatch::engine::read_feed;
use podbatch::engine::sample_rate;
use podbatch::engine::settle_feed;
use podbatch::engine::short_err;
use podbatch::engine::summarise;
use podbatch::engine::tag_updates;
use podbatch::engine::transfers_at_once;
use podbatch::engine::unique_name;
use podbatch::engine::Cancel;
use podbatch::engine::EpisodeAction;
use podbatch::engine::EpisodeEvent;
use podbatch::engine::EpisodeFetch;
use podbatch::engine::EpisodeStatus;
use podbatch::engine::FeedFetch;
use podbatch::engine::FeedRead;
use podbatch::engine::FeedStatus;
use podbatch::engine::FetchAction;
use podbatch::engine::FetchEvent;
use podbatch::engine::OnDisk;
use podbatch::engine::Piece;
use podbatch::engine::Plan;
use podbatch::engine::Proceed;
use podbatch::engine::Run;
use podbatch::engine::RunStep;
use podbatch::engine::Settings;
use podbatch::engine::Skips;
use podbatch::engine::Sweep;
use podbatch::engine::Tagging;
use podbatch::engine::Transfer;
use podbatch::engine::Update;
use podbatch::opml::parse_str;
use podbatch::opml::Subscription;
use podbatch::tags::describe;
use podbatch::tags::takes_tags;
use podbatch::tags::Details;
use podbatch::tools::join_path;
use podbatch::util::Rate;

const BASE: &str = "http://host.test";

/// The bytes every test episode is made of. Deterministic so a resumed
/// download can be checked byte for byte against what it should have been.
fn media() -> Vec<u8> {
    let mut bytes = vec![0xFF, 0xFB, 0x90, 0x00];
    bytes.extend((0..100_000u32).map(|i| (i % 251) as u8));
    bytes
}

/// What is on disk.
#[derive(Default)]
struct Disk {
    files: BTreeMap<String, Vec<u8>>,
    folders: BTreeSet<String>,
}

/// When a run is stopped.
#[derive(Clone, Copy, PartialEq)]
enum Stopped {
    Never,
    WhileReading,
    AtTheQuestion,
    PartWay,
}

fn feed_xml(path: &str) -> Option<String> {
    let one = |url: &str| {
        format!(
            r#"<?xml version="1.0"?>
<rss version="2.0"><channel><title>Ignored</title>
  <item>
    <title>Episode One</title>
    <pubDate>Tue, 05 Aug 2025 10:00:00 GMT</pubDate>
    <enclosure url="{BASE}{url}" length="100000" type="audio/mpeg"/>
  </item>
</channel></rss>"#
        )
    };
    match path {
        "/feed.xml" | "/slow.xml" => Some(format!(
            r#"<?xml version="1.0"?>
<rss version="2.0"><channel><title>Ignored</title>
  <item>
    <title>Episode One</title>
    <pubDate>Tue, 05 Aug 2025 10:00:00 GMT</pubDate>
    <enclosure url="{BASE}/one.mp3" length="100000" type="audio/mpeg"/>
  </item>
  <item>
    <title>Episode: Two?</title>
    <enclosure url="{BASE}/two" type="audio/mpeg"/>
  </item>
  <item>
    <title>Gone</title>
    <enclosure url="{BASE}/missing.mp3" type="audio/mpeg"/>
  </item>
</channel></rss>"#
        )),
        "/probe.xml" => Some(one("/one.mp3")),
        "/resume.xml" => Some(one("/resume.mp3")),
        "/dribble.xml" => Some(one("/two")),
        _ => None,
    }
}

/// What the server answers: whether it is only the rest, and the bytes; or what
/// it said instead.
fn serve(url: &str, range: Option<&str>) -> Result<(bool, Vec<u8>), String> {
    let path = url.strip_prefix(BASE).unwrap_or(url);
    let from: Option<usize> = range
        .and_then(|r| r.strip_prefix("bytes="))
        .and_then(|r| r.trim_end_matches('-').parse().ok());
    let body = media();
    match (path, from) {
        ("/one.mp3" | "/two" | "/resume.mp3", Some(from)) if from < body.len() => {
            Ok((true, body[from..].to_vec()))
        }
        ("/one.mp3" | "/two", _) => Ok((false, body)),
        // Only a range request gets the real bytes.
        ("/resume.mp3", _) => Ok((false, vec![0; body.len()])),
        _ => Err(short_err(false, false, Some("404 Not Found"), false)),
    }
}

/// Fetches a feed the way the engine does, as often as it says to.
fn fetch_feed(url: &str, cancelled: bool) -> Result<String, String> {
    let mut fetch = FeedFetch::new();
    let mut event = FetchEvent::Begin;
    loop {
        match fetch.step(event, false) {
            FetchAction::Ask => {
                let path = url.strip_prefix(BASE).unwrap_or(url);
                event = FetchEvent::Answered(if cancelled {
                    Err("cancelled".into())
                } else {
                    feed_xml(path).ok_or_else(|| "server said 404 Not Found".to_string())
                });
            }
            FetchAction::Sleep { ms } => {
                assert!(ms == 400 || ms == 800);
                event = FetchEvent::Slept;
            }
            FetchAction::Settle(result) => return result,
        }
    }
}

/// Moves one episode, as often as the engine says to.
fn fetch_episode(
    disk: &mut Disk,
    feed: usize,
    fetch: &podbatch::engine::Fetch,
    part_way: bool,
    said: &mut Vec<Update>,
) -> EpisodeStatus {
    let file = fetch.path.rsplit('/').next().unwrap_or("").to_string();
    let part = part_path(&fetch.path);
    let mut attempt = EpisodeFetch::new(feed, fetch.index, file);
    let mut event = EpisodeEvent::Begin;
    loop {
        let (action, updates) = attempt.step(event, false);
        said.extend(updates);
        match action {
            EpisodeAction::Sleep { ms } => {
                assert!(ms == 600 || ms == 1200);
                event = EpisodeEvent::Slept;
            }
            EpisodeAction::Settle(status) => return status,
            EpisodeAction::Transfer => {
                let existing = disk.files.get(&part).map_or(0, |b| b.len() as u64);
                let range = range_header(existing);
                event = EpisodeEvent::Moved(match serve(&fetch.episode.url, range.as_deref()) {
                    Err(why) => Err(why),
                    Ok((partial, body)) => {
                        let mut transfer = Transfer::begin(
                            existing,
                            partial,
                            Some(body.len() as u64),
                            fetch.episode.length,
                        );
                        let out = disk.files.entry(part.clone()).or_default();
                        if !transfer.resuming {
                            out.clear();
                        }
                        let mut stopped = false;
                        for (i, piece) in body.chunks(10_000).enumerate() {
                            let cancelled = part_way && i == 3;
                            match transfer.piece(piece.len() as u64, 50 * i as u64, cancelled) {
                                Piece::Discard => {
                                    stopped = true;
                                    break;
                                }
                                Piece::Write { report } => {
                                    out.extend(piece);
                                    if report {
                                        said.push(transfer.progress(feed, fetch.index));
                                    }
                                }
                            }
                        }
                        if stopped {
                            Ok(EpisodeStatus::Cancelled)
                        } else {
                            let bytes = disk.files.remove(&part).unwrap();
                            disk.files.insert(fetch.path.clone(), bytes);
                            said.push(transfer.arrived(feed, fetch.index));
                            Ok(EpisodeStatus::Done)
                        }
                    }
                });
            }
        }
    }
}

/// Plays a run out and hands back everything it said.
fn run_with(
    disk: &mut Disk,
    settings: &Settings,
    stopped: Stopped,
    go: bool,
    skips: &Skips,
) -> Vec<Update> {
    let (step, names, mut said) = begin_run(settings);
    if step == RunStep::Over {
        return said;
    }
    assert_eq!(step, RunStep::ReadFeeds);

    let cancelled = stopped == Stopped::WhileReading;
    let mut reads = Vec::new();
    for (feed, sub) in settings.subscriptions.iter().enumerate() {
        let (open, updates) = open_feed(feed, false);
        assert!(open);
        said.extend(updates);
        let fetched = fetch_feed(&sub.url, cancelled);
        let (listed, updates) =
            read_feed(feed, &sub.title, fetched, cancelled, settings.limit);
        said.extend(updates);
        if listed.is_empty() {
            reads.push(FeedRead::nothing());
            continue;
        }
        let dir = join_path(&settings.out_dir, &names[feed]);
        let sizes = listed
            .iter()
            .map(|l| disk.files.get(&join_path(&dir, &l.file_name)).map(|b| b.len() as u64))
            .collect();
        let (read, updates) =
            settle_feed(feed, sub, &dir, &listed, &sizes, settings.skip_existing);
        said.extend(updates);
        reads.push(read);
    }

    let (mut run, mut step, updates) = Run::feeds_read(reads, cancelled);
    said.extend(updates);
    loop {
        let (next, updates) = match step {
            RunStep::Probe => {
                let target = probe_target(&run.reads).expect("something to time");
                let (_, body) = match serve(&target.url, None) {
                    Ok(answer) => answer,
                    Err(_) => (false, Vec::new()),
                };
                run.probed(sample_rate(body.len() as u64, 40_000))
            }
            RunStep::Hold => {
                let mut proceed = Proceed::new();
                let mut cancel = Cancel::new();
                assert_eq!(may_go(&proceed, &cancel), None, "still waiting");
                if go {
                    proceed.go();
                }
                if stopped == Stopped::AtTheQuestion {
                    cancel.cancel();
                }
                let answer = may_go(&proceed, &cancel).expect("an answer");
                run.answered(answer, skips)
            }
            RunStep::MakeFolder => {
                disk.folders.insert(settings.out_dir.clone());
                run.folder_made(&settings.out_dir, Ok(()))
            }
            RunStep::Download => {
                let part_way = stopped == Stopped::PartWay;
                let reads = run.reads.clone();
                for plan in reads.iter().filter_map(|r| r.plan.as_ref()) {
                    let dir = plan.episodes[0].path.rsplit_once('/').unwrap().0.to_string();
                    disk.folders.insert(dir.clone());
                    said.extend(opening_updates(plan.index, &dir, Ok(())));
                    let mut mentioned = false;
                    for fetch in &plan.episodes {
                        let status = fetch_episode(disk, plan.index, fetch, part_way, &mut said);
                        if status == EpisodeStatus::Done {
                            let bytes = disk.files.get_mut(&fetch.path).unwrap();
                            let tagging = if takes_tags(bytes) {
                                let mut tag = id3::Tag::new();
                                describe(
                                    &mut tag,
                                    &Details {
                                        show: plan.title.clone(),
                                        title: fetch.episode.title.clone(),
                                        published: fetch.episode.published,
                                        description: fetch.episode.description.clone(),
                                        feed_url: plan.feed_url.clone(),
                                    },
                                );
                                let mut tagged = Vec::new();
                                tag.write_to(&mut tagged, id3::Version::Id3v24).unwrap();
                                tagged.extend(&*bytes);
                                *bytes = tagged;
                                Tagging::Written
                            } else {
                                Tagging::Unsupported
                            };
                            said.extend(tag_updates(
                                &fetch.path,
                                &plan.title,
                                tagging,
                                &mut mentioned,
                            ));
                        }
                        said.push(Update::EpisodeStatus {
                            feed: plan.index,
                            episode: fetch.index,
                            status,
                        });
                    }
                    said.push(closing_status(plan.index, part_way));
                }
                run.downloaded(part_way)
            }
            RunStep::Sweep => {
                let mut sweep = Sweep::new();
                for path in &run.leftovers {
                    if let Some(bytes) = disk.files.remove(path) {
                        sweep.swept(bytes.len() as u64);
                    }
                }
                run.swept(&sweep)
            }
            other => panic!("{other:?}"),
        };
        said.extend(updates);
        if next == RunStep::Over {
            return said;
        }
        step = next;
    }
}

fn run(disk: &mut Disk, settings: &Settings) -> Vec<Update> {
    run_with(disk, settings, Stopped::Never, true, &Skips::new())
}

/// Built by parsing a real OPML document, so the two halves the window joins up
/// are still tested against each other.
fn settings_for(path: &str, skip_existing: bool) -> Settings {
    let opml = format!(
        r#"<opml version="1.0"><body>
                    <outline type="rss" text="My Show" xmlUrl="{BASE}{path}"/>
                   </body></opml>"#
    );
    Settings {
        subscriptions: parse_str(&opml).expect("parse opml"),
        out_dir: "/out".into(),
        concurrency: 2,
        limit: None,
        skip_existing,
    }
}

/// The plan the run stopped to ask about.
fn plan_of(updates: &[Update]) -> Plan {
    updates
        .iter()
        .find_map(|u| match u {
            Update::Planned(plan) => Some(*plan),
            _ => None,
        })
        .expect("every run that reads its feeds reports a plan")
}

/// The statuses each episode ended on, keyed by file name.
fn outcomes(updates: &[Update]) -> Vec<(String, EpisodeStatus)> {
    let mut names: Vec<String> = Vec::new();
    for update in updates {
        if let Update::Episodes { episodes, .. } = update {
            names = episodes.iter().map(|e| e.file_name.clone()).collect();
        }
    }

    let mut out: Vec<(String, EpisodeStatus)> = Vec::new();
    for update in updates {
        if let Update::EpisodeStatus { episode, status, .. } = update {
            // Only the terminal status matters; Downloading is transient.
            if matches!(status, EpisodeStatus::Downloading) {
                continue;
            }
            let name = names.get(*episode).cloned().unwrap_or_default();
            out.retain(|(n, _)| n != &name);
            out.push((name, status.clone()));
        }
    }
    out.sort_by(|a, b| a.0.cmp(&b.0));
    out
}

/// The media, as it is once the episode has been tagged: the tag goes on
/// the front, and every byte that was downloaded is still behind it.
fn assert_is_the_episode(disk: &Disk, path: &str) {
    let bytes = disk.files.get(path).unwrap_or_else(|| panic!("{path} is not there"));
    assert!(bytes.ends_with(&media()), "{path} is not the episode that was downloaded");
}

fn leftover_parts(disk: &Disk) -> Vec<&String> {
    disk.files.keys().filter(|p| p.ends_with(".part")).collect()
}

#[test]
fn downloads_every_episode_into_a_folder_per_podcast() {
    let mut disk = Disk::default();
    let settings = settings_for("/feed.xml", true);
    let updates = run(&mut disk, &settings);

    // The name is the minute the episode was published. The second has no
    // pubDate to make one from so it falls back to its title, and its
    // extension comes from the MIME type because the URL has none.
    let first = "/out/My Show/050825-1000.mp3";
    assert_is_the_episode(&disk, first);
    assert_is_the_episode(&disk, "/out/My Show/Episode Two.mp3");

    // The 404 leaves no file behind, not a zero-byte one.
    assert!(!disk.files.contains_key("/out/My Show/Gone.mp3"));
    assert_eq!(
        outcomes(&updates),
        vec![
            ("050825-1000.mp3".to_string(), EpisodeStatus::Done),
            ("Episode Two.mp3".to_string(), EpisodeStatus::Done),
            (
                "Gone.mp3".to_string(),
                EpisodeStatus::Failed("server said 404 Not Found".into())
            ),
        ]
    );

    // The name says only when; everything else about the episode has to be
    // in the file, or the run has thrown it away.
    let tag = id3::Tag::read_from2(std::io::Cursor::new(&disk.files[first])).expect("tags");
    assert_eq!(tag.title(), Some("Episode One"));
    assert_eq!(tag.album(), Some("My Show"));
    assert_eq!(tag.year(), Some(2025));

    // No half-finished files are left lying around.
    let leftovers = leftover_parts(&disk);
    assert!(leftovers.is_empty(), "left behind {leftovers:?}");

    // Second run over the same folder downloads nothing again.
    let again = outcomes(&run(&mut disk, &settings));
    assert_eq!(again[0].1, EpisodeStatus::Skipped);
    assert_eq!(again[1].1, EpisodeStatus::Skipped);
}

fn run_without(disk: &mut Disk, settings: &Settings, unticked: &[(usize, usize)]) -> Vec<Update> {
    let mut skips = Skips::new();
    skips.set(unticked.to_vec());
    run_with(disk, settings, Stopped::Never, true, &skips)
}

/// An episode the user un-ticked is not fetched, and the ones either side of
/// it still are. The whole point of picking through the list is that it is
/// per episode and not per podcast.
#[test]
fn an_unticked_episode_is_left_alone_and_the_rest_still_run() {
    let mut disk = Disk::default();
    let settings = settings_for("/feed.xml", true);
    let updates = run_without(&mut disk, &settings, &[(0, 1)]);

    assert_is_the_episode(&disk, "/out/My Show/050825-1000.mp3");
    assert!(
        !disk.files.contains_key("/out/My Show/Episode Two.mp3"),
        "an un-ticked episode was downloaded anyway"
    );
    assert_eq!(
        outcomes(&updates),
        vec![
            ("050825-1000.mp3".to_string(), EpisodeStatus::Done),
            ("Episode Two.mp3".to_string(), EpisodeStatus::Unticked),
            (
                "Gone.mp3".to_string(),
                EpisodeStatus::Failed("server said 404 Not Found".into())
            ),
        ]
    );
}

/// Un-ticking everything a podcast had is not the same as a run that fetched
/// it: nothing is downloaded, and — because the folders are made by the pass
/// that fetches — no empty folder is left sitting there either.
#[test]
fn unticking_every_episode_leaves_no_folder_behind() {
    let mut disk = Disk::default();
    let settings = settings_for("/feed.xml", true);
    let updates = run_without(&mut disk, &settings, &[(0, 0), (0, 1), (0, 2)]);

    assert!(!disk.folders.contains("/out/My Show"), "an empty folder was left behind");
    assert!(
        outcomes(&updates).iter().all(|(_, status)| *status == EpisodeStatus::Unticked),
        "{:?}",
        outcomes(&updates)
    );
    assert!(matches!(updates.last(), Some(Update::Finished { cancelled: false })));
}

/// The episode comes from a server that gives the real bytes only to a range
/// request. So the file being right at the end is the assertion that the range
/// request was made and honoured.
#[test]
fn resumes_a_part_file_instead_of_starting_over() {
    let mut disk = Disk::default();
    let part = "/out/My Show/050825-1000.mp3.part";
    // Half an episode, as an interrupted run would have left it.
    disk.files.insert(part.into(), media()[..40_000].to_vec());

    run(&mut disk, &settings_for("/resume.xml", true));

    // The resumed half plus the fetched half is the whole file, in order.
    assert_is_the_episode(&disk, "/out/My Show/050825-1000.mp3");
    assert!(!disk.files.contains_key(part), "the .part file should have been renamed away");
}

/// Stopping a run takes the half-finished file with it.
#[test]
fn stopping_a_run_sweeps_up_the_file_it_was_part_way_through() {
    let mut disk = Disk::default();
    let settings = settings_for("/dribble.xml", true);
    let updates = run_with(&mut disk, &settings, Stopped::PartWay, true, &Skips::new());

    assert!(matches!(updates.last(), Some(Update::Finished { cancelled: true })));
    assert!(!disk.files.contains_key("/out/My Show/050825-1000.mp3"));
    // And it says so, which is also how the test knows there was a real
    // half-written file to sweep rather than nothing to do.
    let said: Vec<&String> = updates
        .iter()
        .filter_map(|u| match u {
            Update::Log(line) if line.contains("Cleared away") => Some(line),
            _ => None,
        })
        .collect();
    assert_eq!(said.len(), 1, "expected one line about the sweep, got {said:?}");
    assert!(said[0].starts_with("Cleared away 1 unfinished file ("), "{said:?}");
    assert!(leftover_parts(&disk).is_empty(), "stopping left the half-finished file behind");
}

/// And a fragment left by some earlier interrupted run goes the same way,
/// even when this run never downloads a byte itself.
#[test]
fn a_run_turned_down_at_the_question_sweeps_up_what_was_already_there() {
    let mut disk = Disk::default();
    let part = "/out/My Show/050825-1000.mp3.part";
    disk.files.insert(part.into(), media()[..40_000].to_vec());

    let settings = settings_for("/feed.xml", true);
    let updates =
        run_with(&mut disk, &settings, Stopped::AtTheQuestion, false, &Skips::new());

    assert!(matches!(updates.last(), Some(Update::Finished { cancelled: true })));
    assert!(!disk.files.contains_key(part), "the fragment outlived the run that was stopped");
}

/// A run that ends on its own is not a run anybody stopped, and it must not
/// go through the folder deleting things.
#[test]
fn a_run_that_finishes_leaves_a_fragment_alone_to_be_resumed() {
    let mut disk = Disk::default();
    let part = "/out/My Show/050825-1000.mp3.part";
    disk.files.insert(part.into(), media()[..40_000].to_vec());
    // One that belongs to an episode that fails stays for the next run.
    let failed = "/out/My Show/Gone.mp3.part";
    disk.files.insert(failed.into(), vec![1, 2, 3]);

    run(&mut disk, &settings_for("/resume.xml", true));
    assert_is_the_episode(&disk, "/out/My Show/050825-1000.mp3");
    assert!(!disk.files.contains_key(part));

    run(&mut disk, &settings_for("/feed.xml", true));
    assert!(disk.files.contains_key(failed));
}

/// A sweep takes the fragments of the job and nothing else.
#[test]
fn a_sweep_leaves_landed_episodes_alone() {
    let mut disk = Disk::default();
    disk.files.insert("/out/My Show/Episode Two.mp3".into(), media());
    disk.files.insert("/out/My Show/050825-1000.mp3.part".into(), vec![1]);
    disk.files.insert("/out/Another/050825-1000.mp3.part".into(), vec![2]);
    let settings = settings_for("/feed.xml", true);
    run_with(&mut disk, &settings, Stopped::AtTheQuestion, false, &Skips::new());
    let left: Vec<&String> = disk.files.keys().collect();
    assert_eq!(left, vec!["/out/Another/050825-1000.mp3.part", "/out/My Show/Episode Two.mp3"]);
}

#[test]
fn a_part_file_keeps_the_extension_it_will_end_up_with() {
    assert_eq!(part_path("/tmp/show/050825-1000.mp3"), "/tmp/show/050825-1000.mp3.part");
    // A file with no extension still gets one, and picks up nothing else.
    assert_eq!(part_path("/tmp/show/episode"), "/tmp/show/episode.part");
}

#[test]
fn re_downloads_when_the_file_on_disk_is_the_wrong_size() {
    let mut disk = Disk::default();
    // Truncated by an interrupted copy, but the feed declares 100000 bytes.
    let episode = "/out/My Show/050825-1000.mp3";
    disk.files.insert(episode.into(), b"truncated".to_vec());

    let updates = run(&mut disk, &settings_for("/feed.xml", true));

    assert_is_the_episode(&disk, episode);
    assert_eq!(outcomes(&updates)[0].1, EpisodeStatus::Done);
}

/// Stopping a run is something the user asked for, not something that went
/// wrong. A feed abandoned mid-fetch must not be reported as failed.
#[test]
fn stopping_a_run_does_not_report_the_unread_feeds_as_failures() {
    let mut disk = Disk::default();
    let mut settings = settings_for("/feed.xml", true);
    settings.subscriptions =
        vec![Subscription { title: "Slow Show".into(), url: format!("{BASE}/slow.xml") }];

    let updates =
        run_with(&mut disk, &settings, Stopped::WhileReading, true, &Skips::new());

    let failures: Vec<&FeedStatus> = updates
        .iter()
        .filter_map(|u| match u {
            Update::FeedStatus { status, .. } if matches!(status, FeedStatus::Failed(_)) => {
                Some(status)
            }
            _ => None,
        })
        .collect();
    assert!(failures.is_empty(), "stopping reported failures: {failures:?}");

    // And it settles back to waiting rather than being left mid-fetch.
    let last = updates
        .iter()
        .filter_map(|u| match u {
            Update::FeedStatus { status, .. } => Some(status),
            _ => None,
        })
        .next_back();
    assert_eq!(last, Some(&FeedStatus::Pending));
    assert!(matches!(updates.last(), Some(Update::Finished { cancelled: true })));
}

/// The whole point of the pause: nothing is fetched until the window says
/// so, and a run that is stopped at the question downloads nothing at all.
#[test]
fn nothing_is_downloaded_until_the_run_is_agreed_to() {
    let mut disk = Disk::default();
    let settings = settings_for("/feed.xml", true);
    let updates =
        run_with(&mut disk, &settings, Stopped::AtTheQuestion, false, &Skips::new());

    assert_eq!(plan_of(&updates).episodes, 3, "three episodes were waiting to be fetched");
    assert!(matches!(updates.last(), Some(Update::Finished { cancelled: true })));
    // Not so much as a folder.
    assert!(disk.folders.is_empty(), "planning left something behind");
    assert!(disk.files.is_empty());
}

/// The speed comes from a slice of a real episode.
#[test]
fn the_line_is_measured_on_an_episode_rather_than_the_feed() {
    let mut disk = Disk::default();
    let plan = plan_of(&run(&mut disk, &settings_for("/probe.xml", true)));
    assert_eq!(plan.episodes, 1);
    let rate = plan.probed_rate.expect("the probe should have timed the episode");
    assert_eq!(rate, Rate { bytes: media().len() as u64, micros: 40_000 });
    assert_eq!(probe_header(), format!("bytes=0-{}", podbatch::engine::PROBE_BYTES - 1));
    assert!(probed_enough(podbatch::engine::PROBE_BYTES, 0));
    assert!(!probed_enough(0, 0));
}

/// What the confirmation box is built from. The size has to be the size of
/// the work left, or the box quotes half an hour for a run that has nothing
/// to do but check thirty files it already has.
#[test]
fn the_plan_counts_only_what_is_left_to_fetch() {
    let mut disk = Disk::default();
    let settings = settings_for("/feed.xml", true);

    let before = plan_of(&run(&mut disk, &settings));
    assert_eq!(before.episodes, 3);
    assert_eq!(before.skipped, 0);
    // One episode declares a length; the other two don't, and the 404 is
    // one of those.
    assert_eq!(before.bytes, 100_000);
    assert_eq!(before.unsized_episodes, 2);

    // Everything that could be fetched now has been.
    let after = plan_of(&run(&mut disk, &settings));
    assert_eq!(after.skipped, 2);
    assert_eq!(after.episodes, 1, "only the 404 is still outstanding");
    assert_eq!(after.bytes, 0);
}

/// Feeds are read in whatever order they answer, and the job is the same.
#[test]
fn the_order_of_feeds_makes_no_difference() {
    let read = |feed: usize, path: &str| {
        let sub = Subscription { title: "Show".into(), url: String::new() };
        let (listed, _) = read_feed(feed, "Show", Ok(feed_xml(path).unwrap()), false, None);
        let sizes = vec![Some(200_000); feed];
        settle_feed(feed, &sub, "/out/Show", &listed, &sizes, true).0
    };
    let reads =
        vec![read(0, "/feed.xml"), read(1, "/feed.xml"), FeedRead::nothing(), read(2, "/probe.xml")];
    let forwards = summarise(&reads);
    let backwards = summarise(&reads.into_iter().rev().collect());
    assert_eq!(forwards, backwards);
    assert_eq!((forwards.episodes, forwards.skipped), (5, 2));
    assert_eq!((forwards.bytes, forwards.unsized_episodes), (100_000, 4));
}

/// A rate is only worth quoting if something was actually measured. A
/// sample too small or too brief is timing the clock, not the line.
#[test]
fn a_rate_needs_a_sample_worth_measuring() {
    assert_eq!(sample_rate(200, 500_000), None);
    assert_eq!(sample_rate(500_000, 0), None);
    assert_eq!(
        sample_rate(1_048_576, 1_000_000),
        Some(Rate { bytes: 1_048_576, micros: 1_000_000 })
    );
}

#[test]
fn unique_name_disambiguates() {
    let mut taken = Vec::new();
    assert_eq!(unique_name("Ep One", "mp3", &mut taken), "Ep One.mp3");
    assert_eq!(unique_name("Ep One", "mp3", &mut taken), "Ep One (2).mp3");
    // Case-insensitive: this collides with both names already handed out,
    // so it lands on (3) rather than reusing (2).
    assert_eq!(unique_name("EP ONE", "mp3", &mut taken), "EP ONE (3).mp3");
    assert_eq!(unique_name("Ep Two", "", &mut taken), "Ep Two");
    assert_eq!(unique_name("Ep Two", "", &mut taken), "Ep Two (2)");
}

#[test]
fn podcasts_of_one_name_get_folders_of_their_own() {
    let sub = |title: &str| Subscription { title: title.into(), url: String::new() };
    let names = folder_names(&vec![sub("News"), sub("news"), sub("A/B"), sub("")]);
    assert_eq!(names, vec!["News", "news (2)", "A B", "untitled"]);
}

#[test]
fn a_limit_keeps_the_newest() {
    let mut disk = Disk::default();
    let settings = Settings { limit: Some(1), ..settings_for("/feed.xml", true) };
    let plan = plan_of(&run(&mut disk, &settings));
    assert_eq!(plan.episodes, 1);
    assert_is_the_episode(&disk, "/out/My Show/050825-1000.mp3");
    assert_eq!(disk.files.len(), 1);
}

#[test]
fn an_answer_is_needed_before_a_run_goes_on() {
    let mut go = Proceed::new();
    let mut stop = Cancel::new();
    assert_eq!(may_go(&go, &stop), None);
    go.go();
    assert_eq!(may_go(&go, &stop), Some(true));
    stop.cancel();
    assert_eq!(may_go(&go, &stop), Some(false));
    assert!(Cancel::default().is_cancelled() == false && !Proceed::default().is_go());
    let mut skips = Skips::new();
    assert!(!skips.holds(0, 1));
    skips.set(vec![(0, 1)]);
    assert!(skips.holds(0, 1) && !skips.holds(1, 0));
}

/// Stopping one holder's handle stops the ones that follow it and no other, and
/// nothing takes it back.
#[test]
fn handles_pass_on_what_they_say() {
    let (mut window, mut run, mut other) = (Cancel::new(), Cancel::new(), Cancel::new());
    run.follow(&window);
    assert!(!run.is_cancelled());
    window.cancel();
    run.follow(&window);
    other.follow(&Cancel::new());
    assert!(window.is_cancelled() && run.is_cancelled() && !other.is_cancelled());
    run.follow(&other);
    window.follow(&other);
    assert!(window.is_cancelled() && run.is_cancelled());

    let (mut asked, mut held) = (Proceed::new(), Proceed::new());
    held.follow(&asked);
    assert!(!held.is_go());
    asked.go();
    held.follow(&asked);
    held.follow(&Proceed::new());
    assert!(held.is_go());
}

#[test]
fn runs_that_cannot_start_say_why() {
    let settings = Settings { subscriptions: Vec::new(), ..settings_for("/feed.xml", true) };
    let (step, names, said) = begin_run(&settings);
    assert_eq!(step, RunStep::Over);
    assert!(names.is_empty());
    assert!(matches!(&said[0], Update::Log(m) if m == "Nothing selected."));

    let (run, step, _) = Run::feeds_read(Vec::new(), false);
    assert_eq!(step, RunStep::MakeFolder);
    let (step, said) = run.folder_made("/out", Err("read-only".into()));
    assert_eq!(step, RunStep::Over);
    assert!(matches!(&said[0], Update::Problem(m) if m == "Cannot create /out: read-only"));
    assert!(matches!(said.last(), Some(Update::Finished { cancelled: false })));
}

#[test]
fn a_feed_that_is_not_a_feed_fails_with_its_reason() {
    let mut disk = Disk::default();
    let updates = run(&mut disk, &settings_for("/nowhere.xml", true));
    assert!(updates.iter().any(|u| matches!(
        u,
        Update::FeedStatus { feed: 0, status: FeedStatus::Failed(e) }
            if e == "server said 404 Not Found"
    )));
    let (listed, said) = read_feed(0, "Show", Ok("not xml".into()), false, None);
    assert!(listed.is_empty());
    assert!(matches!(&said[0], Update::Problem(m) if m.starts_with("Show: feed is not valid XML: ")));
}

#[test]
fn a_file_on_disk_is_here_or_short() {
    assert_eq!(already_downloaded(true, Some(10), Some(12)), OnDisk::Here { size: 12 });
    assert_eq!(already_downloaded(true, Some(10), Some(9)), OnDisk::Short { size: 9 });
    assert_eq!(already_downloaded(true, None, Some(0)), OnDisk::Short { size: 0 });
    assert_eq!(already_downloaded(true, None, None), OnDisk::Absent);
    assert_eq!(already_downloaded(false, Some(1), Some(1)), OnDisk::Absent);
}

#[test]
fn failures_are_named_shortly() {
    assert_eq!(short_err(true, false, None, false), "timed out");
    assert_eq!(short_err(false, true, None, false), "could not connect");
    assert_eq!(short_err(false, false, Some("500 Oops"), false), "server said 500 Oops");
    assert_eq!(short_err(false, false, None, true), "malformed response");
    assert_eq!(short_err(false, false, None, false), "network error");
    assert_eq!(transfers_at_once(0), 1);
    assert_eq!(transfers_at_once(99), 16);
    assert!(abandon(&vec![FeedRead::nothing()]).is_empty());
}

#[test]
fn untaggable_podcasts_are_mentioned_once() {
    let mut mentioned = false;
    assert_eq!(tag_updates("a.ogg", "Show", Tagging::Unsupported, &mut mentioned).len(), 1);
    assert_eq!(tag_updates("b.ogg", "Show", Tagging::Unsupported, &mut mentioned).len(), 0);
    let said = tag_updates("c.mp3", "Show", Tagging::Failed("disk full".into()), &mut mentioned);
    assert!(matches!(&said[0], Update::Problem(m) if m.contains("disk full")));
    let said = tag_updates("c.mp3", "Show", Tagging::Crashed("lost".into()), &mut mentioned);
    assert!(matches!(&said[0], Update::Problem(m) if m.contains("lost")));
    assert!(tag_updates("d.mp3", "Show", Tagging::Written, &mut mentioned).is_empty());
    let transfer = Transfer::begin(5, false, None, Some(9));
    assert!(transfer.note("f", "u", "200 OK", 5).contains("starting over"));
    assert!(Transfer::begin(5, true, Some(4), None).note("f", "u", "206", 5).contains("resuming"));
}
