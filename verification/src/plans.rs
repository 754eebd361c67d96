//! What a plan keeps of what the feeds said and the disk holds.

use crate::engine::at_once;
use crate::engine::attempt_after;
use crate::engine::candidate;
use crate::engine::enough;
use crate::engine::feed_listing;
use crate::engine::fetch_failure;
use crate::engine::file_names;
use crate::engine::first_free;
use crate::engine::first_owed;
use crate::engine::folders;
use crate::engine::free_name;
use crate::engine::is_taken;
use crate::engine::latest;
use crate::engine::leftover_paths;
use crate::engine::no_folder_reports;
use crate::engine::on_disk;
use crate::engine::owed_episodes;
use crate::engine::partial;
use crate::engine::partials;
use crate::engine::pause_after;
use crate::engine::put_back;
use crate::engine::range_text;
use crate::engine::said_of_tags;
use crate::engine::said_unticked;
use crate::engine::sampled;
use crate::engine::settling;
use crate::engine::short_error;
use crate::engine::size_at;
use crate::engine::step_after_transfers;
use crate::engine::EpisodeState;
use crate::engine::FeedState;
use crate::engine::OnDisk;
use crate::engine::Outcome;
use crate::engine::Report;
use crate::engine::RunStep;
use crate::engine::Sweep;
use crate::engine::Tagging;
use crate::engine::Transfer;
use crate::engine::Wanted;
use crate::engine::ATTEMPTS;
use crate::feed::Item;
use crate::figures::says;
use crate::text::decimal;
use crate::text::digits_value;
use crate::text::starts_with;
use crate::timestamps::lemma_decimal;
use crate::tools::joined_path;
use crate::util::bytes_text;
use crate::util::chosen_extension;
use crate::util::counted_text;
use crate::util::sanitized;
use vstd::prelude::*;

verus! {

// ---- Names ----------------------------------------------------------------

/// A name as it is handed out: the wanted one, or that with a number after it,
/// and then the extension if there is one.
pub open spec fn numbered(stem: Seq<char>, number: Option<int>, ext: Seq<char>) -> Seq<char> {
    let told_apart = match number {
        Some(n) => stem + seq![' ', '('] + decimal(n) + seq![')'],
        None => stem,
    };
    if ext.len() == 0 {
        told_apart
    } else {
        told_apart + seq!['.'] + ext
    }
}

/// A name that is free is handed out as it is. One that is not gets the first
/// number, from 2 on, that makes it free.
pub proof fn law_taken_names_are_numbered(stem: Seq<char>, ext: Seq<char>, taken: Seq<Seq<char>>)
    ensures
        ({
            let given = free_name(stem, ext, taken);
            if !is_taken(taken, numbered(stem, None, ext)) {
                given == numbered(stem, None, ext)
            } else {
                exists|n: int|
                    {
                        &&& 2 <= n
                        &&& given == #[trigger] numbered(stem, Some(n), ext)
                        &&& forall|m: int|
                            2 <= m < n ==> is_taken(taken, #[trigger] numbered(stem, Some(m), ext))
                    }
            }
        }),
{
    let last = taken.len() as int + 1;
    assert(candidate(stem, ext, 1) == numbered(stem, None, ext));
    lemma_numbers(stem, ext, taken, 1, last);
    let n = first_free(stem, ext, taken, 1, last);
    if is_taken(taken, numbered(stem, None, ext)) {
        crate::engine::law_names_are_handed_out_once(stem, ext, taken);
        assert(n >= 2) by {
            if n == 1 {
                assert(free_name(stem, ext, taken) == candidate(stem, ext, 1));
            }
        }
        assert(free_name(stem, ext, taken) == numbered(stem, Some(n), ext));
        assert forall|m: int| 2 <= m < n implies is_taken(
            taken,
            #[trigger] numbered(stem, Some(m), ext),
        ) by {
            assert(is_taken(taken, candidate(stem, ext, m)));
        }
    }
}

proof fn lemma_numbers(stem: Seq<char>, ext: Seq<char>, taken: Seq<Seq<char>>, from: int, last: int)
    requires
        1 <= from,
    ensures
        from <= first_free(stem, ext, taken, from, last),
        forall|m: int|
            from <= m < first_free(stem, ext, taken, from, last) ==> is_taken(
                taken,
                #[trigger] candidate(stem, ext, m),
            ),
    decreases last - from,
{
    if from < last && is_taken(taken, candidate(stem, ext, from)) {
        lemma_numbers(stem, ext, taken, from + 1, last);
    }
}

/// Every episode's file is named after the minute it came out, or where that is
/// not known after its title, told apart from the files before it where it has to
/// be, and given the extension that goes with it. What comes later in the feed
/// does not change it.
pub proof fn law_files_are_named_after_their_episodes(list: Seq<Item>, i: int)
    requires
        0 <= i < list.len(),
    ensures
        ({
            let item = list[i];
            let stem = match item.published {
                Some(p) => p.name(),
                None => sanitized(item.title),
            };
            file_names(list)[i] == free_name(
                stem,
                chosen_extension(item.url, item.mime),
                file_names(list).take(i),
            )
        }),
        file_names(list).take(i) == file_names(list.take(i)),
        file_names(list).len() == list.len(),
    decreases list.len(),
{
    let front = list.drop_last();
    let n = front.len() as int;
    crate::engine::law_files_are_distinct(list);
    crate::engine::law_files_are_distinct(front);
    if i < n {
        law_files_are_named_after_their_episodes(front, i);
        assert(list.take(i) =~= front.take(i));
        assert(file_names(list).take(i) =~= file_names(front).take(i));
    } else {
        assert(list.take(i) =~= front);
        assert(file_names(list).take(i) =~= file_names(front));
    }
}

/// Only the newest are considered when a limit is set, and a feed lists its
/// newest first: as many as the limit, or all there are.
pub proof fn law_the_limit_keeps_the_newest(list: Seq<Item>, limit: Option<usize>)
    ensures
        latest(list, limit).len() <= list.len(),
        latest(list, limit) == list.take(latest(list, limit).len() as int),
        limit is None ==> latest(list, limit) == list,
        limit matches Some(n) ==> latest(list, limit).len() == (if n < list.len() {
            n as int
        } else {
            list.len() as int
        }),
{
    assert(list.take(list.len() as int) =~= list);
}

// ---- What is on disk ------------------------------------------------------

/// Whether a file of some size is the whole of an episode: as large as the feed
/// declares or larger, or where it declares nothing not empty.
pub open spec fn whole(declared: Option<u64>, size: u64) -> bool {
    match declared {
        Some(d) => d <= size,
        None => 0 < size,
    }
}

/// An episode counts as here when leaving what is here alone was asked for and
/// there is a file of it that is whole. Of one that is short that is known, and
/// without a file, or when nothing is to be left alone, there is nothing here.
pub proof fn law_only_whole_files_count(
    skip_existing: bool,
    declared: Option<u64>,
    size: Option<u64>,
)
    ensures
        on_disk(skip_existing, declared, size) == (match size {
            Some(n) => if !skip_existing {
                OnDisk::Absent
            } else if whole(declared, n) {
                OnDisk::Here { size: n }
            } else {
                OnDisk::Short { size: n }
            },
            None => OnDisk::Absent,
        }),
{
}

/// What is left to fetch of a feed is what is not here: each such episode once,
/// under its own number, into its own file of the podcast's folder, in the order
/// of the feed.
pub proof fn law_what_is_not_here_is_fetched(
    feed: int,
    dir: Seq<char>,
    list: Seq<Item>,
    names: Seq<Seq<char>>,
    sizes: Seq<Option<u64>>,
    skip_existing: bool,
    n: int,
)
    requires
        0 <= n <= list.len(),
    ensures
        ({
            let fetch = settling(feed, dir, list, names, sizes, skip_existing, n).fetch;
            &&& forall|k: int|
                0 <= k < fetch.len() ==> {
                    let w = #[trigger] fetch[k];
                    &&& 0 <= w.index < n
                    &&& w.item == list[w.index]
                    &&& w.path == joined_path(dir, names[w.index])
                    &&& !(skip_existing && (size_at(sizes, w.index) matches Some(s) && whole(
                        list[w.index].length,
                        s,
                    )))
                }
            &&& forall|k: int, l: int|
                0 <= k < l < fetch.len() ==> (#[trigger] fetch[k]).index < (
                #[trigger] fetch[l]).index
            &&& forall|i: int|
                0 <= i < n && !(skip_existing && (size_at(sizes, i) matches Some(s) && whole(
                    (#[trigger] list[i]).length,
                    s,
                ))) ==> exists|k: int| 0 <= k < fetch.len() && (#[trigger] fetch[k]).index == i
        }),
    decreases n,
{
    if n > 0 {
        law_what_is_not_here_is_fetched(feed, dir, list, names, sizes, skip_existing, n - 1);
        let before = settling(feed, dir, list, names, sizes, skip_existing, n - 1).fetch;
        let fetch = settling(feed, dir, list, names, sizes, skip_existing, n).fetch;
        law_only_whole_files_count(skip_existing, list[n - 1].length, size_at(sizes, n - 1));
        assert forall|k: int| 0 <= k < before.len() implies #[trigger] fetch[k] == before[k] by {}
        assert forall|i: int|
            0 <= i < n && !(skip_existing && (size_at(sizes, i) matches Some(s) && whole(
                (#[trigger] list[i]).length,
                s,
            ))) implies exists|k: int| 0 <= k < fetch.len() && (#[trigger] fetch[k]).index == i by {
            if i < n - 1 {
                let k = choose|k: int| 0 <= k < before.len() && (#[trigger] before[k]).index == i;
                assert(fetch[k].index == i);
            } else {
                assert(fetch[before.len() as int].index == i);
            }
        }
    }
}

// ---- Trying again ---------------------------------------------------------

/// A failed attempt is followed by another, two at the most, and each wait is one
/// step longer than the one before it, the first being a single step.
pub proof fn law_waits_grow_by_a_step(step_ms: u64)
    requires
        step_ms <= 1000,
    ensures
        pause_after(1, step_ms) == Some(step_ms),
        forall|a: u32|
            1 < a < 3 ==> #[trigger] pause_after(a, step_ms) == Some(
                (pause_after((a - 1) as u32, step_ms)->0 + step_ms) as u64,
            ),
        forall|a: u32| 3 <= a ==> #[trigger] pause_after(a, step_ms) is None,
{
    assert(ATTEMPTS == 3);
    assert forall|a: u32| 1 < a < 3 implies #[trigger] pause_after(a, step_ms) == Some(
        (pause_after((a - 1) as u32, step_ms)->0 + step_ms) as u64,
    ) by {
        assert(a == 2);
    }
}

// ---- Moving the bytes -----------------------------------------------------

/// What is here is added to only when there is something here and the server
/// sends the rest of it; otherwise the file starts over, and nothing of it counts
/// as here.
pub proof fn law_only_the_rest_is_added(
    existing: u64,
    partial_content: bool,
    sent: Option<u64>,
    declared: Option<u64>,
)
    ensures
        ({
            let t = Transfer::begun(existing, partial_content, sent, declared);
            &&& !partial_content || existing == 0 ==> !t.resuming && t.done == 0
            &&& partial_content && existing > 0 ==> t.resuming && t.done == existing
            &&& (sent matches Some(n) ==> t.done + n <= u64::MAX ==> t.total == Some(
                (t.done + n) as u64,
            ))
            &&& sent is None ==> t.total == declared
        }),
{
}

/// Pieces add up: two are as far along as one of their length together, and what
/// is expected does not change on the way.
pub proof fn law_pieces_add_up(t: Transfer, a: u64, b: u64)
    requires
        t.done + a + b <= u64::MAX,
    ensures
        t.and_piece(a).done == t.done + a,
        t.and_piece(a).and_piece(b) == t.and_piece((a + b) as u64),
        t.and_piece(a).total == t.total,
        t.and_piece(a).resuming == t.resuming,
{
}

/// A request for the rest of a file asks for everything from the first byte that
/// is not here.
pub proof fn law_the_rest_starts_where_the_file_ends(existing: int)
    requires
        0 <= existing,
    ensures
        ({
            let h = range_text(existing);
            &&& h.len() > 7
            &&& starts_with(h, "bytes="@)
            &&& h.last() == '-'
            &&& digits_value(h.subrange(6, h.len() - 1)) == existing
        }),
{
    reveal_strlit("bytes=");
    reveal_strlit("-");
    lemma_decimal(existing);
    let h = range_text(existing);
    assert(h.take(6) =~= "bytes="@);
    assert(h.subrange(6, h.len() - 1) =~= decimal(existing));
}

/// A file that is still arriving is called after the one it will become, whole
/// name and all, with `.part` behind it.
pub proof fn law_partial_files_keep_the_whole_name(path: Seq<char>)
    ensures
        starts_with(partial(path), path),
        partial(path).skip(path.len() as int) == seq!['.', 'p', 'a', 'r', 't'],
{
    reveal_strlit(".part");
    assert(partial(path).take(path.len() as int) =~= path);
    assert(partial(path).skip(path.len() as int) =~= seq!['.', 'p', 'a', 'r', 't']);
}

// ---- Folders, leftovers and the probe -------------------------------------

/// Every podcast's folder is named after its title, told apart from the folders
/// before it where it has to be.
pub proof fn law_folders_are_named_after_their_podcasts(titles: Seq<Seq<char>>, i: int)
    requires
        0 <= i < titles.len(),
    ensures
        folders(titles)[i] == free_name(
            sanitized(titles[i]),
            Seq::empty(),
            folders(titles).take(i),
        ),
        folders(titles).take(i) == folders(titles.take(i)),
        folders(titles).len() == titles.len(),
    decreases titles.len(),
{
    let front = titles.drop_last();
    let n = front.len() as int;
    crate::engine::law_folders_are_distinct(titles);
    crate::engine::law_folders_are_distinct(front);
    if i < n {
        law_folders_are_named_after_their_podcasts(front, i);
        assert(titles.take(i) =~= front.take(i));
        assert(folders(titles).take(i) =~= folders(front).take(i));
    } else {
        assert(titles.take(i) =~= front);
        assert(folders(titles).take(i) =~= folders(front));
    }
}

/// Every episode that is still owed may leave a partial file behind, and nothing
/// else may.
pub proof fn law_leftovers_are_the_owed_episodes(reads: Seq<Outcome>, n: int, path: Seq<char>)
    requires
        0 <= n <= reads.len(),
    ensures
        leftover_paths(reads, n).contains(path) <==> exists|i: int, k: int|
            0 <= i < n && 0 <= k < owed_episodes(reads[i]).len() && path == partial(
                (#[trigger] owed_episodes(reads[i])[k]).path,
            ),
    decreases n,
{
    if n > 0 {
        law_leftovers_are_the_owed_episodes(reads, n - 1, path);
        let before = leftover_paths(reads, n - 1);
        let list = owed_episodes(reads[n - 1]);
        let more = partials(list);
        let all = leftover_paths(reads, n);
        assert(all =~= before + more);
        if all.contains(path) {
            let j = choose|j: int| 0 <= j < all.len() && all[j] == path;
            if j < before.len() {
                assert(before[j] == path);
                assert(before.contains(path));
            } else {
                let k = j - before.len();
                assert(more[k] == path);
                assert(owed_episodes(reads[n - 1])[k] == list[k]);
            }
        }
        if exists|i: int, k: int|
            0 <= i < n && 0 <= k < owed_episodes(reads[i]).len() && path == partial(
                (#[trigger] owed_episodes(reads[i])[k]).path,
            ) {
            let (i, k) = choose|i: int, k: int|
                0 <= i < n && 0 <= k < owed_episodes(reads[i]).len() && path == partial(
                    (#[trigger] owed_episodes(reads[i])[k]).path,
                );
            if i < n - 1 {
                assert(before.contains(path));
                let j = choose|j: int| 0 <= j < before.len() && before[j] == path;
                assert(all[j] == path);
            } else {
                assert(more[k] == path);
                assert(all[before.len() + k] == path);
            }
        }
    }
}

/// The line is timed on the first episode that is owed, and not at all when none
/// is.
pub proof fn law_the_probe_takes_the_first_owed(reads: Seq<Outcome>, i: int, k: int)
    requires
        0 <= i,
        forall|j: int| i <= j < k && j < reads.len() ==> owed_episodes(#[trigger] reads[j]).len()
            == 0,
        i <= k,
    ensures
        k < reads.len() && owed_episodes(reads[k]).len() > 0 ==> first_owed(reads, i) == Some(
            owed_episodes(reads[k])[0].item,
        ),
        k >= reads.len() ==> first_owed(reads, i) is None,
    decreases k - i,
{
    if i < k && i < reads.len() {
        assert(owed_episodes(reads[i]).len() == 0);
        law_the_probe_takes_the_first_owed(reads, i + 1, k);
    }
}

// ---- Errors ---------------------------------------------------------------

/// An error is told by what went wrong: the time ran out, there was no
/// connection, the server refused, or the answer made no sense, the first of
/// these that holds.
pub proof fn law_errors_are_told_by_their_cause(
    timeout: bool,
    connect: bool,
    status: Seq<char>,
    decode: bool,
)
    ensures
        short_error(true, connect, Some(status), decode) == "timed out"@,
        short_error(false, true, Some(status), decode) == "could not connect"@,
        says(short_error(false, false, Some(status), decode), status),
        short_error(false, false, None, true) == "malformed response"@,
        short_error(false, false, None, false) == "network error"@,
        short_error(timeout, connect, None, decode) == "network error"@ <==> !timeout && !connect
            && !decode,
{
    let s = short_error(false, false, Some(status), decode);
    assert(s =~= "server said "@ + status + Seq::<char>::empty());
    reveal_strlit("timed out");
    reveal_strlit("could not connect");
    reveal_strlit("malformed response");
    reveal_strlit("network error");
    assert("timed out"@.len() != "network error"@.len());
    assert("could not connect"@.len() != "network error"@.len());
    assert("malformed response"@.len() != "network error"@.len());
}

// ---- Reports --------------------------------------------------------------

/// When a run is given up, every podcast that was still owed episodes goes back
/// to waiting, and nothing else is said.
pub proof fn law_owed_podcasts_go_back(reads: Seq<Outcome>, n: int, report: Report)
    requires
        0 <= n <= reads.len(),
    ensures
        put_back(reads, n).contains(report) <==> exists|i: int|
            0 <= i < n && ((#[trigger] reads[i]).plan matches Some(p) && report
                == (Report::FeedStatus { feed: p.index, status: FeedState::Pending })),
    decreases n,
{
    if n > 0 {
        law_owed_podcasts_go_back(reads, n - 1, report);
        let before = put_back(reads, n - 1);
        let all = put_back(reads, n);
        if all.contains(report) {
            let j = choose|j: int| 0 <= j < all.len() && all[j] == report;
            if j < before.len() {
                assert(before[j] == report);
                assert(before.contains(report));
            } else {
                assert(reads[n - 1].plan is Some);
            }
        }
        if exists|i: int|
            0 <= i < n && ((#[trigger] reads[i]).plan matches Some(p) && report
                == (Report::FeedStatus { feed: p.index, status: FeedState::Pending })) {
            let i = choose|i: int|
                0 <= i < n && ((#[trigger] reads[i]).plan matches Some(p) && report
                    == (Report::FeedStatus { feed: p.index, status: FeedState::Pending }));
            if i < n - 1 {
                assert(before.contains(report));
                let j = choose|j: int| 0 <= j < before.len() && before[j] == report;
                assert(all[j] == report);
            } else {
                assert(all[before.len() as int] == report);
            }
        }
    }
}

/// A podcast that was read announces its episodes in their order, each with its
/// title, its file and its size as far as the feed gives one.
pub proof fn law_episodes_are_announced(feed: int, title: Seq<char>, list: Seq<Item>, i: int)
    requires
        0 <= i < list.len(),
    ensures
        feed_listing(feed, title, list).len() == 1,
        feed_listing(feed, title, list)[0] matches Report::Episodes { feed: f, episodes } && {
            &&& f == feed
            &&& episodes.len() == list.len()
            &&& episodes[i].title == list[i].title
            &&& episodes[i].file_name == file_names(list)[i]
            &&& episodes[i].size_hint == list[i].length
        },
{
}

/// A podcast with no episodes says so and is done, and announces an empty list.
pub proof fn law_empty_podcasts_are_done(feed: int, title: Seq<char>)
    ensures
        ({
            let said = feed_listing(feed, title, Seq::empty());
            &&& said.len() == 3
            &&& said[0] matches Report::Log(text) && says(text, title)
            &&& said[1] == (Report::FeedStatus { feed, status: FeedState::Done })
            &&& said[2] matches Report::Episodes { feed: f, episodes } && f == feed
                && episodes.len() == 0
        }),
{
    let text = title + ": no episodes with downloadable media"@;
    assert(text =~= Seq::<char>::empty() + title + ": no episodes with downloadable media"@);
}

/// A podcast that could not be read because the run was stopped goes back to
/// waiting; any other failure is told.
pub proof fn law_stopped_reads_are_no_failures(feed: int, title: Seq<char>, why: Seq<char>)
    ensures
        fetch_failure(feed, title, why, true) == seq![
            Report::FeedStatus { feed, status: FeedState::Pending },
        ],
        fetch_failure(feed, title, why, false).contains(
            Report::FeedStatus { feed, status: FeedState::Failed(why) },
        ),
{
    let said = fetch_failure(feed, title, why, false);
    assert(exists|i: int|
        0 <= i < said.len() && said[i] == (Report::FeedStatus {
            feed,
            status: FeedState::Failed(why),
        })) by {
        assert(said[0] == (Report::FeedStatus { feed, status: FeedState::Failed(why) }) || said[1]
            == (Report::FeedStatus { feed, status: FeedState::Failed(why) }));
    }
}

/// Tags that were written are passed over in silence; ones that were not are
/// told with the file and the reason, and a podcast whose files take none is
/// mentioned once.
pub proof fn law_tags_that_fail_are_told(file: Seq<char>, show: Seq<char>, why: String, mentioned: bool)
    ensures
        said_of_tags(file, show, Tagging::Written, mentioned).len() == 0,
        said_of_tags(file, show, Tagging::Unsupported, true).len() == 0,
        said_of_tags(file, show, Tagging::Unsupported, false).len() == 1,
        said_of_tags(file, show, Tagging::Unsupported, false)[0] matches Report::Log(text) && says(
            text,
            show,
        ),
        said_of_tags(file, show, Tagging::Failed(why), mentioned).len() == 1,
        said_of_tags(file, show, Tagging::Failed(why), mentioned)[0] matches Report::Problem(text)
            && says(text, file) && says(text, why@),
        said_of_tags(file, show, Tagging::Crashed(why), mentioned).len() == 1,
        said_of_tags(file, show, Tagging::Crashed(why), mentioned)[0] matches Report::Problem(text)
            && says(text, file) && says(text, why@),
{
    let none = Seq::<char>::empty();
    if let Report::Log(text) = said_of_tags(file, show, Tagging::Unsupported, false)[0] {
        assert(text =~= none + show + text.skip(show.len() as int));
    }
    if let Report::Problem(text) = said_of_tags(file, show, Tagging::Failed(why), mentioned)[0] {
        let front = file + ": downloaded, but could not write its tags: "@;
        assert(text =~= none + file + text.skip(file.len() as int));
        assert(text =~= front + why@ + ". Delete it and run again to try once more."@);
    }
    if let Report::Problem(text) = said_of_tags(file, show, Tagging::Crashed(why), mentioned)[0] {
        let front = file + ": could not write its tags: "@;
        assert(text =~= none + file + text.skip(file.len() as int));
        assert(text =~= front + why@ + none);
    }
}

// ---- Measuring ------------------------------------------------------------

/// As many transfers run at once as were asked for, but at least one and at most
/// sixteen.
pub proof fn law_transfers_stay_within_reason(asked: int, more: int)
    requires
        asked <= more,
    ensures
        1 <= at_once(asked) <= at_once(more) <= 16,
        1 <= asked <= 16 ==> at_once(asked) == asked,
        at_once(at_once(asked)) == at_once(asked),
{
}

/// A probe ends with a quarter of a megabyte or after a second and a half, and
/// not before either.
pub proof fn law_probes_are_short(bytes: int, ms: int)
    ensures
        bytes >= 262_144 ==> enough(bytes, ms),
        ms >= 1500 ==> enough(bytes, ms),
        bytes < 262_144 && ms < 1500 ==> !enough(bytes, ms),
{
}

/// A sample measures the line by its bytes and its time, unless it is too small
/// or too short to measure anything.
pub proof fn law_samples_measure_the_line(bytes: u64, micros: u64)
    ensures
        sampled(bytes, micros) matches Some(r) ==> r.bytes == bytes && r.micros == micros && r.bytes
            >= 4096 && r.micros >= 5000,
        bytes >= 4096 && micros >= 5000 ==> sampled(bytes, micros) is Some,
{
}

/// A transfer is tried three times: after the first two failures there is a wait
/// that leads to the next attempt, and after the third there is none.
pub proof fn law_there_are_three_attempts(step_ms: u64)
    requires
        step_ms <= 1000,
    ensures
        ({
            let second = attempt_after(1, true);
            let third = attempt_after(second, true);
            &&& pause_after(1, step_ms) == Some(step_ms)
            &&& second == 2
            &&& pause_after(second, step_ms) == Some((2 * step_ms) as u64)
            &&& third == 3
            &&& pause_after(third, step_ms) is None
        }),
        forall|a: u32| attempt_after(a, false) == a,
{
    assert(step_ms * 1 == step_ms);
    assert(step_ms * 2 == 2 * step_ms);
}

/// A run that was stopped is swept up after, and one that ends by itself is not.
pub proof fn law_only_stopped_runs_are_swept(cancelled: bool)
    ensures
        step_after_transfers(cancelled) == RunStep::Sweep <==> cancelled,
        step_after_transfers(cancelled) == RunStep::Over <==> !cancelled,
{
}

/// What is swept up adds up, file by file, and is told: how many files, and how
/// much they held. A sweep that found nothing says nothing.
pub proof fn law_sweeps_add_up(sweep: Sweep, size: u64)
    requires
        sweep.files < usize::MAX,
        sweep.bytes + size <= u64::MAX,
    ensures
        sweep.and_file(size).files == sweep.files + 1,
        sweep.and_file(size).bytes == sweep.bytes + size,
        sweep.files == 0 ==> sweep.summary().len() == 0,
        sweep.files > 0 ==> sweep.summary().len() == 1 && (sweep.summary()[0] matches Report::Log(
            text,
        ) && says(text, counted_text(sweep.files as int, "unfinished file"@)) && says(
            text,
            bytes_text(sweep.bytes as int),
        )),
{
    if sweep.files > 0 {
        let n = counted_text(sweep.files as int, "unfinished file"@);
        let b = bytes_text(sweep.bytes as int);
        let text = "Cleared away "@ + n + " ("@ + b + ")"@;
        assert(sweep.summary()[0] == Report::Log(text));
        assert(text =~= "Cleared away "@ + n + (" ("@ + b + ")"@));
        assert(text =~= ("Cleared away "@ + n + " ("@) + b + ")"@);
    }
}

/// A run whose folder cannot be made says so, with the reason, and is over
/// without having been stopped.
pub proof fn law_no_folder_ends_the_run(reads: Seq<Outcome>, out_dir: Seq<char>, why: Seq<char>)
    ensures
        ({
            let said = no_folder_reports(reads, out_dir, why);
            &&& said.len() >= 2
            &&& said.last() == (Report::Finished { cancelled: false })
            &&& said[said.len() - 2] matches Report::Problem(text) && says(text, out_dir) && says(
                text,
                why,
            )
        }),
{
    let text = "Cannot create "@ + out_dir + ": "@ + why;
    assert(text =~= "Cannot create "@ + out_dir + (": "@ + why));
    assert(text =~= ("Cannot create "@ + out_dir + ": "@) + why + Seq::<char>::empty());
}

/// Every episode that was un-ticked is told of as such, and no other.
pub proof fn law_unticked_episodes_are_told(
    feed: int,
    list: Seq<Wanted>,
    skips: Set<(usize, usize)>,
    episode: int,
)
    ensures
        said_unticked(feed, list, skips).contains(
            Report::EpisodeStatus { feed, episode, status: EpisodeState::Unticked },
        ) <==> exists|k: int|
            0 <= k < list.len() && (#[trigger] list[k]).index == episode && skips.contains(
                (feed as usize, list[k].index as usize),
            ),
    decreases list.len(),
{
    let told = Report::EpisodeStatus { feed, episode, status: EpisodeState::Unticked };
    if list.len() > 0 {
        let front = list.drop_last();
        let n = front.len() as int;
        law_unticked_episodes_are_told(feed, front, skips, episode);
        let before = said_unticked(feed, front, skips);
        let all = said_unticked(feed, list, skips);
        assert(list.last() == list[n]);
        if all.contains(told) {
            let j = choose|j: int| 0 <= j < all.len() && all[j] == told;
            if j < before.len() {
                assert(before[j] == told);
                assert(before.contains(told));
                let k = choose|k: int|
                    0 <= k < front.len() && (#[trigger] front[k]).index == episode
                        && skips.contains((feed as usize, front[k].index as usize));
                assert(list[k] == front[k]);
            } else {
                assert(list[n].index == episode);
            }
        }
        if exists|k: int|
            0 <= k < list.len() && (#[trigger] list[k]).index == episode && skips.contains(
                (feed as usize, list[k].index as usize),
            ) {
            let k = choose|k: int|
                0 <= k < list.len() && (#[trigger] list[k]).index == episode && skips.contains(
                    (feed as usize, list[k].index as usize),
                );
            if k < n {
                assert(front[k] == list[k]);
                assert(before.contains(told));
                let j = choose|j: int| 0 <= j < before.len() && before[j] == told;
                assert(all[j] == told);
            } else {
                assert(all[before.len() as int] == told);
            }
        }
    }
}

} // verus!
