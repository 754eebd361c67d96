//! The Transcripts tab: what the machine has, the episodes to transcribe, and
//! putting right what is missing.

use crate::app::tracks;
use crate::app::AudioRow;
use crate::app::Effect;
use crate::app::OutputKind;
use crate::app::PodBatchApp;
use crate::app::Track;
use crate::app::TranscribeOrder;
use crate::app::Window;
use crate::app::Wish;
use crate::engine::copy_text;
use crate::engine::Cancel;
use crate::feed::optional_text;
use crate::questions::count;
use crate::questions::Dialog;
use crate::questions::Question;
use crate::text::decimal;
use crate::text::join;
use crate::text::owned;
use crate::text::push_decimal;
use crate::text::texts;
use crate::tools::elided_with;
use crate::tools::elide_path;
use crate::tools::findings;
use crate::tools::Finding;
use crate::tools::Found;
use crate::tools::Install;
use crate::tools::Remedy;
use crate::tools::Tool;
use crate::transcribe::Standing;
use crate::transcribe::Status;
use crate::util::bytes_text;
use crate::util::counted_text;
use crate::util::human_bytes;
use crate::util::text_of;
use vstd::prelude::*;

verus! {

// ---- What the machine has -------------------------------------------------

/// The names of what is needed and missing, among the first `n` tools looked
/// for.
pub open spec fn missing_names(tools: Seq<Finding>, n: int) -> Seq<Seq<char>>
    decreases n,
{
    if n <= 0 {
        Seq::empty()
    } else if tools[n - 1].shown is None && !tools[n - 1].tool.can_do_without() {
        missing_names(tools, n - 1).push(tools[n - 1].tool.name())
    } else {
        missing_names(tools, n - 1)
    }
}

/// What the debug log is told of a survey.
pub open spec fn survey_text(missing: Seq<Seq<char>>) -> Seq<char> {
    "transcription tools: "@ + decimal(missing.len() as int) + " missing"@ + if missing.len()
        == 0 {
        ""@
    } else {
        " ("@ + join(missing, ", "@) + ")"@
    }
}

/// Puts texts one after another with a comma between them.
fn join_commas(parts: &Vec<String>) -> (r: String)
    ensures
        r@ == join(texts(parts@), ", "@),
{
    let ghost list = texts(parts@);
    let mut s = String::new();
    let mut i: usize = 0;
    assert(s@ =~= Seq::empty());
    assert(list.take(0) =~= Seq::empty());
    while i < parts.len()
        invariant
            i <= parts@.len(),
            list == texts(parts@),
            s@ == join(list.take(i as int), ", "@),
        decreases parts@.len() - i,
    {
        let ghost before = s@;
        if i > 0 {
            s.push_str(", ");
        }
        s.push_str(parts[i].as_str());
        proof {
            assert(list.take(i + 1).drop_last() =~= list.take(i as int));
            if i == 0 {
                assert(list.take(1)[0] == list[0]);
                assert(s@ =~= list[0]);
            } else {
                assert(list.take(i + 1).last() == list[i as int]);
                assert(s@ == before + ", "@ + list[i as int]);
            }
        }
        i += 1;
    }
    assert(list.take(i as int) =~= list);
    s
}

/// What the debug log is told of a survey.
fn survey_line(tools: &Vec<Found>) -> (r: String)
    ensures
        r@ == survey_text(missing_names(findings(tools@), tools@.len() as int)),
{
    let ghost list = findings(tools@);
    let mut missing: Vec<String> = Vec::new();
    let mut i: usize = 0;
    assert(texts(missing@) =~= Seq::empty());
    while i < tools.len()
        invariant
            i <= tools@.len(),
            list == findings(tools@),
            texts(missing@) == missing_names(list, i as int),
        decreases tools@.len() - i,
    {
        assert(list[i as int] == tools@[i as int]@);
        if !tools[i].presence.is_ready() && !tools[i].tool.optional() {
            let name = owned(tools[i].tool.label());
            assert(texts(missing@.push(name)) =~= texts(missing@).push(name@));
            missing.push(name);
        }
        i += 1;
    }
    let mut s = owned("transcription tools: ");
    push_decimal(&mut s, missing.len() as u64);
    s.push_str(" missing");
    let mut list_text = owned("");
    if missing.len() > 0 {
        list_text = owned(" (");
        list_text.push_str(join_commas(&missing).as_str());
        list_text.push_str(")");
    }
    s.push_str(list_text.as_str());
    s
}

/// Whether a tool is among those found, and there.
pub open spec fn is_ready(tools: Seq<Finding>, tool: Tool) -> bool {
    exists|i: int| 0 <= i < tools.len() && (#[trigger] tools[i]).tool == tool && tools[i].shown is Some
}

/// Where the first mention of a tool says it is.
pub open spec fn place_of(tools: Seq<Finding>, tool: Tool) -> Option<Seq<char>>
    decreases tools.len(),
{
    if tools.len() == 0 {
        None
    } else if tools[0].tool == tool {
        tools[0].path
    } else {
        place_of(tools.skip(1), tool)
    }
}

impl Window {
    /// After looking the machine over.
    pub open spec fn surveyed(self, tools: Seq<Finding>) -> Window {
        Window { tools, ..self }.wished(
            Wish::Debug(survey_text(missing_names(tools, tools.len() as int))),
        )
    }

    /// Whether everything a transcript needs is there.
    pub open spec fn able(self) -> bool {
        is_ready(self.tools, Tool::Ffmpeg) && is_ready(self.tools, Tool::Whisper) && is_ready(
            self.tools,
            Tool::WhisperModel,
        )
    }

    /// Whether a run started now would follow speakers through an episode.
    pub open spec fn labelling(self) -> bool {
        self.label_speakers && is_ready(self.tools, Tool::OllamaModel)
    }
}

impl PodBatchApp {
    /// Remember what looking the machine over found.
    ///
    /// Looking happens when the tab is first opened, after any install, and
    /// whenever the user presses Check again — never per frame. It shells out
    /// looking for half a dozen binaries and asks Ollama what it has, which is
    /// far too much to do at sixty frames a second.
    pub fn surveyed(&mut self, tools: Vec<Found>)
        ensures
            final(self)@ == old(self)@.surveyed(findings(tools@)),
    {
        let line = survey_line(&tools);
        self.tools = tools;
        self.wish(Effect::Debug(line));
    }

    /// Whether a tool was found.
    pub fn tool_ready(&self, tool: Tool) -> (r: bool)
        ensures
            r == is_ready(self@.tools, tool),
    {
        let ghost list = findings(self.tools@);
        let mut i: usize = 0;
        while i < self.tools.len()
            invariant
                i <= self.tools@.len(),
                list == findings(self.tools@),
                forall|j: int|
                    0 <= j < i ==> (#[trigger] list[j]).tool != tool || list[j].shown is None,
            decreases self.tools@.len() - i,
        {
            assert(list[i as int] == self.tools@[i as int]@);
            if self.tools[i].tool == tool && self.tools[i].presence.is_ready() {
                return true;
            }
            i += 1;
        }
        false
    }

    /// Where a tool was found.
    pub fn tool_path(&self, tool: Tool) -> (r: Option<String>)
        ensures
            optional_text(r) == place_of(self@.tools, tool),
    {
        let ghost list = findings(self.tools@);
        let mut i: usize = 0;
        assert(list.skip(0) =~= list);
        while i < self.tools.len()
            invariant
                i <= self.tools@.len(),
                list == findings(self.tools@),
                place_of(list, tool) == place_of(list.skip(i as int), tool),
            decreases self.tools@.len() - i,
        {
            assert(list.skip(i as int)[0] == self.tools@[i as int]@);
            assert(list.skip(i as int).skip(1) =~= list.skip(i + 1));
            if self.tools[i].tool == tool {
                return copy_text(&self.tools[i].path);
            }
            i += 1;
        }
        None
    }

    /// Everything a transcript needs, present. The two Ollama entries are not
    /// counted — a run without them is a run with blunter speaker numbers, not
    /// a run that cannot happen.
    pub fn can_transcribe(&self) -> (r: bool)
        ensures
            r == self@.able(),
    {
        self.tool_ready(Tool::Ffmpeg) && self.tool_ready(Tool::Whisper) && self.tool_ready(
            Tool::WhisperModel,
        )
    }

    /// Whether a run started now would follow speakers through an episode.
    pub fn will_label(&self) -> (r: bool)
        ensures
            r == self@.labelling(),
    {
        self.label_speakers && self.tool_ready(Tool::OllamaModel)
    }
}

/// What Ollama's pieces are found to be has no say in whether a transcript can
/// be made.
pub proof fn law_ollama_is_never_needed(a: Window, b: Window)
    requires
        a.tools.len() == b.tools.len(),
        forall|i: int| 0 <= i < a.tools.len() ==> (#[trigger] a.tools[i]).tool == b.tools[i].tool,
        forall|i: int|
            0 <= i < a.tools.len() && !(#[trigger] a.tools[i]).tool.can_do_without() ==> a.tools[i]
                == b.tools[i],
    ensures
        a.able() == b.able(),
{
    lemma_ready_alike(a.tools, b.tools, Tool::Ffmpeg);
    lemma_ready_alike(a.tools, b.tools, Tool::Whisper);
    lemma_ready_alike(a.tools, b.tools, Tool::WhisperModel);
}

proof fn lemma_ready_alike(a: Seq<Finding>, b: Seq<Finding>, tool: Tool)
    requires
        a.len() == b.len(),
        !tool.can_do_without(),
        forall|i: int| 0 <= i < a.len() ==> (#[trigger] a[i]).tool == b[i].tool,
        forall|i: int|
            0 <= i < a.len() && !(#[trigger] a[i]).tool.can_do_without() ==> a[i] == b[i],
    ensures
        is_ready(a, tool) == is_ready(b, tool),
{
    if is_ready(a, tool) {
        let i = choose|i: int|
            0 <= i < a.len() && (#[trigger] a[i]).tool == tool && a[i].shown is Some;
        assert(b[i].tool == tool && b[i].shown is Some);
    }
    if is_ready(b, tool) {
        let i = choose|i: int|
            0 <= i < b.len() && (#[trigger] b[i]).tool == tool && b[i].shown is Some;
        assert(a[i].tool == tool && a[i].shown is Some);
    }
}

// ---- The episodes to transcribe -------------------------------------------

/// An audio file in a folder, and whether its transcript is beside it.
#[derive(Debug)]
pub struct AudioFile {
    pub path: String,
    pub name: String,
    pub transcribed: bool,
}

/// What is found of an audio file.
pub struct Recording {
    pub path: Seq<char>,
    pub name: Seq<char>,
    pub transcribed: bool,
}

impl View for AudioFile {
    type V = Recording;

    open spec fn view(&self) -> Recording {
        Recording { path: self.path@, name: self.name@, transcribed: self.transcribed }
    }
}

/// What is found of a list of audio files.
pub open spec fn recordings(v: Seq<AudioFile>) -> Seq<Recording> {
    v.map_values(|f: AudioFile| f@)
}

/// An audio file as it is first listed. Anything already transcribed starts
/// unticked.
pub open spec fn fresh_track(file: Recording) -> Track {
    Track {
        path: file.path,
        name: file.name,
        selected: !file.transcribed,
        status: if file.transcribed { Standing::Done } else { Standing::Pending },
        heard: 0,
        length: 0,
        transcribed: file.transcribed,
    }
}

/// A folder as it is first listed.
pub open spec fn fresh_tracks(files: Seq<Recording>) -> Seq<Track> {
    files.map_values(|f: Recording| fresh_track(f))
}

/// The rows for a list of audio files.
///
/// Anything already transcribed starts unticked: the common case for re-opening
/// a folder is "do the new ones", and re-transcribing an episode costs minutes
/// for a file that is already sitting there.
fn fresh_audio(files: &Vec<AudioFile>) -> (r: Vec<AudioRow>)
    ensures
        tracks(r@) == fresh_tracks(recordings(files@)),
{
    let ghost want = fresh_tracks(recordings(files@));
    let mut r: Vec<AudioRow> = Vec::new();
    let mut i: usize = 0;
    while i < files.len()
        invariant
            i <= files@.len(),
            want == fresh_tracks(recordings(files@)),
            tracks(r@) == want.take(i as int),
        decreases files@.len() - i,
    {
        let row = AudioRow {
            path: files[i].path.clone(),
            name: files[i].name.clone(),
            selected: !files[i].transcribed,
            status: if files[i].transcribed {
                Status::Done
            } else {
                Status::Pending
            },
            heard: 0,
            length: 0,
            transcribed: files[i].transcribed,
        };
        proof {
            assert(row@ == want[i as int]);
            assert(tracks(r@.push(row)) =~= tracks(r@).push(row@));
            assert(want.take(i + 1) =~= want.take(i as int).push(want[i as int]));
        }
        r.push(row);
        i += 1;
    }
    assert(want.take(i as int) =~= want);
    r
}

/// What the debug log is told of a folder that was read.
pub open spec fn scanned_text(dir: Seq<char>, n: int) -> Seq<char> {
    "scanned "@ + dir + " — "@ + decimal(n) + " audio file(s)"@
}

/// What the box is told of a folder that was read.
pub open spec fn folder_text(shown: Seq<char>, n: int) -> Seq<char> {
    if n == 0 {
        "No audio files in "@ + shown
    } else {
        counted_text(n, "audio file"@) + " in "@ + shown
    }
}

/// What the debug log is told of a folder that was read.
fn scanned_line(dir: &str, n: usize) -> (r: String)
    ensures
        r@ == scanned_text(dir@, n as int),
{
    let mut s = owned("scanned ");
    s.push_str(dir);
    s.push_str(" — ");
    push_decimal(&mut s, n as u64);
    s.push_str(" audio file(s)");
    s
}

/// What the box is told of a folder that was read.
fn folder_line(shown: &str, n: usize) -> (r: String)
    ensures
        r@ == folder_text(shown@, n as int),
{
    if n == 0 {
        let mut s = owned("No audio files in ");
        s.push_str(shown);
        s
    } else {
        let mut s = count(n, "audio file");
        s.push_str(" in ");
        s.push_str(shown);
        s
    }
}

/// The paths of the ticked ones among the first `n` files.
pub open spec fn ticked_paths(audio: Seq<Track>, n: int) -> Seq<Seq<char>>
    decreases n,
{
    if n <= 0 {
        Seq::empty()
    } else if audio[n - 1].selected {
        ticked_paths(audio, n - 1).push(audio[n - 1].path)
    } else {
        ticked_paths(audio, n - 1)
    }
}

/// Where in the list, from `from` on, the file at a path first is.
pub open spec fn place_of_path(audio: Seq<Track>, path: Seq<char>, from: int) -> Option<int>
    decreases audio.len() - from,
{
    if from < 0 || from >= audio.len() {
        None
    } else if audio[from].path == path {
        Some(from)
    } else {
        place_of_path(audio, path, from + 1)
    }
}

/// A file's row, clear of any earlier run if it is part of this one.
pub open spec fn cleared_track(t: Track) -> Track {
    if t.selected {
        Track { status: Standing::Pending, heard: 0, length: 0, ..t }
    } else {
        t
    }
}

/// The list clear of the marks of any earlier run on the files in this one.
pub open spec fn cleared_tracks(audio: Seq<Track>) -> Seq<Track> {
    audio.map_values(|t: Track| cleared_track(t))
}

/// What is said as a transcription run starts.
pub open spec fn transcribing_text(files: int, labelling: bool) -> Seq<char> {
    "Transcribing "@ + counted_text(files, "file"@) + if labelling {
        ", following speakers through each episode"@
    } else {
        ", alternating between two speakers"@
    }
}

/// What is said as a transcription run starts.
fn transcribing_line(files: usize, labelling: bool) -> (r: String)
    ensures
        r@ == transcribing_text(files as int, labelling),
{
    let mut s = owned("Transcribing ");
    s.push_str(count(files, "file").as_str());
    s.push_str(
        if labelling {
            ", following speakers through each episode"
        } else {
            ", alternating between two speakers"
        },
    );
    s
}

impl Window {
    /// After reading a folder of episodes.
    pub open spec fn folder_loaded(
        self,
        dir: Seq<char>,
        files: Seq<Recording>,
        home: Option<Seq<char>>,
        sep: char,
    ) -> Window {
        Window { audio: fresh_tracks(files), audio_dir: Some(dir), ..self }.wished(
            Wish::Debug(scanned_text(dir, files.len() as int)),
        ).said(
            if files.len() == 0 {
                OutputKind::Muted
            } else {
                OutputKind::Plain
            },
            folder_text(elided_with(dir, home, sep), files.len() as int),
        )
    }

    /// The paths of the ticked episodes.
    pub open spec fn ticked_files(self) -> Seq<Seq<char>> {
        ticked_paths(self.audio, self.audio.len() as int)
    }

    /// After asking to transcribe.
    pub open spec fn transcribe_asked(self) -> Window {
        if self.ticked_files().len() == 0 || self.transcribing || !self.able() {
            self
        } else {
            self.asked(
                Question::Transcribe {
                    files: self.ticked_files().len() as usize,
                    labelling: self.labelling(),
                },
            )
        }
    }

    /// Where the programs and the model are, when all of them have a place.
    pub open spec fn equipment(self) -> Option<(Seq<char>, Seq<char>, Seq<char>)> {
        match (
            place_of(self.tools, Tool::Ffmpeg),
            place_of(self.tools, Tool::Whisper),
            place_of(self.tools, Tool::WhisperModel),
        ) {
            (Some(f), Some(w), Some(m)) => Some((f, w, m)),
            _ => None,
        }
    }

    /// After starting to transcribe.
    pub open spec fn transcribing_started(self) -> Window {
        match self.equipment() {
            None => self.said(
                OutputKind::Bad,
                "Something needed for transcribing has gone missing — press Check again."@,
            ),
            Some((ffmpeg, whisper, model)) => {
                let told = Window {
                    audio: cleared_tracks(self.audio),
                    transcribe_files: self.ticked_files(),
                    ..self
                }.said(
                    OutputKind::Plain,
                    transcribing_text(self.ticked_files().len() as int, self.labelling()),
                ).wished(
                    Wish::StartTranscribing {
                        files: self.ticked_files(),
                        ffmpeg,
                        whisper,
                        model,
                        label_speakers: self.labelling(),
                        skip_existing: self.skip_transcribed,
                        format: self.transcript_format,
                        style: self.transcript_style,
                    },
                );
                Window { transcribe_cancel: Some(false), transcribing: true, ..told }
            },
        }
    }

    /// After stopping the transcription run, if there is one.
    pub open spec fn transcribing_halted(self) -> Window {
        match self.transcribe_cancel {
            Some(_) => Window { transcribe_cancel: Some(true), ..self }.said(
                OutputKind::Muted,
                "Stopping — finishing the episode in hand…"@,
            ),
            None => self,
        }
    }
}

/// Clears the marks of any earlier run from the files in this one.
fn clear_ticked(audio: &mut Vec<AudioRow>)
    ensures
        tracks(final(audio)@) == cleared_tracks(tracks(old(audio)@)),
{
    let ghost before = tracks(audio@);
    let mut i: usize = 0;
    while i < audio.len()
        invariant
            i <= audio@.len(),
            audio@.len() == before.len(),
            before == tracks(old(audio)@),
            forall|j: int| 0 <= j < i ==> (#[trigger] audio@[j])@ == cleared_track(before[j]),
            forall|j: int| i <= j < audio@.len() ==> (#[trigger] audio@[j])@ == before[j],
        decreases audio@.len() - i,
    {
        let ghost was = audio@;
        assert(was[i as int]@ == before[i as int]);
        if audio[i].selected {
            audio[i].status = Status::Pending;
            audio[i].heard = 0;
            audio[i].length = 0;
        }
        assert(audio@[i as int]@ == cleared_track(before[i as int]));
        i += 1;
    }
    assert(tracks(audio@) =~= cleared_tracks(before));
}

impl PodBatchApp {
    /// List the audio found in a folder. `home` and `sep` are for showing the
    /// folder.
    pub fn load_audio_folder(
        &mut self,
        dir: String,
        files: Vec<AudioFile>,
        home: Option<&str>,
        sep: char,
    )
        ensures
            final(self)@ == old(self)@.folder_loaded(
                dir@,
                recordings(files@),
                text_of(home),
                sep,
            ),
    {
        let ghost before = self@;
        let scanned = scanned_line(dir.as_str(), files.len());
        let shown = elide_path(dir.as_str(), home, sep);
        let line = folder_line(shown.as_str(), files.len());
        self.audio = fresh_audio(&files);
        self.audio_dir = Some(dir);
        assert(self@ == (Window {
            audio: fresh_tracks(recordings(files@)),
            audio_dir: Some(dir@),
            ..before
        }));
        self.wish(Effect::Debug(scanned));
        self.say(
            if files.len() == 0 {
                OutputKind::Muted
            } else {
                OutputKind::Plain
            },
            line,
        );
    }

    /// The paths of the ticked episodes.
    pub fn ticked_audio(&self) -> (r: Vec<String>)
        ensures
            texts(r@) == self@.ticked_files(),
    {
        let ghost list = tracks(self.audio@);
        let mut r: Vec<String> = Vec::new();
        let mut i: usize = 0;
        assert(texts(r@) =~= Seq::empty());
        while i < self.audio.len()
            invariant
                i <= self.audio@.len(),
                list == tracks(self.audio@),
                texts(r@) == ticked_paths(list, i as int),
            decreases self.audio@.len() - i,
        {
            assert(list[i as int] == self.audio@[i as int]@);
            if self.audio[i].selected {
                let path = owned(self.audio[i].path.as_str());
                assert(texts(r@.push(path)) =~= texts(r@).push(path@));
                r.push(path);
            }
            i += 1;
        }
        r
    }

    /// Ask before transcribing, for the same reason a download asks: this is
    /// minutes per episode of the machine's full attention.
    pub fn ask_transcribe(&mut self)
        ensures
            final(self)@ == old(self)@.transcribe_asked(),
    {
        let ticked = self.ticked_audio();
        assert(texts(ticked@).len() == ticked@.len());
        let files: usize = ticked.len();
        if files == 0 || self.transcribing || !self.can_transcribe() {
            return ;
        }
        let labelling = self.will_label();
        self.ask(Dialog::Transcribe { files, labelling });
    }

    /// Starts transcribing the ticked episodes.
    pub fn start_transcribing(&mut self)
        ensures
            final(self)@ == old(self)@.transcribing_started(),
    {
        let ghost before = self@;
        let files = self.ticked_audio();
        assert(texts(files@).len() == files@.len());
        let ffmpeg = self.tool_path(Tool::Ffmpeg);
        let whisper = self.tool_path(Tool::Whisper);
        let model = self.tool_path(Tool::WhisperModel);
        let labelling = self.will_label();
        match (ffmpeg, whisper, model) {
            (Some(ffmpeg), Some(whisper), Some(model)) => {
                // Clear the marks from any previous run so the list reports
                // this one rather than a mixture of the two.
                self.transcribe_files = self.ticked_audio();
                clear_ticked(&mut self.audio);
                assert(self@ == (Window {
                    audio: cleared_tracks(before.audio),
                    transcribe_files: before.ticked_files(),
                    ..before
                }));
                self.say(OutputKind::Plain, transcribing_line(files.len(), labelling));
                let order = TranscribeOrder {
                    files,
                    ffmpeg,
                    whisper,
                    model,
                    label_speakers: labelling,
                    skip_existing: self.skip_transcribed,
                    format: self.transcript_format,
                    style: self.transcript_style,
                };
                self.wish(Effect::StartTranscribing(order));
                self.transcribe_cancel = Some(Cancel::new());
                self.transcribing = true;
            },
            _ => {
                self.say(
                    OutputKind::Bad,
                    owned(
                        "Something needed for transcribing has gone missing — press Check again.",
                    ),
                );
            },
        }
    }

    /// Stops the transcription run, if there is one.
    pub fn stop_transcribing(&mut self)
        ensures
            final(self)@ == old(self)@.transcribing_halted(),
    {
        let ghost before = self@;
        if self.transcribe_cancel.is_none() {
            return ;
        }
        let mut stopped = Cancel::new();
        stopped.cancel();
        self.transcribe_cancel = Some(stopped);
        assert(self@ == (Window { transcribe_cancel: Some(true), ..before }));
        self.say(OutputKind::Muted, owned("Stopping — finishing the episode in hand…"));
    }
}

/// Whether no two rows are for the same file.
pub open spec fn each_listed_once(audio: Seq<Track>) -> bool {
    forall|i: int, j: int|
        0 <= i < j < audio.len() ==> (#[trigger] audio[i]).path != (#[trigger] audio[j]).path
}

/// Every number a transcription run gives a file stands for a row with the path
/// of the file it was given under that number, which is a ticked one where the
/// list holds no file twice.
pub proof fn law_file_numbers_map_back(w: Window, i: int)
    requires
        w.equipment() is Some,
        0 <= i < w.ticked_files().len(),
    ensures
        match w.transcribing_started().track_of(i) {
            Some(row) => {
                &&& 0 <= row < w.audio.len()
                &&& w.audio[row].path == w.ticked_files()[i]
                &&& each_listed_once(w.audio) ==> w.audio[row].selected
            },
            None => false,
        },
{
    let after = w.transcribing_started();
    let path = w.ticked_files()[i];
    let k = lemma_ticked_path(w.audio, w.audio.len() as int, i);
    assert(after.audio =~= cleared_tracks(w.audio));
    assert(after.audio[k] == cleared_track(w.audio[k]));
    lemma_place_of_path(after.audio, path, 0, k);
    let row = place_of_path(after.audio, path, 0)->0;
    assert(after.audio[row] == cleared_track(w.audio[row]));
}

/// Reading the folder again while a run goes on loses no file that is still
/// there: its number stands for the row with its path in the new list.
pub proof fn law_reading_again_keeps_the_numbers(
    w: Window,
    dir: Seq<char>,
    files: Seq<Recording>,
    home: Option<Seq<char>>,
    sep: char,
    i: int,
    k: int,
)
    requires
        0 <= i < w.transcribe_files.len(),
        0 <= k < files.len(),
        files[k].path == w.transcribe_files[i],
    ensures
        match w.folder_loaded(dir, files, home, sep).track_of(i) {
            Some(row) => 0 <= row <= k && files[row].path == w.transcribe_files[i],
            None => false,
        },
{
    let audio = fresh_tracks(files);
    let path = w.transcribe_files[i];
    assert(w.folder_loaded(dir, files, home, sep).audio =~= audio);
    assert(audio[k] == fresh_track(files[k]));
    lemma_place_of_path(audio, path, 0, k);
    let row = place_of_path(audio, path, 0)->0;
    assert(audio[row] == fresh_track(files[row]));
}

/// Every ticked path is the path of a ticked row.
proof fn lemma_ticked_path(audio: Seq<Track>, n: int, i: int) -> (k: int)
    requires
        0 <= n <= audio.len(),
        0 <= i < ticked_paths(audio, n).len(),
    ensures
        0 <= k < n,
        audio[k].selected,
        audio[k].path == ticked_paths(audio, n)[i],
    decreases n,
{
    if i < ticked_paths(audio, n - 1).len() {
        lemma_ticked_path(audio, n - 1, i)
    } else {
        n - 1
    }
}

/// A path that is listed is found, no later than where it is listed.
proof fn lemma_place_of_path(audio: Seq<Track>, path: Seq<char>, from: int, k: int)
    requires
        0 <= from <= k < audio.len(),
        audio[k].path == path,
    ensures
        match place_of_path(audio, path, from) {
            Some(row) => from <= row <= k && audio[row].path == path,
            None => false,
        },
    decreases k - from,
{
    if audio[from].path != path {
        lemma_place_of_path(audio, path, from + 1, k);
    }
}

// ---- Installing -----------------------------------------------------------

/// What is said as an install starts, for the kinds that are run from here.
pub open spec fn installing_text(tool: Tool, remedy: Remedy) -> Option<Seq<char>> {
    match remedy {
        Remedy::Run { display, .. } => Some("Running: "@ + display),
        Remedy::Download { bytes, .. } => Some(
            "Downloading "@ + tool.name() + " ("@ + bytes_text(bytes as int) + ")"@,
        ),
        _ => None,
    }
}

/// What is said as an install starts, for the kinds that are run from here.
fn installing_line(tool: Tool, install: &Install) -> (r: Option<String>)
    ensures
        optional_text(r) == installing_text(tool, install@),
{
    match install {
        Install::Run { display, .. } => {
            let mut s = owned("Running: ");
            s.push_str(display.as_str());
            Some(s)
        },
        Install::Download { bytes, .. } => {
            let mut s = owned("Downloading ");
            s.push_str(tool.label());
            s.push_str(" (");
            s.push_str(human_bytes(*bytes).as_str());
            s.push_str(")");
            Some(s)
        },
        _ => None,
    }
}

impl Window {
    /// After starting an install that was agreed to.
    pub open spec fn install_started(self, tool: Tool, remedy: Remedy) -> Window {
        match installing_text(tool, remedy) {
            None => self,
            Some(line) => {
                let told = self.said(OutputKind::Plain, line).wished(
                    Wish::StartInstall { tool, remedy },
                );
                Window {
                    transcribe_cancel: Some(false),
                    installing: Some(tool),
                    install_progress: None,
                    ..told
                }
            },
        }
    }
}

impl PodBatchApp {
    /// Begin an install the user has agreed to.
    ///
    /// The guided and the manual kind are not things we run, and the dialog for
    /// them offers a terminal or a page rather than a Yes.
    pub fn start_install(&mut self, tool: Tool, install: Install)
        ensures
            final(self)@ == old(self)@.install_started(tool, install@),
    {
        match installing_line(tool, &install) {
            None => {},
            Some(line) => {
                self.say(OutputKind::Plain, line);
                self.wish(Effect::StartInstall { tool, install });
                self.transcribe_cancel = Some(Cancel::new());
                self.installing = Some(tool);
                self.install_progress = None;
            },
        }
    }
}

} // verus!
