//! What can be asked for, from the keyboard or with the mouse.

use crate::app::rows;
use crate::app::tracks;
use crate::app::AudioRow;
use crate::app::Effect;
use crate::app::FeedRow;
use crate::app::PodBatchApp;
use crate::app::Row;
use crate::app::Tab;
use crate::app::Track;
use crate::app::Window;
use crate::app::Wish;
use crate::app::transcripts::recordings;
use crate::app::transcripts::AudioFile;
use crate::app::transcripts::Recording;
use crate::feed::optional_text;
use crate::questions::Dialog;
use crate::questions::Question;
use crate::text::chars_of;
use crate::text::owned;
use crate::text::texts;
use crate::util::text_of;
use vstd::prelude::*;

verus! {

/// Something the user can ask for without reaching for the mouse.
///
/// Every action here is also a control on screen; the shortcuts are a second
/// way to the same place, not a hidden set of features. Kept as data so that
/// the keys, what they do, and the list of them written out in Settings all
/// come from one table and cannot drift apart.
#[derive(Clone, Copy, PartialEq, Eq, Debug, Structural)]
pub enum Action {
    ChooseOpml,
    Start,
    Stop,
    Show(Tab),
    SelectAll,
    SelectNone,
    ChooseAudioFolder,
    Transcribe,
}

/// The keys that shortcuts are made with.
#[derive(Clone, Copy, PartialEq, Eq, Debug, Structural)]
pub enum Key {
    A,
    O,
    Enter,
    Escape,
    Num1,
    Num2,
    Num3,
}

/// The keys held down together. `command` is Cmd on a Mac and Ctrl everywhere
/// else, so one table is right on both platforms.
#[derive(Clone, Copy, PartialEq, Eq, Debug, Structural)]
pub struct Chord {
    pub command: bool,
    pub shift: bool,
    pub key: Key,
}

/// What a shortcut does, the keys, and how it is described.
#[derive(Clone, Copy, Debug)]
pub struct Shortcut {
    pub action: Action,
    pub chord: Chord,
    pub description: &'static str,
}

/// The actions and their keys, in the order they are listed.
pub open spec fn shortcut_table() -> Seq<(Action, Chord)> {
    seq![
        (Action::ChooseOpml, Chord { command: true, shift: false, key: Key::O }),
        (Action::Start, Chord { command: true, shift: false, key: Key::Enter }),
        (Action::Stop, Chord { command: false, shift: false, key: Key::Escape }),
        (Action::ChooseAudioFolder, Chord { command: true, shift: true, key: Key::O }),
        (Action::Transcribe, Chord { command: true, shift: true, key: Key::Enter }),
        (Action::Show(Tab::Downloads), Chord { command: true, shift: false, key: Key::Num1 }),
        (Action::Show(Tab::Transcripts), Chord { command: true, shift: false, key: Key::Num2 }),
        (Action::Show(Tab::Settings), Chord { command: true, shift: false, key: Key::Num3 }),
        (Action::SelectAll, Chord { command: true, shift: false, key: Key::A }),
        (Action::SelectNone, Chord { command: true, shift: true, key: Key::A }),
    ]
}

/// How an action is described in the list of shortcuts.
pub open spec fn action_text(action: Action) -> Seq<char> {
    match action {
        Action::ChooseOpml => "Choose an OPML subscription list"@,
        Action::Start => "Start downloading"@,
        Action::Stop => "Stop the run in progress, after asking"@,
        Action::Show(Tab::Downloads) => "Go to the Downloads tab"@,
        Action::Show(Tab::Transcripts) => "Go to the Transcripts tab"@,
        Action::Show(Tab::Settings) => "Go to the Settings tab"@,
        Action::SelectAll => "Tick every podcast"@,
        Action::SelectNone => "Untick every podcast"@,
        Action::ChooseAudioFolder => "Choose a folder of episodes to transcribe"@,
        Action::Transcribe => "Start transcribing"@,
    }
}

/// How an action is described in the list of shortcuts.
pub fn describe_action(action: Action) -> (r: &'static str)
    ensures
        r@ == action_text(action),
{
    match action {
        Action::ChooseOpml => "Choose an OPML subscription list",
        Action::Start => "Start downloading",
        Action::Stop => "Stop the run in progress, after asking",
        Action::Show(Tab::Downloads) => "Go to the Downloads tab",
        Action::Show(Tab::Transcripts) => "Go to the Transcripts tab",
        Action::Show(Tab::Settings) => "Go to the Settings tab",
        Action::SelectAll => "Tick every podcast",
        Action::SelectNone => "Untick every podcast",
        Action::ChooseAudioFolder => "Choose a folder of episodes to transcribe",
        Action::Transcribe => "Start transcribing",
    }
}

/// One line of the shortcut table.
fn shortcut(action: Action, command: bool, shift: bool, key: Key) -> (r: Shortcut)
    ensures
        r.action == action,
        r.chord == (Chord { command, shift, key }),
        r.description@ == action_text(action),
{
    Shortcut { action, chord: Chord { command, shift, key }, description: describe_action(action) }
}

/// The shortcut table: what each does, the keys, and how it is described.
pub fn shortcuts() -> (r: Vec<Shortcut>)
    ensures
        r@.map_values(|s: Shortcut| (s.action, s.chord)) == shortcut_table(),
        forall|i: int|
            0 <= i < r@.len() ==> (#[trigger] r@[i]).description@ == action_text(r@[i].action),
{
    let mut r: Vec<Shortcut> = Vec::new();
    r.push(shortcut(Action::ChooseOpml, true, false, Key::O));
    r.push(shortcut(Action::Start, true, false, Key::Enter));
    r.push(shortcut(Action::Stop, false, false, Key::Escape));
    r.push(shortcut(Action::ChooseAudioFolder, true, true, Key::O));
    r.push(shortcut(Action::Transcribe, true, true, Key::Enter));
    r.push(shortcut(Action::Show(Tab::Downloads), true, false, Key::Num1));
    r.push(shortcut(Action::Show(Tab::Transcripts), true, false, Key::Num2));
    r.push(shortcut(Action::Show(Tab::Settings), true, false, Key::Num3));
    r.push(shortcut(Action::SelectAll, true, false, Key::A));
    r.push(shortcut(Action::SelectNone, true, true, Key::A));
    assert(r@.map_values(|s: Shortcut| (s.action, s.chord)) =~= shortcut_table());
    r
}

/// No two shortcuts share a chord — two actions on one chord means one of them
/// silently never happens — and no action has two.
pub proof fn law_shortcuts_are_distinct(i: int, j: int)
    requires
        0 <= i < j < shortcut_table().len(),
    ensures
        shortcut_table()[i].1 != shortcut_table()[j].1,
        shortcut_table()[i].0 != shortcut_table()[j].0,
{
}

/// Every action can be reached from the keyboard.
pub proof fn law_every_action_has_a_shortcut(action: Action)
    ensures
        exists|i: int| 0 <= i < shortcut_table().len() && (#[trigger] shortcut_table()[i]).0
            == action,
{
    let t = shortcut_table();
    assert(t[0].0 == Action::ChooseOpml && t[1].0 == Action::Start && t[2].0 == Action::Stop
        && t[3].0 == Action::ChooseAudioFolder && t[4].0 == Action::Transcribe && t[5].0
        == Action::Show(Tab::Downloads) && t[6].0 == Action::Show(Tab::Transcripts) && t[7].0
        == Action::Show(Tab::Settings) && t[8].0 == Action::SelectAll && t[9].0
        == Action::SelectNone);
}

// ---- Doing it -------------------------------------------------------------

/// Every podcast ticked, or none.
pub open spec fn ticked_feeds(feeds: Seq<Row>, yes: bool) -> Seq<Row> {
    feeds.map_values(|r: Row| Row { selected: yes, ..r })
}

/// Every episode ticked, or none.
pub open spec fn ticked_tracks(audio: Seq<Track>, yes: bool) -> Seq<Track> {
    audio.map_values(|t: Track| Track { selected: yes, ..t })
}

/// Ticks every podcast, or none.
fn tick_feeds(feeds: &mut Vec<FeedRow>, yes: bool)
    ensures
        rows(final(feeds)@) == ticked_feeds(rows(old(feeds)@), yes),
{
    let ghost before = rows(feeds@);
    let mut i: usize = 0;
    while i < feeds.len()
        invariant
            i <= feeds@.len(),
            feeds@.len() == before.len(),
            before == rows(old(feeds)@),
            forall|j: int|
                0 <= j < i ==> (#[trigger] feeds@[j])@ == (Row { selected: yes, ..before[j] }),
            forall|j: int| i <= j < feeds@.len() ==> (#[trigger] feeds@[j])@ == before[j],
        decreases feeds@.len() - i,
    {
        assert(feeds@[i as int]@ == before[i as int]);
        feeds[i].selected = yes;
        i += 1;
    }
    assert(rows(feeds@) =~= ticked_feeds(before, yes));
}

/// Ticks every episode, or none.
fn tick_audio(audio: &mut Vec<AudioRow>, yes: bool)
    ensures
        tracks(final(audio)@) == ticked_tracks(tracks(old(audio)@), yes),
{
    let ghost before = tracks(audio@);
    let mut i: usize = 0;
    while i < audio.len()
        invariant
            i <= audio@.len(),
            audio@.len() == before.len(),
            before == tracks(old(audio)@),
            forall|j: int|
                0 <= j < i ==> (#[trigger] audio@[j])@ == (Track { selected: yes, ..before[j] }),
            forall|j: int| i <= j < audio@.len() ==> (#[trigger] audio@[j])@ == before[j],
        decreases audio@.len() - i,
    {
        assert(audio@[i as int]@ == before[i as int]);
        audio[i].selected = yes;
        i += 1;
    }
    assert(tracks(audio@) =~= ticked_tracks(before, yes));
}

impl Window {
    /// With the machine looked over, if it has not been yet.
    pub open spec fn looked_over(self) -> Window {
        if self.tools.len() == 0 {
            self.wished(Wish::Survey)
        } else {
            self
        }
    }

    /// With every row of the list in view ticked, or none, unless a run has that
    /// list.
    pub open spec fn selected(self, yes: bool) -> Window {
        if self.tab == Tab::Transcripts {
            if self.transcribing {
                self
            } else {
                Window { audio: ticked_tracks(self.audio, yes), ..self }
            }
        } else if self.running {
            self
        } else {
            Window { feeds: ticked_feeds(self.feeds, yes), ..self }
        }
    }

    /// After asking for something.
    pub open spec fn performed(self, action: Action) -> Window {
        match action {
            Action::ChooseOpml => if self.running {
                self
            } else {
                self.wished(Wish::PickOpml)
            },
            Action::Start => if self.running {
                self
            } else {
                Window { tab: Tab::Downloads, ..self }.started()
            },
            Action::Stop => if self.running && !self.cancelling && self.dialog is None {
                self.asked(Question::Stop)
            } else {
                self
            },
            Action::Show(tab) => {
                let there = Window { tab, ..self };
                if tab == Tab::Transcripts {
                    there.looked_over()
                } else {
                    there
                }
            },
            Action::SelectAll => self.selected(true),
            Action::SelectNone => self.selected(false),
            Action::ChooseAudioFolder => if self.transcribing {
                self
            } else {
                self.wished(Wish::PickAudioFolder)
            },
            Action::Transcribe => if self.transcribing || self.dialog is Some {
                self
            } else {
                Window { tab: Tab::Transcripts, ..self }.transcribe_asked()
            },
        }
    }

    /// After a folder of episodes has been chosen and read.
    pub open spec fn folder_chosen(
        self,
        dir: Seq<char>,
        files: Seq<Recording>,
        home: Option<Seq<char>>,
        sep: char,
    ) -> Window {
        Window { tab: Tab::Transcripts, ..self }.looked_over().folder_loaded(dir, files, home, sep)
    }
}

impl PodBatchApp {
    /// Looks the machine over, if it has not been yet.
    fn look_over(&mut self)
        ensures
            final(self)@ == old(self)@.looked_over(),
    {
        if self.tools.len() == 0 {
            self.wish(Effect::Survey);
        }
    }

    /// Ticks every row of the list in view, or none.
    ///
    /// Ticking is per-tab: the same chord means the podcasts on one and the
    /// episodes on the other, so it always acts on the list in view.
    fn select(&mut self, yes: bool)
        ensures
            final(self)@ == old(self)@.selected(yes),
    {
        match self.tab {
            Tab::Transcripts => {
                if !self.transcribing {
                    tick_audio(&mut self.audio, yes);
                }
            },
            _ => {
                if !self.running {
                    tick_feeds(&mut self.feeds, yes);
                }
            },
        }
    }

    /// Do what a shortcut asked for, if it is a thing that can be done now.
    ///
    /// The guards are the same ones the buttons apply, so a shortcut can never
    /// reach a state a click could not — pressing Start twice does not start
    /// two runs, and Escape during no run does nothing rather than something.
    pub fn perform(&mut self, action: Action)
        ensures
            final(self)@ == old(self)@.performed(action),
    {
        let ghost before = self@;
        match action {
            Action::ChooseOpml => {
                if !self.running {
                    self.wish(Effect::PickOpml);
                }
            },
            Action::Start => {
                if !self.running {
                    self.tab = Tab::Downloads;
                    assert(self@ == (Window { tab: Tab::Downloads, ..before }));
                    self.start();
                }
            },
            Action::Stop => {
                if self.running && !self.cancelling && self.dialog.is_none() {
                    self.ask(Dialog::Stop);
                }
            },
            Action::Show(tab) => {
                self.tab = tab;
                assert(self@ == (Window { tab, ..before }));
                // The tab is no use until it knows what the machine has, and
                // this is the first moment it is worth the cost of finding out.
                if tab == Tab::Transcripts {
                    self.look_over();
                }
            },
            Action::SelectAll => self.select(true),
            Action::SelectNone => self.select(false),
            Action::ChooseAudioFolder => {
                if !self.transcribing {
                    self.wish(Effect::PickAudioFolder);
                }
            },
            Action::Transcribe => {
                if !self.transcribing && self.dialog.is_none() {
                    self.tab = Tab::Transcripts;
                    assert(self@ == (Window { tab: Tab::Transcripts, ..before }));
                    self.ask_transcribe();
                }
            },
        }
    }

    /// Goes to a folder of episodes that was chosen and read.
    pub fn open_audio_folder(
        &mut self,
        dir: String,
        files: Vec<AudioFile>,
        home: Option<&str>,
        sep: char,
    )
        ensures
            final(self)@ == old(self)@.folder_chosen(
                dir@,
                recordings(files@),
                text_of(home),
                sep,
            ),
    {
        let ghost before = self@;
        self.tab = Tab::Transcripts;
        assert(self@ == (Window { tab: Tab::Transcripts, ..before }));
        self.look_over();
        self.load_audio_folder(dir, files, home, sep);
    }

    /// Whether shortcuts are listened for.
    ///
    /// An open dialog has the floor: Escape belongs to it — the key that asked
    /// the question must not also answer it — and the rest are actions on a
    /// window the user is currently being asked about. And a field being typed
    /// into wants these keys for itself: in a number field mid-edit, Cmd+A means
    /// "select all of this text" and Escape means "cancel the edit", and neither
    /// should reach the podcast list.
    pub fn hears_shortcuts(&self, typing: bool) -> (r: bool)
        ensures
            r == (self@.dialog is None && !typing),
    {
        self.dialog.is_none() && !typing
    }

    /// Takes what was dropped on the window: a folder becomes where episodes
    /// go, and a file is read as a subscription list by whoever drives this.
    /// Nothing is taken while a run is going.
    pub fn dropped(&mut self, path: String, is_folder: bool) -> (r: Option<String>)
        ensures
            final(self)@ == (if !old(self)@.running && is_folder {
                Window { out_dir: path@, ..old(self)@ }
            } else {
                old(self)@
            }),
            optional_text(r) == (if !old(self)@.running && !is_folder {
                Some(path@)
            } else {
                None
            }),
    {
        if self.running {
            None
        } else if is_folder {
            self.out_dir = path;
            None
        } else {
            Some(path)
        }
    }
}

/// The first of some paths that is a path at all.
pub open spec fn first_path(paths: Seq<Seq<char>>) -> Option<Seq<char>>
    decreases paths.len(),
{
    if paths.len() == 0 {
        None
    } else if paths[0].len() > 0 {
        Some(paths[0])
    } else {
        first_path(paths.skip(1))
    }
}

/// Which of the things dropped on the window is taken: the first that has a
/// path.
pub fn dropped_path(paths: &Vec<String>) -> (r: Option<String>)
    ensures
        optional_text(r) == first_path(texts(paths@)),
{
    let ghost list = texts(paths@);
    let mut i: usize = 0;
    assert(list.skip(0) =~= list);
    while i < paths.len()
        invariant
            i <= paths@.len(),
            list == texts(paths@),
            first_path(list) == first_path(list.skip(i as int)),
        decreases paths@.len() - i,
    {
        assert(list.skip(i as int)[0] == paths@[i as int]@);
        assert(list.skip(i as int).skip(1) =~= list.skip(i + 1));
        if chars_of(paths[i].as_str()).len() > 0 {
            return Some(owned(paths[i].as_str()));
        }
        i += 1;
    }
    None
}

/// While a run is going, nothing that can be asked for starts another one,
/// changes which podcasts are ticked, or touches the run.
pub proof fn law_a_run_is_not_disturbed(w: Window, action: Action)
    requires
        w.running,
    ensures
        w.performed(action).feeds == w.feeds,
        w.performed(action).running_map == w.running_map,
        w.performed(action).running,
        w.performed(action).cancel == w.cancel,
        w.performed(action).proceed == w.proceed,
        w.performed(action).cancelling == w.cancelling,
{
}

/// Asking to stop asks first: it never stops anything by itself.
pub proof fn law_stopping_asks_first(w: Window)
    ensures
        w.performed(Action::Stop).cancel == w.cancel,
        w.performed(Action::Stop).cancelling == w.cancelling,
        w.running && !w.cancelling && w.dialog is None ==> w.performed(Action::Stop).dialog
            == Some(Question::Stop),
        !w.running ==> w.performed(Action::Stop) == w,
{
}

/// A question on screen is never replaced by asking for something else.
pub proof fn law_a_question_keeps_the_floor(w: Window, action: Action)
    requires
        w.dialog is Some,
    ensures
        w.performed(action).dialog == w.dialog,
{
}

/// Ticking all or none reaches every row of the list in view, and leaves the
/// other list alone.
pub proof fn law_ticking_follows_the_tab(w: Window, yes: bool)
    requires
        !w.running,
        !w.transcribing,
    ensures
        w.tab == Tab::Transcripts ==> {
            &&& w.selected(yes).feeds == w.feeds
            &&& forall|i: int|
                0 <= i < w.audio.len() ==> (#[trigger] w.selected(yes).audio[i]).selected == yes
        },
        w.tab != Tab::Transcripts ==> {
            &&& w.selected(yes).audio == w.audio
            &&& forall|i: int|
                0 <= i < w.feeds.len() ==> (#[trigger] w.selected(yes).feeds[i]).selected == yes
        },
{
}

} // verus!
