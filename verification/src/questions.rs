//! The questions put to the user, over the top of everything else.
//!
//! Two things are asked before they are done: starting a run, once the feeds
//! have been read and the size of the job is known, and stopping one. Putting
//! anything on the user's machine is asked too, one thing at a time. All of them
//! go through [`Dialog`], and are asked the same way whether the button or the
//! keyboard set them off.

use crate::engine::Plan;
use crate::feed::optional_text;
use crate::text::decimal;
use crate::text::owned;
use crate::text::push_decimal;
use crate::text::texts;
use crate::tools::elide_path;
use crate::tools::elided_with;
use crate::tools::Install;
use crate::tools::Remedy;
use crate::tools::Tool;
use crate::tools::OLLAMA_MODEL_BYTES;
use crate::util::bytes_text;
use crate::util::counted_text;
use crate::util::duration_text;
use crate::util::human_bytes;
use crate::util::human_duration;
use crate::util::human_rate;
use crate::util::push_counted;
use crate::util::rate_text;
use crate::util::text_of;
use crate::util::transfer_seconds;
use crate::util::transfer_wait;
use crate::util::Rate;
use vstd::prelude::*;

verus! {

/// A question put to the user.
///
/// Only one can be up at a time: the keyboard is held while a dialog is open,
/// and the buttons underneath are behind the modal.
#[derive(Debug)]
pub enum Dialog {
    /// The feeds have been read; this is what downloading them would cost.
    Confirm(Plan),
    /// A run is going and something asked for it to stop.
    Stop,
    /// Something is about to be put on the user's machine.
    ///
    /// Never skipped and never batched: nothing is installed without asking, so
    /// every package, every model and every download is its own question with
    /// the exact command written out in it.
    Install { tool: Tool, install: Install },
    /// Transcribing is minutes per episode, so the size of the job is quoted
    /// before it starts for the same reason a download is.
    Transcribe { files: usize, labelling: bool },
    /// A transcription run is going and something asked for it to stop.
    StopTranscribing,
}

/// What a dialog asks.
pub enum Question {
    Confirm(Plan),
    Stop,
    Install { tool: Tool, remedy: Remedy },
    Transcribe { files: usize, labelling: bool },
    StopTranscribing,
}

impl View for Dialog {
    type V = Question;

    open spec fn view(&self) -> Question {
        match self {
            Dialog::Confirm(plan) => Question::Confirm(*plan),
            Dialog::Stop => Question::Stop,
            Dialog::Install { tool, install } => Question::Install {
                tool: *tool,
                remedy: install@,
            },
            Dialog::Transcribe { files, labelling } => Question::Transcribe {
                files: *files,
                labelling: *labelling,
            },
            Dialog::StopTranscribing => Question::StopTranscribing,
        }
    }
}

/// A count with its noun.
pub fn count(n: usize, noun: &str) -> (r: String)
    ensures
        r@ == counted_text(n as int, noun@),
{
    let mut s = String::new();
    push_counted(&mut s, n as u64, noun);
    assert(s@ =~= counted_text(n as int, noun@));
    s
}

impl Question {
    /// The question, as the debug log names it.
    pub open spec fn name(self) -> Seq<char> {
        match self {
            Question::Confirm(plan) => "\"download "@ + decimal(plan.episodes as int)
                + " episode(s), "@ + bytes_text(plan.bytes as int) + "?\""@,
            Question::Stop => "\"stop downloading?\""@,
            Question::Install { tool, .. } => "\"install "@ + tool.name() + "?\""@,
            Question::Transcribe { files, .. } => "\"transcribe "@ + decimal(files as int)
                + " file(s)?\""@,
            Question::StopTranscribing => "\"stop transcribing?\""@,
        }
    }
}

impl Dialog {
    /// The question, as the debug log names it — a run that did nothing is
    /// usually a question somebody answered, and this is what says which.
    pub fn describe(&self) -> (r: String)
        ensures
            r@ == self@.name(),
    {
        match self {
            Dialog::Confirm(plan) => {
                let mut s = owned("\"download ");
                push_decimal(&mut s, plan.episodes as u64);
                s.push_str(" episode(s), ");
                s.push_str(human_bytes(plan.bytes).as_str());
                s.push_str("?\"");
                s
            },
            Dialog::Stop => owned("\"stop downloading?\""),
            Dialog::Install { tool, .. } => {
                let mut s = owned("\"install ");
                s.push_str(tool.label());
                s.push_str("?\"");
                s
            },
            Dialog::Transcribe { files, .. } => {
                let mut s = owned("\"transcribe ");
                push_decimal(&mut s, *files as u64);
                s.push_str(" file(s)?\"");
                s
            },
            Dialog::StopTranscribing => owned("\"stop transcribing?\""),
        }
    }
}

/// A speed to estimate from, and where it came from — which decides how the
/// estimate built on it can honestly be worded.
#[derive(Clone, Copy, Debug, PartialEq, Eq, Structural)]
pub enum Speed {
    /// One connection, timed on a slice of a real episode before the run. The
    /// run puts several transfers in flight at once, so a time worked out from
    /// this is a ceiling: the answer should come out quicker, not slower.
    Probed(Rate),
    /// What a whole run actually managed, start to finish. This already counts
    /// everything that was running at once, so it needs no such allowance.
    Measured(Rate),
}

impl Speed {
    /// The rate behind the speed.
    pub open spec fn of(self) -> Rate {
        match self {
            Speed::Probed(r) => r,
            Speed::Measured(r) => r,
        }
    }

    /// The rate behind the speed.
    pub fn rate(self) -> (r: Rate)
        ensures
            r == self.of(),
    {
        match self {
            Speed::Probed(r) => r,
            Speed::Measured(r) => r,
        }
    }
}

/// The question at the top of the confirmation box.
pub open spec fn headline_text(plan: Plan) -> Seq<char> {
    "Download "@ + counted_text(plan.episodes as int, "episode"@) + "?"@
}

/// The question at the top of the confirmation box.
pub fn plan_headline(plan: &Plan) -> (r: String)
    ensures
        r@ == headline_text(*plan),
{
    let mut s = owned("Download ");
    s.push_str(count(plan.episodes, "episode").as_str());
    s.push_str("?");
    s
}

/// How much there is to fetch, as far as the feeds say.
pub open spec fn amount_text(plan: Plan) -> Seq<char> {
    if plan.episodes <= plan.unsized_episodes {
        "None of them says how big it is, so there is no telling how much there is to fetch."@
    } else if plan.unsized_episodes == 0 {
        bytes_text(plan.bytes as int) + " to fetch."@
    } else {
        bytes_text(plan.bytes as int) + " to fetch, plus "@ + counted_text(
            plan.unsized_episodes as int,
            "episode"@,
        ) + " that don't say how big they are."@
    }
}

/// How long that takes. "less than a minute" is already a bound and takes no
/// "about" in front of it; a figure in minutes takes one, and takes "at least"
/// instead when episodes are missing from the sum it was made from. A probe is
/// one connection's worth; several run at once, so the figure it gives is the
/// slow end of what to expect, and saying so is the difference between an
/// estimate and a promise.
pub open spec fn time_text(plan: Plan, speed: Option<Speed>, concurrency: usize) -> Seq<char> {
    let wait = match speed {
        Some(s) => transfer_wait(plan.bytes, s.of()),
        None => None,
    };
    match (speed, wait) {
        (Some(s), Some(w)) if plan.bytes > 0 => {
            let estimate = duration_text(Some(w.seconds));
            let sentence = if w.under_a_minute {
                if plan.unsized_episodes > 0 {
                    "that is "@ + estimate + " for the ones that say"@
                } else {
                    "that is "@ + estimate
                }
            } else {
                if plan.unsized_episodes > 0 {
                    "that is at least "@ + estimate
                } else {
                    "that is about "@ + estimate
                }
            };
            let one = s is Probed && concurrency > 1;
            "At around "@ + rate_text(s.of().speed() as int) + (if one {
                " on one connection"@
            } else {
                ""@
            }) + ", "@ + sentence + (if one {
                " — likely quicker, with "@ + decimal(concurrency as int) + " downloading at once"@
            } else {
                ""@
            }) + "."@
        },
        _ => "How long that takes is anyone's guess — there was nothing to measure your connection against."@,
    }
}

/// What the confirmation box says underneath the question: how much, how long,
/// and what is already here.
pub open spec fn plan_text(plan: Plan, speed: Option<Speed>, concurrency: usize) -> Seq<Seq<char>> {
    seq![amount_text(plan), time_text(plan, speed, concurrency)] + (if plan.skipped > 0 {
        seq![
            counted_text(plan.skipped as int, "episode"@)
                + " already downloaded, and will be left alone."@,
        ]
    } else {
        Seq::empty()
    })
}

/// Says how much there is to fetch.
fn say_amount(plan: &Plan) -> (r: String)
    ensures
        r@ == amount_text(*plan),
{
    if plan.episodes <= plan.unsized_episodes {
        return owned(
            "None of them says how big it is, so there is no telling how much there is to fetch.",
        );
    }
    let mut s = human_bytes(plan.bytes);
    if plan.unsized_episodes == 0 {
        s.push_str(" to fetch.");
    } else {
        s.push_str(" to fetch, plus ");
        s.push_str(count(plan.unsized_episodes, "episode").as_str());
        s.push_str(" that don't say how big they are.");
    }
    s
}

/// Says how long it takes.
fn say_time(plan: &Plan, speed: Option<Speed>, concurrency: usize) -> (r: String)
    ensures
        r@ == time_text(*plan, speed, concurrency),
{
    if plan.bytes > 0 {
        if let Some(s) = speed {
            if let Some(w) = transfer_seconds(plan.bytes, s.rate()) {
                let estimate = human_duration(Some(w.seconds));
                let mut sentence = owned(
                    if w.under_a_minute {
                        "that is "
                    } else if plan.unsized_episodes > 0 {
                        "that is at least "
                    } else {
                        "that is about "
                    },
                );
                sentence.push_str(estimate.as_str());
                if w.under_a_minute && plan.unsized_episodes > 0 {
                    sentence.push_str(" for the ones that say");
                }
                let probed = match s {
                    Speed::Probed(_) => true,
                    Speed::Measured(_) => false,
                };
                let one = probed && concurrency > 1;
                let mut allowance = owned("");
                if one {
                    allowance = owned(" — likely quicker, with ");
                    push_decimal(&mut allowance, concurrency as u64);
                    allowance.push_str(" downloading at once");
                }
                let mut line = owned("At around ");
                line.push_str(human_rate(s.rate().per_second()).as_str());
                line.push_str(
                    if one {
                        " on one connection"
                    } else {
                        ""
                    },
                );
                line.push_str(", ");
                line.push_str(sentence.as_str());
                line.push_str(allowance.as_str());
                line.push_str(".");
                return line;
            }
        }
    }
    owned(
        "How long that takes is anyone's guess — there was nothing to measure your connection against.",
    )
}

/// What the confirmation box says underneath the question.
///
/// The point of the box is that "download the lot" can mean four minutes or
/// four hours, and until the feeds have been read nobody — the user or the app
/// — can tell which. So it says how much, how fast the line looks, and how long
/// that comes to, and it says which of those it is unsure about: an estimate
/// that hides its own footing is worse than none.
pub fn plan_lines(plan: &Plan, speed: Option<Speed>, concurrency: usize) -> (r: Vec<String>)
    ensures
        texts(r@) == plan_text(*plan, speed, concurrency),
{
    let mut lines: Vec<String> = Vec::new();
    lines.push(say_amount(plan));
    lines.push(say_time(plan, speed, concurrency));
    if plan.skipped > 0 {
        let mut s = count(plan.skipped, "episode");
        s.push_str(" already downloaded, and will be left alone.");
        lines.push(s);
    }
    assert(texts(lines@) =~= plan_text(*plan, speed, concurrency));
    lines
}

/// No time is ever put on a job whose size or speed is unknown.
pub proof fn law_no_estimate_without_footing(plan: Plan, speed: Option<Speed>, concurrency: usize)
    requires
        plan.bytes == 0 || speed is None || !speed->0.of().usable(),
    ensures
        time_text(plan, speed, concurrency)
            == "How long that takes is anyone's guess — there was nothing to measure your connection against."@,
{
}

/// How a question is put: what stands in the box, and on its two buttons.
#[derive(Debug)]
pub struct Wording {
    pub headline: String,
    pub lines: Vec<String>,
    pub yes: &'static str,
    pub no: &'static str,
    /// What tells this box from the others, so that a press on one is never
    /// taken for a press on another.
    pub id: &'static str,
    /// A command shown in full and offered for copying — retyping one by hand is
    /// how people end up running something subtly different from what they were
    /// shown.
    pub command: Option<String>,
}

/// What the wording of a question says.
pub struct Put {
    pub headline: Seq<char>,
    pub lines: Seq<Seq<char>>,
    pub yes: Seq<char>,
    pub no: Seq<char>,
    pub id: Seq<char>,
    pub command: Option<Seq<char>>,
}

impl View for Wording {
    type V = Put;

    open spec fn view(&self) -> Put {
        Put {
            headline: self.headline@,
            lines: texts(self.lines@),
            yes: self.yes@,
            no: self.no@,
            id: self.id@,
            command: optional_text(self.command),
        }
    }
}

/// How installing something is put. Every branch names the thing, says what it
/// is for, and — where there is one — shows the exact command. The kinds differ
/// in what "yes" does, so they differ in what the button says.
pub open spec fn install_put(
    tool: Tool,
    remedy: Remedy,
    home: Option<Seq<char>>,
    sep: char,
) -> Put {
    let headline = "Install "@ + tool.name() + "?"@;
    match remedy {
        Remedy::Run { display, .. } => Put {
            headline,
            lines: seq![
                tool.purpose(),
                "This runs the command below on your machine."@,
                if tool == Tool::OllamaModel {
                    "It downloads about "@ + bytes_text(OLLAMA_MODEL_BYTES as int) + ", once."@
                } else {
                    "The package manager will say what it is fetching."@
                },
            ],
            yes: "Install"@,
            no: "Cancel"@,
            id: "confirm-install"@,
            command: Some(display),
        },
        Remedy::Download { bytes, to, .. } => Put {
            headline,
            lines: seq![
                tool.purpose(),
                "This downloads "@ + bytes_text(bytes as int) + " to "@ + elided_with(to, home, sep)
                    + "."@,
                "It is fetched once and kept, so this only happens the first time."@,
            ],
            yes: "Download"@,
            no: "Cancel"@,
            id: "confirm-download-model"@,
            command: None,
        },
        Remedy::Guided { command, why: reason } => Put {
            headline,
            lines: seq![
                reason,
                "Nothing is installed by pressing this — it opens a terminal, and the command is yours to run or not."@,
            ],
            yes: "Open Terminal"@,
            no: "Close"@,
            id: "confirm-guided"@,
            command: Some(command),
        },
        Remedy::Manual { why: reason, url } => Put {
            headline,
            lines: seq![reason, "Instructions are at "@ + url],
            yes: "Open the page"@,
            no: "Close"@,
            id: "confirm-manual"@,
            command: None,
        },
    }
}

/// A question about a command shows that command in full: the one that runs on a
/// yes, or the one the user is left to run.
pub proof fn law_the_box_shows_the_command(tool: Tool, remedy: Remedy, home: Option<Seq<char>>, sep: char)
    ensures
        match remedy {
            Remedy::Run { display, .. } => install_put(tool, remedy, home, sep).command == Some(
                display,
            ),
            Remedy::Guided { command, .. } => install_put(tool, remedy, home, sep).command == Some(
                command,
            ),
            _ => install_put(tool, remedy, home, sep).command is None,
        },
{
}

/// The question asked before anything is put on the machine.
pub fn install_question(tool: Tool, install: &Install, home: Option<&str>, sep: char) -> (r: Wording)
    ensures
        r@ == install_put(tool, install@, text_of(home), sep),
{
    let mut headline = owned("Install ");
    headline.push_str(tool.label());
    headline.push_str("?");
    let mut lines: Vec<String> = Vec::new();
    let r = match install {
        Install::Run { display, .. } => {
            lines.push(owned(tool.why()));
            lines.push(owned("This runs the command below on your machine."));
            // `ollama pull` fetches a model rather than a program, and the size
            // of it is the part worth knowing before agreeing.
            if tool == Tool::OllamaModel {
                let mut s = owned("It downloads about ");
                s.push_str(human_bytes(OLLAMA_MODEL_BYTES).as_str());
                s.push_str(", once.");
                lines.push(s);
            } else {
                lines.push(owned("The package manager will say what it is fetching."));
            }
            Wording {
                headline,
                lines,
                yes: "Install",
                no: "Cancel",
                id: "confirm-install",
                command: Some(display.clone()),
            }
        },
        Install::Download { bytes, to, .. } => {
            lines.push(owned(tool.why()));
            let mut s = owned("This downloads ");
            s.push_str(human_bytes(*bytes).as_str());
            s.push_str(" to ");
            s.push_str(elide_path(to.as_str(), home, sep).as_str());
            s.push_str(".");
            lines.push(s);
            lines.push(
                owned("It is fetched once and kept, so this only happens the first time."),
            );
            Wording {
                headline,
                lines,
                yes: "Download",
                no: "Cancel",
                id: "confirm-download-model",
                command: None,
            }
        },
        Install::Guided { command, why } => {
            lines.push(why.clone());
            lines.push(
                owned(
                    "Nothing is installed by pressing this — it opens a terminal, and the command is yours to run or not.",
                ),
            );
            Wording {
                headline,
                lines,
                yes: "Open Terminal",
                no: "Close",
                id: "confirm-guided",
                command: Some(command.clone()),
            }
        },
        Install::Manual { why, url } => {
            lines.push(why.clone());
            let mut s = owned("Instructions are at ");
            s.push_str(url.as_str());
            lines.push(s);
            Wording {
                headline,
                lines,
                yes: "Open the page",
                no: "Close",
                id: "confirm-manual",
                command: None,
            }
        },
    };
    assert(r@.lines =~= install_put(tool, install@, text_of(home), sep).lines);
    r
}

/// How a question is put.
pub open spec fn put(
    question: Question,
    speed: Option<Speed>,
    concurrency: usize,
    home: Option<Seq<char>>,
    sep: char,
) -> Put {
    match question {
        Question::Confirm(plan) => Put {
            headline: headline_text(plan),
            lines: plan_text(plan, speed, concurrency),
            yes: "▶ Download"@,
            no: "Cancel"@,
            id: "confirm-download"@,
            command: None,
        },
        Question::Stop => Put {
            headline: "Stop downloading?"@,
            lines: seq![
                "The episodes part way through are thrown away, so nothing half-finished is left on the disk."@,
                "Every episode that has already landed stays where it is, and starting again picks up from there."@,
            ],
            yes: "■ Stop"@,
            no: "Keep downloading"@,
            id: "confirm-stop"@,
            command: None,
        },
        Question::Install { tool, remedy } => install_put(tool, remedy, home, sep),
        Question::Transcribe { files, labelling } => Put {
            headline: "Transcribe "@ + counted_text(files as int, "episode"@) + "?"@,
            lines: seq![
                "Transcribing listens to the whole episode, so it takes a few minutes of the machine's full attention per file."@,
                if labelling {
                    "Speakers will be followed through each episode, so a number should mean the same person throughout. It is worked out from the words rather than the voices, so check anything that matters."@
                } else {
                    "Speakers will alternate between Speaker 1 and Speaker 2. That is right for two people talking, and wrong for three or more — telling those apart is what the Ollama step is for."@
                },
                "Each transcript is written as a .txt file beside its audio."@,
            ],
            yes: "▶ Transcribe"@,
            no: "Cancel"@,
            id: "confirm-transcribe"@,
            command: None,
        },
        Question::StopTranscribing => Put {
            headline: "Stop transcribing?"@,
            lines: seq![
                "The episode part way through will be left without a transcript."@,
                "The ones already written stay where they are."@,
            ],
            yes: "■ Stop"@,
            no: "Keep transcribing"@,
            id: "confirm-stop-transcribing"@,
            command: None,
        },
    }
}

impl Dialog {
    /// How the question is put: the text of the box, its two answers, and the
    /// command it is about, if it is about one.
    pub fn wording(&self, speed: Option<Speed>, concurrency: usize, home: Option<&str>, sep: char) -> (r: Wording)
        ensures
            r@ == put(self@, speed, concurrency, text_of(home), sep),
    {
        let mut lines: Vec<String> = Vec::new();
        match self {
            Dialog::Confirm(plan) => Wording {
                headline: plan_headline(plan),
                lines: plan_lines(plan, speed, concurrency),
                yes: "▶ Download",
                no: "Cancel",
                id: "confirm-download",
                command: None,
            },
            Dialog::Stop => {
                lines.push(
                    owned(
                        "The episodes part way through are thrown away, so nothing half-finished is left on the disk.",
                    ),
                );
                lines.push(
                    owned(
                        "Every episode that has already landed stays where it is, and starting again picks up from there.",
                    ),
                );
                assert(texts(lines@) =~= put(self@, speed, concurrency, text_of(home), sep).lines);
                Wording {
                    headline: owned("Stop downloading?"),
                    lines,
                    yes: "■ Stop",
                    no: "Keep downloading",
                    id: "confirm-stop",
                    command: None,
                }
            },
            Dialog::Install { tool, install } => install_question(*tool, install, home, sep),
            Dialog::Transcribe { files, labelling } => {
                let mut headline = owned("Transcribe ");
                headline.push_str(count(*files, "episode").as_str());
                headline.push_str("?");
                lines.push(
                    owned(
                        "Transcribing listens to the whole episode, so it takes a few minutes of the machine's full attention per file.",
                    ),
                );
                lines.push(
                    owned(
                        if *labelling {
                            "Speakers will be followed through each episode, so a number should mean the same person throughout. It is worked out from the words rather than the voices, so check anything that matters."
                        } else {
                            "Speakers will alternate between Speaker 1 and Speaker 2. That is right for two people talking, and wrong for three or more — telling those apart is what the Ollama step is for."
                        },
                    ),
                );
                lines.push(owned("Each transcript is written as a .txt file beside its audio."));
                assert(texts(lines@) =~= put(self@, speed, concurrency, text_of(home), sep).lines);
                Wording {
                    headline,
                    lines,
                    yes: "▶ Transcribe",
                    no: "Cancel",
                    id: "confirm-transcribe",
                    command: None,
                }
            },
            Dialog::StopTranscribing => {
                lines.push(
                    owned("The episode part way through will be left without a transcript."),
                );
                lines.push(owned("The ones already written stay where they are."));
                assert(texts(lines@) =~= put(self@, speed, concurrency, text_of(home), sep).lines);
                Wording {
                    headline: owned("Stop transcribing?"),
                    lines,
                    yes: "■ Stop",
                    no: "Keep transcribing",
                    id: "confirm-stop-transcribing",
                    command: None,
                }
            },
        }
    }
}

/// Every kind of question has a box of its own: a press registered on one kind
/// can never be taken for a press on another.
pub proof fn law_boxes_are_told_apart(
    a: Question,
    b: Question,
    speed: Option<Speed>,
    concurrency: usize,
    home: Option<Seq<char>>,
    sep: char,
)
    requires
        put(a, speed, concurrency, home, sep).id == put(b, speed, concurrency, home, sep).id,
    ensures
        (a is Confirm) == (b is Confirm),
        (a is Stop) == (b is Stop),
        (a is Install) == (b is Install),
        (a is Transcribe) == (b is Transcribe),
        (a is StopTranscribing) == (b is StopTranscribing),
{
    reveal_strlit("confirm-install");
    reveal_strlit("confirm-download-model");
    reveal_strlit("confirm-guided");
    reveal_strlit("confirm-manual");
    reveal_strlit("confirm-download");
    reveal_strlit("confirm-stop");
    reveal_strlit("confirm-transcribe");
    reveal_strlit("confirm-stop-transcribing");
    assert("confirm-install"@.len() == 15 && "confirm-download-model"@.len() == 22
        && "confirm-guided"@.len() == 14 && "confirm-manual"@.len() == 14
        && "confirm-download"@.len() == 16 && "confirm-stop"@.len() == 12
        && "confirm-transcribe"@.len() == 18 && "confirm-stop-transcribing"@.len() == 25);
}

/// What a frame's presses answer, if anything. Escape dismisses, which is the
/// same as saying no — but not on the frame the box went up: a question answered
/// by a key pressed before it was asked is not a question at all.
pub fn answer(clicked: Option<bool>, escape: bool, first_frame: bool) -> (r: Option<bool>)
    ensures
        r == (if escape && !first_frame {
            Some(false)
        } else {
            clicked
        }),
{
    if escape && !first_frame {
        Some(false)
    } else {
        clicked
    }
}

} // verus!
