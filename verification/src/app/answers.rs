//! What the answers to questions do.

use crate::app::Effect;
use crate::app::PodBatchApp;
use crate::app::Window;
use crate::app::Wish;
use crate::engine::Plan;
use crate::engine::Proceed;
use crate::questions::Dialog;
use crate::questions::Question;
use crate::text::owned;
use crate::tools::Install;
use crate::tools::Remedy;
use vstd::prelude::*;

verus! {

impl Window {
    /// After a yes.
    pub open spec fn agreed(self, question: Question, now: u64) -> Window {
        let noted = self.wished(Wish::Debug("answered yes to "@ + question.name()));
        match question {
            Question::Confirm(_) => Window {
                proceed: match self.proceed {
                    Some(_) => Some(true),
                    None => None,
                },
                downloads_began: Some(now),
                ..noted
            },
            Question::Stop => Window { pending_plan: None, ..noted }.halted(),
            Question::Install { tool, remedy } => match remedy {
                Remedy::Guided { .. } => noted.wished(Wish::OpenTerminal),
                Remedy::Manual { url, .. } => noted.wished(Wish::OpenUrl(url)),
                _ => noted.install_started(tool, remedy),
            },
            Question::Transcribe { .. } => noted.transcribing_started(),
            Question::StopTranscribing => noted.transcribing_halted(),
        }
    }

    /// After a no.
    pub open spec fn declined(self, question: Question) -> Window {
        let noted = self.wished(Wish::Debug("answered no to "@ + question.name()));
        match question {
            Question::Confirm(_) => noted.halted(),
            Question::Stop => match self.pending_plan {
                Some(plan) => Window { pending_plan: None, ..noted }.asked(Question::Confirm(plan)),
                None => noted,
            },
            _ => noted,
        }
    }

    /// After a frame with a question on screen, which may have been answered.
    pub open spec fn answered(self, answer: Option<bool>, now: u64) -> Window {
        match self.dialog {
            None => self,
            Some(question) => {
                let settled = Window { dialog: None, focus_dialog: false, ..self };
                match answer {
                    Some(true) => settled.agreed(question, now),
                    Some(false) => settled.declined(question),
                    None => Window { dialog: Some(question), ..settled },
                }
            },
        }
    }
}

/// Two texts, one after the other.
fn both(a: &str, b: &str) -> (r: String)
    ensures
        r@ == a@ + b@,
{
    let mut s = owned(a);
    s.push_str(b);
    s
}

impl PodBatchApp {
    /// The user said yes, at `now` microseconds.
    pub fn agreed(&mut self, dialog: Dialog, now: u64)
        ensures
            final(self)@ == old(self)@.agreed(dialog@, now),
    {
        let line = both("answered yes to ", dialog.describe().as_str());
        self.wish(Effect::Debug(line));
        let ghost noted = self@;
        match dialog {
            Dialog::Confirm(_) => {
                if self.proceed.is_some() {
                    let mut go = Proceed::new();
                    go.go();
                    self.proceed = Some(go);
                }
                self.downloads_began = Some(now);
            },
            Dialog::Stop => {
                // Nothing left to confirm: the run they were asked about is the
                // one they just stopped.
                self.pending_plan = None;
                assert(self@ == (Window { pending_plan: None, ..noted }));
                self.stop();
            },
            // "Yes" means different things to the three kinds of install: run
            // it, open the page that explains it, or open a terminal to run it
            // in. Only the first actually changes the machine from in here.
            Dialog::Install { tool, install } => match install {
                Install::Guided { .. } => self.wish(Effect::OpenTerminal),
                Install::Manual { url, .. } => self.wish(Effect::OpenUrl(url)),
                install => self.start_install(tool, install),
            },
            Dialog::Transcribe { .. } => self.start_transcribing(),
            Dialog::StopTranscribing => self.stop_transcribing(),
        }
    }

    /// The user said no. Declining to start is declining the run, so the engine
    /// waiting behind the question is let go rather than left holding it.
    pub fn declined(&mut self, dialog: Dialog)
        ensures
            final(self)@ == old(self)@.declined(dialog@),
    {
        let line = both("answered no to ", dialog.describe().as_str());
        self.wish(Effect::Debug(line));
        match dialog {
            Dialog::Confirm(_) => self.stop(),
            // Carrying on: if the plan arrived while this was up, it is now
            // the question that needs asking.
            Dialog::Stop => {
                match self.pending_plan.take() {
                    Some(plan) => self.ask(Dialog::Confirm(plan)),
                    None => {},
                }
            },
            // Saying no to any of these is simply not doing it. Nothing is
            // waiting on the answer, so there is nothing to release.
            _ => {},
        }
    }

    /// Acts on the answer to the question on screen, if it was given one. From
    /// the frame it was shown on it no longer takes the focus.
    pub fn answered(&mut self, answer: Option<bool>, now: u64)
        ensures
            final(self)@ == old(self)@.answered(answer, now),
    {
        let ghost before = self@;
        match self.dialog.take() {
            None => {},
            Some(dialog) => {
                self.focus_dialog = false;
                assert(self@ == (Window { dialog: None, focus_dialog: false, ..before }));
                match answer {
                    Some(true) => self.agreed(dialog, now),
                    Some(false) => self.declined(dialog),
                    None => {
                        self.dialog = Some(dialog);
                    },
                }
            },
        }
    }
}

/// Declining the job stops the run that was waiting on the answer, and never
/// lets it go.
pub proof fn law_declining_the_job_stops_the_run(w: Window, plan: Plan)
    requires
        w.cancel is Some,
    ensures
        w.declined(Question::Confirm(plan)).cancel == Some(true),
        w.declined(Question::Confirm(plan)).cancelling,
        w.declined(Question::Confirm(plan)).proceed == w.proceed,
{
}

/// Agreeing to the job lets the run go, and does not stop it.
pub proof fn law_agreeing_lets_the_run_go(w: Window, plan: Plan, now: u64)
    requires
        w.proceed is Some,
    ensures
        w.agreed(Question::Confirm(plan), now).proceed == Some(true),
        w.agreed(Question::Confirm(plan), now).cancel == w.cancel,
        w.agreed(Question::Confirm(plan), now).downloads_began == Some(now),
{
}

/// Nothing but agreeing to a job lets a run go: no other answer does.
pub proof fn law_only_agreeing_lets_a_run_go(w: Window, answer: Option<bool>, now: u64)
    requires
        w.proceed == Some(false),
        !(w.dialog matches Some(Question::Confirm(_)) && answer == Some(true)),
    ensures
        w.answered(answer, now).proceed == Some(false),
{
}

/// Stopping throws away a plan that was waiting behind the question.
pub proof fn law_stopping_discards_the_plan(w: Window, now: u64)
    requires
        w.dialog == Some(Question::Stop),
    ensures
        w.answered(Some(true), now).pending_plan is None,
        w.answered(Some(true), now).dialog is None,
{
}

/// Carrying on puts up the plan that was waiting, once.
pub proof fn law_a_waiting_plan_is_asked_next(w: Window, plan: Plan, now: u64)
    requires
        w.dialog == Some(Question::Stop),
        w.pending_plan == Some(plan),
    ensures
        w.answered(Some(false), now).dialog == Some(Question::Confirm(plan)),
        w.answered(Some(false), now).focus_dialog,
        w.answered(Some(false), now).pending_plan is None,
{
}

} // verus!
