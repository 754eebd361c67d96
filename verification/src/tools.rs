//! The outside programs the Transcripts tab leans on, and how they get here.
//!
//! Nothing in this module installs anything. Every function either reads what a
//! look at the machine found or *describes* what installing something would
//! run; the running itself only ever follows a question the user agreed to on
//! screen. That split is the point: the window can survey again every time the
//! tab is opened, and opening a tab must never change somebody's machine.
//!
//! Three of the four required pieces are ordinary package-manager installs. The
//! package manager itself is the exception — bootstrapping Homebrew wants a
//! password at a terminal, which a GUI app has no honest way to ask for, so that
//! one is handed to the user as a command to run rather than run for them. See
//! [`Install::Guided`].

use crate::feed::optional_text;
use crate::text::chars_of;
use crate::text::copy_of;
use crate::text::find_of;
use crate::text::first_of;
use crate::text::has_prefix;
use crate::text::join;
use crate::text::owned;
use crate::text::signed_decimal;
use crate::text::starts_with;
use crate::text::string_between;
use crate::text::strip_end;
use crate::text::stripped_end;
use crate::text::texts;
use crate::transcribe::find_text;
use crate::transcribe::index_of;
use crate::util::text_of;
use vstd::prelude::*;

verus! {

/// The tinydiarize model: `small.en`, retrained to mark where the speaker
/// changes. It is the only Whisper model that emits `[SPEAKER_TURN]`, which is
/// the whole reason the transcripts can be broken into speakers at all.
pub const MODEL_URL: &'static str = "https://huggingface.co/akashmjn/tinydiarize-whisper.cpp/resolve/main/ggml-small.en-tdrz.bin";

pub const MODEL_FILE: &'static str = "ggml-small.en-tdrz.bin";

/// What the download costs, so the user is told before agreeing rather than
/// after.
pub const MODEL_BYTES: u64 = 487_614_184;

/// The Ollama model used to turn detected speaker *turns* into stable speaker
/// *identities*. Small on purpose: it is doing bookkeeping over text, not
/// reasoning, and a 2 GB download is easier to agree to than a 40 GB one.
pub const OLLAMA_MODEL: &'static str = "llama3.2:3b";

pub const OLLAMA_MODEL_BYTES: u64 = 2_000_000_000;

/// Where Ollama listens. Loopback only — the transcripts never leave the
/// machine, which is most of the reason for doing this locally at all.
pub const OLLAMA_HOST: &'static str = "http://127.0.0.1:11434";

/// The kinds of machine that differ in how things are installed and opened.
#[derive(Clone, Copy, PartialEq, Eq, Debug, Structural)]
pub enum Platform {
    MacOs,
    Windows,
    Other,
}

/// One thing that has to be present before an episode can be transcribed.
#[derive(Clone, Copy, PartialEq, Eq, Debug, Structural)]
pub enum Tool {
    /// Not used directly — it is how the other three get installed.
    PackageManager,
    /// Whisper only reads 16-bit WAV; podcasts are mp3 and m4a.
    Ffmpeg,
    Whisper,
    WhisperModel,
    /// Optional, and everything below here stays optional: without it the
    /// transcript still happens, it just numbers every turn afresh.
    Ollama,
    OllamaModel,
}

impl Tool {
    /// Everything the tab cares about, in the order it is needed.
    pub open spec fn listed() -> Seq<Tool> {
        seq![
            Tool::PackageManager,
            Tool::Ffmpeg,
            Tool::Whisper,
            Tool::WhisperModel,
            Tool::Ollama,
            Tool::OllamaModel,
        ]
    }

    /// Everything the tab cares about, in the order it is needed.
    pub fn all() -> (r: [Tool; 6])
        ensures
            r@ == Tool::listed(),
    {
        let r = [
            Tool::PackageManager,
            Tool::Ffmpeg,
            Tool::Whisper,
            Tool::WhisperModel,
            Tool::Ollama,
            Tool::OllamaModel,
        ];
        assert(r@ =~= Tool::listed());
        r
    }

    /// What the window calls it.
    pub open spec fn name(self) -> Seq<char> {
        match self {
            Tool::PackageManager => "Package manager"@,
            Tool::Ffmpeg => "FFmpeg"@,
            Tool::Whisper => "Whisper"@,
            Tool::WhisperModel => "Whisper speech model"@,
            Tool::Ollama => "Ollama"@,
            Tool::OllamaModel => "Ollama language model"@,
        }
    }

    /// What the window calls it.
    pub fn label(self) -> (r: &'static str)
        ensures
            r@ == self.name(),
    {
        match self {
            Tool::PackageManager => "Package manager",
            Tool::Ffmpeg => "FFmpeg",
            Tool::Whisper => "Whisper",
            Tool::WhisperModel => "Whisper speech model",
            Tool::Ollama => "Ollama",
            Tool::OllamaModel => "Ollama language model",
        }
    }

    /// What it is for, in the user's terms rather than the pipeline's.
    pub open spec fn purpose(self) -> Seq<char> {
        match self {
            Tool::PackageManager => "Installs the three pieces below."@,
            Tool::Ffmpeg => "Converts episodes to the audio format Whisper reads."@,
            Tool::Whisper => "Turns the audio into text."@,
            Tool::WhisperModel => "The speech model Whisper listens with."@,
            Tool::Ollama => "Optional. Keeps a speaker's number the same all the way through."@,
            Tool::OllamaModel => "Optional. The model Ollama uses to do it."@,
        }
    }

    /// What it is for, in the user's terms rather than the pipeline's.
    pub fn why(self) -> (r: &'static str)
        ensures
            r@ == self.purpose(),
    {
        match self {
            Tool::PackageManager => "Installs the three pieces below.",
            Tool::Ffmpeg => "Converts episodes to the audio format Whisper reads.",
            Tool::Whisper => "Turns the audio into text.",
            Tool::WhisperModel => "The speech model Whisper listens with.",
            Tool::Ollama => "Optional. Keeps a speaker's number the same all the way through.",
            Tool::OllamaModel => "Optional. The model Ollama uses to do it.",
        }
    }

    /// Whether a transcript can be produced without it.
    pub open spec fn can_do_without(self) -> bool {
        self == Tool::Ollama || self == Tool::OllamaModel
    }

    /// Whether a transcript can be produced without it.
    ///
    /// The two Ollama entries are optional by design. Without them turns are
    /// numbered by when the voice changed; with them the numbers stay attached
    /// to a person.
    pub fn optional(self) -> (r: bool)
        ensures
            r == self.can_do_without(),
    {
        match self {
            Tool::Ollama => true,
            Tool::OllamaModel => true,
            _ => false,
        }
    }
}

/// What a survey found.
#[derive(Clone, Debug, PartialEq, Eq)]
pub enum Presence {
    /// Present, with whatever identifies it — a path or a version.
    Ready(String),
    Missing,
}

impl Presence {
    /// Whether it is there.
    pub fn is_ready(&self) -> (r: bool)
        ensures
            r == (self is Ready),
    {
        match self {
            Presence::Ready(_) => true,
            Presence::Missing => false,
        }
    }

    /// What identifies it, when it is there.
    pub open spec fn shown(self) -> Option<Seq<char>> {
        match self {
            Presence::Ready(s) => Some(s@),
            Presence::Missing => None,
        }
    }
}

/// A tool and what looking for it found.
#[derive(Clone, Debug)]
pub struct Found {
    pub tool: Tool,
    pub presence: Presence,
    /// Where it is, when that is a path we will later need to execute.
    pub path: Option<String>,
}

/// What a survey says of a tool.
pub struct Finding {
    pub tool: Tool,
    pub shown: Option<Seq<char>>,
    pub path: Option<Seq<char>>,
}

impl View for Found {
    type V = Finding;

    open spec fn view(&self) -> Finding {
        Finding {
            tool: self.tool,
            shown: self.presence.shown(),
            path: optional_text(self.path),
        }
    }
}

/// What a survey says of every tool.
pub open spec fn findings(v: Seq<Found>) -> Seq<Finding> {
    v.map_values(|f: Found| f@)
}

/// The package managers we know how to drive, per platform.
#[derive(Clone, Copy, PartialEq, Eq, Debug, Structural)]
pub enum Manager {
    Homebrew,
    Apt,
    Dnf,
    Pacman,
    Winget,
}

impl Manager {
    /// What the manager is called.
    pub open spec fn name(self) -> Seq<char> {
        match self {
            Manager::Homebrew => "Homebrew"@,
            Manager::Apt => "apt"@,
            Manager::Dnf => "dnf"@,
            Manager::Pacman => "pacman"@,
            Manager::Winget => "winget"@,
        }
    }

    /// What the manager is called.
    pub fn label(self) -> (r: &'static str)
        ensures
            r@ == self.name(),
    {
        match self {
            Manager::Homebrew => "Homebrew",
            Manager::Apt => "apt",
            Manager::Dnf => "dnf",
            Manager::Pacman => "pacman",
            Manager::Winget => "winget",
        }
    }

    /// The program that installs a package.
    pub open spec fn program(self) -> Seq<char> {
        match self {
            Manager::Homebrew => "brew"@,
            Manager::Winget => "winget"@,
            _ => "sudo"@,
        }
    }

    /// What it is told. Non-interactive, so the app is never left waiting on a
    /// "[Y/n]" nobody can see.
    pub open spec fn arguments(self, package: Seq<char>) -> Seq<Seq<char>> {
        match self {
            Manager::Homebrew => seq!["install"@, package],
            Manager::Apt => seq!["apt-get"@, "install"@, "-y"@, package],
            Manager::Dnf => seq!["dnf"@, "install"@, "-y"@, package],
            Manager::Pacman => seq!["pacman"@, "-S"@, "--noconfirm"@, package],
            Manager::Winget => seq![
                "install"@,
                "-e"@,
                "--id"@,
                package,
                "--accept-package-agreements"@,
                "--accept-source-agreements"@,
            ],
        }
    }

    /// The command that installs a package, ready to run.
    pub fn install_args(self, package: &str) -> (r: (String, Vec<String>))
        ensures
            r.0@ == self.program(),
            texts(r.1@) == self.arguments(package@),
    {
        let mut args: Vec<String> = Vec::new();
        let program = match self {
            Manager::Homebrew => {
                args.push(owned("install"));
                args.push(owned(package));
                owned("brew")
            },
            Manager::Apt => {
                args.push(owned("apt-get"));
                args.push(owned("install"));
                args.push(owned("-y"));
                args.push(owned(package));
                owned("sudo")
            },
            Manager::Dnf => {
                args.push(owned("dnf"));
                args.push(owned("install"));
                args.push(owned("-y"));
                args.push(owned(package));
                owned("sudo")
            },
            Manager::Pacman => {
                args.push(owned("pacman"));
                args.push(owned("-S"));
                args.push(owned("--noconfirm"));
                args.push(owned(package));
                owned("sudo")
            },
            Manager::Winget => {
                args.push(owned("install"));
                args.push(owned("-e"));
                args.push(owned("--id"));
                args.push(owned(package));
                args.push(owned("--accept-package-agreements"));
                args.push(owned("--accept-source-agreements"));
                owned("winget")
            },
        };
        assert(texts(args@) =~= self.arguments(package@));
        (program, args)
    }

    /// What this manager calls the thing we want, when it has it. whisper.cpp is
    /// packaged by Homebrew alone, and on the other Unix managers Ollama ships
    /// its own installer rather than a package.
    pub open spec fn package(self, tool: Tool) -> Option<Seq<char>> {
        match (self, tool) {
            (Manager::Winget, Tool::Ffmpeg) => Some("Gyan.FFmpeg"@),
            (Manager::Winget, Tool::Ollama) => Some("Ollama.Ollama"@),
            (_, Tool::Ffmpeg) => Some("ffmpeg"@),
            (Manager::Homebrew, Tool::Whisper) => Some("whisper-cpp"@),
            (Manager::Homebrew, Tool::Ollama) => Some("ollama"@),
            _ => None,
        }
    }

    /// What this manager calls the thing we want.
    pub fn package_for(self, tool: Tool) -> (r: Option<&'static str>)
        ensures
            text_of(r) == self.package(tool),
    {
        match (self, tool) {
            (Manager::Winget, Tool::Ffmpeg) => Some("Gyan.FFmpeg"),
            (Manager::Winget, Tool::Ollama) => Some("Ollama.Ollama"),
            (_, Tool::Ffmpeg) => Some("ffmpeg"),
            (Manager::Homebrew, Tool::Whisper) => Some("whisper-cpp"),
            (Manager::Homebrew, Tool::Ollama) => Some("ollama"),
            _ => None,
        }
    }

    /// Whether root is needed, which decides whether we may run it ourselves.
    pub fn needs_root(self) -> (r: bool)
        ensures
            r == (self.program() == "sudo"@),
            r == (self == Manager::Apt || self == Manager::Dnf || self == Manager::Pacman),
    {
        proof {
            reveal_strlit("sudo");
            reveal_strlit("brew");
            reveal_strlit("winget");
            assert("brew"@[0] == 'b' && "winget"@[0] == 'w' && "sudo"@[0] == 's');
        }
        match self {
            Manager::Apt => true,
            Manager::Dnf => true,
            Manager::Pacman => true,
            _ => false,
        }
    }
}

/// How a missing thing could be put right.
#[derive(Clone, Debug)]
pub enum Install {
    /// Something we can run ourselves once agreed to. No password, no prompts.
    Run {
        program: String,
        args: Vec<String>,
        /// Written out for the confirmation box, so what is agreed to is the
        /// command that actually runs.
        display: String,
    },
    /// A file to fetch. Size is known up front so the box can quote it.
    Download { url: String, to: String, bytes: u64 },
    /// Needs a terminal — a password, or a prompt only a human can answer. We
    /// show it rather than run it.
    Guided { command: String, why: String },
    /// We have nothing to offer; the user is told where to go instead.
    Manual { why: String, url: String },
}

/// What an [`Install`] says.
pub enum Remedy {
    Run { program: Seq<char>, args: Seq<Seq<char>>, display: Seq<char> },
    Download { url: Seq<char>, to: Seq<char>, bytes: u64 },
    Guided { command: Seq<char>, why: Seq<char> },
    Manual { why: Seq<char>, url: Seq<char> },
}

impl View for Install {
    type V = Remedy;

    open spec fn view(&self) -> Remedy {
        match self {
            Install::Run { program, args, display } => Remedy::Run {
                program: program@,
                args: texts(args@),
                display: display@,
            },
            Install::Download { url, to, bytes } => Remedy::Download {
                url: url@,
                to: to@,
                bytes: *bytes,
            },
            Install::Guided { command, why } => Remedy::Guided { command: command@, why: why@ },
            Install::Manual { why, url } => Remedy::Manual { why: why@, url: url@ },
        }
    }
}

/// What of the machine a plan depends on.
#[derive(Clone, Debug)]
pub struct Site {
    pub platform: Platform,
    /// Where Ollama is, when it is installed.
    pub ollama: Option<String>,
    /// Where the speech model belongs.
    pub model_path: String,
}

/// The command that brings a package manager.
pub open spec fn bootstrap_text(platform: Platform) -> Seq<char> {
    match platform {
        Platform::MacOs => "/bin/bash -c \"$(curl -fsSL https://raw.githubusercontent.com/Homebrew/install/HEAD/install.sh)\""@,
        Platform::Windows => "winget --version"@,
        Platform::Other => "sudo apt-get install -y ffmpeg"@,
    }
}

/// Writes the command that brings a package manager.
pub fn bootstrap_command(platform: Platform) -> (r: String)
    ensures
        r@ == bootstrap_text(platform),
{
    match platform {
        Platform::MacOs => owned(
            "/bin/bash -c \"$(curl -fsSL https://raw.githubusercontent.com/Homebrew/install/HEAD/install.sh)\"",
        ),
        Platform::Windows => owned("winget --version"),
        Platform::Other => owned("sudo apt-get install -y ffmpeg"),
    }
}

/// Getting a package manager onto a machine that has none.
pub open spec fn bootstrap(platform: Platform) -> Remedy {
    Remedy::Guided {
        command: bootstrap_text(platform),
        why: match platform {
            Platform::MacOs => "Homebrew's installer needs an administrator password, so it has to be run in Terminal. Paste this in, let it finish, then come back and press Check again."@,
            Platform::Windows => "winget comes with App Installer from the Microsoft Store."@,
            Platform::Other => "Install one of apt, dnf or pacman for your distribution."@,
        },
    }
}

/// Getting a package manager onto a machine that has none.
///
/// Always [`Install::Guided`]. Homebrew's installer asks for a password and
/// refuses to run unattended for good reasons of its own; wrapping that in a
/// GUI would mean either collecting a password in a window that has no business
/// holding one, or lying to the user about what is happening.
pub fn bootstrap_manager(platform: Platform) -> (r: Install)
    ensures
        r@ == bootstrap(platform),
{
    Install::Guided {
        command: bootstrap_command(platform),
        why: match platform {
            Platform::MacOs => owned(
                "Homebrew's installer needs an administrator password, so it has to be run in Terminal. Paste this in, let it finish, then come back and press Check again.",
            ),
            Platform::Windows => owned("winget comes with App Installer from the Microsoft Store."),
            Platform::Other => owned("Install one of apt, dnf or pacman for your distribution."),
        },
    }
}

/// The things no package manager we drive will install for us.
pub open spec fn by_hand(tool: Tool) -> Remedy {
    match tool {
        Tool::Ollama => Remedy::Manual {
            why: "Ollama ships its own installer for this platform."@,
            url: "https://ollama.com/download"@,
        },
        _ => Remedy::Manual {
            why: tool.name()
                + " has no package on this platform and has to be built or downloaded by hand."@,
            url: "https://github.com/ggml-org/whisper.cpp#quick-start"@,
        },
    }
}

/// The things no package manager we drive will install for us.
pub fn unpackaged(tool: Tool) -> (r: Install)
    ensures
        r@ == by_hand(tool),
{
    match tool {
        Tool::Ollama => Install::Manual {
            why: owned("Ollama ships its own installer for this platform."),
            url: owned("https://ollama.com/download"),
        },
        _ => {
            let mut why = owned(tool.label());
            why.push_str(
                " has no package on this platform and has to be built or downloaded by hand.",
            );
            Install::Manual {
                why,
                url: owned("https://github.com/ggml-org/whisper.cpp#quick-start"),
            }
        },
    }
}

/// A command as it is typed: the program and what it is told, with spaces
/// between.
pub open spec fn command_line(program: Seq<char>, args: Seq<Seq<char>>) -> Seq<char> {
    join(seq![program] + args, seq![' '])
}

/// Writes a command as it is typed.
pub fn write_command(program: &str, args: &Vec<String>) -> (r: String)
    ensures
        r@ == command_line(program@, texts(args@)),
{
    let ghost all = seq![program@] + texts(args@);
    let mut s = owned(program);
    let mut i: usize = 0;
    assert(all.take(1) =~= seq![program@]);
    while i < args.len()
        invariant
            i <= args@.len(),
            all == seq![program@] + texts(args@),
            s@ == join(all.take(i + 1), seq![' ']),
        decreases args@.len() - i,
    {
        proof {
            let upto = all.take(i + 2);
            assert(upto.drop_last() =~= all.take(i + 1));
            assert(upto.last() == args@[i as int]@);
        }
        let ghost before = s@;
        s.push(' ');
        assert(s@ =~= before + seq![' ']);
        s.push_str(args[i].as_str());
        i += 1;
    }
    assert(all.take(i + 1) =~= all);
    s
}

/// Installing a tool with a package manager.
pub open spec fn packaged(manager: Manager, tool: Tool) -> Remedy {
    match manager.package(tool) {
        None => by_hand(tool),
        Some(package) => {
            let args = manager.arguments(package);
            let display = command_line(manager.program(), args);
            if manager.program() == "sudo"@ {
                Remedy::Guided {
                    command: display,
                    why: "Installing "@ + tool.name() + " with "@ + manager.name()
                        + " needs an administrator password, which has to be typed at a terminal."@,
                }
            } else {
                Remedy::Run { program: manager.program(), args, display }
            }
        },
    }
}

/// Installing a tool with a package manager.
pub fn package_install(manager: Manager, tool: Tool) -> (r: Install)
    ensures
        r@ == packaged(manager, tool),
{
    let package = match manager.package_for(tool) {
        Some(p) => p,
        None => return unpackaged(tool),
    };
    let (program, args) = manager.install_args(package);
    let display = write_command(program.as_str(), &args);
    // A command that will stop dead on a password prompt is not one we can run
    // for somebody: from a windowed app there is nowhere for them to type it.
    if manager.needs_root() {
        let mut why = owned("Installing ");
        why.push_str(tool.label());
        why.push_str(" with ");
        why.push_str(manager.label());
        why.push_str(" needs an administrator password, which has to be typed at a terminal.");
        return Install::Guided { command: display, why };
    }
    Install::Run { program, args, display }
}

/// What would put a tool right.
pub open spec fn remedy(
    tool: Tool,
    manager: Option<Manager>,
    platform: Platform,
    ollama: Option<Seq<char>>,
    model_path: Seq<char>,
) -> Remedy {
    match tool {
        Tool::PackageManager => bootstrap(platform),
        Tool::WhisperModel => Remedy::Download {
            url: MODEL_URL@,
            to: model_path,
            bytes: MODEL_BYTES,
        },
        Tool::OllamaModel => {
            let program = match ollama {
                Some(p) => p,
                None => "ollama"@,
            };
            let args = seq!["pull"@, OLLAMA_MODEL@];
            Remedy::Run { program, args, display: command_line(program, args) }
        },
        _ => match manager {
            Some(m) => packaged(m, tool),
            None => Remedy::Guided {
                command: bootstrap_text(platform),
                why: tool.name()
                    + " is installed with a package manager, and this machine has none yet."@,
            },
        },
    }
}

/// What would put this tool right, given what the machine has.
pub fn plan(tool: Tool, manager: Option<Manager>, site: &Site) -> (r: Install)
    ensures
        r@ == remedy(
            tool,
            manager,
            site.platform,
            optional_text(site.ollama),
            site.model_path@,
        ),
{
    match tool {
        Tool::PackageManager => bootstrap_manager(site.platform),
        Tool::WhisperModel => Install::Download {
            url: owned(MODEL_URL),
            to: site.model_path.clone(),
            bytes: MODEL_BYTES,
        },
        Tool::OllamaModel => {
            let program = match &site.ollama {
                Some(p) => p.clone(),
                None => owned("ollama"),
            };
            let mut args: Vec<String> = Vec::new();
            args.push(owned("pull"));
            args.push(owned(OLLAMA_MODEL));
            assert(texts(args@) =~= seq!["pull"@, OLLAMA_MODEL@]);
            let display = write_command(program.as_str(), &args);
            Install::Run { program, args, display }
        },
        _ => match manager {
            Some(m) => package_install(m, tool),
            None => {
                let mut why = owned(tool.label());
                why.push_str(
                    " is installed with a package manager, and this machine has none yet.",
                );
                Install::Guided { command: bootstrap_command(site.platform), why }
            },
        },
    }
}

/// A missing package manager is only ever guided: the bootstrap is the one thing
/// we must never run ourselves.
pub proof fn law_bootstrap_is_never_run(
    manager: Option<Manager>,
    platform: Platform,
    ollama: Option<Seq<char>>,
    model_path: Seq<char>,
)
    ensures
        remedy(Tool::PackageManager, manager, platform, ollama, model_path) is Guided,
{
}

/// Nothing that asks for an administrator's password is ever run for the user:
/// whatever is run starts neither `sudo` itself nor one of the managers that
/// need it.
pub proof fn law_root_is_never_run(
    tool: Tool,
    manager: Option<Manager>,
    platform: Platform,
    ollama: Option<Seq<char>>,
    model_path: Seq<char>,
)
    requires
        ollama != Some("sudo"@),
    ensures
        match remedy(tool, manager, platform, ollama, model_path) {
            Remedy::Run { program, .. } => program != "sudo"@,
            _ => true,
        },
{
    reveal_strlit("sudo");
    reveal_strlit("brew");
    reveal_strlit("winget");
    reveal_strlit("ollama");
    assert("brew"@[0] == 'b' && "winget"@[0] == 'w' && "sudo"@[0] == 's' && "ollama"@[0] == 'o');
}

/// What the confirmation box shows is the command that runs, whatever is being
/// put right.
pub proof fn law_what_is_shown_is_what_runs(
    tool: Tool,
    manager: Option<Manager>,
    platform: Platform,
    ollama: Option<Seq<char>>,
    model_path: Seq<char>,
)
    ensures
        match remedy(tool, manager, platform, ollama, model_path) {
            Remedy::Run { program, args, display } => display == command_line(program, args),
            _ => true,
        },
{
}

/// Which package managers are on the machine.
#[derive(Clone, Copy, Debug)]
pub struct Managers {
    pub brew: bool,
    pub apt_get: bool,
    pub dnf: bool,
    pub pacman: bool,
    pub winget: bool,
}

/// Which package manager to use, if any: the one the platform is known by, and
/// elsewhere the first of the four.
pub open spec fn chosen_manager(platform: Platform, on: Managers) -> Option<Manager> {
    match platform {
        Platform::MacOs => if on.brew {
            Some(Manager::Homebrew)
        } else {
            None
        },
        Platform::Windows => if on.winget {
            Some(Manager::Winget)
        } else {
            None
        },
        Platform::Other => if on.brew {
            Some(Manager::Homebrew)
        } else if on.apt_get {
            Some(Manager::Apt)
        } else if on.dnf {
            Some(Manager::Dnf)
        } else if on.pacman {
            Some(Manager::Pacman)
        } else {
            None
        },
    }
}

/// Which package manager this machine has, if any.
pub fn manager(platform: Platform, on: Managers) -> (r: Option<Manager>)
    ensures
        r == chosen_manager(platform, on),
{
    match platform {
        Platform::MacOs => if on.brew {
            Some(Manager::Homebrew)
        } else {
            None
        },
        Platform::Windows => if on.winget {
            Some(Manager::Winget)
        } else {
            None
        },
        Platform::Other => if on.brew {
            Some(Manager::Homebrew)
        } else if on.apt_get {
            Some(Manager::Apt)
        } else if on.dnf {
            Some(Manager::Dnf)
        } else if on.pacman {
            Some(Manager::Pacman)
        } else {
            None
        },
    }
}

/// The prefixes a windowed process is most likely to be missing. Apple Silicon
/// Homebrew first: it is where this app's own releases are aimed.
pub open spec fn extra_bin_dirs() -> Seq<Seq<char>> {
    seq![
        "/opt/homebrew/bin"@,
        "/usr/local/bin"@,
        "/usr/bin"@,
        "/bin"@,
        "/usr/sbin"@,
        "/home/linuxbrew/.linuxbrew/bin"@,
    ]
}

/// The file name of a program.
pub open spec fn program_file(platform: Platform, name: Seq<char>) -> Seq<char> {
    if platform == Platform::Windows {
        name + ".exe"@
    } else {
        name
    }
}

/// A file in a folder.
pub open spec fn joined_path(dir: Seq<char>, file: Seq<char>) -> Seq<char> {
    if dir.len() == 0 {
        file
    } else if dir.last() == '/' {
        dir + file
    } else {
        dir + seq!['/'] + file
    }
}

/// Writes the path of a file in a folder.
pub fn join_path(dir: &str, file: &str) -> (r: String)
    ensures
        r@ == joined_path(dir@, file@),
{
    let cs = chars_of(dir);
    let mut s = owned(dir);
    if cs.len() > 0 && cs[cs.len() - 1] != '/' {
        s.push('/');
        assert(s@ =~= dir@ + seq!['/']);
    }
    let ghost before = s@;
    s.push_str(file);
    proof {
        if dir@.len() == 0 {
            assert(s@ =~= file@);
        }
    }
    s
}

/// Where to look for a program, in order: the folders of the PATH, and then the
/// places a GUI app's PATH misses.
pub open spec fn program_places(platform: Platform, name: Seq<char>, path: Seq<Seq<char>>) -> Seq<
    Seq<char>,
> {
    let file = program_file(platform, name);
    (path + extra_bin_dirs()).map_values(|d: Seq<char>| joined_path(d, file))
}

/// Where to look for one program: on the PATH, and in the places a GUI app's
/// PATH misses.
///
/// An app launched from Finder or a `.desktop` file inherits a login PATH that
/// very often has no `/opt/homebrew/bin` in it, so `which`-style lookup alone
/// reports Homebrew's binaries as missing on a machine that plainly has them.
/// Checking the well-known prefixes as well is the difference between the tab
/// working and the tab insisting the user install what they already installed.
pub fn places_for(platform: Platform, name: &str, path: &Vec<String>) -> (r: Vec<String>)
    ensures
        texts(r@) == program_places(platform, name@, texts(path@)),
{
    let mut file = owned(name);
    if platform == Platform::Windows {
        file.push_str(".exe");
    }
    let ghost goal = program_places(platform, name@, texts(path@));
    let mut r: Vec<String> = Vec::new();
    let mut i: usize = 0;
    while i < path.len()
        invariant
            i <= path@.len(),
            file@ == program_file(platform, name@),
            goal == program_places(platform, name@, texts(path@)),
            texts(r@) == goal.take(i as int),
        decreases path@.len() - i,
    {
        let ghost before = r@;
        r.push(join_path(path[i].as_str(), file.as_str()));
        assert(texts(r@) =~= texts(before).push(goal[i as int]));
        i += 1;
    }
    let ghost known = r@;
    proof {
        let n = path@.len() as int;
        let dirs = texts(path@) + extra_bin_dirs();
        let file = program_file(platform, name@);
        assert(goal.len() == n + 6);
        assert(dirs[n] == "/opt/homebrew/bin"@ && dirs[n + 1] == "/usr/local/bin"@ && dirs[n + 2]
            == "/usr/bin"@ && dirs[n + 3] == "/bin"@ && dirs[n + 4] == "/usr/sbin"@ && dirs[n + 5]
            == "/home/linuxbrew/.linuxbrew/bin"@);
        assert(forall|k: int| 0 <= k < n + 6 ==> #[trigger] goal[k] == joined_path(dirs[k], file));
    }
    r.push(join_path("/opt/homebrew/bin", file.as_str()));
    r.push(join_path("/usr/local/bin", file.as_str()));
    r.push(join_path("/usr/bin", file.as_str()));
    r.push(join_path("/bin", file.as_str()));
    r.push(join_path("/usr/sbin", file.as_str()));
    r.push(join_path("/home/linuxbrew/.linuxbrew/bin", file.as_str()));
    assert forall|k: int| 0 <= k < goal.len() implies texts(r@)[k] == #[trigger] goal[k] by {
        if k < known.len() {
            assert(texts(known)[k] == goal.take(path@.len() as int)[k]);
            assert(r@[k] == known[k]);
        }
    }
    assert(texts(r@) =~= goal);
    r
}

/// The names a copy of whisper.cpp goes by. Homebrew's formula installs
/// `whisper-cli`; older builds and hand-built copies still call it `main` or
/// `whisper`. Any of them is accepted rather than telling somebody with a
/// working whisper.cpp that they haven't got one; the name that says least comes
/// last.
pub fn whisper_names() -> (r: Vec<String>)
    ensures
        texts(r@) == seq!["whisper-cli"@, "whisper-cpp"@, "whisper"@, "main"@],
{
    let mut r: Vec<String> = Vec::new();
    r.push(owned("whisper-cli"));
    r.push(owned("whisper-cpp"));
    r.push(owned("whisper"));
    r.push(owned("main"));
    assert(texts(r@) =~= seq!["whisper-cli"@, "whisper-cpp"@, "whisper"@, "main"@]);
    r
}

/// The first of several places that something was found at.
pub open spec fn first_found(found: Seq<Option<String>>) -> Option<Seq<char>>
    decreases found.len(),
{
    if found.len() == 0 {
        None
    } else {
        match found[0] {
            Some(p) => Some(p@),
            None => first_found(found.skip(1)),
        }
    }
}

/// Which copy of whisper.cpp to run, given where each of [`whisper_names`] was
/// found. Accept any of them rather than telling somebody with a working
/// whisper.cpp that they haven't got one.
pub fn whisper_binary(found: &Vec<Option<String>>) -> (r: Option<String>)
    ensures
        optional_text(r) == first_found(found@),
{
    let mut i: usize = 0;
    assert(found@.skip(0) =~= found@);
    while i < found.len()
        invariant
            i <= found@.len(),
            first_found(found@) == first_found(found@.skip(i as int)),
        decreases found@.len() - i,
    {
        assert(found@.skip(i as int)[0] == found@[i as int]);
        assert(found@.skip(i as int).skip(1) =~= found@.skip(i + 1));
        if let Some(p) = &found[i] {
            return Some(p.clone());
        }
        i += 1;
    }
    None
}

/// Where downloaded models live: ours to manage, and outside the app bundle so
/// an app update doesn't throw away half a gigabyte the user agreed to fetch.
pub open spec fn model_dir_text(data_dir: Option<Seq<char>>) -> Seq<char> {
    joined_path(
        joined_path(
            match data_dir {
                Some(d) => d,
                None => "."@,
            },
            "podbatch"@,
        ),
        "models"@,
    )
}

/// Where downloaded models live, given where this platform keeps application
/// data.
pub fn model_dir(data_dir: Option<&str>) -> (r: String)
    ensures
        r@ == model_dir_text(text_of(data_dir)),
{
    let base = match data_dir {
        Some(d) => d,
        None => ".",
    };
    join_path(join_path(base, "podbatch").as_str(), "models")
}

/// Where the speech model belongs.
pub fn model_path(data_dir: Option<&str>) -> (r: String)
    ensures
        r@ == joined_path(model_dir_text(text_of(data_dir)), MODEL_FILE@),
{
    join_path(model_dir(data_dir).as_str(), MODEL_FILE)
}

/// A path shortened for display: the home folder becomes a tilde, whether or not
/// it is written with separators at its end. `sep` is what stands between the
/// names in a path.
pub open spec fn elided_with(path: Seq<char>, home: Option<Seq<char>>, sep: char) -> Seq<char> {
    match home {
        Some(home) => {
            let h = strip_end(home, sep);
            if path == h {
                seq!['~', sep]
            } else if starts_with(path, h.push(sep)) {
                seq!['~', sep] + path.skip(h.len() as int + 1)
            } else {
                path
            }
        },
        None => path,
    }
}

/// A path with forward slashes shortened for display.
pub open spec fn elided(path: Seq<char>, home: Option<Seq<char>>) -> Seq<char> {
    elided_with(path, home, '/')
}

/// Show a path with `~` for the home directory: shorter, and it doesn't put the
/// user's account name on screen during a screen-share.
pub fn elide_path(path: &str, home: Option<&str>, sep: char) -> (r: String)
    ensures
        r@ == elided_with(path@, text_of(home), sep),
{
    let cs = chars_of(path);
    match home {
        Some(h) => {
            let whole = chars_of(h);
            let kept = stripped_end(whole.as_slice(), sep);
            let mut prefix = copy_of(kept, kept.len());
            assert(prefix@ =~= strip_end(h@, sep));
            let mut s = String::new();
            s.push('~');
            s.push(sep);
            assert(s@ =~= seq!['~', sep]);
            if crate::text::same(cs.as_slice(), prefix.as_slice()) {
                return s;
            }
            prefix.push(sep);
            if has_prefix(cs.as_slice(), prefix.as_slice()) {
                let rest = string_between(cs.as_slice(), prefix.len(), cs.len());
                s.push_str(rest.as_str());
                assert(s@ =~= seq!['~', sep] + path@.skip(
                    strip_end(h@, sep).len() as int + 1,
                ));
                return s;
            }
            owned(path)
        },
        None => owned(path),
    }
}

/// Shorten a path for display the way the rest of the app does.
pub fn elide(path: &str, home: Option<&str>) -> (r: String)
    ensures
        r@ == elided(path@, text_of(home)),
{
    elide_path(path, home, '/')
}

/// What a look at the machine found.
#[derive(Clone, Debug)]
pub struct Machine {
    pub manager: Option<Manager>,
    pub brew: Option<String>,
    pub ffmpeg: Option<String>,
    pub whisper: Option<String>,
    pub ollama: Option<String>,
    pub model_path: String,
    /// How big the file there is, when there is one.
    pub model_bytes: Option<u64>,
    /// What Ollama answered when asked what it has.
    pub tags: Option<String>,
    pub home: Option<String>,
}

/// A program that was looked for on disk.
pub open spec fn program_finding(tool: Tool, path: Option<String>, home: Option<String>) -> Finding {
    match path {
        Some(p) => Finding {
            tool,
            shown: Some(elided(p@, optional_text(home))),
            path: Some(p@),
        },
        None => Finding { tool, shown: None, path: None },
    }
}

/// What the survey says of one tool. The model is size-checked, not just
/// existence-checked: a download interrupted half way leaves a file that exists
/// and cannot be loaded, and "the model is there but Whisper won't start" is a
/// much worse thing to debug than "the model is missing".
pub open spec fn finding(tool: Tool, on: Machine) -> Finding {
    match tool {
        Tool::PackageManager => match on.manager {
            Some(m) => Finding {
                tool,
                shown: Some(m.name()),
                path: optional_text(on.brew),
            },
            None => Finding { tool, shown: None, path: None },
        },
        Tool::Ffmpeg => program_finding(tool, on.ffmpeg, on.home),
        Tool::Whisper => program_finding(tool, on.whisper, on.home),
        Tool::WhisperModel => if on.model_bytes == Some(MODEL_BYTES) {
            program_finding(tool, Some(on.model_path), on.home)
        } else {
            Finding { tool, shown: None, path: None }
        },
        Tool::Ollama => program_finding(tool, on.ollama, on.home),
        Tool::OllamaModel => if model_listed(OLLAMA_MODEL@, optional_text(on.tags)) {
            Finding { tool, shown: Some(OLLAMA_MODEL@), path: None }
        } else {
            Finding { tool, shown: None, path: None }
        },
    }
}

/// Whether `p` stands anywhere in a text.
pub open spec fn has_text(s: Seq<char>, p: Seq<char>) -> bool {
    index_of(s, p) >= 0
}

/// Whether a text stands anywhere in another.
pub fn contains_text(s: &str, p: &str) -> (b: bool)
    ensures
        b == has_text(s@, p@),
{
    let cs = chars_of(s);
    find_text(cs.as_slice(), p).is_some()
}

/// The answer of an Ollama server, when it is one: a list of models.
pub open spec fn valid_tags(tags: Option<Seq<char>>) -> Option<Seq<char>> {
    match tags {
        Some(t) if has_text(t, "models"@) => Some(t),
        _ => None,
    }
}

/// Whether Ollama lists a model. The bare name counts as well as the tagged
/// one: pulled by another route, it can be listed under the default tag.
pub open spec fn model_listed(model: Seq<char>, tags: Option<Seq<char>>) -> bool {
    match valid_tags(tags) {
        None => false,
        Some(t) => has_text(t, model) || has_text(
            t,
            seq!['"'] + model.take(first_of(model, seq![':'])) + ":latest\""@,
        ),
    }
}

/// Whether an Ollama server is answering at all, going by what came back when
/// it was asked what it has.
pub fn ollama_running(tags: Option<&str>) -> (b: bool)
    ensures
        b == (valid_tags(text_of(tags)) is Some),
{
    match tags {
        Some(t) => contains_text(t, "models"),
        None => false,
    }
}

/// Whether Ollama has a model, going by what came back when it was asked. A
/// server that isn't running answers nothing, which is reported the same as not
/// having the model — in both cases the optional step cannot run, and in both
/// cases starting Ollama is the fix.
pub fn has_ollama_model(model: &str, tags: Option<&str>) -> (b: bool)
    ensures
        b == model_listed(model@, text_of(tags)),
{
    if !ollama_running(tags) {
        return false;
    }
    match tags {
        None => false,
        Some(t) => {
            let cs = chars_of(model);
            let colon: [char; 1] = [':'];
            assert(colon@ =~= seq![':']);
            let n = find_of(cs.as_slice(), colon.as_slice());
            let mut latest = String::new();
            latest.push('"');
            assert(latest@ =~= seq!['"']);
            latest.push_str(string_between(cs.as_slice(), 0, n).as_str());
            latest.push_str(":latest\"");
            assert(model@.subrange(0, n as int) =~= model@.take(n as int));
            contains_text(t, model) || contains_text(t, latest.as_str())
        },
    }
}

/// What was found of a program looked for on disk.
fn program_found(tool: Tool, path: &Option<String>, home: &Option<String>) -> (r: Found)
    ensures
        r@ == program_finding(tool, *path, *home),
{
    match path {
        Some(p) => {
            let shown = match home {
                Some(h) => elide(p.as_str(), Some(h.as_str())),
                None => elide(p.as_str(), None),
            };
            Found { tool, presence: Presence::Ready(shown), path: Some(p.clone()) }
        },
        None => Found { tool, presence: Presence::Missing, path: None },
    }
}

/// What the look at the machine says of one tool.
pub fn probe(tool: Tool, on: &Machine) -> (r: Found)
    ensures
        r@ == finding(tool, *on),
{
    match tool {
        Tool::PackageManager => match on.manager {
            Some(m) => Found {
                tool,
                presence: Presence::Ready(owned(m.label())),
                path: match &on.brew {
                    Some(b) => Some(b.clone()),
                    None => None,
                },
            },
            None => Found { tool, presence: Presence::Missing, path: None },
        },
        Tool::Ffmpeg => program_found(tool, &on.ffmpeg, &on.home),
        Tool::Whisper => program_found(tool, &on.whisper, &on.home),
        Tool::WhisperModel => {
            let complete = match on.model_bytes {
                Some(n) => n == MODEL_BYTES,
                None => false,
            };
            if complete {
                let at = Some(on.model_path.clone());
                program_found(tool, &at, &on.home)
            } else {
                Found { tool, presence: Presence::Missing, path: None }
            }
        },
        Tool::Ollama => program_found(tool, &on.ollama, &on.home),
        Tool::OllamaModel => {
            let listed = match &on.tags {
                Some(t) => has_ollama_model(OLLAMA_MODEL, Some(t.as_str())),
                None => false,
            };
            if listed {
                Found { tool, presence: Presence::Ready(owned(OLLAMA_MODEL)), path: None }
            } else {
                Found { tool, presence: Presence::Missing, path: None }
            }
        },
    }
}

/// What the look at the machine says of every tool, in the order they are
/// needed.
pub fn survey(on: &Machine) -> (r: Vec<Found>)
    ensures
        findings(r@) == Tool::listed().map_values(|t: Tool| finding(t, *on)),
{
    let mut r: Vec<Found> = Vec::new();
    r.push(probe(Tool::PackageManager, on));
    r.push(probe(Tool::Ffmpeg, on));
    r.push(probe(Tool::Whisper, on));
    r.push(probe(Tool::WhisperModel, on));
    r.push(probe(Tool::Ollama, on));
    r.push(probe(Tool::OllamaModel, on));
    assert(findings(r@) =~= Tool::listed().map_values(|t: Tool| finding(t, *on)));
    r
}

/// A model that is not all there counts as missing, whatever file stands in its
/// place.
pub proof fn law_a_short_model_is_missing(on: Machine)
    requires
        on.model_bytes != Some(MODEL_BYTES),
    ensures
        finding(Tool::WhisperModel, on).shown is None,
        finding(Tool::WhisperModel, on).path is None,
{
}

/// What a program that stopped by itself is said to have done.
pub open spec fn exit_text(program: Seq<char>, code: Option<i32>) -> Seq<char> {
    program + " stopped with "@ + match code {
        Some(c) => "code "@ + signed_decimal(c as int),
        None => "no exit code"@,
    }
}

/// How an install ended: nothing to say when it succeeded, and otherwise what
/// the program stopped with.
pub fn install_outcome(program: &str, success: bool, code: Option<i32>) -> (r: Result<(), String>)
    ensures
        match r {
            Ok(_) => success,
            Err(e) => !success && e@ == exit_text(program@, code),
        },
{
    if success {
        return Ok(());
    }
    let mut s = owned(program);
    s.push_str(" stopped with ");
    let mut how = String::new();
    match code {
        Some(c) => {
            how = owned("code ");
            crate::text::push_signed(&mut how, c as i64);
        },
        None => {
            how = owned("no exit code");
        },
    }
    s.push_str(how.as_str());
    Err(s)
}

/// A program and what it is told.
#[derive(Clone, Debug)]
pub struct Launch {
    pub program: String,
    pub args: Vec<String>,
}

/// What is run to open a terminal.
pub fn terminal_launch(platform: Platform) -> (r: Launch)
    ensures
        match platform {
            Platform::MacOs => r.program@ == "open"@ && texts(r.args@) == seq!["-a"@, "Terminal"@],
            Platform::Windows => r.program@ == "cmd"@ && texts(r.args@) == seq![
                "/c"@,
                "start"@,
                "cmd"@,
            ],
            Platform::Other => r.program@ == "x-terminal-emulator"@ && texts(r.args@)
                == Seq::<Seq<char>>::empty(),
        },
{
    let mut args: Vec<String> = Vec::new();
    match platform {
        Platform::MacOs => {
            args.push(owned("-a"));
            args.push(owned("Terminal"));
            assert(texts(args@) =~= seq!["-a"@, "Terminal"@]);
            Launch { program: owned("open"), args }
        },
        Platform::Windows => {
            args.push(owned("/c"));
            args.push(owned("start"));
            args.push(owned("cmd"));
            assert(texts(args@) =~= seq!["/c"@, "start"@, "cmd"@]);
            Launch { program: owned("cmd"), args }
        },
        Platform::Other => {
            assert(texts(args@) =~= Seq::<Seq<char>>::empty());
            Launch { program: owned("x-terminal-emulator"), args }
        },
    }
}

/// What is run to open a page in whatever the user browses with.
pub fn url_launch(platform: Platform, url: &str) -> (r: Launch)
    ensures
        match platform {
            Platform::MacOs => r.program@ == "open"@ && texts(r.args@) == seq![url@],
            Platform::Windows => r.program@ == "cmd"@ && texts(r.args@) == seq![
                "/c"@,
                "start"@,
                ""@,
                url@,
            ],
            Platform::Other => r.program@ == "xdg-open"@ && texts(r.args@) == seq![url@],
        },
{
    let mut args: Vec<String> = Vec::new();
    match platform {
        Platform::Windows => {
            args.push(owned("/c"));
            args.push(owned("start"));
            args.push(owned(""));
            args.push(owned(url));
            assert(texts(args@) =~= seq!["/c"@, "start"@, ""@, url@]);
            Launch { program: owned("cmd"), args }
        },
        Platform::MacOs => {
            args.push(owned(url));
            assert(texts(args@) =~= seq![url@]);
            Launch { program: owned("open"), args }
        },
        Platform::Other => {
            args.push(owned(url));
            assert(texts(args@) =~= seq![url@]);
            Launch { program: owned("xdg-open"), args }
        },
    }
}

} // verus!
