//! What transcribing needs, and how each piece is put right.

use podbatch::tools::elide;
use podbatch::tools::has_ollama_model;
use podbatch::tools::install_outcome;
use podbatch::tools::manager;
use podbatch::tools::model_path;
use podbatch::tools::ollama_running;
use podbatch::tools::places_for;
use podbatch::tools::survey;
use podbatch::tools::terminal_launch;
use podbatch::tools::url_launch;
use podbatch::tools::whisper_binary;
use podbatch::tools::whisper_names;
use podbatch::tools::Install;
use podbatch::tools::Machine;
use podbatch::tools::Manager;
use podbatch::tools::Managers;
use podbatch::tools::Platform;
use podbatch::tools::Presence;
use podbatch::tools::Site;
use podbatch::tools::Tool;
use podbatch::tools::MODEL_BYTES;
use podbatch::tools::MODEL_FILE;
use podbatch::tools::OLLAMA_MODEL;

fn plan(tool: Tool, manager: Option<Manager>) -> Install {
    let site =
        Site { platform: Platform::MacOs, ollama: None, model_path: "/m/model.bin".into() };
    podbatch::tools::plan(tool, manager, &site)
}

#[test]
fn every_tool_says_what_it_is_for() {
    for tool in Tool::all() {
        assert!(!tool.label().is_empty(), "{tool:?} has no label");
        assert!(!tool.why().is_empty(), "{tool:?} has no reason");
    }
}

#[test]
fn only_the_ollama_pieces_are_optional() {
    let optional: Vec<_> = Tool::all().into_iter().filter(|t| t.optional()).collect();
    assert_eq!(optional, vec![Tool::Ollama, Tool::OllamaModel]);
}

/// The bootstrap is the one thing we must never run ourselves.
#[test]
fn a_missing_package_manager_is_only_ever_guided() {
    assert!(matches!(plan(Tool::PackageManager, None), Install::Guided { .. }));
    assert!(matches!(
        plan(Tool::PackageManager, Some(Manager::Homebrew)),
        Install::Guided { .. }
    ));
}

/// Anything wanting a password is guided too, for the same reason: there is
/// nowhere in a windowed app for the password to be typed.
#[test]
fn root_installs_are_never_run_for_the_user() {
    for manager in [Manager::Apt, Manager::Dnf, Manager::Pacman] {
        assert!(
            matches!(plan(Tool::Ffmpeg, Some(manager)), Install::Guided { .. }),
            "{manager:?} would have been run unattended"
        );
    }
}

#[test]
fn homebrew_installs_are_ones_we_can_run() {
    let Install::Run { display, .. } = plan(Tool::Ffmpeg, Some(Manager::Homebrew)) else {
        panic!("expected a runnable install");
    };
    assert_eq!(display, "brew install ffmpeg");

    let Install::Run { display, .. } = plan(Tool::Whisper, Some(Manager::Homebrew)) else {
        panic!("expected a runnable install");
    };
    assert_eq!(display, "brew install whisper-cpp");
}

fn machine() -> Machine {
    Machine {
        manager: Some(Manager::Homebrew),
        brew: Some("/opt/homebrew/bin/brew".into()),
        ffmpeg: Some("/home/me/bin/ffmpeg".into()),
        whisper: None,
        ollama: Some("/usr/bin/ollama".into()),
        model_path: "/home/me/m.bin".into(),
        model_bytes: Some(MODEL_BYTES),
        tags: None,
        home: Some("/home/me".into()),
    }
}

/// The size in the confirmation box is the size that gets downloaded, and a
/// partly-downloaded model is detected as missing rather than used.
#[test]
fn the_model_is_checked_by_size_not_just_existence() {
    let ready = |bytes: Option<u64>| {
        let on = Machine { model_bytes: bytes, ..machine() };
        survey(&on)
            .into_iter()
            .find(|f| f.tool == Tool::WhisperModel)
            .expect("the model")
            .presence
            .is_ready()
    };
    assert!(!ready(Some("not the whole model".len() as u64)), "a short file passed");
    assert!(!ready(None));
    assert!(ready(Some(MODEL_BYTES)));
    let Install::Download { bytes, to, .. } = plan(Tool::WhisperModel, None) else {
        panic!("expected a download");
    };
    assert_eq!(bytes, MODEL_BYTES);
    assert_eq!(to, "/m/model.bin");
}

/// A program is looked for on the path, and in the places a window's path
/// leaves out; where none of them holds it there is nothing to find.
#[test]
fn a_program_that_cannot_exist_is_not_found() {
    let places =
        places_for(Platform::Other, "podbatch-no-such-program-xyzzy", &vec!["/a".into()]);
    assert_eq!(places[0], "/a/podbatch-no-such-program-xyzzy");
    assert!(places.len() > 1);
    assert!(places.iter().all(|p| p.ends_with("/podbatch-no-such-program-xyzzy")));
    assert_eq!(whisper_binary(&vec![None, None]), None);
    assert_eq!(whisper_names(), vec!["whisper-cli", "whisper-cpp", "whisper", "main"]);
    assert_eq!(
        whisper_binary(&vec![None, Some("/w".into()), Some("/x".into())]).as_deref(),
        Some("/w")
    );
    assert!(places_for(Platform::Windows, "ffmpeg", &vec!["C:".into()])[0].ends_with("ffmpeg.exe"));
}

#[test]
fn a_survey_says_what_is_there() {
    let found = survey(&machine());
    let of = |tool: Tool| found.iter().find(|f| f.tool == tool).expect("listed");
    assert_eq!(found.len(), 6);
    assert_eq!(of(Tool::Ffmpeg).presence, Presence::Ready("~/bin/ffmpeg".into()));
    assert_eq!(of(Tool::Ffmpeg).path.as_deref(), Some("/home/me/bin/ffmpeg"));
    assert_eq!(of(Tool::Whisper).presence, Presence::Missing);
    assert!(of(Tool::PackageManager).presence.is_ready());
    assert!(!of(Tool::OllamaModel).presence.is_ready());
}

#[test]
fn ollama_answers_with_the_models_it_has() {
    let tags = format!(r#"{{"models":[{{"name":"{OLLAMA_MODEL}"}}]}}"#);
    assert!(ollama_running(Some(tags.as_str())));
    assert!(has_ollama_model(OLLAMA_MODEL, Some(tags.as_str())));
    assert!(!has_ollama_model("another:1b", Some(tags.as_str())));
    assert!(!ollama_running(None));
    assert!(!has_ollama_model(OLLAMA_MODEL, None));
}

#[test]
fn the_manager_is_the_one_the_platform_has() {
    let on = |brew, apt_get, pacman| Managers {
        brew,
        apt_get,
        dnf: false,
        pacman,
        winget: false,
    };
    assert_eq!(manager(Platform::MacOs, on(true, false, false)), Some(Manager::Homebrew));
    assert_eq!(manager(Platform::Other, on(false, true, true)), Some(Manager::Apt));
    assert_eq!(manager(Platform::Windows, on(false, true, false)), None);
    assert_eq!(manager(Platform::Other, on(false, false, false)), None);
}

#[test]
fn paths_and_launches() {
    assert!(model_path(Some("/data")).ends_with(MODEL_FILE));
    assert!(model_path(Some("/data")).starts_with("/data/"));
    assert_eq!(elide("/home/me/x", Some("/home/me")), "~/x");
    assert_eq!(elide("/home/me/x", Some("/home/me/")), "~/x");
    assert_eq!(elide("/x", Some("/")), "~/x");
    let site = Site {
        platform: Platform::Other,
        ollama: Some("/opt/bin/ollama".into()),
        model_path: "/m".into(),
    };
    let Install::Run { program, args, display } =
        podbatch::tools::plan(Tool::OllamaModel, None, &site)
    else {
        panic!("expected a runnable install");
    };
    assert_eq!(display, format!("{program} {}", args.join(" ")));
    assert_eq!(display, format!("/opt/bin/ollama pull {OLLAMA_MODEL}"));
    assert!(install_outcome("brew", true, Some(0)).is_ok());
    let why = install_outcome("brew", false, Some(3)).unwrap_err();
    assert!(why.contains("brew") && why.contains('3'), "{why}");
    assert!(!terminal_launch(Platform::MacOs).program.is_empty());
    let launch = url_launch(Platform::Other, "https://x.test");
    assert!(launch.args.iter().any(|a| a == "https://x.test"));
}
