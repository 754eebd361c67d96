//! What is found on a machine, and how it is shown.

use crate::app::default_out_text;
use crate::app::transcripts::missing_names;
use crate::feed::optional_text;
use crate::figures::says;
use crate::logs::log_folder;
use crate::text::signed_decimal;
use crate::text::starts_with;
use crate::text::strip_end;
use crate::timestamps::lemma_first_is;
use crate::tools::chosen_manager;
use crate::tools::command_line;
use crate::tools::elided_with;
use crate::tools::exit_text;
use crate::tools::finding;
use crate::tools::first_found;
use crate::tools::has_text;
use crate::tools::joined_path;
use crate::tools::model_listed;
use crate::tools::program_file;
use crate::tools::program_places;
use crate::tools::remedy;
use crate::tools::Finding;
use crate::tools::Machine;
use crate::tools::Manager;
use crate::tools::Managers;
use crate::tools::Platform;
use crate::tools::Remedy;
use crate::tools::Tool;
use crate::tools::MODEL_BYTES;
use crate::transcribe::index_of;
use vstd::prelude::*;

verus! {

// ---- Package managers -----------------------------------------------------

/// Whether a package manager is on the machine.
pub open spec fn is_here(m: Manager, on: Managers) -> bool {
    match m {
        Manager::Homebrew => on.brew,
        Manager::Apt => on.apt_get,
        Manager::Dnf => on.dnf,
        Manager::Pacman => on.pacman,
        Manager::Winget => on.winget,
    }
}

/// Whether a package manager is one that a platform's programs come with.
pub open spec fn belongs(m: Manager, platform: Platform) -> bool {
    match platform {
        Platform::MacOs => m == Manager::Homebrew,
        Platform::Windows => m == Manager::Winget,
        Platform::Other => m != Manager::Winget,
    }
}

/// The package manager used is one that is here and belongs here, Homebrew before
/// the others; and one is used wherever there is one.
pub proof fn law_the_manager_is_one_that_is_here(platform: Platform, on: Managers, m: Manager)
    ensures
        chosen_manager(platform, on) matches Some(c) ==> is_here(c, on) && belongs(c, platform),
        is_here(m, on) && belongs(m, platform) ==> chosen_manager(platform, on) is Some,
        platform != Platform::Windows && on.brew ==> chosen_manager(platform, on) == Some(
            Manager::Homebrew,
        ),
{
}

/// A command that installs a package names the package, and asks nothing on the
/// way where the manager would otherwise ask.
pub proof fn law_installs_name_their_package(m: Manager, package: Seq<char>)
    ensures
        m.arguments(package).contains(package),
        m == Manager::Apt || m == Manager::Dnf ==> m.arguments(package).contains("-y"@),
        m == Manager::Pacman ==> m.arguments(package).contains("--noconfirm"@),
        m == Manager::Winget ==> m.arguments(package).contains("--accept-package-agreements"@)
            && m.arguments(package).contains("--accept-source-agreements"@),
{
    let a = m.arguments(package);
    match m {
        Manager::Homebrew => {
            assert(a[1] == package);
        },
        Manager::Winget => {
            assert(a[3] == package);
            assert(a[4] == "--accept-package-agreements"@);
            assert(a[5] == "--accept-source-agreements"@);
        },
        Manager::Pacman => {
            assert(a[3] == package);
            assert(a[2] == "--noconfirm"@);
        },
        _ => {
            assert(a[3] == package);
            assert(a[2] == "-y"@);
        },
    }
}

/// A tool that a manager has a package of is put right by installing that
/// package with that manager, run where no password is needed and shown where
/// one is; and of one it has no package of, the user is told where to go.
pub proof fn law_tools_are_installed_with_the_manager(
    tool: Tool,
    m: Manager,
    platform: Platform,
    ollama: Option<Seq<char>>,
    model_path: Seq<char>,
)
    requires
        tool == Tool::Ffmpeg || tool == Tool::Whisper || tool == Tool::Ollama,
    ensures
        match (m.package(tool), remedy(tool, Some(m), platform, ollama, model_path)) {
            (Some(p), Remedy::Run { program, args, .. }) => (m == Manager::Homebrew || m
                == Manager::Winget) && program == m.program() && args.contains(p),
            (Some(p), Remedy::Guided { command, .. }) => (m == Manager::Apt || m == Manager::Dnf
                || m == Manager::Pacman) && command == command_line(m.program(), m.arguments(p)),
            (None, Remedy::Manual { .. }) => true,
            _ => false,
        },
{
    reveal_strlit("sudo");
    reveal_strlit("brew");
    reveal_strlit("winget");
    assert("brew"@[0] == 'b' && "winget"@[0] == 'w' && "sudo"@[0] == 's');
    if let Some(p) = m.package(tool) {
        law_installs_name_their_package(m, p);
    }
}

/// A command is written as it is typed: the program, and each thing it is told
/// after a space.
pub proof fn law_commands_are_written_as_typed(
    program: Seq<char>,
    args: Seq<Seq<char>>,
    last: Seq<char>,
)
    ensures
        command_line(program, Seq::empty()) == program,
        command_line(program, args.push(last)) == command_line(program, args) + seq![' '] + last,
{
    let none = Seq::<Seq<char>>::empty();
    assert(seq![program] + none =~= seq![program]);
    assert(seq![program] + args.push(last) =~= (seq![program] + args).push(last));
    assert((seq![program] + args).push(last).drop_last() =~= seq![program] + args);
}

// ---- Paths ----------------------------------------------------------------

/// A file's path in a folder begins with the folder and ends with the file, with
/// a separator between them and only one.
pub proof fn law_paths_are_joined_by_one_separator(dir: Seq<char>, file: Seq<char>)
    requires
        dir.len() > 0,
    ensures
        starts_with(joined_path(dir, file), dir),
        dir.last() == '/' ==> joined_path(dir, file).len() == dir.len() + file.len(),
        dir.last() != '/' ==> joined_path(dir, file).len() == dir.len() + 1 + file.len()
            && joined_path(dir, file)[dir.len() as int] == '/',
        joined_path(dir, file).skip(joined_path(dir, file).len() - file.len()) == file,
        joined_path(Seq::empty(), file) == file,
{
    let p = joined_path(dir, file);
    assert(p.take(dir.len() as int) =~= dir);
    assert(p.skip(p.len() - file.len()) =~= file);
}

/// The home folder is shown as a tilde, and what lies in it after that; what lies
/// elsewhere is shown as it is, even where its name begins as the home folder's.
pub proof fn law_home_is_shown_as_a_tilde(home: Seq<char>, rest: Seq<char>, sep: char)
    requires
        home.len() > 0,
        home.last() != sep,
    ensures
        elided_with(home, Some(home), sep) == seq!['~', sep],
        elided_with(home + seq![sep] + rest, Some(home), sep) == seq!['~', sep] + rest,
        rest.len() > 0 && rest[0] != sep ==> elided_with(home + rest, Some(home), sep) == home
            + rest,
        elided_with(rest, None, sep) == rest,
{
    assert(strip_end(home, sep) == home);
    let inside = home + seq![sep] + rest;
    assert(inside.take(home.len() as int + 1) =~= home.push(sep));
    assert(inside.len() != home.len());
    assert(inside.skip(home.len() as int + 1) =~= rest);
    if rest.len() > 0 && rest[0] != sep {
        let beside = home + rest;
        assert(beside.len() != home.len());
        if starts_with(beside, home.push(sep)) {
            assert(beside.take(home.len() as int + 1)[home.len() as int] == rest[0]);
        }
    }
}

/// A program is looked for in the folders of the path first, in their order, and
/// then in the places a windowed process misses; in each under its own name,
/// which on Windows ends in `.exe`.
pub proof fn law_the_path_is_searched_first(
    platform: Platform,
    name: Seq<char>,
    path: Seq<Seq<char>>,
    i: int,
)
    requires
        0 <= i < path.len(),
    ensures
        program_places(platform, name, path).len() > path.len(),
        program_places(platform, name, path)[i] == joined_path(
            path[i],
            if platform == Platform::Windows {
                name + ".exe"@
            } else {
                name
            },
        ),
        program_places(platform, name, path).skip(path.len() as int) == program_places(
            platform,
            name,
            Seq::empty(),
        ),
{
    let all = program_places(platform, name, path);
    let none = Seq::<Seq<char>>::empty();
    assert(none + crate::tools::extra_bin_dirs() =~= crate::tools::extra_bin_dirs());
    assert(all.skip(path.len() as int) =~= program_places(platform, name, none));
}

/// Of several places the first where something was found counts.
pub proof fn law_the_first_find_counts(found: Seq<Option<String>>, k: int)
    requires
        0 <= k < found.len(),
        forall|j: int| 0 <= j < k ==> (#[trigger] found[j]) is None,
    ensures
        found[k] matches Some(p) ==> first_found(found) == Some(p@),
    decreases k,
{
    if k > 0 {
        assert(found[0] is None);
        let rest = found.skip(1);
        assert forall|j: int| 0 <= j < k - 1 implies (#[trigger] rest[j]) is None by {
            assert(rest[j] == found[j + 1]);
        }
        law_the_first_find_counts(rest, k - 1);
        assert(rest[k - 1] == found[k]);
    }
}

// ---- What is found --------------------------------------------------------

/// A program is there when it was found, and where it was found; the speech model
/// only when its file is exactly as large as it should be.
pub proof fn law_tools_are_where_they_were_found(on: Machine)
    ensures
        finding(Tool::Ffmpeg, on).path == optional_text(on.ffmpeg),
        finding(Tool::Whisper, on).path == optional_text(on.whisper),
        finding(Tool::Ollama, on).path == optional_text(on.ollama),
        finding(Tool::Ffmpeg, on).shown is Some <==> on.ffmpeg is Some,
        finding(Tool::Whisper, on).shown is Some <==> on.whisper is Some,
        finding(Tool::Ollama, on).shown is Some <==> on.ollama is Some,
        finding(Tool::PackageManager, on).shown is Some <==> on.manager is Some,
        finding(Tool::WhisperModel, on).shown is Some <==> on.model_bytes == Some(MODEL_BYTES),
        on.model_bytes == Some(MODEL_BYTES) ==> finding(Tool::WhisperModel, on).path == Some(
            on.model_path@,
        ),
{
}

/// A text holds another when that stands somewhere in it.
pub proof fn law_texts_are_found_anywhere(a: Seq<char>, p: Seq<char>, b: Seq<char>)
    ensures
        has_text(a + p + b, p),
    decreases a.len(),
{
    let s = a + p + b;
    if a.len() == 0 {
        assert(s.take(p.len() as int) =~= p);
    } else {
        law_texts_are_found_anywhere(a.skip(1), p, b);
        assert(s.skip(1) =~= a.skip(1) + p + b);
    }
}

/// What is found in a text stands in it.
pub proof fn law_what_is_found_is_there(s: Seq<char>, p: Seq<char>)
    requires
        has_text(s, p),
    ensures
        index_of(s, p) + p.len() <= s.len(),
        s.subrange(index_of(s, p), index_of(s, p) + p.len()) == p,
    decreases s.len(),
{
    if starts_with(s, p) {
        assert(s.subrange(0, p.len() as int) =~= s.take(p.len() as int));
    } else {
        let t = s.skip(1);
        law_what_is_found_is_there(t, p);
        let n = index_of(t, p);
        assert(s.subrange(n + 1, n + 1 + p.len()) =~= t.subrange(n, n + p.len()));
    }
}

/// Ollama has a model when its list names it, or names the latest of its name.
pub proof fn law_models_are_found_in_the_list(
    a: Seq<char>,
    name: Seq<char>,
    rest: Seq<char>,
    b: Seq<char>,
)
    requires
        !name.contains(':'),
    ensures
        ({
            let model = name + seq![':'] + rest;
            &&& has_text(a + model + b, "models"@) ==> model_listed(model, Some(a + model + b))
            &&& has_text(a + (seq!['"'] + name + ":latest\""@) + b, "models"@) ==> model_listed(
                model,
                Some(a + (seq!['"'] + name + ":latest\""@) + b),
            )
            &&& !model_listed(model, None)
        }),
{
    let model = name + seq![':'] + rest;
    let n = name.len() as int;
    let colon = seq![':'];
    assert(colon[0] == ':');
    assert forall|i: int| 0 <= i < n implies !colon.contains(#[trigger] model[i]) by {
        assert(model[i] == name[i]);
        assert(name.contains(name[i]));
    }
    assert(colon.contains(model[n]));
    lemma_first_is(model, colon, n);
    assert(model.take(n) =~= name);
    law_texts_are_found_anywhere(a, model, b);
    law_texts_are_found_anywhere(a, seq!['"'] + name + ":latest\""@, b);
}

/// A list that names neither does not have the model.
pub proof fn law_models_not_listed_are_missing(
    name: Seq<char>,
    rest: Seq<char>,
    tags: Seq<char>,
)
    requires
        !name.contains(':'),
        model_listed(name + seq![':'] + rest, Some(tags)),
    ensures
        says(tags, name + seq![':'] + rest) || says(tags, seq!['"'] + name + ":latest\""@),
{
    let model = name + seq![':'] + rest;
    let n = name.len() as int;
    let colon = seq![':'];
    assert(colon[0] == ':');
    assert forall|i: int| 0 <= i < n implies !colon.contains(#[trigger] model[i]) by {
        assert(model[i] == name[i]);
        assert(name.contains(name[i]));
    }
    assert(colon.contains(model[n]));
    lemma_first_is(model, colon, n);
    assert(model.take(n) =~= name);
    if has_text(tags, model) {
        lemma_found_is_said(tags, model);
    } else {
        lemma_found_is_said(tags, seq!['"'] + name + ":latest\""@);
    }
}

proof fn lemma_found_is_said(s: Seq<char>, p: Seq<char>)
    requires
        has_text(s, p),
    ensures
        says(s, p),
{
    law_what_is_found_is_there(s, p);
    let i = index_of(s, p);
    assert(s =~= s.take(i) + p + s.skip(i + p.len()));
}

/// An installer that fails says which it was and with what code it stopped.
pub proof fn law_failed_installers_say_their_code(program: Seq<char>, code: i32)
    ensures
        says(exit_text(program, Some(code)), program),
        says(exit_text(program, Some(code)), signed_decimal(code as int)),
        says(exit_text(program, None), program),
{
    let none = Seq::<char>::empty();
    let told = exit_text(program, Some(code));
    assert(told =~= none + program + (" stopped with "@ + ("code "@ + signed_decimal(
        code as int,
    ))));
    assert(told =~= (program + " stopped with "@ + "code "@) + signed_decimal(code as int) + none);
    let untold = exit_text(program, None);
    assert(untold =~= none + program + (" stopped with "@ + "no exit code"@));
}

/// The tools that are missing are named in the order of the list: those that are
/// not there and cannot be done without.
pub proof fn law_missing_tools_are_named(tools: Seq<Finding>, f: Finding)
    ensures
        f.shown is None && !f.tool.can_do_without() ==> missing_names(
            tools.push(f),
            tools.len() as int + 1,
        ) == missing_names(tools, tools.len() as int).push(f.tool.name()),
        f.shown is Some || f.tool.can_do_without() ==> missing_names(
            tools.push(f),
            tools.len() as int + 1,
        ) == missing_names(tools, tools.len() as int),
{
    lemma_missing_of_prefix(tools.push(f), tools, tools.len() as int);
    assert(tools.push(f)[tools.len() as int] == f);
}

proof fn lemma_missing_of_prefix(x: Seq<Finding>, y: Seq<Finding>, n: int)
    requires
        0 <= n <= x.len(),
        n <= y.len(),
        forall|i: int| 0 <= i < n ==> x[i] == #[trigger] y[i],
    ensures
        missing_names(x, n) == missing_names(y, n),
    decreases n,
{
    if n > 0 {
        lemma_missing_of_prefix(x, y, n - 1);
        assert(x[n - 1] == y[n - 1]);
    }
}

/// The logs and the downloads stand under the home folder wherever there is one,
/// apart from each other.
pub proof fn law_home_holds_logs_and_downloads(
    home: Seq<char>,
    data: Option<Seq<char>>,
    config: Option<Seq<char>>,
)
    requires
        home.len() > 0,
        home.last() != '/',
    ensures
        log_folder(Some(home), data, config) == Some(home + "/Podbatch/Logging"@),
        default_out_text(Some(home)) == home + "/Podbatch/Downloads"@,
        log_folder(None, None, None) is None,
{
    reveal_strlit("/Podbatch/Logging");
    reveal_strlit("/Podbatch/Downloads");
    reveal_strlit("Podbatch");
    reveal_strlit("Logging");
    reveal_strlit("Downloads");
    let top = joined_path(home, "Podbatch"@);
    assert(top =~= home + seq!['/'] + "Podbatch"@);
    assert(top.last() == 'h');
    assert(joined_path(top, "Logging"@) =~= home + "/Podbatch/Logging"@);
    assert(joined_path(top, "Downloads"@) =~= home + "/Podbatch/Downloads"@);
}

/// Programs are files of their name, with `.exe` behind it on Windows alone.
pub proof fn law_programs_are_files_of_their_name(name: Seq<char>)
    ensures
        program_file(Platform::Windows, name) == name + ".exe"@,
        program_file(Platform::MacOs, name) == name,
        program_file(Platform::Other, name) == name,
{
}

/// Where several package managers are here, the one used is Homebrew before apt,
/// apt before dnf and dnf before pacman.
pub proof fn law_managers_are_taken_in_order(on: Managers)
    ensures
        on.brew ==> chosen_manager(Platform::Other, on) == Some(Manager::Homebrew),
        !on.brew && on.apt_get ==> chosen_manager(Platform::Other, on) == Some(Manager::Apt),
        !on.brew && !on.apt_get && on.dnf ==> chosen_manager(Platform::Other, on) == Some(
            Manager::Dnf,
        ),
        chosen_manager(Platform::Other, on) == Some(Manager::Pacman) ==> !on.brew && !on.apt_get
            && !on.dnf && on.pacman,
{
}

} // verus!
