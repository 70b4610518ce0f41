use wadb::tray::terminal::{
    application_dirs, argv, basename, candidates, entry_paths, from_env, id_paths, list_files_in,
    listed_ids, parse_desktop_entry, parse_terminal_list, program_paths, programs_to_look_for, resolve,
    search_dirs, separator, size, size_args, spawn_checked, terminal_list_files, Candidate, DesktopEntry,
    FileAt, OpenStep, Opening, Settled, Surroundings,
};
use wadb::ui::{MIN_HEIGHT, MIN_WIDTH};

#[test]
fn the_window_follows_the_tui_s_own_minimum() {
    assert_eq!(size(), (MIN_WIDTH + 2, MIN_HEIGHT + 2));
}

#[test]
fn a_terminal_list_is_ids_without_comments_or_blanks() {
    let list = "# a comment\n\nkitty.desktop\r\n  foot.desktop  \n\n#another\n";
    assert_eq!(
        parse_terminal_list(list),
        vec!["kitty.desktop".to_string(), "foot.desktop".to_string()]
    );
}

#[test]
fn the_program_comes_from_exec_never_from_try_exec() {
    let entry = parse_desktop_entry(
        "[Desktop Entry]\n\
         TryExec=/usr/bin/ulauncher\n\
         Exec=env GDK_BACKEND=x11 /usr/bin/ulauncher --hide-window\n",
    );
    assert_eq!(entry.try_exec.as_deref(), Some("/usr/bin/ulauncher"));
    assert_eq!(
        entry.program, None,
        "an Exec that is a wrapper invocation cannot be run by dropping its arguments"
    );
}

#[test]
fn exec_keeps_field_codes_out_and_refuses_real_arguments() {
    assert_eq!(
        parse_desktop_entry("[Desktop Entry]\nExec=kitty %F\n")
            .program
            .as_deref(),
        Some("kitty")
    );
    assert_eq!(
        parse_desktop_entry("[Desktop Entry]\nExec=/usr/bin/kitty\n")
            .program
            .as_deref(),
        Some("/usr/bin/kitty")
    );
    assert_eq!(
        parse_desktop_entry("[Desktop Entry]\nExec=flatpak run org.foo.Term\n").program,
        None,
        "dropping `run org.foo.Term` would launch flatpak itself"
    );
    assert_eq!(
        parse_desktop_entry("[Desktop Entry]\nName=x\n").program,
        None
    );
}

#[test]
fn only_the_desktop_entry_group_is_read() {
    let entry = parse_desktop_entry(
        "[Desktop Entry]\n\
         Exec=kitty\n\
         X-ExecArg=--\n\
         [Desktop Action new-window]\n\
         Exec=kitty --single-instance\n\
         X-ExecArg=-e\n",
    );
    assert_eq!(entry.program.as_deref(), Some("kitty"));
    assert_eq!(entry.exec_arg.as_deref(), Some("--"));
}

#[test]
fn rows_are_keyed_on_the_file_name_not_the_whole_path() {
    let (c, r) = (80, 32);
    assert_eq!(size_args("/usr/bin/kitty", c, r), size_args("kitty", c, r));
    assert_eq!(separator("/usr/bin/foot"), separator("foot"));
    assert!(size_args("/opt/weird/term", c, r).is_empty());
    assert_eq!(separator("/opt/weird/term"), Some("-e"));
}

#[test]
fn kitty_is_told_not_to_remember_its_last_size() {
    assert_eq!(
        argv(
            &Candidate::plain("kitty"),
            "/x/wadb",
            &size_args("kitty", 80, 32)
        ),
        vec![
            "kitty",
            "-o",
            "remember_window_size=no",
            "-o",
            "initial_window_width=80c",
            "-o",
            "initial_window_height=32c",
            "-e",
            "/x/wadb",
        ]
    );
}

#[test]
fn gnome_terminal_is_asked_for_no_size_at_all() {
    assert!(size_args("gnome-terminal", 80, 32).is_empty());
    assert_eq!(separator("gnome-terminal"), Some("--"));
    assert_eq!(
        argv(&Candidate::plain("gnome-terminal"), "/x/wadb", &[]),
        vec!["gnome-terminal", "--", "/x/wadb"]
    );
}

#[test]
fn a_debian_wrapper_is_driven_by_the_xterm_convention_it_implements() {
    assert!(size_args("gnome-terminal.wrapper", 80, 32).is_empty());
    assert!(size_args("xfce4-terminal.wrapper", 80, 32).is_empty());
    assert_eq!(separator("xfce4-terminal.wrapper"), Some("-e"));
}

#[test]
fn a_terminal_that_already_names_its_command_is_left_alone() {
    let c = from_env("alacritty --command").unwrap();
    assert!(c.user_separator);
    assert_eq!(
        argv(&c, "/x/wadb", &size_args("alacritty", 80, 32)),
        vec!["alacritty", "--command", "/x/wadb"]
    );
}

#[test]
fn only_the_last_word_of_terminal_can_be_a_separator() {
    let c = from_env("kitty -o foo=--").unwrap();
    assert!(!c.user_separator);
    assert_eq!(
        argv(&c, "/x/wadb", &[]),
        vec!["kitty", "-o", "foo=--", "-e", "/x/wadb"]
    );
    assert!(from_env("   ").is_none());
    assert!(from_env("").is_none());
}

#[test]
fn x_exec_arg_beats_the_table() {
    let mut c = Candidate::plain("weird-term");
    c.exec_arg = Some("--".into());
    assert_eq!(
        argv(&c, "/x/wadb", &[]),
        vec!["weird-term", "--", "/x/wadb"]
    );
    c.exec_arg = Some(String::new());
    assert_eq!(
        argv(&c, "/x/wadb", &[]),
        vec!["weird-term", "/x/wadb"],
        "present and empty means the command simply goes last"
    );
}

#[test]
fn a_dashed_id_is_also_looked_for_in_a_subdirectory() {
    assert_eq!(
        id_paths("org-gnome-Terminal.desktop"),
        vec![
            "org-gnome-Terminal.desktop",
            "org/gnome-Terminal.desktop",
            "org/gnome/Terminal.desktop",
        ]
    );
}

fn nowhere() -> Surroundings {
    Surroundings {
        home: None,
        config_home: None,
        config_dirs: None,
        data_home: None,
        data_dirs: None,
        current_desktop: None,
        path: None,
        terminal: None,
    }
}

#[test]
fn the_defaults_are_used_when_the_variables_are_absent() {
    let mut e = nowhere();
    e.home = Some("/home/u".into());
    assert_eq!(
        search_dirs(&e),
        vec![
            "/home/u/.config",
            "/etc/xdg",
            "/home/u/.local/share/applications",
            "/usr/local/share/applications",
            "/usr/share/applications",
        ]
    );
}

/// A whole fixture desktop: config directories, application directories, and a search path holding
/// only what the test puts there.
struct Fixture {
    env: Surroundings,
    files: Vec<FileAt>,
}

impl Fixture {
    fn new() -> Self {
        Self {
            env: Surroundings {
                home: Some("/r/home".into()),
                config_home: Some("/r/config".into()),
                config_dirs: Some("/r/etc".into()),
                data_home: Some("/r/data".into()),
                data_dirs: Some("/r/sys".into()),
                current_desktop: Some("XFCE".into()),
                path: Some("/r/bin".into()),
                terminal: None,
            },
            files: vec![],
        }
    }

    fn put(&mut self, path: &str, contents: Option<&str>) -> &mut Self {
        self.files.push(FileAt {
            path: path.into(),
            contents: contents.map(|s| s.to_string()),
        });
        self
    }

    fn program(&mut self, name: &str) -> &mut Self {
        self.put(&format!("/r/bin/{name}"), None)
    }

    fn user_list(&mut self, contents: &str) -> &mut Self {
        self.put("/r/config/xdg-terminals.list", Some(contents))
    }

    fn desktop_list(&mut self, contents: &str) -> &mut Self {
        self.put("/r/config/xfce-xdg-terminals.list", Some(contents))
    }

    fn user_entry(&mut self, rel: &str, contents: &str) -> &mut Self {
        self.put(&format!("/r/data/applications/{rel}"), Some(contents))
    }

    fn system_entry(&mut self, rel: &str, contents: &str) -> &mut Self {
        self.put(&format!("/r/sys/applications/{rel}"), Some(contents))
    }

    fn found(&self) -> Vec<Candidate> {
        candidates(&self.env, &self.files, None)
    }

    fn chosen(&self) -> Vec<String> {
        self.found().into_iter().map(|c| c.program).collect()
    }
}

#[test]
fn the_desktop_prefixed_list_beats_the_plain_one() {
    let mut f = Fixture::new();
    f.program("aaa").program("bbb");
    f.desktop_list("aaa.desktop\n").user_list("bbb.desktop\n");
    f.system_entry("aaa.desktop", "[Desktop Entry]\nExec=aaa\n");
    f.system_entry("bbb.desktop", "[Desktop Entry]\nExec=bbb\n");
    assert_eq!(f.chosen().first().map(String::as_str), Some("aaa"));
    assert_eq!(f.chosen(), ["aaa", "bbb"]);
}

#[test]
fn the_user_application_directory_beats_the_system_one() {
    let mut f = Fixture::new();
    f.program("mine").program("theirs");
    f.user_list("term.desktop\n");
    f.user_entry("term.desktop", "[Desktop Entry]\nExec=mine\n");
    f.system_entry("term.desktop", "[Desktop Entry]\nExec=theirs\n");
    assert_eq!(f.chosen().first().map(String::as_str), Some("mine"));
}

#[test]
fn a_dashed_id_resolves_through_a_subdirectory() {
    let mut f = Fixture::new();
    f.program("sub");
    f.user_list("org-foo-Term.desktop\n");
    f.system_entry("org/foo/Term.desktop", "[Desktop Entry]\nExec=sub\n");
    assert_eq!(f.chosen().first().map(String::as_str), Some("sub"));
}

#[test]
fn unusable_entries_are_skipped_rather_than_fatal() {
    let mut f = Fixture::new();
    f.program("good");
    f.user_list("missing.desktop\nprobe.desktop\nwrapped.desktop\ngood.desktop\n");
    f.system_entry(
        "probe.desktop",
        "[Desktop Entry]\nTryExec=/nowhere/at/all\nExec=good\n",
    );
    f.system_entry("wrapped.desktop", "[Desktop Entry]\nExec=env FOO=1 good\n");
    f.system_entry("good.desktop", "[Desktop Entry]\nExec=good\n");
    assert_eq!(f.chosen().first().map(String::as_str), Some("good"));
}

#[test]
fn an_entry_with_no_try_exec_key_is_not_skipped() {
    let mut f = Fixture::new();
    f.program("plain");
    f.user_list("plain.desktop\n");
    f.system_entry("plain.desktop", "[Desktop Entry]\nExec=plain\n");
    assert_eq!(f.chosen().first().map(String::as_str), Some("plain"));
}

#[test]
fn with_no_lists_at_all_the_known_terminals_are_tried() {
    let mut f = Fixture::new();
    f.program("kitty").program("xterm");
    assert_eq!(f.chosen().first().map(String::as_str), Some("kitty"));
    assert_eq!(f.chosen(), ["kitty", "xterm"]);
}

#[test]
fn terminal_beats_everything_the_desktop_recorded() {
    let mut f = Fixture::new();
    f.program("chosen").program("kitty");
    f.user_list("kitty.desktop\n");
    f.system_entry("kitty.desktop", "[Desktop Entry]\nExec=kitty\n");
    f.env.terminal = Some("chosen".into());
    assert_eq!(f.chosen().first().map(String::as_str), Some("chosen"));
}

#[test]
fn a_terminal_that_dies_on_its_size_flags_is_retried_without_them() {
    let mut o = Opening::begin(vec![Candidate::plain("kitty")]);
    let first = match o.open("/x/wadb", None) {
        OpenStep::Spawn(args) => args,
        other => panic!("{other:?}"),
    };
    assert!(first.contains(&"remember_window_size=no".to_string()));
    let second = match o.open("/x/wadb", Some(false)) {
        OpenStep::Spawn(args) => args,
        other => panic!("{other:?}"),
    };
    assert_eq!(
        second,
        ["kitty", "-e", "/x/wadb"],
        "the retry must drop the size arguments"
    );
    assert_eq!(o.open("/x/wadb", Some(true)), OpenStep::Opened(None));
}

#[test]
fn a_program_that_was_sent_no_size_arguments_is_not_retried() {
    let mut o = Opening::begin(vec![Candidate::plain("weird-term")]);
    assert!(matches!(o.open("/x/wadb", None), OpenStep::Spawn(_)));
    assert_eq!(o.open("/x/wadb", Some(false)), OpenStep::Failed);
}

#[test]
fn a_terminal_still_running_after_the_settle_window_is_a_success() {
    assert_eq!(spawn_checked(None, 399, 400), Settled::Wait);
    assert_eq!(spawn_checked(None, 400, 400), Settled::Window);
    assert_eq!(spawn_checked(Some(true), 10, 400), Settled::Finished);
    assert_eq!(spawn_checked(Some(false), 500, 400), Settled::Died);
}

#[test]
fn a_dead_child_is_never_reported_as_a_window() {
    let mut f = Fixture::new();
    f.program("broken").program("kitty");
    f.env.terminal = Some("broken".into());
    let mut o = Opening::begin(f.found());
    assert_eq!(
        o.open("/x/wadb", None),
        OpenStep::Spawn(vec!["broken".into(), "-e".into(), "/x/wadb".into()])
    );
    assert!(matches!(o.open("/x/wadb", Some(false)), OpenStep::Spawn(_)));
    assert_eq!(
        o.open("/x/wadb", Some(true)),
        OpenStep::Opened(Some(
            "$TERMINAL (broken) failed; opened kitty instead".into()
        ))
    );
}

#[test]
fn with_nothing_that_works_it_says_so_instead_of_claiming_success() {
    let mut f = Fixture::new();
    f.program("broken");
    f.env.terminal = Some("broken".into());
    let mut o = Opening::begin(f.found());
    assert!(matches!(o.open("/x/wadb", None), OpenStep::Spawn(_)));
    assert_eq!(o.open("/x/wadb", Some(false)), OpenStep::Failed);
    assert_eq!(Opening::begin(vec![]).open("/x", None), OpenStep::Failed);
}

#[test]
fn every_terminal_is_sized_in_its_own_words() {
    assert_eq!(
        size_args("alacritty", 80, 32),
        [
            "-o",
            "window.dimensions.columns=80",
            "-o",
            "window.dimensions.lines=32"
        ]
    );
    assert_eq!(size_args("foot", 80, 32), ["--window-size-chars=80x32"]);
    assert_eq!(size_args("xfce4-terminal", 80, 32), ["--geometry=80x32"]);
    assert_eq!(
        size_args("konsole", 80, 32),
        ["-p", "TerminalColumns=80", "-p", "TerminalRows=32"]
    );
    assert_eq!(size_args("xterm", 80, 32), ["-geometry", "80x32"]);
    assert_eq!(separator("foot"), None);
    assert_eq!(separator("xfce4-terminal"), Some("-x"));
    assert_eq!(separator("ptyxis"), Some("--"));
    assert_eq!(basename("/usr/bin/kitty/"), "kitty");
    assert_eq!(basename(".."), "..");
}

#[test]
fn an_alternative_that_can_be_sized_comes_before_the_known_ones() {
    let mut f = Fixture::new();
    f.program("x-terminal-emulator").program("kitty");
    let with = |target: Option<&str>| {
        candidates(&f.env, &f.files, target)
            .into_iter()
            .map(|c| c.program)
            .collect::<Vec<_>>()
    };
    assert_eq!(
        with(Some("/usr/bin/xterm")),
        ["/usr/bin/xterm", "kitty", "x-terminal-emulator"]
    );
    assert_eq!(
        with(Some("/usr/bin/gnome-terminal.wrapper")),
        ["kitty", "x-terminal-emulator"]
    );
    assert_eq!(with(None), ["kitty", "x-terminal-emulator"]);
}

#[test]
fn neighbours_are_listed_once_unless_asked_for_by_name() {
    let mut f = Fixture::new();
    f.program("kitty");
    f.user_list("a.desktop\nb.desktop\n");
    f.system_entry("a.desktop", "[Desktop Entry]\nExec=kitty\nX-ExecArg=--\n");
    f.system_entry("b.desktop", "[Desktop Entry]\nExec=kitty %U\n");
    let found = f.found();
    assert_eq!(found.len(), 1);
    assert_eq!(found[0].exec_arg.as_deref(), Some("--"), "the first stays");
    f.env.terminal = Some("kitty".into());
    assert_eq!(f.chosen(), ["kitty", "kitty"]);
}

#[test]
fn where_to_look_follows_the_variables() {
    let f = Fixture::new();
    assert_eq!(
        terminal_list_files(&f.env),
        [
            "/r/config/xfce-xdg-terminals.list",
            "/r/config/xdg-terminals.list",
            "/r/etc/xfce-xdg-terminals.list",
            "/r/etc/xdg-terminals.list",
        ]
    );
    assert_eq!(
        list_files_in(&["/c".to_string()], &["kde".to_string(), "x".to_string()]),
        [
            "/c/kde-xdg-terminals.list",
            "/c/x-xdg-terminals.list",
            "/c/xdg-terminals.list"
        ]
    );
    assert_eq!(
        application_dirs(&f.env),
        ["/r/data/applications", "/r/sys/applications"]
    );
    assert_eq!(
        entry_paths(&["/a".to_string(), "/b".to_string()], "x-y"),
        ["/a/x-y", "/a/x/y", "/b/x-y", "/b/x/y"]
    );
    let path = Some("/p::/q".to_string());
    assert_eq!(program_paths(&path, "t"), ["/p/t", "/q/t"]);
    assert_eq!(program_paths(&path, "./t"), ["./t"]);
    assert!(program_paths(&None, "t").is_empty());
    let mut e = nowhere();
    e.config_home = Some(String::new());
    e.config_dirs = Some("  ".into());
    e.data_home = Some(String::new());
    e.data_dirs = Some("/one:/two".into());
    assert_eq!(
        search_dirs(&e),
        [
            ".config",
            "/etc/xdg",
            ".local/share/applications",
            "/one/applications",
            "/two/applications"
        ]
    );
}

#[test]
fn a_program_is_found_where_the_first_file_is() {
    let files = vec![
        FileAt {
            path: "/q/t".into(),
            contents: None,
        },
        FileAt {
            path: "/l".into(),
            contents: Some("a.desktop\n".into()),
        },
    ];
    let path = Some("/p:/q".to_string());
    assert_eq!(resolve(&path, &files, "t").as_deref(), Some("/q/t"));
    assert_eq!(resolve(&path, &files, "u"), None);
    assert_eq!(resolve(&None, &files, "/q/t").as_deref(), Some("/q/t"));
    assert_eq!(
        listed_ids(&["/none".to_string(), "/l".to_string()], &files),
        ["a.desktop"]
    );
    assert_eq!(parse_desktop_entry("Exec=kitty\n"), DesktopEntry::default());
}

#[test]
fn the_known_terminals_are_always_looked_for() {
    let v = programs_to_look_for();
    assert_eq!(v.len(), 8);
    assert_eq!(v[0], "kitty");
    assert_eq!(v[7], "x-terminal-emulator");
}

/// Open one of the candidates, of which only `lasting` keeps a window open.
fn opened(candidates: Vec<Candidate>, lasting: &str) -> OpenStep {
    let mut o = Opening::begin(candidates);
    let mut step = o.open("/x/wadb", None);
    while let OpenStep::Spawn(args) = step {
        step = o.open("/x/wadb", Some(args[0] == lasting));
    }
    step
}

#[test]
fn the_first_that_lasts_is_opened_and_a_refused_choice_named() {
    let known = || {
        vec![
            Candidate::plain("kitty"),
            Candidate::plain("foot"),
            Candidate::plain("xterm"),
        ]
    };
    assert_eq!(opened(known(), "foot"), OpenStep::Opened(None));
    assert_eq!(opened(known(), "nothing"), OpenStep::Failed);
    let mut f = Fixture::new();
    f.program("broken").program("kitty").program("foot");
    f.env.terminal = Some("broken".into());
    assert_eq!(
        opened(f.found(), "foot"),
        OpenStep::Opened(Some(
            "$TERMINAL (broken) failed; opened foot instead".into()
        ))
    );
    assert_eq!(opened(f.found(), "broken"), OpenStep::Opened(None));
    assert_eq!(opened(f.found(), "nothing"), OpenStep::Failed);
}
