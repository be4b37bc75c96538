use launcher::applications::{clean_exec_command, parse_desktop_file, AppAction, ApplicationsPlugin, DesktopApp};
use launcher::calculator::{
    convert_integers_to_floats, translate_math_expression, CalcRequest, CalculatorPlugin,
};
use launcher::clipboard::{remember_clip, ClipAction, ClipboardPlugin};
use launcher::system::{name_matches, port_pids, SystemAction, SystemFacts, SystemPlugin};
use launcher::translator::{collect_translation, translate_url, TranslateAction, TranslatorPlugin};
use launcher::window_switcher::{target_workspace, workspace_switch, WindowAction, WindowSwitcherPlugin};

fn no_facts() -> SystemFacts {
    SystemFacts {
        time: "12:34:56".to_string(),
        date: "Sonntag, 14. Juni 2026".to_string(),
        port_pids: None,
        pid_name: None,
        name_matches: Vec::new(),
    }
}

fn app(id: &str, name: &str, exec: &str) -> DesktopApp {
    DesktopApp { id: id.to_string(), name: name.to_string(), command: exec.to_string(), icon: None }
}

#[test]
fn test_system_accepts() {
    let plugin = SystemPlugin::new();
    assert!(plugin.accepts("lock"));
    assert!(plugin.accepts("reboot"));
    assert!(plugin.accepts("shut"));
    assert!(!plugin.accepts("random_word"));
    assert!(plugin.accepts("kill"));
    assert!(plugin.accepts("kill brave"));
    assert!(plugin.accepts("gem"));
    assert!(plugin.accepts("gemini"));
    assert!(plugin.accepts("time"));
    assert!(plugin.accepts("zeit"));
}

#[test]
fn test_system_query() {
    let plugin = SystemPlugin::new();
    let facts = no_facts();
    let results = plugin.query_with("reboot", &facts);
    assert_eq!(results.len(), 1);
    assert_eq!(results[0].title, "Reboot");
    assert_eq!(results[0].id, "sys:reboot");

    let kill_help = plugin.query_with("kill", &facts);
    assert_eq!(kill_help.len(), 1);
    assert_eq!(kill_help[0].id, "sys:kill_help");

    let gemini_res = plugin.query_with("gem", &facts);
    assert_eq!(gemini_res.len(), 1);
    assert_eq!(gemini_res[0].id, "sys:gemini");

    let time_res = plugin.query_with("time", &facts);
    assert_eq!(time_res.len(), 1);
    assert!(time_res[0].id.starts_with("sys:time:"));
}

#[test]
fn system_time_result_carries_time_and_date() {
    let plugin = SystemPlugin::new();
    assert!(plugin.is_time_query("  DATUM "));
    assert!(!plugin.is_time_query("ti"));
    let r = plugin.query_with("datum", &no_facts());
    assert_eq!(r.len(), 1);
    assert_eq!(r[0].id, "sys:time:12:34:56");
    assert_eq!(r[0].title, "12:34:56");
    assert_eq!(r[0].description.as_deref(), Some("Sonntag, 14. Juni 2026"));
    assert_eq!(r[0].score, 1000);
}

#[test]
fn system_kill_suggestions_by_port_pid_and_name() {
    let plugin = SystemPlugin::new();
    assert_eq!(plugin.kill_target("kill  5173 ").as_deref(), Some("5173"));
    assert_eq!(plugin.kill_target("kill   "), None);
    assert_eq!(plugin.kill_target("killall"), None);
    let facts = SystemFacts {
        time: String::new(),
        date: String::new(),
        port_pids: Some(vec![(4242, Some("node".to_string())), (4243, None)]),
        pid_name: None,
        name_matches: Vec::new(),
    };
    let r = plugin.query_with("kill 5173", &facts);
    assert_eq!(r.len(), 2);
    assert_eq!(r[0].id, "sys:kill:port:5173:4242");
    assert_eq!(r[0].title, "Kill 'node' (PID 4242)");
    assert_eq!(r[0].description.as_deref(), Some("Listening on port 5173"));
    assert_eq!(r[0].score, 100);
    assert_eq!(r[1].title, "Kill 'unknown' (PID 4243)");

    let facts = SystemFacts {
        time: String::new(),
        date: String::new(),
        port_pids: None,
        pid_name: Some("bash".to_string()),
        name_matches: vec![(77, "bash".to_string()), (78, "bashtop".to_string())],
    };
    let r = plugin.query_with("kill 77", &facts);
    // the PID, then "kill all", then the name match whose PID was not named yet
    assert_eq!(r.len(), 3);
    assert_eq!(r[0].id, "sys:kill:pid:77");
    assert_eq!(r[0].score, 95);
    assert_eq!(r[1].id, "sys:kill:all:77");
    assert_eq!(r[1].title, "Kill all '77' processes");
    assert_eq!(r[2].id, "sys:kill:name:bashtop:78");
    assert_eq!(r[2].score, 88);
}

#[test]
fn system_kill_lists_at_most_ten_names() {
    let plugin = SystemPlugin::new();
    let names: Vec<(u32, String)> = (100..120).map(|p| (p, "worker".to_string())).collect();
    let facts = SystemFacts {
        time: String::new(),
        date: String::new(),
        port_pids: None,
        pid_name: None,
        name_matches: names,
    };
    let r = plugin.query_with("kill worker", &facts);
    assert_eq!(r.len(), 11);
    assert_eq!(r[0].id, "sys:kill:all:worker");
    assert_eq!(r[10].id, "sys:kill:name:worker:109");
}

#[test]
fn system_actions() {
    let plugin = SystemPlugin::new();
    assert!(matches!(plugin.resolve("sys:picker"), SystemAction::Close));
    assert!(matches!(plugin.resolve("sys:kill_help"), SystemAction::KeepOpen));
    match plugin.resolve("sys:gemini") {
        SystemAction::OpenUrl(u) => assert_eq!(u, "https://gemini.google.com/app?hl=de"),
        _ => panic!("expected a URL"),
    }
    match plugin.resolve("sys:time:12:34:56") {
        SystemAction::Copy(t) => assert_eq!(t, "12:34:56"),
        _ => panic!("expected a copy"),
    }
    match plugin.resolve("sys:kill:all:fire:fox") {
        SystemAction::KillAll(t) => assert_eq!(t, "fire:fox"),
        _ => panic!("expected kill all"),
    }
    assert!(matches!(plugin.resolve("sys:kill:port:5173:4242"), SystemAction::KillPid(4242)));
    assert!(matches!(plugin.resolve("sys:kill:77"), SystemAction::KillPid(77)));
    match plugin.resolve("sys:kill:name:bash:x") {
        SystemAction::Error(m) => assert_eq!(m, "Invalid kill command format"),
        _ => panic!("expected an error"),
    }
    match plugin.resolve("sys:reboot") {
        SystemAction::Run(argv) => assert_eq!(argv, vec!["systemctl".to_string(), "reboot".to_string()]),
        _ => panic!("expected a command"),
    }
    match plugin.resolve("sys:nothing") {
        SystemAction::Error(m) => assert_eq!(m, "Invalid system command ID"),
        _ => panic!("expected an error"),
    }
}

#[test]
fn test_clean_exec_command() {
    assert_eq!(clean_exec_command("firefox %u"), "firefox");
    assert_eq!(clean_exec_command("gimp-2.10 %F"), "gimp-2.10");
    assert_eq!(clean_exec_command("steam -tenfoot %U"), "steam -tenfoot");
}

#[test]
fn clean_exec_collapses_whitespace() {
    assert_eq!(clean_exec_command("  env\tFOO=1   app  %f "), "env FOO=1 app");
    assert_eq!(clean_exec_command("%U"), "");
}

#[test]
fn test_applications_query() {
    let plugin = ApplicationsPlugin::from_apps(vec![
        app("firefox.desktop", "Firefox Web Browser", "firefox"),
        app("kitty.desktop", "Kitty Terminal", "kitty"),
    ]);

    assert!(plugin.accepts("fire"));
    assert!(!plugin.accepts("!g fire"));

    let results = plugin.query("fire");
    assert_eq!(results.len(), 1);
    assert_eq!(results[0].title, "Firefox Web Browser");
    assert_eq!(results[0].id, "app:firefox.desktop");

    let results_empty = plugin.query("");
    assert_eq!(results_empty.len(), 2);
}

#[test]
fn applications_gate_other_plugins_and_math() {
    let plugin = ApplicationsPlugin::from_apps(vec![
        app("calc.desktop", "Calculator", "calc"),
        app("xray.desktop", "X-Ray", "xray"),
    ]);
    assert!(plugin.accepts(""));
    assert!(!plugin.accepts("clip: calc"));
    assert!(!plugin.accepts("Win:calc"));
    assert!(!plugin.accepts("pq p 1 q 2"));
    assert!(!plugin.accepts("2+2"));
    assert!(!plugin.accepts("a-b"));
    assert!(plugin.accepts("-"));
    assert!(plugin.query("2*3").is_empty());
}

#[test]
fn applications_sorted_by_id_first_entry_kept() {
    let plugin = ApplicationsPlugin::from_apps(vec![
        app("b.desktop", "Beta", "beta"),
        app("a.desktop", "Alpha", "alpha --first"),
        app("a.desktop", "Alpha Local", "alpha --second"),
    ]);
    let all = plugin.query("");
    assert_eq!(all.len(), 2);
    assert_eq!(all[0].id, "app:a.desktop");
    assert_eq!(all[0].title, "Alpha");
    assert_eq!(all[1].id, "app:b.desktop");
    match plugin.resolve("app:a.desktop") {
        AppAction::Launch(argv) => assert_eq!(argv, vec!["alpha".to_string(), "--first".to_string()]),
        _ => panic!("expected a launch"),
    }
    match plugin.resolve("app:zzz.desktop") {
        AppAction::Error(m) => assert_eq!(m, "Application ID not found in cache"),
        _ => panic!("expected an error"),
    }
    match plugin.resolve("calc:3") {
        AppAction::Error(m) => assert_eq!(m, "Invalid application action ID"),
        _ => panic!("expected an error"),
    }
    let only_codes = ApplicationsPlugin::from_apps(vec![app("x.desktop", "X", "%u %F")]);
    match only_codes.resolve("app:x.desktop") {
        AppAction::Error(m) => assert_eq!(m, "Empty exec command after cleaning"),
        _ => panic!("expected an error"),
    }
}

#[test]
fn desktop_file_parsing() {
    let content = "[Desktop Entry]\r\nName=Firefox\nName[de]=Feuerfuchs\nName=Other\nExec=firefox %u\nIcon = firefox \n\n[Desktop Action new]\nExec=firefox --new-window\n";
    let app = parse_desktop_file("firefox.desktop", content).expect("a complete entry");
    assert_eq!(app.id, "firefox.desktop");
    assert_eq!(app.name, "Firefox");
    assert_eq!(app.command, "firefox %u");
    assert_eq!(app.icon.as_deref(), Some("firefox"));

    let hidden = "[Desktop Entry]\nName=Hidden\nExec=hidden\nNoDisplay=TRUE\n";
    assert_eq!(parse_desktop_file("h.desktop", hidden).err().as_deref(), Some("Incomplete or hidden desktop entry"));
    let no_exec = "[Desktop Entry]\nName=Nothing\n";
    assert!(parse_desktop_file("n.desktop", no_exec).is_err());
    let outside = "Name=Loose\nExec=loose\n";
    assert!(parse_desktop_file("l.desktop", outside).is_err());
}

#[test]
fn test_clipboard_query_empty() {
    let history = vec!["first copy".to_string(), "second copy".to_string()];
    let plugin = ClipboardPlugin::new();
    let results = plugin.query("", &history);
    assert_eq!(results.len(), 2);
    assert_eq!(results[0].title, "second copy");
    assert_eq!(results[1].title, "first copy");
}

#[test]
fn test_clipboard_query_filter() {
    let history = vec!["apple item".to_string(), "banana item".to_string()];
    let plugin = ClipboardPlugin::new();
    let results = plugin.query("banana", &history);
    assert_eq!(results.len(), 1);
    assert_eq!(results[0].title, "banana item");
}

#[test]
fn clipboard_entries_ids_titles_and_actions() {
    let plugin = ClipboardPlugin::new();
    assert!(plugin.accepts("  clip: x"));
    assert!(plugin.accepts("c:"));
    assert!(!plugin.accepts("copy"));
    let long = "x".repeat(60);
    let history = vec![long.clone(), "ä short".to_string()];
    let r = plugin.query("clip:", &history);
    assert_eq!(r.len(), 2);
    assert_eq!(r[0].id, "clip:0");
    assert_eq!(r[0].score, 100);
    assert_eq!(r[0].description.as_deref(), Some("Clipboard: 8 chars"));
    assert_eq!(r[1].id, "clip:1");
    assert_eq!(r[1].score, 99);
    assert_eq!(r[1].title, format!("{}...", "x".repeat(47)));
    match plugin.resolve("clip:1", &history) {
        ClipAction::Copy(t) => assert_eq!(t, long),
        _ => panic!("expected a copy"),
    }
    match plugin.resolve("clip:2", &history) {
        ClipAction::Error(m) => assert_eq!(m, "Clipboard history item not found"),
        _ => panic!("expected an error"),
    }
    match plugin.resolve("clip:one", &history) {
        ClipAction::Error(m) => assert_eq!(m, "Invalid clipboard index"),
        _ => panic!("expected an error"),
    }
    match plugin.resolve("win:1", &history) {
        ClipAction::Error(m) => assert_eq!(m, "Invalid clipboard action ID"),
        _ => panic!("expected an error"),
    }
}

#[test]
fn clipboard_history_moves_repeats_to_the_end_and_is_capped() {
    let mut h = vec!["a".to_string(), "b".to_string(), "a".to_string(), "c".to_string()];
    assert!(!remember_clip(&mut h, "c".to_string()));
    assert!(!remember_clip(&mut h, "   ".to_string()));
    assert!(remember_clip(&mut h, "a".to_string()));
    assert_eq!(h, vec!["b".to_string(), "c".to_string(), "a".to_string()]);
    let mut full: Vec<String> = (0..100).map(|i| i.to_string()).collect();
    assert!(remember_clip(&mut full, "new".to_string()));
    assert_eq!(full.len(), 100);
    assert_eq!(full[0], "1");
    assert_eq!(full[99], "new");
}

#[test]
fn test_window_switcher_accepts() {
    let plugin = WindowSwitcherPlugin::new();
    assert!(plugin.accepts("w:"));
    assert!(plugin.accepts("w:firefox"));
    assert!(plugin.accepts(""));
}

#[test]
fn test_window_switcher_query() {
    let plugin = WindowSwitcherPlugin::new();
    let results = plugin.query_with("w:firefox", &WindowSwitcherPlugin::mock_windows());
    assert!(results.len() >= 1);
    assert!(results[0].title.contains("Firefox"));
    assert!(results[0].id.starts_with("win:"));
}

#[test]
fn window_switcher_lists_all_and_focuses() {
    let plugin = WindowSwitcherPlugin::new();
    let windows = WindowSwitcherPlugin::mock_windows();
    let all = plugin.query_with("  ", &windows);
    assert_eq!(all.len(), 3);
    assert_eq!(all[1].id, "win:0xmock2");
    assert_eq!(all[1].icon.as_deref(), Some("kitty"));
    assert_eq!(all[1].score, 50);
    assert!(plugin.query_with("w:zzzz", &windows).is_empty());
    assert!(matches!(plugin.resolve("win:0xmock1"), WindowAction::Close));
    match plugin.resolve("win:0xabc") {
        WindowAction::Focus(a) => assert_eq!(a, "0xabc"),
        _ => panic!("expected focus"),
    }
    assert!(matches!(plugin.resolve("app:x"), WindowAction::Error(_)));
    assert_eq!(target_workspace(&windows, "0xmock3"), Some(3));
    assert_eq!(target_workspace(&windows, "0xnone"), None);
    assert_eq!(workspace_switch(Some(3), Some(1)), Some(3));
    assert_eq!(workspace_switch(Some(3), Some(3)), None);
    assert_eq!(workspace_switch(None, Some(3)), None);
}

#[test]
fn test_translator_accepts() {
    let plugin = TranslatorPlugin::new();
    assert!(plugin.accepts("t: hello"));
    assert!(plugin.accepts("tr Hello"));
    assert!(plugin.accepts("translate Wie geht es dir"));
    assert!(!plugin.accepts("hello"));
}

#[test]
fn test_translator_query() {
    let plugin = TranslatorPlugin::new();
    let help = plugin.query("t:");
    assert_eq!(help.len(), 1);
    assert_eq!(help[0].id, "tr:help");

    let targets = plugin.query("t: hello");
    assert_eq!(targets.len(), 2);
    assert_eq!(targets[0].id, "tr:en:hello");
    assert_eq!(targets[1].id, "tr:de:hello");
}

#[test]
fn translator_actions_and_requests() {
    let plugin = TranslatorPlugin::new();
    assert!(matches!(plugin.resolve("tr:help"), TranslateAction::KeepOpen));
    match plugin.resolve("tr:de:guten Tag") {
        TranslateAction::Show { text, to_english } => {
            assert_eq!(text, "guten Tag");
            assert!(!to_english);
        }
        _ => panic!("expected a translation"),
    }
    assert!(matches!(plugin.resolve("tr:fr:x"), TranslateAction::Error(_)));
    assert_eq!(
        translate_url("Grüß dich!", true),
        "https://translate.googleapis.com/translate_a/single?client=gtx&sl=de&tl=en&dt=t&q=Gr%C3%BC%C3%9F+dich%21"
    );
    let reply = Some(vec![Some("Hello ".to_string()), None, Some("world".to_string())]);
    assert_eq!(collect_translation(&reply), Ok("Hello world".to_string()));
    assert_eq!(collect_translation(&None), Err("Translation empty or parse error".to_string()));
    assert!(collect_translation(&Some(vec![None])).is_err());
}

#[test]
fn test_calculator_accepts() {
    let calc = CalculatorPlugin::new();
    assert!(calc.accepts("2 + 2"));
    assert!(calc.accepts("10 * (5 - 3)"));
    assert!(calc.accepts("wurzel 16"));
    assert!(calc.accepts("mitternachtsformel a 10 b 20 c -5"));
    assert!(calc.accepts("pq p 4 q 3"));
    assert!(!calc.accepts("42"));
    assert!(!calc.accepts("hello"));
}

#[test]
fn calculator_requests() {
    let calc = CalculatorPlugin::new();
    match calc.request("mitternachtsformel a20b30c-40") {
        CalcRequest::Quadratic(a, b, c) => assert_eq!((a.as_str(), b.as_str(), c.as_str()), ("20", "30", "-40")),
        _ => panic!("expected the quadratic formula"),
    }
    match calc.request("pq p-5q6") {
        CalcRequest::PqFormula(p, q) => assert_eq!((p.as_str(), q.as_str()), ("-5", "6")),
        _ => panic!("expected the pq formula"),
    }
    match calc.request("3 / 2") {
        CalcRequest::Expression(e) => assert_eq!(e, "3.0 / 2.0"),
        _ => panic!("expected an expression"),
    }
    assert!(matches!(calc.request("hello"), CalcRequest::Nothing));
    assert!(!calc.accepts("2 +"));
    assert!(matches!(calc.request("2 +"), CalcRequest::Nothing));
    assert_eq!(calc.copied_text("calc:1.5").as_deref(), Some("1.5"));
    assert_eq!(calc.copied_text("sys:x"), None);
}

#[test]
fn calculator_translates_natural_language() {
    assert_eq!(translate_math_expression("5 + 3 * wurzel 16"), "5 + 3 * math::sqrt(16)");
    assert_eq!(translate_math_expression("wurzel    16"), "math::sqrt(16)");
    assert_eq!(translate_math_expression("wurzel ( 25 )"), "math::sqrt( 25 )");
    assert_eq!(translate_math_expression("10 mal 5 weniger 2"), "10 * 5 - 2");
    assert_eq!(translate_math_expression("cosinus 0"), "math::cos(0)");
    assert_eq!(translate_math_expression("Sinus 0"), "math::sin(0)");
    assert_eq!(convert_integers_to_floats("5 + 3 * math::sqrt(16)"), "5.0 + 3.0 * math::sqrt(16.0)");
    assert_eq!(convert_integers_to_floats("1.5*2"), "1.5*2.0");
    let calc = CalculatorPlugin::new();
    match calc.request("10 mal 5 weniger 2") {
        CalcRequest::Expression(e) => assert_eq!(e, "10.0 * 5.0 - 2.0"),
        _ => panic!("expected an expression"),
    }
}

#[test]
fn application_results_are_ranked() {
    let plugin = ApplicationsPlugin::from_apps(vec![
        app("term.desktop", "Terminal", "term"),
        app("tetris.desktop", "Tetris", "tetris"),
        app("texteditor.desktop", "Text Editor", "edit"),
    ]);
    let r = plugin.query("te");
    assert!(!r.is_empty());
    for pair in r.windows(2) {
        assert!(pair[0].score >= pair[1].score);
    }
}

#[test]
fn kill_suggestions_kill_what_they_show() {
    let plugin = SystemPlugin::new();
    let facts = SystemFacts {
        time: String::new(),
        date: String::new(),
        port_pids: Some(vec![(31, Some("srv".to_string()))]),
        pid_name: Some("init:x".to_string()),
        name_matches: vec![(9, "odd:name".to_string())],
    };
    let r = plugin.query_with("kill 8080", &facts);
    assert_eq!(r.len(), 4);
    assert!(matches!(plugin.resolve(&r[0].id), SystemAction::KillPid(31)));
    assert!(matches!(plugin.resolve(&r[1].id), SystemAction::KillPid(8080)));
    match plugin.resolve(&r[2].id) {
        SystemAction::KillAll(t) => assert_eq!(t, "8080"),
        _ => panic!("expected kill all"),
    }
    assert_eq!(r[3].id, "sys:kill:name:odd:name:9");
    assert!(matches!(plugin.resolve(&r[3].id), SystemAction::KillPid(9)));
}

#[test]
fn listed_results_resolve_to_what_they_show() {
    let history = vec!["older".to_string(), "newer".to_string()];
    let clip = ClipboardPlugin::new();
    for res in clip.query("c:", &history) {
        match clip.resolve(&res.id, &history) {
            ClipAction::Copy(t) => assert_eq!(t, res.title),
            _ => panic!("expected a copy"),
        }
    }
    let windows = WindowSwitcherPlugin::mock_windows();
    let win = WindowSwitcherPlugin::new();
    for res in win.query_with("", &windows) {
        assert!(matches!(win.resolve(&res.id), WindowAction::Close));
    }
    let tr = TranslatorPlugin::new();
    let targets = tr.query("translate  Haus ");
    match tr.resolve(&targets[0].id) {
        TranslateAction::Show { text, to_english } => {
            assert_eq!(text, "Haus");
            assert!(to_english);
        }
        _ => panic!("expected a translation"),
    }
}

#[test]
fn calculator_declines_texts_the_evaluator_cannot_take() {
    let calc = CalculatorPlugin::new();
    assert!(!calc.accepts("str::substring(\"äb\", len(\"x\"))"));
    assert!(matches!(calc.request("str::substring(\"äb\", len(\"x\"))"), CalcRequest::Nothing));
    assert!(calc.accepts("2 + 3"));
}

#[test]
fn port_pids_from_lsof_output() {
    assert_eq!(port_pids("123\n456\r\nfoo\n 789 \n"), Some(vec![123, 456, 789]));
    assert_eq!(port_pids("+12\n-3\n99999999999\n"), Some(vec![12]));
    assert_eq!(port_pids(""), None);
    assert_eq!(port_pids("abc\n\n"), None);
}

#[test]
fn processes_matching_a_name() {
    let procs = vec![
        (30, "Firefox".to_string()),
        (10, "firefox-bin".to_string()),
        (20, "bash".to_string()),
        (5, "FIREFOX".to_string()),
    ];
    assert_eq!(
        name_matches(&procs, 5, "FiRe"),
        vec![(10, "firefox-bin".to_string()), (30, "Firefox".to_string())]
    );
    assert!(name_matches(&procs, 1, "zsh").is_empty());
    assert_eq!(name_matches(&procs, 99, "").len(), 4);
}

#[test]
fn desktop_entry_takes_first_name_and_last_exec() {
    let content = "[Desktop Entry]\nName=\nName=Editor\nName=Other\nExec=old\nExec=edit %U\nIcon=a\nIcon=b\n[Other]\nExec=ignored\n";
    let app = parse_desktop_file("ed.desktop", content).expect("a complete entry");
    assert_eq!(app.name, "Editor");
    assert_eq!(app.command, "edit %U");
    assert_eq!(app.icon.as_deref(), Some("b"));
    assert_eq!(app.id, "ed.desktop");
    let hidden = "[Desktop Entry]\nName=X\nExec=x\nNoDisplay=TRUE\n";
    assert!(parse_desktop_file("x.desktop", hidden).is_err());
}
