use kotoma::config_doc::{activate, fits_document};
use kotoma::model::{
    active_files, active_of_paths, base_name, check_use, curl_args, find, is_active, list,
    needs_download, parse_command, plan_preset, plan_removal, Catalog, ModelCommand, ModelEntry,
    ModelError, Removal, Report, USAGE,
};
use kotoma::presets::{less, PresetTable};

fn entry(name: &str, role: &str, file: &str) -> ModelEntry {
    ModelEntry {
        name: name.to_string(),
        role: role.to_string(),
        file: file.to_string(),
        url: format!("https://example.org/{file}"),
        size: "500 MB".to_string(),
        note: "a note".to_string(),
    }
}

fn strings(list: &[&str]) -> Vec<String> {
    list.iter().map(|s| s.to_string()).collect()
}

fn catalog() -> Catalog {
    let mut preset = PresetTable::new();
    preset.insert("standard".to_string(), strings(&["small", "e4b"]));
    preset.insert("high".to_string(), strings(&["turbo", "12b"]));
    Catalog {
        model: vec![
            entry("small", "asr", "small.bin"),
            entry("turbo", "asr", "turbo.bin"),
            entry("e4b", "translator", "e4b.gguf"),
            entry("12b", "translator", "12b.gguf"),
        ],
        preset,
    }
}

#[test]
fn commands_are_read() {
    assert!(matches!(parse_command(&vec![]), Ok(ModelCommand::List)));
    assert!(matches!(parse_command(&strings(&["list"])), Ok(ModelCommand::List)));
    assert!(matches!(parse_command(&strings(&["--help"])), Ok(ModelCommand::Help)));
    assert!(matches!(parse_command(&strings(&["-h"])), Ok(ModelCommand::Help)));
    assert!(matches!(parse_command(&strings(&["rm"])), Ok(ModelCommand::Rm(None))));
    match parse_command(&strings(&["pull", "small", "x"])) {
        Ok(ModelCommand::Pull(Some(n))) => assert_eq!(n, "small"),
        _ => panic!("no pull"),
    }
    match parse_command(&strings(&["use", "small"])) {
        Ok(ModelCommand::Use(Some(n))) => assert_eq!(n, "small"),
        _ => panic!("no use"),
    }
    match parse_command(&strings(&["preset", "both"])) {
        Ok(ModelCommand::Preset(Some(n))) => assert_eq!(n, "both"),
        _ => panic!("no preset"),
    }
    match parse_command(&strings(&["frob"])) {
        Err(e) => assert_eq!(
            e.message(),
            "unknown subcommand 'model frob' (expected: list | pull | use | preset | rm)"
        ),
        Ok(_) => panic!("accepted"),
    }
    assert!(USAGE.starts_with("usage: kotoma model <command>\n\n  list  "));
    assert!(USAGE.contains("\n  rm <name>            Delete a downloaded model file"));
}

#[test]
fn models_are_found_by_name() {
    let c = catalog();
    assert_eq!(find(&c, Some("e4b")).ok().unwrap().file, "e4b.gguf");
    assert_eq!(
        find(&c, None).err().unwrap().message(),
        "missing model name (see `kotoma model list`)"
    );
    assert_eq!(
        find(&c, Some("x")).err().unwrap().message(),
        "unknown model 'x' (see `kotoma model list`)"
    );
}

#[test]
fn the_first_of_two_models_counts() {
    let mut c = catalog();
    c.model.push(entry("small", "asr", "other.bin"));
    assert_eq!(find(&c, Some("small")).ok().unwrap().file, "small.bin");
}

#[test]
fn paths_are_known_by_their_last_part() {
    assert_eq!(base_name("models/small.bin"), "small.bin");
    assert_eq!(base_name("small.bin"), "small.bin");
    assert_eq!(base_name("models/"), "");
    let (a, t) = active_of_paths(Some("/x/y/z".to_string()), None);
    assert_eq!(a, Some("z".to_string()));
    assert_eq!(t, None);
}

#[test]
fn active_models_stand_in_the_configuration() {
    let config = "model_path = \"models/small.bin\"\n[translator]\nmodel_path = 'm/e4b.gguf'\n";
    assert_eq!(
        active_files(config),
        (Some("small.bin".to_string()), Some("e4b.gguf".to_string()))
    );
    assert_eq!(active_files("model_path = 3\n"), (None, None));
    assert_eq!(active_files("not toml ="), (None, None));
}

#[test]
fn the_list_marks_what_is_there() {
    let c = catalog();
    let text = list(&c, &vec![true, false, true, false], Some("small.bin"), Some("12b.gguf"));
    assert_eq!(
        text,
        "ASR (transcription):\n\
         \x20 ● active     small                      500 MB  a note\n\
         \x20   available  turbo                      500 MB  a note\n\
         Translation:\n\
         \x20 ✓ installed  e4b                        500 MB  a note\n\
         \x20   available  12b                        500 MB  a note\n\
         \n  pull: kotoma model pull <name>   ·   use: kotoma model use <name>\n"
    );
}

#[test]
fn empty_files_are_downloaded_again() {
    assert!(needs_download(false, None));
    assert!(needs_download(true, Some(0)));
    assert!(needs_download(true, None));
    assert!(!needs_download(true, Some(1)));
    assert_eq!(
        curl_args(&entry("small", "asr", "small.bin"), "/m/small.bin"),
        vec!["-fL", "--progress-bar", "-o", "/m/small.bin", "https://example.org/small.bin"]
    );
}

#[test]
fn a_model_is_used_once_it_is_there() {
    let m = entry("small", "asr", "small.bin");
    assert!(check_use(&m, true, true, "/c").is_ok());
    assert_eq!(
        check_use(&m, false, false, "/c").err().unwrap().message(),
        "'small' is not downloaded yet — run `kotoma model pull small` first"
    );
    assert_eq!(
        check_use(&m, true, false, "/c").err().unwrap().message(),
        "no config at /c — run `kotoma model preset standard|high` to create one"
    );
}

#[test]
fn removal_warns_of_an_active_model() {
    let m = entry("e4b", "translator", "e4b.gguf");
    assert_eq!(plan_removal(&m, false, None, Some("e4b.gguf")), Removal::NotInstalled);
    assert_eq!(
        plan_removal(&m, true, None, Some("e4b.gguf")),
        Removal::Remove { was_active: true }
    );
    assert_eq!(
        plan_removal(&m, true, Some("e4b.gguf"), None),
        Removal::Remove { was_active: false }
    );
    assert!(is_active(&entry("s", "asr", "s.bin"), Some("s.bin"), None));
}

#[test]
fn presets_keep_the_order_of_their_names() {
    let mut t = PresetTable::new();
    for n in ["b", "é", "a", "ab", "B"] {
        t.insert(n.to_string(), strings(&[n]));
    }
    assert_eq!(t.names(), vec!["B", "a", "ab", "b", "é"]);
    t.insert("ab".to_string(), strings(&["new"]));
    assert_eq!(t.len(), 5);
    assert_eq!(t.get("ab"), Some(strings(&["new"])));
    assert_eq!(t.get("c"), None);
    assert!(less("a", "b") && !less("b", "a") && !less("a", "a") && less("", "a"));
}

#[test]
fn one_preset_is_put_to_use_itself() {
    let p = plan_preset(&catalog(), Some("standard")).ok().unwrap();
    let names: Vec<&str> = p.downloads.iter().map(|m| m.name.as_str()).collect();
    assert_eq!(names, vec!["small", "e4b"]);
    let a = p.outcome.ok().unwrap();
    assert_eq!(a.preset, "standard");
    assert_eq!(a.models.len(), 2);
    assert!(!a.several);
}

#[test]
fn both_presets_put_the_high_one_to_use() {
    let p = plan_preset(&catalog(), Some("both")).ok().unwrap();
    let names: Vec<&str> = p.downloads.iter().map(|m| m.name.as_str()).collect();
    assert_eq!(names, vec!["turbo", "12b", "small", "e4b"]);
    let a = p.outcome.ok().unwrap();
    assert_eq!(a.preset, "high");
    let active: Vec<&str> = a.models.iter().map(|m| m.name.as_str()).collect();
    assert_eq!(active, vec!["turbo", "12b"]);
    assert!(a.several);
}

#[test]
fn unknown_presets_are_refused() {
    assert_eq!(
        plan_preset(&catalog(), None).err().unwrap().message(),
        "missing preset name (high | standard | both)"
    );
    assert_eq!(
        plan_preset(&catalog(), Some("low")).err().unwrap().message(),
        "unknown preset 'low' (expected: high | standard | both)"
    );
}

#[test]
fn an_unknown_model_ends_the_installation() {
    let mut c = catalog();
    c.preset.insert("odd".to_string(), strings(&["small", "ghost", "e4b"]));
    let p = plan_preset(&c, Some("odd")).ok().unwrap();
    assert_eq!(p.downloads.len(), 1);
    match p.outcome {
        Err(e) => assert_eq!(e.message(), "preset references unknown model 'ghost'"),
        Ok(_) => panic!("went on"),
    }
}

#[test]
fn other_errors_have_their_texts() {
    assert_eq!(ModelError::NoHome.message(), "cannot locate home directory");
    let e = ModelError::DownloadFailed {
        name: "small".to_string(),
        status: "exit status: 22".to_string(),
    };
    assert_eq!(e.message(), "download failed for small (curl exited with exit status: 22)");
}

#[test]
fn reports_have_their_texts() {
    let s = |x: &str| x.to_string();
    assert_eq!(Report::Present { name: s("n") }.text(), "already present: n");
    assert_eq!(
        Report::Downloading { name: s("n"), size: s("1 GB") }.text(),
        "==> Downloading n (1 GB)"
    );
    assert_eq!(Report::Installed { path: s("/p") }.text(), "installed → /p");
    assert_eq!(Report::Pulled { name: s("n") }.text(), "activate with: kotoma model use n");
    assert_eq!(
        Report::Activated { asr: true, name: s("n"), config: s("/c") }.text(),
        "ASR model set to n in /c"
    );
    assert_eq!(
        Report::Activated { asr: false, name: s("n"), config: s("/c") }.text(),
        "translation model set to n in /c"
    );
    assert_eq!(
        Report::PresetActive { config: s("/c"), preset: s("high") }.text(),
        "\nconfig at /c now uses the 'high' preset"
    );
    assert_eq!(
        Report::SeveralPresets.text(),
        "both presets downloaded — switch anytime with `kotoma model use <name>`"
    );
    assert_eq!(Report::NotInstalled { name: s("n") }.text(), "not installed: n");
    assert_eq!(Report::Removed { path: s("/p") }.text(), "removed /p");
    assert!(Report::WasActive.text().starts_with("warning: this model was active"));
}

#[test]
fn activation_keeps_the_rest_of_the_configuration() {
    let config = "# top\nlanguage = \"en\"\nmodel_path = \"models/old.bin\"\n\n[translator]\nport = 8080 # mine\nmodel_path = \"models/old.gguf\"\n";
    let out = activate(config, &vec![entry("small", "asr", "small.bin")]).ok().unwrap();
    assert_eq!(
        out,
        "# top\nlanguage = \"en\"\nmodel_path = \"models/small.bin\"\n\n[translator]\nport = 8080 # mine\nmodel_path = \"models/old.gguf\"\n"
    );
    assert_eq!(
        active_files(&out),
        (Some("small.bin".to_string()), Some("old.gguf".to_string()))
    );
}

#[test]
fn activation_makes_the_section_of_the_translator() {
    let models = vec![entry("small", "asr", "small.bin"), entry("e4b", "translator", "e4b.gguf")];
    let out = activate("language = \"en\"\n", &models).ok().unwrap();
    assert_eq!(
        out,
        "language = \"en\"\nmodel_path = \"models/small.bin\"\n\n[translator]\nmodel_path = \"models/e4b.gguf\"\n"
    );
    let again = activate(&out, &models).ok().unwrap();
    assert_eq!(again, out);
}

#[test]
fn an_inline_section_keeps_its_other_settings() {
    let models = vec![entry("e4b", "translator", "e4b.gguf")];
    for config in [
        "translator = { port = 1, n_ctx = 2 }\n",
        "translator = { port = 1, model_path = \"models/old.gguf\", n_ctx = 2 }\n",
        "# mine\ntranslator = {port = 1,n_ctx = 2}\n[other]\nx = 1\n",
        "translator.port = 1\ntranslator.n_ctx = 2\n",
    ] {
        let out = activate(config, &models).ok().unwrap();
        assert!(out.contains("port = 1") && out.contains("n_ctx = 2"));
        assert!(!out.contains("old.gguf") && !out.contains("[translator]"));
        assert_eq!(active_files(&out), (None, Some("e4b.gguf".to_string())));
        assert_eq!(activate(&out, &models).ok(), Some(out));
    }
}

#[test]
fn an_empty_inline_section_is_filled() {
    let models = vec![entry("e4b", "translator", "e4b.gguf")];
    let out = activate("translator = {}\n", &models).ok().unwrap();
    assert_eq!(active_files(&out), (None, Some("e4b.gguf".to_string())));
}

#[test]
fn a_translator_that_is_no_table_makes_room() {
    let models = vec![entry("e4b", "translator", "e4b.gguf")];
    let out = activate("translator = \"off\"\nlanguage = \"ja\"\n", &models).ok().unwrap();
    assert!(out.contains("language = \"ja\""));
    assert_eq!(active_files(&out), (None, Some("e4b.gguf".to_string())));
}

#[test]
fn comments_and_layout_stay() {
    let config = "# top\n\nlanguage   =   \"ja\" # mine\n\n[other]  # there\nx=1\n# the end\n";
    let out = activate(config, &vec![entry("e4b", "translator", "e4b.gguf")]).ok().unwrap();
    assert_eq!(
        out,
        "# top\n\nlanguage   =   \"ja\" # mine\n\n[other]  # there\nx=1\n\n[translator]\nmodel_path = \"models/e4b.gguf\"\n# the end\n"
    );
}

#[test]
fn the_order_of_activations_does_not_matter() {
    let asr = entry("small", "asr", "small.bin");
    let tr = entry("e4b", "translator", "e4b.gguf");
    let config = "[translator]\nport = 1\n";
    let a = activate(config, &vec![asr.clone(), tr.clone()]).ok().unwrap();
    let b = activate(config, &vec![tr, asr]).ok().unwrap();
    assert_eq!(active_files(&a), active_files(&b));
}

#[test]
fn a_broken_configuration_is_refused() {
    assert!(activate("model_path = ", &vec![]).is_err());
    assert_eq!(activate("a = 1\n", &vec![]).ok(), Some("a = 1\n".to_string()));
}

#[test]
fn odd_file_names_are_written_and_read_back() {
    for file in ["it's \"odd\".bin", "tab\there.bin", "日本語.bin", "back\\slash"] {
        let out = activate("a = 1\n", &vec![entry("m", "asr", file)]).ok().unwrap();
        assert_eq!(active_files(&out), (Some(file.to_string()), None));
    }
}

#[test]
fn long_runs_of_quotes_do_not_fit() {
    assert!(fits_document("plain"));
    assert!(fits_document(&"'".repeat(255)));
    assert!(!fits_document(&format!("a{}b", "'".repeat(256))));
    assert!(!fits_document(&"\"".repeat(256)));
    assert!(fits_document(&"'\"".repeat(300)));
}
