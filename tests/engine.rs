use jim::cli::{dispatch, Commands, Outcome};
use jim::engine::{Action, DefaultEngine, Engine, Handshakable};
use jim::header::{decode, encode};
use jim::normalize::{body_of, normalize};
use jim::store::{start_write, write_step, StoreOp, WriteState};
use jim::text::{contains, is_whitespace, tokens_of, trim_str};

/// A resolver over a fixed catalog; an unknown name fails the whole resolution.
struct Catalog {
    entries: Vec<(String, String)>,
}

impl Catalog {
    fn new(entries: &[(&str, &str)]) -> Catalog {
        Catalog {
            entries: entries.iter().map(|(n, t)| (n.to_string(), t.to_string())).collect(),
        }
    }
}

impl Engine for Catalog {
    fn fetch_gitignore(&self, templates: &Vec<String>) -> Result<String, String> {
        let mut raw = String::new();
        for name in templates {
            match self.entries.iter().find(|(n, _)| n == name) {
                Some((_, text)) => raw.push_str(text),
                None => return Err(format!("unknown template: {}", name)),
            }
        }
        Ok(raw)
    }
}

/// An in-memory managed file: `None` when absent.
struct Disk {
    file: Option<String>,
}

impl Disk {
    fn perform(&mut self, op: StoreOp, content: &String) -> Result<(), String> {
        match op {
            StoreOp::Update => match self.file {
                Some(_) => {
                    self.file = Some(content.clone());
                    Ok(())
                }
                None => Err("not found".to_string()),
            },
            StoreOp::Create => match self.file {
                Some(_) => Err("already exists".to_string()),
                None => {
                    self.file = Some(content.clone());
                    Ok(())
                }
            },
        }
    }

    fn write(&mut self, content: String) -> Result<(), String> {
        let mut state = start_write(content);
        loop {
            state = match state {
                WriteState::Attempt(op, c) => {
                    let outcome = self.perform(op, &c);
                    write_step(op, c, outcome)
                }
                WriteState::Done => return Ok(()),
                WriteState::Failed(_, m) => return Err(m),
            }
        }
    }

    fn apply(&mut self, action: Action) -> Result<(), String> {
        match action {
            Action::Write(c) => self.write(c),
            Action::Remove => match self.file.take() {
                Some(_) => Ok(()),
                None => Err("not found".to_string()),
            },
        }
    }
}

fn strings(v: &[&str]) -> Vec<String> {
    v.iter().map(|s| s.to_string()).collect()
}

fn rust_catalog() -> Catalog {
    Catalog::new(&[
        ("rust", "target/\n#comment\ntarget/\n"),
        ("node", "node_modules/\n# deps\ndist/\n"),
        ("x", "x.out\n"),
        ("y", "y.out\nx.out\n"),
    ])
}

#[test]
fn normalize_dedups_in_first_seen_order() {
    assert_eq!(normalize("b\n#c\na\nb\n\n  a  "), strings(&["b", "a"]));
}

#[test]
fn normalize_handles_crlf_and_blank_text() {
    assert_eq!(normalize("a\r\n  b \r\n#x\r\n"), strings(&["a", "b"]));
    assert_eq!(normalize(""), Vec::<String>::new());
    assert_eq!(normalize("\n\n   \n# only\n"), Vec::<String>::new());
}

#[test]
fn normalize_is_stable_on_its_own_output() {
    let once = normalize("z\n y \n#c\nz\n");
    let again = normalize(&once.join("\n"));
    assert_eq!(once, again);
    assert_eq!(once, strings(&["z", "y"]));
}

#[test]
fn header_encodes_names_in_order() {
    assert_eq!(encode(&strings(&["x", "y"])), "# x y");
    assert_eq!(encode(&Vec::new()), "#");
}

#[test]
fn header_round_trip() {
    let s = strings(&["rust", "node", "c++"]);
    assert_eq!(decode(&encode(&s)), s);
    assert_eq!(decode(&encode(&Vec::new())), Vec::<String>::new());
}

#[test]
fn decode_reads_first_line_only_when_managed() {
    assert_eq!(decode("# a #b a  c\ntarget/\nfoo"), strings(&["a", "c"]));
    assert_eq!(decode("#"), Vec::<String>::new());
    assert_eq!(decode(""), Vec::<String>::new());
}

#[test]
fn decode_unmanaged_file_takes_every_token() {
    assert_eq!(decode("target/\nfoo bar\n#x\nfoo"), strings(&["target/", "foo", "bar"]));
}

#[test]
fn text_helpers() {
    assert_eq!(trim_str("  a b \t\r"), "a b");
    assert_eq!(trim_str(" \u{3000} "), "");
    assert_eq!(tokens_of(" a\tbb  c\n"), strings(&["a", "bb", "c"]));
    assert!(is_whitespace('\u{a0}'));
    assert!(!is_whitespace('x'));
    assert!(contains(&strings(&["a", "b"]), &"b".to_string()));
    assert!(!contains(&strings(&["a", "b"]), &"c".to_string()));
}

#[test]
fn body_puts_a_line_feed_after_each_line() {
    assert_eq!(body_of(&strings(&["a", "b"])), "a\nb\n");
    assert_eq!(body_of(&Vec::new()), "");
}

#[test]
fn add_to_empty_directory_creates_file() {
    let mut disk = Disk { file: None };
    let mut engine = DefaultEngine::init(disk.file.clone());
    let action = engine.add(strings(&["rust"]), &rust_catalog()).unwrap();
    disk.apply(action).unwrap();
    assert_eq!(disk.file, Some("# rust\ntarget/\n".to_string()));
}

#[test]
fn add_of_active_name_keeps_set() {
    let mut engine = DefaultEngine::init(Some("# x y".to_string()));
    let action = engine.add(strings(&["x"]), &rust_catalog()).unwrap();
    assert_eq!(engine.get_templates(), strings(&["x", "y"]));
    match action {
        Action::Write(c) => assert_eq!(c, "# x y\nx.out\ny.out\n"),
        Action::Remove => panic!("expected a write"),
    }
}

#[test]
fn add_appends_new_names_once() {
    let mut engine = DefaultEngine::init(Some("# x\nx.out\n".to_string()));
    engine.add(strings(&["rust", "x", "rust"]), &rust_catalog()).unwrap();
    assert_eq!(engine.get_templates(), strings(&["x", "rust"]));
}

#[test]
fn delete_of_absent_name_is_noop() {
    let mut engine = DefaultEngine::init(Some("# x y".to_string()));
    let r = engine.delete(false, strings(&["z"]), &rust_catalog());
    assert!(r.is_ok());
    assert_eq!(engine.get_templates(), strings(&["x", "y"]));
}

#[test]
fn delete_removes_named_templates() {
    let mut engine = DefaultEngine::init(Some("# x rust y".to_string()));
    let action = engine.delete(false, strings(&["rust", "x"]), &rust_catalog()).unwrap();
    assert_eq!(engine.get_templates(), strings(&["y"]));
    match action {
        Action::Write(c) => assert_eq!(c, "# y\ny.out\nx.out\n"),
        Action::Remove => panic!("expected a write"),
    }
}

#[test]
fn delete_all_then_list_reports_nothing() {
    let mut disk = Disk { file: Some("# rust\ntarget/\n".to_string()) };
    let mut engine = DefaultEngine::init(disk.file.clone());
    let action = engine.delete(true, Vec::new(), &rust_catalog()).unwrap();
    assert!(matches!(action, Action::Remove));
    disk.apply(action).unwrap();
    assert_eq!(disk.file, None);
    let mut reloaded = DefaultEngine::init(disk.file.clone());
    let listing = reloaded.list(false, &rust_catalog()).unwrap();
    assert!(listing.shown.is_empty());
    assert_eq!(listing.content, "#\n");
}

#[test]
fn list_shows_names_or_pattern_lines() {
    let mut engine = DefaultEngine::init(Some("# rust node".to_string()));
    let names = engine.list(false, &rust_catalog()).unwrap();
    assert_eq!(names.shown, strings(&["rust", "node"]));
    let lines = engine.list(true, &rust_catalog()).unwrap();
    assert_eq!(lines.shown, strings(&["target/", "node_modules/", "dist/"]));
    assert_eq!(lines.content, "# rust node\ntarget/\nnode_modules/\ndist/\n");
}

#[test]
fn update_twice_gives_identical_content() {
    let mut disk = Disk { file: Some("# rust node\nold\n".to_string()) };
    let mut first = DefaultEngine::init(disk.file.clone());
    let a = first.update(&rust_catalog()).unwrap();
    disk.apply(a).unwrap();
    let after_first = disk.file.clone();
    let mut second = DefaultEngine::init(disk.file.clone());
    let b = second.update(&rust_catalog()).unwrap();
    disk.apply(b).unwrap();
    assert_eq!(disk.file, after_first);
    assert_eq!(disk.file, Some("# rust node\ntarget/\nnode_modules/\ndist/\n".to_string()));
}

#[test]
fn resolver_failure_aborts_write() {
    let mut engine = DefaultEngine::init(Some("# rust".to_string()));
    let r = engine.add(strings(&["nope"]), &rust_catalog());
    assert_eq!(r.err(), Some("unknown template: nope".to_string()));
}

#[test]
fn failed_update_falls_back_to_create() {
    let content = "# rust\ntarget/\n".to_string();
    match start_write(content.clone()) {
        WriteState::Attempt(op, c) => {
            assert_eq!(op, StoreOp::Update);
            assert_eq!(c, content);
        }
        _ => panic!("expected an update attempt"),
    }
    match write_step(StoreOp::Update, content.clone(), Err("not found".to_string())) {
        WriteState::Attempt(op, c) => {
            assert_eq!(op, StoreOp::Create);
            assert_eq!(c, content);
        }
        _ => panic!("expected a create attempt"),
    }
    assert!(matches!(write_step(StoreOp::Create, content.clone(), Ok(())), WriteState::Done));
    assert!(matches!(write_step(StoreOp::Update, content.clone(), Ok(())), WriteState::Done));
    match write_step(StoreOp::Create, content, Err("denied".to_string())) {
        WriteState::Failed(op, m) => {
            assert_eq!(op, StoreOp::Create);
            assert_eq!(m, "denied");
        }
        _ => panic!("expected a failure"),
    }
}

#[test]
fn write_to_absent_file_succeeds_through_create() {
    let mut disk = Disk { file: None };
    disk.write("#\n".to_string()).unwrap();
    assert_eq!(disk.file, Some("#\n".to_string()));
}

#[test]
fn engine_helpers() {
    let engine = DefaultEngine::init(Some("# rust x".to_string()));
    assert_eq!(engine.define_head(), "# rust x");
    assert_eq!(engine.regenerate("a\n\na\nb"), "# rust x\na\nb\n");
    assert_eq!(engine.define_body(&rust_catalog()), Ok("target/\nx.out\n".to_string()));
    assert_eq!(engine.render(&rust_catalog()), Ok("# rust x\ntarget/\nx.out\n".to_string()));
    assert!(engine.search("x".to_string()));
    assert!(!engine.search("y".to_string()));
    assert_eq!(DefaultEngine::fetch_templates(None), Vec::<String>::new());
    assert_eq!(DefaultEngine::fetch_templates(Some("# a b a".to_string())), strings(&["a", "b"]));
}

#[test]
fn engine_default_methods() {
    let c = rust_catalog();
    let names = strings(&["rust", "y"]);
    assert_eq!(c.fetch_excludings(&names), Ok(strings(&["target/", "y.out", "x.out"])));
    assert_eq!(c.fetch_clean_gitignore(&names), Ok("target/\ny.out\nx.out\n".to_string()));
    assert!(c.fetch_excludings(&strings(&["nope"])).is_err());
}

#[test]
fn dispatch_runs_each_command() {
    let c = rust_catalog();
    let mut engine = DefaultEngine::init(None);
    match dispatch(&mut engine, Commands::Add { names: strings(&["x"]) }, &c) {
        Ok(Outcome::Changed(Action::Write(s))) => assert_eq!(s, "# x\nx.out\n"),
        _ => panic!("expected a write"),
    }
    match dispatch(&mut engine, Commands::Search { query: "x".to_string() }, &c) {
        Ok(Outcome::Found(b)) => assert!(b),
        _ => panic!("expected a search result"),
    }
    match dispatch(&mut engine, Commands::List { all: true }, &c) {
        Ok(Outcome::Listed(l)) => assert_eq!(l.shown, strings(&["x.out"])),
        _ => panic!("expected a listing"),
    }
    match dispatch(&mut engine, Commands::Delete { all: false, names: strings(&["x"]) }, &c) {
        Ok(Outcome::Changed(Action::Write(s))) => assert_eq!(s, "#\n"),
        _ => panic!("expected a write"),
    }
    match dispatch(&mut engine, Commands::Update, &c) {
        Ok(Outcome::Changed(Action::Write(s))) => assert_eq!(s, "#\n"),
        _ => panic!("expected a write"),
    }
    assert!(matches!(
        dispatch(&mut engine, Commands::Delete { all: true, names: Vec::new() }, &c),
        Ok(Outcome::Changed(Action::Remove))
    ));
}
