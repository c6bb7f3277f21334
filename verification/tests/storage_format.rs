use notahub::model::{Idea, Project, Task};
use notahub::storage::{
    idea_file_name, idea_frontmatter, parse_idea, parse_project, project_body_is_readable,
    project_file_name, project_frontmatter, serialize_idea, serialize_project, slugify,
    split_frontmatter, data_root_from, DataRoot, Frontmatter, FrontmatterError,
};

fn yaml_of(front: &Frontmatter) -> String {
    let mut m = serde_yaml::Mapping::new();
    m.insert("id".into(), uuid::Uuid::from_u128(front.id).to_string().into());
    m.insert("title".into(), front.title.clone().into());
    m.insert("created".into(), front.created.clone().into());
    m.insert("kind".into(), front.kind.clone().into());
    serde_yaml::to_string(&serde_yaml::Value::Mapping(m)).unwrap()
}

fn front_of(yaml: &str) -> Frontmatter {
    let v: serde_yaml::Value = serde_yaml::from_str(yaml).unwrap();
    Frontmatter {
        id: uuid::Uuid::parse_str(v["id"].as_str().unwrap()).unwrap().as_u128(),
        title: v["title"].as_str().unwrap().to_string(),
        created: v["created"].as_str().unwrap().to_string(),
        kind: v.get("kind").and_then(|k| k.as_str()).unwrap_or("").to_string(),
    }
}

fn read_project(raw: &str) -> Project {
    let (fm, body) = split_frontmatter(raw).unwrap();
    assert!(project_body_is_readable(&body));
    parse_project(front_of(&fm), &body)
}

fn read_idea(raw: &str) -> Idea {
    let (fm, body) = split_frontmatter(raw).unwrap();
    parse_idea(front_of(&fm), &body)
}

fn write_project(p: &Project) -> String {
    serialize_project(p, &yaml_of(&project_frontmatter(p)))
}

fn write_idea(i: &Idea) -> String {
    serialize_idea(i, &yaml_of(&idea_frontmatter(i)))
}

#[test]
fn roundtrip_project() {
    let mut p = Project::new("Test".to_string());
    let t = Task::new("First".to_string());
    p.tasks.push(t);
    let raw = write_project(&p);
    let parsed = read_project(&raw);
    assert_eq!(parsed.title, "Test");
    assert_eq!(parsed.tasks.len(), 1);
    assert_eq!(parsed.tasks[0].title, "First");
}

#[test]
fn roundtrip_idea() {
    let mut i = Idea::new("Spark".to_string());
    i.notes.push("hello".to_string());
    i.notes.push("world".to_string());
    let raw = write_idea(&i);
    let parsed = read_idea(&raw);
    assert_eq!(parsed.title, "Spark");
    assert_eq!(parsed.notes, vec!["hello", "world"]);
}

#[test]
fn save_and_reload_preserves_ids() {
    let mut p = Project::new("Hello".to_string());
    let t = Task::new("first".to_string());
    p.tasks.push(t);
    let project_id = p.id;
    let task_id = p.tasks[0].id;
    let raw = write_project(&p);

    let loaded = vec![read_project(&raw)];
    assert_eq!(loaded.len(), 1);
    assert_eq!(loaded[0].id, project_id);
    assert_eq!(loaded[0].tasks[0].id, task_id);
    assert_eq!(loaded[0].tasks[0].title, "first");
}

#[test]
fn parse_task_with_note_block() {
    let content = r#"---
id: 33333333-3333-3333-3333-333333333333
title: Demo
created: 2026-06-03T00:00:00Z
kind: project
---

- [ ] First task <!-- id:44444444-4444-4444-4444-444444444444 -->
  Note line one
  Note line two

- [x] Done task <!-- id:55555555-5555-5555-5555-555555555555 -->
  Done note
"#;
    let loaded = vec![read_project(content)];
    assert_eq!(loaded.len(), 1);
    assert_eq!(loaded[0].tasks.len(), 2);
    assert_eq!(loaded[0].tasks[0].title, "First task");
    assert!(!loaded[0].tasks[0].completed);
    assert_eq!(loaded[0].tasks[0].notes, vec!["Note line one", "Note line two"]);
    assert!(loaded[0].tasks[1].completed);
}

#[test]
fn task_ids_are_read_from_their_comments() {
    let content = "---\nid: 33333333-3333-3333-3333-333333333333\ntitle: Demo\ncreated: x\n---\n\n- [ ] First task <!-- id:44444444-4444-4444-4444-444444444444 -->\n";
    let p = read_project(content);
    assert_eq!(p.id, 0x33333333_3333_3333_3333_333333333333u128);
    assert_eq!(p.tasks[0].id, 0x44444444_4444_4444_4444_444444444444u128);
}

#[test]
fn task_without_id_gets_a_fresh_one() {
    let content = "---\nid: 33333333-3333-3333-3333-333333333333\ntitle: Demo\ncreated: x\n---\n- [ ] Plain task\n- [ ] Other <!-- note -->\n";
    let p = read_project(content);
    assert_eq!(p.tasks.len(), 2);
    assert_eq!(p.tasks[0].title, "Plain task");
    assert_eq!(p.tasks[1].title, "Other");
    assert_ne!(p.tasks[0].id, p.tasks[1].id);
    assert_eq!((p.tasks[0].id >> 76) & 0xf, 4);
}

#[test]
fn stray_and_blank_lines_are_ignored() {
    let content = "---\nid: 33333333-3333-3333-3333-333333333333\ntitle: Demo\ncreated: x\n---\nsome prose\n  indented before any task\n- [x] Task\n  \n  note  \nplain\n";
    let p = read_project(content);
    assert_eq!(p.tasks.len(), 1);
    assert!(p.tasks[0].completed);
    assert_eq!(p.tasks[0].notes, vec!["note"]);
}

#[test]
fn empty_comment_is_not_readable() {
    assert!(!project_body_is_readable("- [ ] bad <!-->\n"));
    assert!(project_body_is_readable("- [ ] good <!-- -->\n"));
    assert!(project_body_is_readable("plain <!-->\n"));
}

#[test]
fn idea_body_bullets_and_plain_lines() {
    let content = "---\nid: 22222222-2222-2222-2222-222222222222\ntitle: My Spark\ncreated: x\n---\n\nfirst line\n- dash note  \n* star note\n\n   indented text\n";
    let i = read_idea(content);
    assert_eq!(i.title, "My Spark");
    assert_eq!(i.notes, vec!["first line", "dash note", "star note", "indented text"]);
}

#[test]
fn missing_frontmatter_is_an_error() {
    match split_frontmatter("no fences here") {
        Err(e) => {
            assert_eq!(e, FrontmatterError::Missing);
            assert_eq!(e.message(), "missing frontmatter");
        }
        Ok(_) => panic!("expected an error"),
    }
}

#[test]
fn unterminated_frontmatter_is_an_error() {
    match split_frontmatter("---\nid: x\ntitle: y\n") {
        Err(e) => {
            assert_eq!(e, FrontmatterError::Unterminated);
            assert_eq!(e.message(), "unterminated frontmatter");
        }
        Ok(_) => panic!("expected an error"),
    }
}

#[test]
fn frontmatter_split_handles_bom_and_crlf() {
    let (fm, body) = split_frontmatter("\u{feff}---\r\ntitle: a\n---\r\n\nbody\n").unwrap();
    assert_eq!(fm, "title: a");
    assert_eq!(body, "body\n");
    let (fm, body) = split_frontmatter("---\nk: v\n---\n\n\n- x\n").unwrap();
    assert_eq!(fm, "k: v");
    assert_eq!(body, "- x\n");
}

#[test]
fn written_project_has_the_documented_layout() {
    let mut p = Project::new("Doc".to_string());
    p.tasks.push(Task {
        id: 0x44444444_4444_4444_4444_444444444444u128,
        title: "Write".to_string(),
        completed: true,
        notes: vec!["a note".to_string()],
    });
    let raw = serialize_project(&p, "id: x\n");
    assert_eq!(
        raw,
        "---\nid: x\n---\n\n- [x] Write <!-- id:44444444-4444-4444-4444-444444444444 -->\n  a note\n\n"
    );
}

#[test]
fn written_idea_has_the_documented_layout() {
    let mut i = Idea::new("Doc".to_string());
    i.notes.push("one".to_string());
    i.notes.push("two".to_string());
    let raw = serialize_idea(&i, "id: x\n");
    assert_eq!(raw, "---\nid: x\n---\n\n- one\n- two\n");
}

#[test]
fn frontmatter_of_items() {
    let p = Project::new("P".to_string());
    let f = project_frontmatter(&p);
    assert_eq!(f.id, p.id);
    assert_eq!(f.title, "P");
    assert_eq!(f.kind, "project");
    let i = Idea::new("I".to_string());
    let g = idea_frontmatter(&i);
    assert_eq!(g.kind, "idea");
    assert_eq!(g.created, i.created);
}

#[test]
fn slugs_of_titles() {
    assert_eq!(slugify("My Demo"), "my-demo");
    assert_eq!(slugify("  Hello,  World!! "), "hello-world");
    assert_eq!(slugify("---"), "");
    assert_eq!(slugify("Ünïcode Tëst"), "ünïcode-tëst");
    assert_eq!(slugify("a--b"), "a-b");
}

#[test]
fn file_names_use_slug_or_id() {
    let mut p = Project::new("My Demo".to_string());
    assert_eq!(project_file_name(&p), "my-demo.md");
    p.title = "!!!".to_string();
    p.id = 0x00000000_0000_4000_8000_000000000001u128;
    assert_eq!(project_file_name(&p), "00000000-0000-4000-8000-000000000001.md");
    let i = Idea::new("Spark Two".to_string());
    assert_eq!(idea_file_name(&i), "spark-two.md");
}

#[test]
fn ids_in_comments_must_parse() {
    let content = "---\nid: 33333333-3333-3333-3333-333333333333\ntitle: Demo\ncreated: x\n---\n- [ ] A <!-- id:nope id:01234567-89AB-cdef-0123-456789abcdef -->\n- [ ] B <!-- id:nope -->\n";
    let p = read_project(content);
    assert_eq!(p.tasks[0].id, 0x0123_4567_89ab_cdef_0123_4567_89ab_cdefu128);
    assert_eq!(p.tasks[0].title, "A");
    assert_eq!((p.tasks[1].id >> 76) & 0xf, 4);
}

#[test]
fn written_files_read_back_whole() {
    let mut p = Project::new("Round".to_string());
    let mut t = Task::new("Task one".to_string());
    t.notes.push("first note".to_string());
    t.notes.push("  indented note".to_string());
    p.tasks.push(t);
    p.tasks.push(Task::new("Task two".to_string()));
    p.tasks[1].completed = true;
    let back = read_project(&write_project(&p));
    assert_eq!(back.id, p.id);
    assert_eq!(back.title, p.title);
    assert_eq!(back.created, p.created);
    assert_eq!(back.tasks.len(), 2);
    for k in 0..2 {
        assert_eq!(back.tasks[k].id, p.tasks[k].id);
        assert_eq!(back.tasks[k].title, p.tasks[k].title);
        assert_eq!(back.tasks[k].completed, p.tasks[k].completed);
        assert_eq!(back.tasks[k].notes, p.tasks[k].notes);
    }
}

#[test]
fn slugs_are_their_own_slugs() {
    for t in ["My Demo", "  Hello,  World!! ", "a--b", "---", "Ünïcode Tëst", "x_y.z"] {
        let s = slugify(t);
        assert_eq!(slugify(&s), s);
    }
}

#[test]
fn written_bodies_are_readable() {
    let mut p = Project::new("R".to_string());
    let mut t = Task::new("Task <with> -- dashes".to_string());
    t.notes.push("note --> arrow".to_string());
    p.tasks.push(t);
    let raw = write_project(&p);
    let (_, body) = split_frontmatter(&raw).unwrap();
    assert!(project_body_is_readable(&body));
    let back = read_project(&raw);
    assert_eq!(back.tasks[0].title, "Task <with> -- dashes");
    assert_eq!(back.tasks[0].notes, vec!["note --> arrow"]);
}

#[test]
fn unicode_white_space_is_trimmed_from_titles() {
    let content = "---\nid: 33333333-3333-3333-3333-333333333333\ntitle: Demo\ncreated: x\n---\n- [ ] \u{2003}Spaced\u{85} <!-- id:44444444-4444-4444-4444-444444444444 -->\n";
    let p = read_project(content);
    assert_eq!(p.tasks[0].title, "Spaced");
}

#[test]
fn data_root_prefers_the_variable() {
    assert_eq!(
        data_root_from(Some("/tmp/notes".to_string()), true),
        DataRoot::Custom("/tmp/notes".to_string())
    );
    assert_eq!(
        data_root_from(Some("rel".to_string()), false),
        DataRoot::Custom("rel".to_string())
    );
}

#[test]
fn data_root_falls_back_to_the_platform_then_local() {
    assert_eq!(data_root_from(None, true), DataRoot::UnderPlatformDir);
    assert_eq!(data_root_from(None, false), DataRoot::Local);
}

#[test]
fn new_items_carry_a_utc_instant() {
    let p = Project::new("P".to_string());
    assert!(p.created.len() >= 20 && p.created.ends_with('Z'));
    assert!(chrono::DateTime::parse_from_rfc3339(&p.created).is_ok());
    let i = Idea::new("I".to_string());
    assert!(i.created.len() >= 20 && i.created.ends_with('Z'));
}

#[test]
fn task_ids_are_read_in_every_uuid_form() {
    let content = "---\nid: 33333333-3333-3333-3333-333333333333\ntitle: Demo\ncreated: x\n---\n\
- [ ] S <!-- id:0123456789ABCDEF0123456789abcdef -->\n\
- [ ] B <!-- id:{01234567-89ab-cdef-0123-456789abcdef} -->\n\
- [ ] U <!-- id:URN:uuid:01234567-89ab-cdef-0123-456789abcdef -->\n\
- [ ] H <!-- id:01234567-89ab-cdef-0123-456789abcdef -->\n\
- [ ] X <!-- id:01234567-89ab-cdef-0123-456789abcdeg -->\n";
    let p = read_project(content);
    let want = 0x0123_4567_89ab_cdef_0123_4567_89ab_cdefu128;
    for k in 0..4 {
        assert_eq!(p.tasks[k].id, want);
    }
    assert_ne!(p.tasks[4].id, want);
    assert_eq!((p.tasks[4].id >> 76) & 0xf, 4);
}
