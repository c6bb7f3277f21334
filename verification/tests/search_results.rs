use notahub::model::{Idea, Project, Task};
use notahub::search::{compute_search, search_is_ok, snippet_for, SearchKind};

fn project(title: &str, id: u128) -> Project {
    let mut p = Project::new(title.to_string());
    p.id = id;
    p
}

fn idea(title: &str, id: u128, notes: &[&str]) -> Idea {
    let mut i = Idea::new(title.to_string());
    i.id = id;
    for n in notes {
        i.notes.push(n.to_string());
    }
    i
}

#[test]
fn search_finds_in_projects_and_ideas() {
    let projects = vec![project("Welcome", 0x11111111_1111_1111_1111_111111111111)];
    let ideas = vec![idea("My Spark", 0x22222222_2222_2222_2222_222222222222, &["A flash of insight"])];
    assert_eq!(projects.len(), 1);
    assert_eq!(ideas.len(), 1);
    let r = compute_search(&projects, &ideas, "spark");
    assert_eq!(r.len(), 1);
    assert_eq!(r[0].title, "My Spark");
    let r = compute_search(&projects, &ideas, "welcome");
    assert_eq!(r.len(), 1);
    let r = compute_search(&projects, &ideas, "zzz");
    assert!(r.is_empty());
}

#[test]
fn blank_query_finds_nothing() {
    let projects = vec![project("Welcome", 1)];
    assert!(compute_search(&projects, &[], "   ").is_empty());
    assert!(compute_search(&projects, &[], "").is_empty());
}

#[test]
fn results_come_in_order_with_their_kinds() {
    let mut p = project("Garden", 7);
    let mut t = Task::new("Plant seeds".to_string());
    t.id = 8;
    t.notes.push("water the SEEDS daily".to_string());
    p.tasks.push(t);
    let mut t2 = Task::new("Rake".to_string());
    t2.id = 9;
    t2.notes.push("after seeds".to_string());
    p.tasks.push(t2);
    let i = idea("Seed bank", 10, &["no match", "seeds of doubt"]);
    let r = compute_search(&[p], &[i], " Seed ");
    assert_eq!(r.len(), 4);
    assert_eq!(r[0].kind, SearchKind::Task);
    assert_eq!(r[0].title, "Garden / Plant seeds");
    assert_eq!(r[0].snippet, "Plant seeds");
    assert_eq!(r[0].project_id, Some(7));
    assert_eq!(r[0].task_id, Some(8));
    assert_eq!(r[1].kind, SearchKind::Task);
    assert_eq!(r[1].snippet, "after seeds");
    assert_eq!(r[2].kind, SearchKind::Idea);
    assert_eq!(r[2].idea_id, Some(10));
    assert_eq!(r[2].snippet, "Seed bank");
    assert_eq!(r[3].kind, SearchKind::IdeaNote);
    assert_eq!(r[3].title, "Seed bank / note 2");
    assert_eq!(r[3].note_idx, Some(1));
    assert_eq!(r[3].snippet, "seeds of doubt");
}

#[test]
fn snippets_cut_around_the_match() {
    let text = "0123456789012345678901234567890123456789 needle 0123456789012345678901234567890123456789";
    let s = snippet_for(text, "needle");
    assert_eq!(s, "…1234567890123456789 needle 012345678901234567890123456789012345678…");
    let short = snippet_for("a needle here", "needle");
    assert_eq!(short, "a needle here");
    let none = snippet_for("abc", "zzz");
    assert_eq!(none, "abc");
}

#[test]
fn search_checks_snippet_boundaries() {
    let projects = vec![project("plain ascii title", 1)];
    assert!(search_is_ok(&projects, &[], "ascii"));
    let projects = vec![project("ééééééééééééééééééééééééé needle", 1)];
    assert!(!search_is_ok(&projects, &[], "needle"));
}
