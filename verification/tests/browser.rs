use tui_suite::data::{Category, Link, Subcategory};
use tui_suite::keys::Key;
use tui_suite::search::{fuzzy_search, search, SearchHit};
use tui_suite::ui::{category_rows, confirm_dialog_area, handle_input, link_rows, subcategory_rows, BrowserState, Step};

fn link(t: &str) -> Link {
    Link { title: t.to_string(), url: format!("https://{}", t) }
}

fn catalogue() -> Vec<Category> {
    vec![
        Category {
            title: "Platforms".to_string(),
            subcategories: vec![
                Subcategory { title: "Node.js".to_string(), links: vec![link("express"), link("koa")] },
                Subcategory { title: "Frontend".to_string(), links: vec![] },
            ],
            direct_links: vec![link("platform tools")],
        },
        Category {
            title: "Programming Languages".to_string(),
            subcategories: vec![Subcategory { title: "Rust".to_string(), links: vec![link("tokio")] }],
            direct_links: vec![],
        },
    ]
}

#[test]
fn subcategories_of_a_category() {
    let cats = catalogue();
    assert_eq!(cats[0].get_subcategories().len(), 2);
    assert_eq!(cats[1].get_subcategories()[0].title, "Rust");
}

#[test]
fn search_finds_first_occurrence() {
    assert_eq!(search("hello world", "o"), Some(4));
    assert_eq!(search("hello world", "world"), Some(6));
    assert_eq!(search("hello", "xyz"), None);
    assert_eq!(search("abc", ""), Some(0));
    assert_eq!(search("", "a"), None);
}

#[test]
fn fuzzy_search_groups_results() {
    let cats = catalogue();
    assert_eq!(
        fuzzy_search("o", &cats),
        vec![
            SearchHit::Category(0),
            SearchHit::Category(1),
            SearchHit::Subcategory(0, 0),
            SearchHit::Subcategory(0, 1),
            SearchHit::Link(0, 0),
        ]
    );
    assert_eq!(fuzzy_search("Rust", &cats), vec![SearchHit::Subcategory(1, 0)]);
    assert_eq!(fuzzy_search("rust", &cats), vec![]);
    assert!(fuzzy_search("zzz", &cats).is_empty());
}

#[test]
fn key_names() {
    assert_eq!(handle_input(Key::Tab), Some("tab".to_string()));
    assert_eq!(handle_input(Key::Up), Some("up".to_string()));
    assert_eq!(handle_input(Key::Down), Some("down".to_string()));
    assert_eq!(handle_input(Key::Enter), Some("enter".to_string()));
    assert_eq!(handle_input(Key::Right), Some("right".to_string()));
    assert_eq!(handle_input(Key::Esc), Some("esc".to_string()));
    assert_eq!(handle_input(Key::Char('y')), Some("y".to_string()));
    assert_eq!(handle_input(Key::Char('n')), Some("n".to_string()));
    assert_eq!(handle_input(Key::Char('x')), None);
    assert_eq!(handle_input(Key::Left), None);
}

#[test]
fn browser_moves_and_quits() {
    let mut s = BrowserState::new();
    assert_eq!(s.step("up", 2), Step::Continue);
    assert_eq!(s.selected_category, 0);
    s.step("down", 2);
    s.step("down", 2);
    assert_eq!(s.selected_category, 1);
    s.step("tab", 2);
    assert_eq!(s.selected_category, 1);
    s.step("esc", 2);
    assert!(s.quitting);
    assert_eq!(s.step("down", 2), Step::Continue);
    assert_eq!(s.selected_category, 1);
    s.step("n", 2);
    assert!(!s.quitting);
    s.step("esc", 2);
    assert_eq!(s.step("y", 2), Step::Quit);
}

#[test]
fn rows_mark_selection() {
    let cats = catalogue();
    let rows = category_rows(&cats, 1);
    assert_eq!(rows[0].text, "  Platforms");
    assert!(!rows[0].highlighted);
    assert_eq!(rows[1].text, "> Programming Languages");
    assert!(rows[1].highlighted);
    let subs = subcategory_rows(&cats, 0, 0).unwrap();
    assert_eq!(subs[0].text, "> Node.js");
    assert_eq!(subs[1].text, "  Frontend");
    assert!(subcategory_rows(&cats, 5, 0).is_none());
    let links = link_rows(&cats, 0, 0, 1).unwrap();
    assert_eq!(links[0].text, "  express");
    assert_eq!(links[1].text, "> koa");
    assert!(link_rows(&cats, 0, 9, 0).is_none());
}

#[test]
fn confirm_dialog_centred() {
    assert_eq!(confirm_dialog_area(80, 24), (20, 8, 40, 7));
}
