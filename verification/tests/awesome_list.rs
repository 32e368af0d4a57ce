use tui_suite::awesome::{quit_dialog_area, Action, App};
use tui_suite::keys::Key;
use tui_suite::readme::{collect_outline, MdEvent, MdKind};

const README: &str = "# Awesome\n\n- [Platforms](#platforms)\n- [Rust](https://github.com/rust-unofficial/awesome-rust)\n- [RUBY gems](https://example.com/ruby)\n- [](https://empty.example)\n";

fn titles(items: &[tui_suite::readme::ReadmeItem]) -> Vec<String> {
    items.iter().map(|i| i.title.clone()).collect()
}

#[test]
fn parse_readme_lists_links_in_order() {
    let items = App::parse_readme(README);
    assert_eq!(titles(&items), vec!["Platforms", "Rust", "RUBY gems"]);
    assert_eq!(items[0].url, "https://github.com/sindresorhus/awesome/#platforms");
    assert_eq!(items[1].url, "https://github.com/rust-unofficial/awesome-rust");
    assert!(items.iter().all(|i| i.sub_links.is_empty()));
}

#[test]
fn parse_readme_of_empty_document() {
    assert!(App::parse_readme("").is_empty());
    assert!(App::parse_readme("just text, no links").is_empty());
}

#[test]
fn link_text_is_last_text_child() {
    let items = App::parse_readme("[a *b* c](http://x)\n");
    assert_eq!(items.len(), 1);
    assert_eq!(items[0].title, " c");
}

fn open(kind: MdKind) -> MdEvent {
    MdEvent::Open(kind)
}

#[test]
fn outline_reads_sub_links_under_last_list() {
    // A link holding a text and a list of two links; the second has no text.
    let ev = vec![
        open(MdKind::Other),
        open(MdKind::Link("#top".to_string())),
        open(MdKind::Text("Top".to_string())),
        MdEvent::Close,
        open(MdKind::List),
        open(MdKind::Link("http://a".to_string())),
        open(MdKind::Text("A".to_string())),
        MdEvent::Close,
        MdEvent::Close,
        open(MdKind::Link("http://b".to_string())),
        MdEvent::Close,
        MdEvent::Close,
        MdEvent::Close,
        MdEvent::Close,
    ];
    let items = collect_outline(&ev);
    assert_eq!(titles(&items), vec!["Top", "A"]);
    assert_eq!(items[0].url, "https://github.com/sindresorhus/awesome/#top");
    assert_eq!(items[0].sub_links.len(), 1);
    assert_eq!(items[0].sub_links[0].title, "A");
    assert_eq!(items[0].sub_links[0].url, "http://a");
    assert!(items[1].sub_links.is_empty());
}

#[test]
fn new_app_shows_everything() {
    let app = App::new(README);
    assert_eq!(app.items.len(), 3);
    assert_eq!(app.filtered_items.len(), 3);
    assert_eq!(app.selected, 0);
    assert!(!app.sub_links_visible);
    assert!(!app.show_quit_dialog);
}

#[test]
fn arrows_move_within_the_list() {
    let mut app = App::new(README);
    assert_eq!(app.handle_input(Key::Up), None);
    assert_eq!(app.selected, 0);
    app.handle_input(Key::Down);
    app.handle_input(Key::Down);
    app.handle_input(Key::Down);
    assert_eq!(app.selected, 2);
    app.handle_input(Key::Up);
    assert_eq!(app.selected, 1);
}

#[test]
fn enter_opens_selected_link() {
    let mut app = App::new(README);
    app.handle_input(Key::Down);
    assert_eq!(app.handle_input(Key::Enter), Some("https://github.com/rust-unofficial/awesome-rust".to_string()));
    assert_eq!(app.handle_input(Key::Right), Some("https://github.com/rust-unofficial/awesome-rust".to_string()));
}

#[test]
fn typing_filters_case_insensitively() {
    let mut app = App::new(README);
    app.handle_input(Key::Down);
    app.handle_input(Key::Down);
    for c in "ruby".chars() {
        app.handle_input(Key::Char(c));
    }
    assert_eq!(app.search_term, "ruby");
    assert_eq!(app.search_display, "ruby");
    assert_eq!(titles(&app.filtered_items), vec!["RUBY gems"]);
    assert_eq!(app.selected, 0);
    for _ in 0..4 {
        app.handle_input(Key::Backspace);
    }
    assert_eq!(app.search_term, "");
    assert_eq!(app.filtered_items.len(), 3);
    app.handle_input(Key::Backspace);
    assert_eq!(app.filtered_items.len(), 3);
}

#[test]
fn search_without_match_empties_list() {
    let mut app = App::new(README);
    app.handle_input(Key::Char('z'));
    assert!(app.filtered_items.is_empty());
    assert_eq!(app.handle_input(Key::Enter), None);
}

#[test]
fn tab_toggles_sub_links() {
    let mut app = App::new(README);
    app.handle_input(Key::Tab);
    assert!(app.sub_links_visible);
    assert_eq!(app.sub_link_selected, 0);
    assert_eq!(app.handle_input(Key::Enter), None);
    app.handle_input(Key::Tab);
    assert!(!app.sub_links_visible);
}

#[test]
fn escape_and_quit_dialog() {
    let mut app = App::new(README);
    assert!(matches!(app.on_key(Key::Esc), Action::Nothing));
    assert!(app.show_quit_dialog);
    assert!(matches!(app.on_key(Key::Down), Action::Nothing));
    assert_eq!(app.selected, 0);
    assert!(matches!(app.on_key(Key::Char('n')), Action::Nothing));
    assert!(!app.show_quit_dialog);
    app.on_key(Key::Esc);
    assert!(matches!(app.on_key(Key::Char('Y')), Action::Quit));
}

#[test]
fn on_key_opens_links() {
    let mut app = App::new(README);
    match app.on_key(Key::Enter) {
        Action::Open(url) => assert_eq!(url, "https://github.com/sindresorhus/awesome/#platforms"),
        _ => panic!("expected a link to open"),
    }
}

#[test]
fn rows_are_numbered() {
    let app = App::new(README);
    let rows = app.list_rows();
    assert_eq!(rows.len(), 3);
    assert_eq!(rows[0][0].text, "1. Platforms");
    assert_eq!(rows[2][0].text, "3. RUBY gems");
    assert_eq!(rows[0].len(), 1);
}

#[test]
fn dialog_is_centred() {
    assert_eq!(quit_dialog_area(100, 40), (25, 18, 50, 3));
    assert_eq!(quit_dialog_area(20, 2), (0, 0, 50, 3));
}

#[test]
fn longer_term_never_shows_more() {
    let mut app = App::new(README);
    app.handle_input(Key::Char('r'));
    assert_eq!(titles(&app.filtered_items), vec!["Platforms", "Rust", "RUBY gems"]);
    app.handle_input(Key::Char('u'));
    assert_eq!(titles(&app.filtered_items), vec!["Rust", "RUBY gems"]);
    app.handle_input(Key::Char('s'));
    assert_eq!(titles(&app.filtered_items), vec!["Rust"]);
}
