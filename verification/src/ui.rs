//! The category browser: what each key press means, how the selection moves,
//! and the lines shown in its three columns.

use vstd::prelude::*;
use crate::data::{Category, Link, Subcategory};
use crate::keys::Key;
use crate::text::{chars_of, joined, push_char};

verus! {

/// The name of a key as the browser reads it: `tab`, `up`, `down`, `enter`,
/// `right`, `esc`, or the character itself for `y` and `n`; other keys have
/// none.
pub open spec fn key_name(key: Key) -> Option<Seq<char>> {
    match key {
        Key::Tab => Some("tab"@),
        Key::Up => Some("up"@),
        Key::Down => Some("down"@),
        Key::Enter => Some("enter"@),
        Key::Right => Some("right"@),
        Key::Esc => Some("esc"@),
        Key::Char(c) => if c == 'y' || c == 'n' {
            Some(seq![c])
        } else {
            None
        },
        _ => None,
    }
}

/// The name of a key press (`key_name`).
pub fn handle_input(key: Key) -> (name: Option<String>)
    ensures
        match name {
            Some(s) => key_name(key) == Some(s@),
            None => key_name(key) is None,
        },
{
    match key {
        Key::Tab => Some(String::from_str("tab")),
        Key::Up => Some(String::from_str("up")),
        Key::Down => Some(String::from_str("down")),
        Key::Enter => Some(String::from_str("enter")),
        Key::Right => Some(String::from_str("right")),
        Key::Esc => Some(String::from_str("esc")),
        Key::Char(c) => {
            if c == 'y' || c == 'n' {
                let mut s = String::new();
                push_char(&mut s, c);
                proof {
                    assert(s@ =~= seq![c]);
                }
                Some(s)
            } else {
                None
            }
        },
        _ => None,
    }
}

/// Whether two strings hold the same characters.
pub fn same_text(a: &str, b: &str) -> (r: bool)
    ensures
        r == (a@ == b@),
{
    let x = chars_of(a);
    let y = chars_of(b);
    if x.len() != y.len() {
        return false;
    }
    let mut i: usize = 0;
    while i < x.len()
        invariant
            x@ == a@,
            y@ == b@,
            x@.len() == y@.len(),
            i <= x@.len(),
            forall|k: int| 0 <= k < i ==> x@[k] == y@[k],
        decreases x@.len() - i,
    {
        if x[i] != y[i] {
            proof {
                assert(x@[i as int] != y@[i as int]);
                assert(x@ != y@);
            }
            return false;
        }
        i = i + 1;
    }
    proof {
        assert(x@ =~= y@);
    }
    true
}

/// The selection and the quit confirmation of the browser.
pub struct BrowserState {
    pub selected_category: usize,
    pub selected_subcategory: usize,
    pub selected_link: usize,
    pub quitting: bool,
}

/// What the main loop does after a key.
#[derive(Clone, Copy, Debug, PartialEq, Eq, Structural)]
pub enum Step {
    Continue,
    Quit,
}

/// The state after reading a key named `input`, with `count` categories.
/// While the quit dialog is shown, `y` quits and `n` closes it; otherwise
/// `up` and `down` move the selected category within the list and `esc`
/// opens the dialog. Other names change nothing.
pub open spec fn after_input(s: BrowserState, input: Seq<char>, count: int) -> (BrowserState, Step) {
    if s.quitting {
        if input == "y"@ {
            (s, Step::Quit)
        } else if input == "n"@ {
            (BrowserState { quitting: false, ..s }, Step::Continue)
        } else {
            (s, Step::Continue)
        }
    } else if input == "up"@ {
        (BrowserState {
            selected_category: if s.selected_category > 0 { (s.selected_category - 1) as usize } else { s.selected_category },
            ..s
        }, Step::Continue)
    } else if input == "down"@ {
        (BrowserState {
            selected_category: if s.selected_category < count - 1 { (s.selected_category + 1) as usize } else { s.selected_category },
            ..s
        }, Step::Continue)
    } else if input == "esc"@ {
        (BrowserState { quitting: true, ..s }, Step::Continue)
    } else {
        (s, Step::Continue)
    }
}

impl BrowserState {
    /// The first category selected, no dialog.
    pub fn new() -> (s: BrowserState)
        ensures
            s == (BrowserState { selected_category: 0, selected_subcategory: 0, selected_link: 0, quitting: false }),
    {
        BrowserState { selected_category: 0, selected_subcategory: 0, selected_link: 0, quitting: false }
    }

    /// Reacts to a key named `input` in a catalogue of `count` categories
    /// (`after_input`). Moving down needs at least one category.
    pub fn step(&mut self, input: &str, count: usize) -> (r: Step)
        requires
            !old(self).quitting && input@ == "down"@ ==> count > 0,
        ensures
            (*final(self), r) == after_input(*old(self), input@, count as int),
    {
        if self.quitting {
            if same_text(input, "y") {
                return Step::Quit;
            } else if same_text(input, "n") {
                self.quitting = false;
            }
        } else if same_text(input, "up") {
            if self.selected_category > 0 {
                self.selected_category = self.selected_category - 1;
            }
        } else if same_text(input, "down") {
            if self.selected_category < count - 1 {
                self.selected_category = self.selected_category + 1;
            }
        } else if same_text(input, "esc") {
            self.quitting = true;
        }
        Step::Continue
    }
}

/// A displayed line: its text, and whether it is shown selected.
pub struct Row {
    pub text: String,
    pub highlighted: bool,
}

impl View for Row {
    type V = (Seq<char>, bool);

    open spec fn view(&self) -> (Seq<char>, bool) {
        (self.text@, self.highlighted)
    }
}

/// The line of the title at `i` when `selected` is selected: `"> "` before
/// the selected title, two spaces before the others.
pub open spec fn row_of(title: Seq<char>, i: int, selected: int) -> (Seq<char>, bool) {
    if i == selected {
        ("> "@ + title, true)
    } else {
        ("  "@ + title, false)
    }
}

pub open spec fn rows_of(titles: Seq<Seq<char>>, selected: int) -> Seq<(Seq<char>, bool)> {
    Seq::new(titles.len(), |i: int| row_of(titles[i], i, selected))
}

pub open spec fn row_views(rows: Seq<Row>) -> Seq<(Seq<char>, bool)> {
    rows.map_values(|r: Row| r@)
}

fn row(title: &String, i: usize, selected: usize) -> (r: Row)
    ensures
        r@ == row_of(title@, i as int, selected as int),
{
    if i == selected {
        Row { text: joined("> ", title.as_str()), highlighted: true }
    } else {
        Row { text: joined("  ", title.as_str()), highlighted: false }
    }
}

/// The lines of the category column.
pub fn category_rows(categories: &[Category], selected: usize) -> (rows: Vec<Row>)
    ensures
        row_views(rows@) == rows_of(categories@.map_values(|c: Category| c.title@), selected as int),
{
    let ghost titles = categories@.map_values(|c: Category| c.title@);
    let mut rows: Vec<Row> = Vec::new();
    let mut i: usize = 0;
    while i < categories.len()
        invariant
            i <= categories@.len(),
            titles == categories@.map_values(|c: Category| c.title@),
            row_views(rows@) == rows_of(titles, selected as int).take(i as int),
        decreases categories@.len() - i,
    {
        let r = row(&categories[i].title, i, selected);
        let ghost old_rows = rows@;
        rows.push(r);
        proof {
            assert(titles[i as int] == categories@[i as int].title@);
            assert(row_views(rows@) =~= row_views(old_rows).push(r@));
            assert(row_views(rows@) =~= rows_of(titles, selected as int).take(i + 1));
        }
        i = i + 1;
    }
    proof {
        assert(rows_of(titles, selected as int).take(i as int) =~= rows_of(titles, selected as int));
    }
    rows
}

fn subcategory_list_rows(subs: &Vec<Subcategory>, selected: usize) -> (rows: Vec<Row>)
    ensures
        row_views(rows@) == rows_of(subs@.map_values(|s: Subcategory| s.title@), selected as int),
{
    let ghost titles = subs@.map_values(|s: Subcategory| s.title@);
    let mut rows: Vec<Row> = Vec::new();
    let mut i: usize = 0;
    while i < subs.len()
        invariant
            i <= subs@.len(),
            titles == subs@.map_values(|s: Subcategory| s.title@),
            row_views(rows@) == rows_of(titles, selected as int).take(i as int),
        decreases subs@.len() - i,
    {
        let r = row(&subs[i].title, i, selected);
        let ghost old_rows = rows@;
        rows.push(r);
        proof {
            assert(titles[i as int] == subs@[i as int].title@);
            assert(row_views(rows@) =~= row_views(old_rows).push(r@));
            assert(row_views(rows@) =~= rows_of(titles, selected as int).take(i + 1));
        }
        i = i + 1;
    }
    proof {
        assert(rows_of(titles, selected as int).take(i as int) =~= rows_of(titles, selected as int));
    }
    rows
}

fn link_list_rows(links: &Vec<Link>, selected: usize) -> (rows: Vec<Row>)
    ensures
        row_views(rows@) == rows_of(links@.map_values(|l: Link| l.title@), selected as int),
{
    let ghost titles = links@.map_values(|l: Link| l.title@);
    let mut rows: Vec<Row> = Vec::new();
    let mut i: usize = 0;
    while i < links.len()
        invariant
            i <= links@.len(),
            titles == links@.map_values(|l: Link| l.title@),
            row_views(rows@) == rows_of(titles, selected as int).take(i as int),
        decreases links@.len() - i,
    {
        let r = row(&links[i].title, i, selected);
        let ghost old_rows = rows@;
        rows.push(r);
        proof {
            assert(titles[i as int] == links@[i as int].title@);
            assert(row_views(rows@) =~= row_views(old_rows).push(r@));
            assert(row_views(rows@) =~= rows_of(titles, selected as int).take(i + 1));
        }
        i = i + 1;
    }
    proof {
        assert(rows_of(titles, selected as int).take(i as int) =~= rows_of(titles, selected as int));
    }
    rows
}

/// The lines of the subcategory column: those of the selected category's
/// subcategories, or none when no category is selected.
pub fn subcategory_rows(categories: &[Category], selected_category: usize, selected_subcategory: usize) -> (rows: Option<Vec<Row>>)
    ensures
        match rows {
            Some(r) => selected_category < categories@.len() && row_views(r@) == rows_of(
                categories@[selected_category as int].subcategories@.map_values(|s: Subcategory| s.title@),
                selected_subcategory as int,
            ),
            None => selected_category >= categories@.len(),
        },
{
    if selected_category < categories.len() {
        Some(subcategory_list_rows(&categories[selected_category].subcategories, selected_subcategory))
    } else {
        None
    }
}

/// The lines of the link column: those of the links of the selected
/// subcategory, or none when there is no such subcategory.
pub fn link_rows(
    categories: &[Category],
    selected_category: usize,
    selected_subcategory: usize,
    selected_link: usize,
) -> (rows: Option<Vec<Row>>)
    ensures
        match rows {
            Some(r) => selected_category < categories@.len() && selected_subcategory
                < categories@[selected_category as int].subcategories@.len() && row_views(r@) == rows_of(
                categories@[selected_category as int].subcategories@[selected_subcategory as int].links@.map_values(
                    |l: Link| l.title@,
                ),
                selected_link as int,
            ),
            None => selected_category >= categories@.len() || selected_subcategory
                >= categories@[selected_category as int].subcategories@.len(),
        },
{
    if selected_category < categories.len() {
        let subs = &categories[selected_category].subcategories;
        if selected_subcategory < subs.len() {
            return Some(link_list_rows(&subs[selected_subcategory].links, selected_link));
        }
    }
    None
}

/// The quit confirmation: 40 columns by 7 rows, centred in an area of at
/// least that size: (column, row, width, height).
pub fn confirm_dialog_area(width: u16, height: u16) -> (r: (u16, u16, u16, u16))
    requires
        width >= 40,
        height >= 7,
    ensures
        r.0 == (width - 40) / 2,
        r.1 == (height - 7) / 2,
        r.2 == 40,
        r.3 == 7,
{
    let dialog_width: u16 = 40;
    let dialog_height: u16 = 7;
    ((width - dialog_width) / 2, (height - dialog_height) / 2, dialog_width, dialog_height)
}

/// Moving up or down keeps the selected category inside a non-empty list.
pub proof fn law_selection_stays_in_list(s: BrowserState, input: Seq<char>, count: int)
    requires
        0 <= s.selected_category < count,
    ensures
        0 <= after_input(s, input, count).0.selected_category < count,
{
}

/// Escape followed by `n` returns to the state before the dialog opened.
pub proof fn law_escape_then_no(s: BrowserState, count: int)
    requires
        !s.quitting,
    ensures
        after_input(after_input(s, "esc"@, count).0, "n"@, count) == (s, Step::Continue),
{
    reveal_strlit("esc");
    reveal_strlit("up");
    reveal_strlit("down");
    reveal_strlit("n");
    reveal_strlit("y");
    assert("esc"@.len() != "up"@.len());
    assert("esc"@.len() != "down"@.len());
    assert("n"@[0] != "y"@[0]);
}

} // verus!
