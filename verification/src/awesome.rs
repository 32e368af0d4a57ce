//! The awesome-list browser: the list of links read from the readme, the
//! search that filters it, and what each key does.

use vstd::prelude::*;
use crate::keys::Key;
use crate::readme::{item_views, parse_outline, outline, markdown_events, ReadmeItem, SubLink};
use crate::text::{
    chars_of, contains, contains_chars, decimal, decimal_string, lower_of, ascii_lower, is_ascii_seq, pop_char,
    push_char, push_str, to_lowercase,
};

verus! {

/// The view of a listed link: title, destination, sub-links (title, destination).
pub type ItemView = (Seq<char>, Seq<char>, Seq<(Seq<char>, Seq<char>)>);

/// The state of the browser.
pub struct App {
    /// Every link read from the readme.
    pub items: Vec<ReadmeItem>,
    /// The links whose title matches the search term.
    pub filtered_items: Vec<ReadmeItem>,
    /// The position of the selected link in `filtered_items`.
    pub selected: usize,
    /// Whether the sub-links of the selected link are shown (and navigated).
    pub sub_links_visible: bool,
    /// The position of the selected sub-link.
    pub sub_link_selected: usize,
    pub search_term: String,
    pub search_display: String,
    pub show_quit_dialog: bool,
}

/// The abstract state of the browser.
pub struct AppView {
    pub items: Seq<ItemView>,
    pub filtered: Seq<ItemView>,
    pub selected: int,
    pub sub_links_visible: bool,
    pub sub_link_selected: int,
    pub search_term: Seq<char>,
    pub search_display: Seq<char>,
    pub show_quit_dialog: bool,
}

impl View for App {
    type V = AppView;

    open spec fn view(&self) -> AppView {
        AppView {
            items: item_views(self.items@),
            filtered: item_views(self.filtered_items@),
            selected: self.selected as int,
            sub_links_visible: self.sub_links_visible,
            sub_link_selected: self.sub_link_selected as int,
            search_term: self.search_term@,
            search_display: self.search_display@,
            show_quit_dialog: self.show_quit_dialog,
        }
    }
}

/// A title matches a search term when its lower-case form contains the
/// lower-case form of the term.
pub open spec fn title_matches(title: Seq<char>, term: Seq<char>) -> bool {
    contains(lower_of(title), lower_of(term))
}

/// The links whose title matches `term`, in order.
pub open spec fn filter_items(items: Seq<ItemView>, term: Seq<char>) -> Seq<ItemView> {
    items.filter(|it: ItemView| title_matches(it.0, term))
}

impl AppView {
    /// The filter is up to date, the selection lies in the filtered list (or
    /// is 0 when that is empty), and the displayed term is the search term.
    pub open spec fn wf(self) -> bool {
        &&& self.filtered == filter_items(self.items, self.search_term)
        &&& (self.selected < self.filtered.len() || self.selected == 0)
        &&& 0 <= self.selected
        &&& 0 <= self.sub_link_selected
        &&& self.search_display == self.search_term
    }

    /// The state after the filter is recomputed: the selection falls back to
    /// the first link when it no longer lies in the list.
    pub open spec fn refiltered(self) -> AppView {
        let filtered = filter_items(self.items, self.search_term);
        AppView {
            filtered: filtered,
            selected: if self.selected >= filtered.len() { 0 } else { self.selected },
            ..self
        }
    }

    /// Moving the selection to the link at `i`: its sub-links are shown when
    /// it has any, and the first of them is selected.
    pub open spec fn select_link(self, i: int) -> AppView {
        AppView {
            selected: i,
            sub_link_selected: 0,
            sub_links_visible: self.filtered[i].2.len() > 0,
            ..self
        }
    }

    /// The keys on which handling a key goes through without a fault: moving
    /// down needs a link to move in (and, among sub-links, a sub-link), and
    /// opening a sub-link needs a selected link.
    pub open spec fn key_ok(self, key: Key) -> bool {
        match key {
            Key::Down => if self.sub_links_visible {
                self.selected < self.filtered.len() && self.filtered[self.selected].2.len() > 0
            } else {
                self.filtered.len() > 0
            },
            Key::Enter | Key::Right => self.sub_links_visible ==> self.selected < self.filtered.len(),
            _ => true,
        }
    }

    /// The state after a key.
    pub open spec fn after_key(self, key: Key) -> AppView {
        match key {
            Key::Down => if self.sub_links_visible {
                if self.sub_link_selected < self.filtered[self.selected].2.len() - 1 {
                    AppView { sub_link_selected: self.sub_link_selected + 1, ..self }
                } else {
                    self
                }
            } else if self.selected < self.filtered.len() - 1 {
                self.select_link(self.selected + 1)
            } else {
                self
            },
            Key::Up => if self.sub_links_visible {
                if self.sub_link_selected > 0 {
                    AppView { sub_link_selected: self.sub_link_selected - 1, ..self }
                } else {
                    self
                }
            } else if self.selected > 0 {
                self.select_link(self.selected - 1)
            } else {
                self
            },
            Key::Tab => AppView {
                sub_links_visible: !self.sub_links_visible,
                sub_link_selected: if !self.sub_links_visible { 0 } else { self.sub_link_selected },
                ..self
            },
            Key::Char(c) => AppView {
                search_term: self.search_term.push(c),
                search_display: self.search_display.push(c),
                ..self
            }.refiltered(),
            Key::Backspace => if self.search_term.len() > 0 {
                AppView {
                    search_term: self.search_term.drop_last(),
                    search_display: self.search_display.drop_last(),
                    ..self
                }.refiltered()
            } else {
                self
            },
            Key::Esc => AppView { show_quit_dialog: true, ..self },
            _ => self,
        }
    }

    /// The destination that a key opens in the browser: Enter or Right opens
    /// the selected sub-link when sub-links are shown, else the selected link.
    pub open spec fn opened_by(self, key: Key) -> Option<Seq<char>> {
        match key {
            Key::Enter | Key::Right => if self.sub_links_visible {
                if self.sub_link_selected < self.filtered[self.selected].2.len() {
                    Some(self.filtered[self.selected].2[self.sub_link_selected].1)
                } else {
                    None
                }
            } else if self.selected < self.filtered.len() {
                Some(self.filtered[self.selected].1)
            } else {
                None
            },
            _ => None,
        }
    }
}

/// A copy of a sub-link.
fn copy_sub_link(s: &SubLink) -> (r: SubLink)
    ensures
        r@ == s@,
{
    SubLink { title: s.title.clone(), url: s.url.clone() }
}

/// A copy of a listed link.
pub fn copy_item(it: &ReadmeItem) -> (r: ReadmeItem)
    ensures
        r@ == it@,
{
    let mut subs: Vec<SubLink> = Vec::new();
    let mut i: usize = 0;
    while i < it.sub_links.len()
        invariant
            i <= it.sub_links@.len(),
            subs@.len() == i,
            forall|j: int| 0 <= j < i ==> subs@[j]@ == it.sub_links@[j]@,
        decreases it.sub_links@.len() - i,
    {
        subs.push(copy_sub_link(&it.sub_links[i]));
        i = i + 1;
    }
    let r = ReadmeItem { title: it.title.clone(), url: it.url.clone(), sub_links: subs };
    proof {
        assert(r.sub_links@.map_values(|s: SubLink| s@) =~= it.sub_links@.map_values(|s: SubLink| s@));
    }
    r
}

/// Whether a title matches the (lower-cased) search term.
fn matches_term(title: &String, lower_term: &Vec<char>) -> (r: bool)
    ensures
        r == contains(lower_of(title@), lower_term@),
{
    let lower = to_lowercase(title.as_str());
    let chars = chars_of(lower.as_str());
    contains_chars(&chars, lower_term)
}

/// The links of `items` whose title matches `term`, in order.
pub fn filtered(items: &Vec<ReadmeItem>, term: &String) -> (r: Vec<ReadmeItem>)
    ensures
        item_views(r@) == filter_items(item_views(items@), term@),
        term@.len() == 0 ==> item_views(r@) == item_views(items@),
{
    let lower_term_s = to_lowercase(term.as_str());
    proof {
        if term@.len() == 0 {
            law_empty_search_shows_all(item_views(items@), term@);
        }
        assert(lower_term_s@ == lower_of(term@));
    }
    let lower_term = chars_of(lower_term_s.as_str());
    let ghost pred = |it: ItemView| title_matches(it.0, term@);
    let mut r: Vec<ReadmeItem> = Vec::new();
    let mut i: usize = 0;
    while i < items.len()
        invariant
            i <= items@.len(),
            lower_term@ == lower_of(term@),
            pred == |it: ItemView| title_matches(it.0, term@),
            item_views(r@) == item_views(items@).take(i as int).filter(pred),
        decreases items@.len() - i,
    {
        proof {
            reveal(Seq::filter);
            assert(item_views(items@).take(i + 1).drop_last() =~= item_views(items@).take(i as int));
            assert(item_views(items@).take(i + 1).last() == items@[i as int]@);
        }
        if matches_term(&items[i].title, &lower_term) {
            let it = copy_item(&items[i]);
            proof {
                assert(item_views(r@.push(it)) =~= item_views(r@).push(it@));
            }
            r.push(it);
        }
        i = i + 1;
    }
    proof {
        assert(item_views(items@).take(items@.len() as int) =~= item_views(items@));
    }
    r
}

/// What the main loop does after a key.
pub enum Action {
    /// Leave the application.
    Quit,
    /// Open a destination in the web browser.
    Open(String),
    /// Nothing beyond the change of state.
    Nothing,
}

impl App {
    /// The links of an awesome-list readme (`parse_outline`).
    pub fn parse_readme(content: &str) -> (items: Vec<ReadmeItem>)
        ensures
            item_views(items@) == outline(markdown_events(content@)),
    {
        parse_outline(content)
    }

    /// The browser over the links of a readme: everything shown, the first
    /// link selected, sub-links hidden, no search term.
    pub fn new(content: &str) -> (app: App)
        ensures
            app@.wf(),
            app@.items == outline(markdown_events(content@)),
            app@.filtered == app@.items,
            app@.selected == 0,
            !app@.sub_links_visible,
            app@.sub_link_selected == 0,
            app@.search_term.len() == 0,
            !app@.show_quit_dialog,
    {
        let items = Self::parse_readme(content);
        let search_term = String::new();
        let filtered_items = filtered(&items, &search_term);
        App {
            items,
            filtered_items,
            selected: 0,
            sub_links_visible: false,
            sub_link_selected: 0,
            search_term,
            search_display: String::new(),
            show_quit_dialog: false,
        }
    }

    /// Recomputes the filtered list from the search term; the selection falls
    /// back to the first link when it no longer lies in the list.
    pub fn update_filtered_items(&mut self)
        ensures
            final(self)@ == old(self)@.refiltered(),
    {
        self.filtered_items = filtered(&self.items, &self.search_term);
        if self.selected >= self.filtered_items.len() {
            self.selected = 0;
        }
    }

    /// Handles a key outside the quit dialog; returns the destination to open
    /// in the web browser, if the key opens one.
    pub fn handle_input(&mut self, key: Key) -> (opened: Option<String>)
        requires
            old(self)@.wf(),
            old(self)@.key_ok(key),
        ensures
            final(self)@ == old(self)@.after_key(key),
            final(self)@.wf(),
            key matches Key::Char(c) && is_ascii_seq(old(self)@.search_term.push(c)) ==> final(self)@.filtered
                == filter_items(old(self)@.filtered, final(self)@.search_term),
            match opened {
                Some(url) => old(self)@.opened_by(key) == Some(url@),
                None => old(self)@.opened_by(key) is None,
            },
    {
        proof {
            lemma_filter_len(self@.items, self@.search_term);
        }
        match key {
            Key::Down => {
                if self.sub_links_visible {
                    if self.sub_link_selected < self.filtered_items[self.selected].sub_links.len() - 1 {
                        self.sub_link_selected = self.sub_link_selected + 1;
                    }
                } else if self.selected < self.filtered_items.len() - 1 {
                    self.selected = self.selected + 1;
                    self.sub_link_selected = 0;
                    self.sub_links_visible = !self.filtered_items[self.selected].sub_links.is_empty();
                }
                None
            },
            Key::Up => {
                if self.sub_links_visible {
                    if self.sub_link_selected > 0 {
                        self.sub_link_selected = self.sub_link_selected - 1;
                    }
                } else if self.selected > 0 {
                    self.selected = self.selected - 1;
                    self.sub_link_selected = 0;
                    self.sub_links_visible = !self.filtered_items[self.selected].sub_links.is_empty();
                }
                None
            },
            Key::Enter | Key::Right => {
                if self.sub_links_visible {
                    let subs = &self.filtered_items[self.selected].sub_links;
                    if self.sub_link_selected < subs.len() {
                        Some(subs[self.sub_link_selected].url.clone())
                    } else {
                        None
                    }
                } else if self.selected < self.filtered_items.len() {
                    Some(self.filtered_items[self.selected].url.clone())
                } else {
                    None
                }
            },
            Key::Tab => {
                self.sub_links_visible = !self.sub_links_visible;
                if self.sub_links_visible {
                    self.sub_link_selected = 0;
                }
                None
            },
            Key::Char(c) => {
                let ghost old_term = self.search_term@;
                push_char(&mut self.search_term, c);
                push_char(&mut self.search_display, c);
                self.update_filtered_items();
                proof {
                    if is_ascii_seq(old_term.push(c)) {
                        assert(old_term.push(c).take(old_term.len() as int) =~= old_term);
                        law_longer_term_narrows(self@.items, old_term, old_term.push(c));
                    }
                }
                None
            },
            Key::Backspace => {
                if pop_char(&mut self.search_term).is_some() {
                    pop_char(&mut self.search_display);
                    self.update_filtered_items();
                }
                None
            },
            Key::Esc => {
                if !self.show_quit_dialog {
                    self.show_quit_dialog = true;
                }
                None
            },
            _ => None,
        }
    }
}

proof fn lemma_filter_len(items: Seq<ItemView>, term: Seq<char>)
    ensures
        filter_items(items, term).len() <= items.len(),
{
    items.lemma_filter_len(|it: ItemView| title_matches(it.0, term));
}

/// The empty search term matches every link.
pub proof fn law_empty_search_shows_all(items: Seq<ItemView>, term: Seq<char>)
    requires
        term.len() == 0,
    ensures
        filter_items(items, term) == items,
    decreases items.len(),
{
    reveal(Seq::filter);
    let pred = |it: ItemView| title_matches(it.0, term);
    if items.len() > 0 {
        law_empty_search_shows_all(items.drop_last(), term);
        let t = lower_of(items.last().0);
        assert(ascii_lower(term).len() == 0);
        lemma_contains_empty(t, lower_of(term));
        assert(items.drop_last().push(items.last()) =~= items);
    } else {
        assert(items.filter(pred) =~= items);
    }
}

proof fn lemma_contains_empty(t: Seq<char>, q: Seq<char>)
    requires
        q.len() == 0,
    ensures
        contains(t, q),
{
    assert(t.subrange(0, 0) =~= q);
    assert(crate::text::occurs_at(t, q, 0));
}

/// A piece of a displayed line: its text, and whether it is shown selected.
pub struct Span {
    pub text: String,
    pub highlighted: bool,
}

impl View for Span {
    type V = (Seq<char>, bool);

    open spec fn view(&self) -> (Seq<char>, bool) {
        (self.text@, self.highlighted)
    }
}

/// The displayed line of the link at `index`: its number (from 1) and title,
/// followed, for the selected link while sub-links are shown, by one piece
/// per sub-link (numbered from 1), the selected sub-link highlighted.
pub open spec fn item_line(s: AppView, index: int) -> Seq<(Seq<char>, bool)> {
    let item = s.filtered[index];
    seq![(decimal((index + 1) as nat) + ". "@ + item.0, false)] + if s.sub_links_visible
        && s.selected == index {
        Seq::new(
            item.2.len(),
            |j: int| ("\n  - "@ + decimal((j + 1) as nat) + ". "@ + item.2[j].0, s.sub_link_selected == j),
        )
    } else {
        seq![]
    }
}

/// The quit dialog: 50 columns by 3 rows, centred (at the top left when the
/// area is smaller).
pub open spec fn dialog_area(width: u16, height: u16) -> (u16, u16, u16, u16) {
    (
        (if width >= 50 { (width - 50) / 2 } else { 0 }) as u16,
        (if height >= 3 { (height - 3) / 2 } else { 0 }) as u16,
        50,
        3,
    )
}

/// `"<n>. <title>"`.
fn numbered(n: usize, title: &String, prefix: &str) -> (r: String)
    ensures
        r@ == prefix@ + decimal(n as nat) + ". "@ + title@,
{
    let mut r = String::new();
    push_str(&mut r, prefix);
    let num = decimal_string(n);
    push_str(&mut r, num.as_str());
    push_str(&mut r, ". ");
    push_str(&mut r, title.as_str());
    proof {
        assert(Seq::<char>::empty() + prefix@ =~= prefix@);
    }
    r
}

impl App {
    /// Handles a key in the main loop. While the quit dialog is shown, `y`
    /// or `Y` quits, `n` or `N` closes the dialog, and other keys are
    /// ignored; otherwise the key goes to `handle_input`.
    pub fn on_key(&mut self, key: Key) -> (action: Action)
        requires
            old(self)@.wf(),
            !old(self)@.show_quit_dialog ==> old(self)@.key_ok(key),
        ensures
            final(self)@.wf(),
            old(self)@.show_quit_dialog ==> match key {
                Key::Char('y') | Key::Char('Y') => action is Quit && final(self)@ == old(self)@,
                Key::Char('n') | Key::Char('N') => action is Nothing && final(self)@ == AppView {
                    show_quit_dialog: false,
                    ..old(self)@
                },
                _ => action is Nothing && final(self)@ == old(self)@,
            },
            !old(self)@.show_quit_dialog ==> final(self)@ == old(self)@.after_key(key) && match action {
                Action::Open(url) => old(self)@.opened_by(key) == Some(url@),
                Action::Nothing => old(self)@.opened_by(key) is None,
                Action::Quit => false,
            },
    {
        if self.show_quit_dialog {
            match key {
                Key::Char('y') | Key::Char('Y') => Action::Quit,
                Key::Char('n') | Key::Char('N') => {
                    self.show_quit_dialog = false;
                    Action::Nothing
                },
                _ => Action::Nothing,
            }
        } else {
            match self.handle_input(key) {
                Some(url) => Action::Open(url),
                None => Action::Nothing,
            }
        }
    }

    /// The displayed lines, one per filtered link (`item_line`).
    pub fn list_rows(&self) -> (rows: Vec<Vec<Span>>)
        ensures
            rows@.len() == self@.filtered.len(),
            forall|i: int| 0 <= i < rows@.len() ==> rows@[i]@.map_values(|p: Span| p@) == item_line(self@, i),
    {
        let mut rows: Vec<Vec<Span>> = Vec::new();
        let mut index: usize = 0;
        while index < self.filtered_items.len()
            invariant
                index <= self.filtered_items@.len(),
                rows@.len() == index,
                forall|i: int| 0 <= i < index ==> rows@[i]@.map_values(|p: Span| p@) == item_line(self@, i),
            decreases self.filtered_items@.len() - index,
        {
            let item = &self.filtered_items[index];
            proof {
                reveal_strlit("");
                assert(""@ + decimal((index + 1) as nat) =~= decimal((index + 1) as nat));
            }
            let mut spans: Vec<Span> = Vec::new();
            spans.push(Span { text: numbered(index + 1, &item.title, ""), highlighted: false });
            let ghost first = spans@;
            if self.sub_links_visible && self.selected == index {
                let mut j: usize = 0;
                while j < item.sub_links.len()
                    invariant
                        j <= item.sub_links@.len(),
                        spans@.len() == j + 1,
                        spans@[0] == first[0],
                        forall|k: int| 0 <= k < j ==> spans@[k + 1]@ == ("\n  - "@ + decimal((k + 1) as nat) + ". "@ + item.sub_links@[k]@.0, self.sub_link_selected == k),
                    decreases item.sub_links@.len() - j,
                {
                    let text = numbered(j + 1, &item.sub_links[j].title, "\n  - ");
                    spans.push(Span { text, highlighted: self.sub_link_selected == j });
                    j = j + 1;
                }
            }
            proof {
                let line = item_line(self@, index as int);
                assert(self@.filtered[index as int] == item@);
                if self.sub_links_visible && self.selected == index {
                    assert forall|k: int| 0 <= k < spans@.len() implies spans@.map_values(|p: Span| p@)[k] == line[k] by {
                        if k > 0 {
                            assert(spans@[k]@ == ("\n  - "@ + decimal(k as nat) + ". "@ + item.sub_links@[k - 1]@.0, self.sub_link_selected == k - 1));
                            assert(item@.2[k - 1] == item.sub_links@[k - 1]@);
                        }
                    }
                }
                assert(spans@.map_values(|p: Span| p@) =~= line);
            }
            rows.push(spans);
            index = index + 1;
        }
        rows
    }
}

/// Where the quit dialog is drawn in an area of the given size: (column,
/// row, width, height).
pub fn quit_dialog_area(width: u16, height: u16) -> (r: (u16, u16, u16, u16))
    ensures
        r == dialog_area(width, height),
{
    let dialog_width: u16 = 50;
    let dialog_height: u16 = 3;
    (width.saturating_sub(dialog_width) / 2, height.saturating_sub(dialog_height) / 2, dialog_width, dialog_height)
}

/// Pressing Tab twice restores whether sub-links are shown; of the rest of
/// the state only the selected sub-link may change.
pub proof fn law_tab_twice(s: AppView)
    ensures
        ({
            let t = s.after_key(Key::Tab).after_key(Key::Tab);
            t == AppView { sub_link_selected: t.sub_link_selected, ..s }
        }),
{
}

/// Typing a character and erasing it again restores the search term and the
/// filtered list.
pub proof fn law_type_then_erase(s: AppView, c: char)
    requires
        s.wf(),
    ensures
        ({
            let t = s.after_key(Key::Char(c)).after_key(Key::Backspace);
            &&& t.wf()
            &&& t.search_term == s.search_term
            &&& t.search_display == s.search_display
            &&& t.filtered == s.filtered
            &&& t.items == s.items
        }),
{
    assert(s.search_term.push(c).drop_last() =~= s.search_term);
    assert(s.search_display.push(c).drop_last() =~= s.search_display);
}

/// Keeping, of the links a predicate keeps, those that a stronger
/// predicate keeps, is keeping those that the stronger one keeps.
proof fn lemma_filter_of_filter(items: Seq<ItemView>, weak: spec_fn(ItemView) -> bool, strong: spec_fn(ItemView) -> bool)
    requires
        forall|it: ItemView| #[trigger] strong(it) ==> weak(it),
    ensures
        items.filter(weak).filter(strong) == items.filter(strong),
    decreases items.len(),
{
    reveal(Seq::filter);
    if items.len() > 0 {
        let init = items.drop_last();
        lemma_filter_of_filter(init, weak, strong);
        let last = items.last();
        if weak(last) {
            assert(items.filter(weak).drop_last() =~= init.filter(weak));
            assert(items.filter(weak).last() == last);
        } else {
            assert(!strong(last));
        }
    } else {
        assert(items.filter(weak) =~= items);
    }
}

/// A longer search term never shows more links: when `s1` begins `s2` and
/// `s2` is ASCII, the links that `s2` shows are those of `s1`'s links that
/// match `s2`, in the same order.
pub proof fn law_longer_term_narrows(items: Seq<ItemView>, s1: Seq<char>, s2: Seq<char>)
    requires
        s1.len() <= s2.len(),
        s2.take(s1.len() as int) == s1,
        is_ascii_seq(s2),
    ensures
        filter_items(filter_items(items, s1), s2) == filter_items(items, s2),
{
    let weak = |it: ItemView| title_matches(it.0, s1);
    let strong = |it: ItemView| title_matches(it.0, s2);
    assert(is_ascii_seq(s1)) by {
        assert forall|i: int| 0 <= i < s1.len() implies s1[i] < '\u{80}' by {
            assert(s1[i] == s2[i]);
        }
    }
    let q1 = lower_of(s1);
    let q2 = lower_of(s2);
    assert(q2.take(s1.len() as int) =~= q1);
    assert forall|it: ItemView| #[trigger] strong(it) implies weak(it) by {
        let t = lower_of(it.0);
        let i = choose|i: int| crate::text::occurs_at(t, q2, i);
        assert(t.subrange(i, i + q1.len()) =~= q2.subrange(0, q1.len() as int));
        assert(crate::text::occurs_at(t, q1, i));
    }
    lemma_filter_of_filter(items, weak, strong);
}

/// Enter and Right open the link on the highlighted row of the list that is
/// shown (the filtered list, not the full one), or, with sub-links shown,
/// the highlighted sub-link of that row.
pub proof fn law_enter_opens_highlighted_link(s: AppView, key: Key)
    requires
        key == Key::Enter || key == Key::Right,
        0 <= s.selected < s.filtered.len(),
    ensures
        !s.sub_links_visible ==> s.opened_by(key) == Some(s.filtered[s.selected].1),
        s.sub_links_visible && 0 <= s.sub_link_selected < s.filtered[s.selected].2.len()
            ==> s.opened_by(key) == Some(s.filtered[s.selected].2[s.sub_link_selected].1),
{
}

} // verus!
