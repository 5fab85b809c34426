//! The document model (pages of notes and the index of pages) and the
//! commands that the application applies to it.
use vstd::prelude::*;
use crate::json_parser::{page_json, page_or_empty, state_or_default, state_to_json_string};

verus! {

/// What a note holds.
pub struct NoteView {
    pub text: Seq<char>,
    pub checked: bool,
}

/// What the index of pages holds: each title with its page's stored text,
/// in order, and the title of the page being edited.
pub struct LibraryView {
    pub pages: Seq<(Seq<char>, Seq<char>)>,
    pub current: Seq<char>,
}

/// One checkbox note of a page.
#[derive(Clone, Debug)]
pub struct Content {
    pub text: String,
    pub is_checked: bool,
}

impl View for Content {
    type V = NoteView;

    open spec fn view(&self) -> NoteView {
        NoteView { text: self.text@, checked: self.is_checked }
    }
}

/// A page: its notes in order.
#[derive(Clone, Debug)]
pub struct AppState {
    pub list: Vec<Content>,
}

impl View for AppState {
    type V = Seq<NoteView>;

    open spec fn view(&self) -> Seq<NoteView> {
        notes_of(self.list@)
    }
}

impl Default for AppState {
    fn default() -> (r: AppState)
        ensures
            r@ == Seq::<NoteView>::empty(),
    {
        AppState { list: Vec::new() }
    }
}

/// The index of pages: each page title with the stored JSON text of that
/// page, and the title of the page being edited (empty when none is).
#[derive(Clone, Debug)]
pub struct StateList {
    pub list: Vec<(String, String)>,
    pub current_app_state: String,
}

impl View for StateList {
    type V = LibraryView;

    open spec fn view(&self) -> LibraryView {
        LibraryView {
            pages: pages_of(self.list@),
            current: self.current_app_state@,
        }
    }
}

impl Default for StateList {
    fn default() -> (r: StateList)
        ensures
            r@.pages == Seq::<(Seq<char>, Seq<char>)>::empty(),
            r@.current == Seq::<char>::empty(),
    {
        StateList { list: Vec::new(), current_app_state: String::new() }
    }
}

/// The colour scheme.
#[derive(PartialEq, Eq, Structural, Clone, Copy, Debug)]
pub struct Theme {
    pub is_dark_mode: bool,
}

impl Default for Theme {
    /// The dark scheme.
    fn default() -> (r: Theme)
        ensures
            r.is_dark_mode,
    {
        Theme { is_dark_mode: true }
    }
}

pub open spec fn notes_of(v: Seq<Content>) -> Seq<NoteView> {
    v.map_values(|c: Content| c@)
}

pub open spec fn pages_of(v: Seq<(String, String)>) -> Seq<(Seq<char>, Seq<char>)> {
    v.map_values(|e: (String, String)| (e.0@, e.1@))
}

/// No title stands twice.
pub open spec fn keys_distinct(pages: Seq<(Seq<char>, Seq<char>)>) -> bool {
    forall|i: int, j: int|
        0 <= i < pages.len() && 0 <= j < pages.len() && i != j ==> #[trigger] pages[i].0
            != #[trigger] pages[j].0
}

pub open spec fn has_key(pages: Seq<(Seq<char>, Seq<char>)>, k: Seq<char>) -> bool {
    exists|i: int| 0 <= i < pages.len() && #[trigger] pages[i].0 == k
}

/// Where the title `k` stands, or -1.
pub open spec fn key_pos(pages: Seq<(Seq<char>, Seq<char>)>, k: Seq<char>) -> int {
    if has_key(pages, k) {
        choose|i: int| 0 <= i < pages.len() && #[trigger] pages[i].0 == k
    } else {
        -1
    }
}

/// The stored text of the page titled `k`.
pub open spec fn lookup(pages: Seq<(Seq<char>, Seq<char>)>, k: Seq<char>) -> Option<Seq<char>> {
    if has_key(pages, k) {
        Some(pages[key_pos(pages, k)].1)
    } else {
        None
    }
}

/// `pages` with `k` bound to `v`: in place where `k` stands, else at the end.
pub open spec fn upsert(pages: Seq<(Seq<char>, Seq<char>)>, k: Seq<char>, v: Seq<char>) -> Seq<
    (Seq<char>, Seq<char>),
> {
    if has_key(pages, k) {
        pages.update(key_pos(pages, k), (k, v))
    } else {
        pages.push((k, v))
    }
}

/// `pages` without the title `k`.
pub open spec fn remove_key(pages: Seq<(Seq<char>, Seq<char>)>, k: Seq<char>) -> Seq<
    (Seq<char>, Seq<char>),
> {
    if has_key(pages, k) {
        pages.remove(key_pos(pages, k))
    } else {
        pages
    }
}

impl LibraryView {
    /// Titles are distinct, and the current title is empty or one of them.
    pub open spec fn wf(self) -> bool {
        &&& keys_distinct(self.pages)
        &&& (self.current.len() == 0 || has_key(self.pages, self.current))
    }
}

pub proof fn lemma_key_pos(pages: Seq<(Seq<char>, Seq<char>)>, k: Seq<char>)
    ensures
        has_key(pages, k) ==> 0 <= key_pos(pages, k) < pages.len() && pages[key_pos(
            pages,
            k,
        )].0 == k,
        keys_distinct(pages) ==> forall|i: int|
            0 <= i < pages.len() && #[trigger] pages[i].0 == k ==> key_pos(pages, k) == i,
{
}

pub proof fn lemma_upsert(pages: Seq<(Seq<char>, Seq<char>)>, k: Seq<char>, v: Seq<char>)
    requires
        keys_distinct(pages),
    ensures
        keys_distinct(upsert(pages, k, v)),
        has_key(upsert(pages, k, v), k),
        forall|t: Seq<char>| has_key(pages, t) ==> has_key(upsert(pages, k, v), t),
        lookup(upsert(pages, k, v), k) == Some(v),
{
    lemma_key_pos(pages, k);
    let r = upsert(pages, k, v);
    if has_key(pages, k) {
        let p = key_pos(pages, k);
        assert(r[p].0 == k);
        assert forall|t: Seq<char>| has_key(pages, t) implies has_key(r, t) by {
            let i = choose|i: int| 0 <= i < pages.len() && #[trigger] pages[i].0 == t;
            assert(r[i].0 == t);
        }
    } else {
        assert(r[pages.len() as int].0 == k);
        assert forall|t: Seq<char>| has_key(pages, t) implies has_key(r, t) by {
            let i = choose|i: int| 0 <= i < pages.len() && #[trigger] pages[i].0 == t;
            assert(r[i].0 == t);
        }
    }
    lemma_key_pos(r, k);
}

pub proof fn lemma_remove_key(pages: Seq<(Seq<char>, Seq<char>)>, k: Seq<char>)
    requires
        keys_distinct(pages),
    ensures
        keys_distinct(remove_key(pages, k)),
        !has_key(remove_key(pages, k), k),
        forall|t: Seq<char>| t != k && has_key(pages, t) ==> has_key(remove_key(pages, k), t),
{
    lemma_key_pos(pages, k);
    let r = remove_key(pages, k);
    if has_key(pages, k) {
        let p = key_pos(pages, k);
        assert forall|i: int, j: int|
            0 <= i < r.len() && 0 <= j < r.len() && i != j implies #[trigger] r[i].0
            != #[trigger] r[j].0 by {
            let a = if i < p {
                i
            } else {
                i + 1
            };
            let b = if j < p {
                j
            } else {
                j + 1
            };
            assert(r[i] == pages[a]);
            assert(r[j] == pages[b]);
        }
        assert(!has_key(r, k)) by {
            if has_key(r, k) {
                let i = choose|i: int| 0 <= i < r.len() && #[trigger] r[i].0 == k;
                let a = if i < p {
                    i
                } else {
                    i + 1
                };
                assert(r[i] == pages[a]);
            }
        }
        assert forall|t: Seq<char>| t != k && has_key(pages, t) implies has_key(r, t) by {
            let i = choose|i: int| 0 <= i < pages.len() && #[trigger] pages[i].0 == t;
            if i < p {
                assert(r[i].0 == t);
            } else {
                assert(i != p);
                assert(r[i - 1].0 == t);
            }
        }
    }
}

/// Where the title `k` stands in `list`.
pub fn find_page(list: &Vec<(String, String)>, k: &String) -> (r: Option<usize>)
    ensures
        r is None <==> !has_key(pages_of(list@), k@),
        r matches Some(p) ==> p < list.len() && pages_of(list@)[p as int].0 == k@,
        r matches Some(p) ==> (keys_distinct(pages_of(list@)) ==> p == key_pos(
            pages_of(list@),
            k@,
        )),
{
    let ghost pages = pages_of(list@);
    let mut i: usize = 0;
    while i < list.len()
        invariant
            i <= list.len(),
            pages == pages_of(list@),
            forall|j: int| 0 <= j < i ==> #[trigger] pages[j].0 != k@,
        decreases list.len() - i,
    {
        assert(pages[i as int].0 == list[i as int].0@);
        if list[i].0 == *k {
            assert(pages[i as int].0 == k@);
            proof {
                lemma_key_pos(pages, k@);
            }
            return Some(i);
        }
        i = i + 1;
    }
    None
}

/// Binds `k` to `v` in `list`: in place where `k` stands, else at the end.
pub fn upsert_page(list: &mut Vec<(String, String)>, k: String, v: String)
    requires
        keys_distinct(pages_of(old(list)@)),
    ensures
        pages_of(final(list)@) == upsert(pages_of(old(list)@), k@, v@),
        keys_distinct(pages_of(final(list)@)),
{
    proof {
        lemma_upsert(pages_of(list@), k@, v@);
    }
    match find_page(list, &k) {
        Some(p) => {
            list.set(p, (k, v));
            assert(pages_of(list@) =~= upsert(pages_of(old(list)@), k@, v@));
        },
        None => {
            list.push((k, v));
            assert(pages_of(list@) =~= upsert(pages_of(old(list)@), k@, v@));
        },
    }
}

/// Why an edit was refused.
#[derive(PartialEq, Eq, Structural, Clone, Copy, Debug)]
pub enum EditError {
    /// A new page's title is empty or already taken.
    DuplicateOrEmptyTitle,
    /// A new note's text is empty.
    EmptyContent,
}

/// Which panels and confirmation popups are shown.
#[derive(PartialEq, Eq, Structural, Clone, Copy, Debug)]
pub struct PanelManager {
    pub side_panel_visible: bool,
    pub add_panel_visible: bool,
    pub add_page_panel_visible: bool,
    pub settings_visible: bool,
    pub reset_popup_visible: bool,
    pub delete_page_popup_visible: bool,
}

/// Every panel hidden.
pub open spec fn hidden_panels() -> PanelManager {
    PanelManager {
        side_panel_visible: false,
        add_panel_visible: false,
        add_page_panel_visible: false,
        settings_visible: false,
        reset_popup_visible: false,
        delete_page_popup_visible: false,
    }
}

impl Default for PanelManager {
    /// Every panel hidden.
    fn default() -> (r: PanelManager)
        ensures
            r == hidden_panels(),
    {
        PanelManager {
            side_panel_visible: false,
            add_panel_visible: false,
            add_page_panel_visible: false,
            settings_visible: false,
            reset_popup_visible: false,
            delete_page_popup_visible: false,
        }
    }
}

impl PanelManager {
    pub fn show_side_panel(&mut self, visible: bool)
        ensures
            *final(self) == (PanelManager { side_panel_visible: visible, ..*old(self) }),
    {
        self.side_panel_visible = visible;
    }

    pub fn show_add_panel(&mut self, visible: bool)
        ensures
            *final(self) == (PanelManager { add_panel_visible: visible, ..*old(self) }),
    {
        self.add_panel_visible = visible;
    }

    pub fn show_settings(&mut self, visible: bool)
        ensures
            *final(self) == (PanelManager { settings_visible: visible, ..*old(self) }),
    {
        self.settings_visible = visible;
    }

    pub fn show_reset_popup(&mut self, visible: bool)
        ensures
            *final(self) == (PanelManager { reset_popup_visible: visible, ..*old(self) }),
    {
        self.reset_popup_visible = visible;
    }

    pub fn show_delete_page_popup(&mut self, visible: bool)
        ensures
            *final(self) == (PanelManager { delete_page_popup_visible: visible, ..*old(self) }),
    {
        self.delete_page_popup_visible = visible;
    }

    pub fn show_add_page_panel(&mut self, visible: bool)
        ensures
            *final(self) == (PanelManager { add_page_panel_visible: visible, ..*old(self) }),
    {
        self.add_page_panel_visible = visible;
    }
}

impl StateList {
    /// Whether no title stands twice and the current title is empty or one
    /// of them.
    pub fn is_well_formed(&self) -> (r: bool)
        ensures
            r == self@.wf(),
    {
        let ghost pages = self@.pages;
        let mut i: usize = 0;
        while i < self.list.len()
            invariant
                i <= self.list.len(),
                pages == pages_of(self.list@),
                forall|a: int, b: int|
                    0 <= a < i && 0 <= b < pages.len() && a != b ==> #[trigger] pages[a].0
                        != #[trigger] pages[b].0,
            decreases self.list.len() - i,
        {
            let mut j: usize = 0;
            while j < self.list.len()
                invariant
                    i < self.list.len(),
                    j <= self.list.len(),
                    pages == pages_of(self.list@),
                    forall|a: int, b: int|
                        0 <= a < i && 0 <= b < pages.len() && a != b ==> #[trigger] pages[a].0
                            != #[trigger] pages[b].0,
                    forall|b: int| 0 <= b < j && b != i ==> pages[i as int].0 != #[trigger] pages[b].0,
                decreases self.list.len() - j,
            {
                assert(pages[i as int].0 == self.list[i as int].0@);
                assert(pages[j as int].0 == self.list[j as int].0@);
                if j != i && self.list[i].0 == self.list[j].0 {
                    assert(!keys_distinct(pages));
                    return false;
                }
                j = j + 1;
            }
            i = i + 1;
        }
        if self.current_app_state.as_str().is_empty() {
            return true;
        }
        find_page(&self.list, &self.current_app_state).is_some()
    }

    /// Adds an empty page titled `title` at the end. A title that is empty
    /// or already taken is refused, and nothing changes.
    pub fn new_page(&mut self, title: &str) -> (r: Result<(), EditError>)
        requires
            old(self)@.wf(),
        ensures
            final(self)@.wf(),
            r is Err <==> (title@.len() == 0 || has_key(old(self)@.pages, title@)),
            r is Err ==> r == Err::<(), EditError>(EditError::DuplicateOrEmptyTitle)
                && final(self)@ == old(self)@,
            r is Ok ==> final(self)@.pages == old(self)@.pages.push((title@, Seq::empty()))
                && final(self)@.current == old(self)@.current,
    {
        let t = title.to_owned();
        if title.is_empty() {
            return Err(EditError::DuplicateOrEmptyTitle);
        }
        match find_page(&self.list, &t) {
            Some(_) => Err(EditError::DuplicateOrEmptyTitle),
            None => {
                let ghost before = pages_of(self.list@);
                self.list.push((t, String::new()));
                assert(pages_of(self.list@) =~= before.push((title@, Seq::empty())));
                proof {
                    let ps = pages_of(self.list@);
                    assert forall|i: int, j: int|
                        0 <= i < ps.len() && 0 <= j < ps.len() && i != j implies #[trigger] ps[i].0
                        != #[trigger] ps[j].0 by {
                        if i == before.len() {
                            assert(before[j].0 == ps[j].0);
                        } else if j == before.len() {
                            assert(before[i].0 == ps[i].0);
                        }
                    }
                    if has_key(before, self.current_app_state@) {
                        let i = choose|i: int|
                            0 <= i < before.len() && #[trigger] before[i].0
                                == self.current_app_state@;
                        assert(ps[i].0 == before[i].0);
                    }
                }
                Ok(())
            },
        }
    }

    /// Removes the page titled `title`; no page is current any more where
    /// it was the current one.
    pub fn delete_page(&mut self, title: &str)
        requires
            old(self)@.wf(),
        ensures
            final(self)@.wf(),
            final(self)@.pages == remove_key(old(self)@.pages, title@),
            final(self)@.current == if old(self)@.current == title@ {
                Seq::<char>::empty()
            } else {
                old(self)@.current
            },
    {
        let t = title.to_owned();
        proof {
            lemma_remove_key(self@.pages, title@);
        }
        match find_page(&self.list, &t) {
            Some(p) => {
                let ghost before = pages_of(self.list@);
                self.list.remove(p);
                assert(pages_of(self.list@) =~= before.remove(p as int));
            },
            None => {},
        }
        if self.current_app_state == t {
            self.current_app_state = String::new();
        }
    }
}

/// The notes of `notes` whose positions `del` does not list, in order.
pub open spec fn without_indices(notes: Seq<NoteView>, del: Seq<usize>) -> Seq<NoteView>
    decreases notes.len(),
{
    if notes.len() == 0 {
        Seq::empty()
    } else {
        let rest = without_indices(notes.drop_last(), del);
        if del.contains((notes.len() - 1) as usize) {
            rest
        } else {
            rest.push(notes.last())
        }
    }
}

/// The index after the page being edited is written into it: the current
/// page's stored text becomes that of `page`. Nothing changes where no page
/// is current.
pub open spec fn commit(l: LibraryView, page: Seq<NoteView>) -> LibraryView {
    if l.current.len() == 0 {
        l
    } else {
        LibraryView { pages: upsert(l.pages, l.current, page_json(page)), current: l.current }
    }
}

/// The notes of the current page, as its stored text gives them: none
/// where no page is current.
pub open spec fn materialized(l: LibraryView) -> Seq<NoteView> {
    if l.current.len() == 0 {
        Seq::empty()
    } else {
        page_or_empty(lookup(l.pages, l.current))
    }
}

/// A note added to an empty page is taken out again by deleting position 0:
/// the page is empty as before.
pub proof fn lemma_add_then_delete_first(notes: Seq<NoteView>, text: Seq<char>)
    requires
        notes.len() == 0,
    ensures
        without_indices(notes.push(NoteView { text, checked: false }), seq![0usize]) == notes,
{
    let added = notes.push(NoteView { text, checked: false });
    assert(added.drop_last() =~= notes);
    assert(seq![0usize].contains((added.len() - 1) as usize)) by {
        assert(seq![0usize][0] == 0usize);
    }
    assert(without_indices(notes, seq![0usize]) =~= notes);
}

/// The application: the page being edited, the index of pages, the panels
/// shown and the theme.
pub struct TodoApp {
    pub state: AppState,
    pub state_list: StateList,
    pub panel_manager: PanelManager,
    pub dark_mode: Theme,
}

impl Default for TodoApp {
    fn default() -> (r: TodoApp)
        ensures
            r.wf(),
            r.state@ == Seq::<NoteView>::empty(),
            r.state_list@.pages == Seq::<(Seq<char>, Seq<char>)>::empty(),
            r.state_list@.current == Seq::<char>::empty(),
            r.panel_manager == hidden_panels(),
            r.dark_mode.is_dark_mode,
    {
        TodoApp {
            state: AppState::default(),
            state_list: StateList::default(),
            panel_manager: PanelManager::default(),
            dark_mode: Theme::default(),
        }
    }
}

impl TodoApp {
    pub open spec fn wf(&self) -> bool {
        self.state_list@.wf()
    }

    /// The application as it starts from a loaded index of pages and theme:
    /// the current page, if any, is read from its stored text.
    pub fn start(state_list: StateList, dark_mode: Theme) -> (r: TodoApp)
        requires
            state_list@.wf(),
        ensures
            r.wf(),
            r.state_list == state_list,
            r.dark_mode == dark_mode,
            r.state@ == materialized(state_list@),
            r.panel_manager == hidden_panels(),
    {
        let mut app = TodoApp {
            state: AppState::default(),
            state_list,
            panel_manager: PanelManager::default(),
            dark_mode,
        };
        app.show_updated_state();
        app
    }

    /// Writes the page being edited into the index, under the current title.
    pub fn update_state(&mut self)
        requires
            old(self).wf(),
        ensures
            final(self).wf(),
            final(self).state == old(self).state,
            final(self).panel_manager == old(self).panel_manager,
            final(self).dark_mode == old(self).dark_mode,
            final(self).state_list@ == commit(old(self).state_list@, old(self).state@),
    {
        if !self.state_list.current_app_state.as_str().is_empty() {
            let text = state_to_json_string(&self.state);
            let cur = self.state_list.current_app_state.clone();
            proof {
                lemma_upsert(self.state_list@.pages, cur@, text@);
            }
            upsert_page(&mut self.state_list.list, cur, text);
        }
    }

    pub fn no_page_selected(&self) -> (r: bool)
        ensures
            r == (self.state_list@.current.len() == 0),
    {
        self.state_list.current_app_state.as_str().is_empty()
    }

    pub fn is_current_page(&self, title: &str) -> (r: bool)
        ensures
            r == (title@ == self.state_list@.current),
    {
        title.to_owned() == self.state_list.current_app_state
    }

    /// Reads the page being edited from the current page's stored text.
    pub fn show_updated_state(&mut self)
        requires
            old(self).wf(),
        ensures
            final(self).wf(),
            final(self).state@ == materialized(old(self).state_list@),
            final(self).state_list == old(self).state_list,
            final(self).panel_manager == old(self).panel_manager,
            final(self).dark_mode == old(self).dark_mode,
    {
        if self.state_list.current_app_state.as_str().is_empty() {
            self.state = AppState::default();
            return;
        }
        proof {
            lemma_key_pos(self.state_list@.pages, self.state_list@.current);
        }
        match find_page(&self.state_list.list, &self.state_list.current_app_state) {
            Some(p) => {
                self.state = state_or_default(Some(&self.state_list.list[p].1));
            },
            None => {
                self.state = state_or_default(None);
            },
        }
    }

    /// Removes from the page being edited the notes at the positions that
    /// `arr` lists; positions refer to the page as it was before the call.
    pub fn delete_content(&mut self, arr: &mut Vec<usize>)
        requires
            old(self).wf(),
        ensures
            final(self).wf(),
            final(self).state@ == without_indices(old(self).state@, old(arr)@),
            *final(arr) == *old(arr),
            final(self).state_list == old(self).state_list,
            final(self).panel_manager == old(self).panel_manager,
            final(self).dark_mode == old(self).dark_mode,
    {
        let ghost notes = self.state@;
        let mut kept: Vec<Content> = Vec::new();
        let mut i: usize = 0;
        while i < self.state.list.len()
            invariant
                i <= self.state.list.len(),
                notes == self.state@,
                notes_of(kept@) == without_indices(notes.take(i as int), arr@),
            decreases self.state.list.len() - i,
        {
            assert(notes.take(i + 1).drop_last() =~= notes.take(i as int));
            if !contains_index(arr, i) {
                let c = &self.state.list[i];
                let copy = Content { text: c.text.clone(), is_checked: c.is_checked };
                let ghost before = notes_of(kept@);
                kept.push(copy);
                assert(notes_of(kept@) =~= before.push(notes[i as int]));
            }
            i = i + 1;
        }
        assert(notes.take(i as int) =~= notes);
        self.state = AppState { list: kept };
    }

    /// Removes the notes at the positions that `indices` lists, then writes
    /// the page into the index.
    pub fn delete_notes(&mut self, indices: &mut Vec<usize>)
        requires
            old(self).wf(),
        ensures
            final(self).wf(),
            final(self).state@ == without_indices(old(self).state@, old(indices)@),
            final(self).state_list@ == commit(old(self).state_list@, final(self).state@),
            *final(indices) == *old(indices),
            final(self).panel_manager == old(self).panel_manager,
            final(self).dark_mode == old(self).dark_mode,
    {
        self.delete_content(indices);
        self.update_state();
    }

    /// Adds an unchecked note holding `text` at the end of the page being
    /// edited, then writes the page into the index. Empty text is refused,
    /// and nothing changes.
    pub fn add_note(&mut self, text: &str) -> (r: Result<(), EditError>)
        requires
            old(self).wf(),
        ensures
            final(self).wf(),
            r is Err <==> text@.len() == 0,
            r is Err ==> r == Err::<(), EditError>(EditError::EmptyContent) && *final(self) == *old(
                self,
            ),
            r is Ok ==> final(self).state@ == old(self).state@.push(
                NoteView { text: text@, checked: false },
            ),
            r is Ok ==> final(self).state_list@ == commit(old(self).state_list@, final(self).state@),
            final(self).panel_manager == old(self).panel_manager,
            final(self).dark_mode == old(self).dark_mode,
    {
        if text.is_empty() {
            return Err(EditError::EmptyContent);
        }
        let ghost before = self.state@;
        self.state.list.push(Content { text: text.to_owned(), is_checked: false });
        assert(self.state@ =~= before.push(NoteView { text: text@, checked: false }));
        self.update_state();
        Ok(())
    }

    /// Flips the check mark of the note at `index` of the page being edited,
    /// then writes the page into the index. A position past the last note
    /// changes no note.
    pub fn toggle_note(&mut self, index: usize)
        requires
            old(self).wf(),
        ensures
            final(self).wf(),
            index < old(self).state@.len() ==> final(self).state@ == old(self).state@.update(
                index as int,
                NoteView {
                    text: old(self).state@[index as int].text,
                    checked: !old(self).state@[index as int].checked,
                },
            ),
            index >= old(self).state@.len() ==> final(self).state@ == old(self).state@,
            final(self).state_list@ == commit(old(self).state_list@, final(self).state@),
            final(self).panel_manager == old(self).panel_manager,
            final(self).dark_mode == old(self).dark_mode,
    {
        if index < self.state.list.len() {
            let ghost before = self.state@;
            let c = &self.state.list[index];
            let flipped = Content { text: c.text.clone(), is_checked: !c.is_checked };
            self.state.list.set(index, flipped);
            assert(self.state@ =~= before.update(
                index as int,
                NoteView { text: before[index as int].text, checked: !before[index as int].checked },
            ));
        }
        self.update_state();
    }

    /// Makes the page titled `title` the current one and reads it; where no
    /// page has that title, no page is current and the page being edited is
    /// empty.
    pub fn select_page(&mut self, title: &str)
        requires
            old(self).wf(),
        ensures
            final(self).wf(),
            final(self).state_list@.pages == old(self).state_list@.pages,
            final(self).state_list@.current == if has_key(old(self).state_list@.pages, title@) {
                title@
            } else {
                Seq::<char>::empty()
            },
            final(self).state@ == materialized(final(self).state_list@),
            !has_key(old(self).state_list@.pages, title@) ==> final(self).state@ == Seq::<
                NoteView,
            >::empty(),
            final(self).panel_manager == old(self).panel_manager,
            final(self).dark_mode == old(self).dark_mode,
    {
        let t = title.to_owned();
        match find_page(&self.state_list.list, &t) {
            Some(_) => {
                self.state_list.current_app_state = t;
            },
            None => {
                self.state_list.current_app_state = String::new();
            },
        }
        self.show_updated_state();
    }

    /// Removes every page and every note; no page is current.
    pub fn delete_data(&mut self)
        ensures
            final(self).wf(),
            final(self).state@ == Seq::<NoteView>::empty(),
            final(self).state_list@.pages == Seq::<(Seq<char>, Seq<char>)>::empty(),
            final(self).state_list@.current == Seq::<char>::empty(),
            final(self).panel_manager == old(self).panel_manager,
            final(self).dark_mode == old(self).dark_mode,
    {
        self.state = AppState::default();
        self.state_list = StateList::default();
    }

    /// Removes the current page and empties the page being edited; no page
    /// is current.
    pub fn delete_page(&mut self)
        requires
            old(self).wf(),
        ensures
            final(self).wf(),
            final(self).state@ == Seq::<NoteView>::empty(),
            final(self).state_list@.pages == remove_key(
                old(self).state_list@.pages,
                old(self).state_list@.current,
            ),
            final(self).state_list@.current == Seq::<char>::empty(),
            final(self).panel_manager == old(self).panel_manager,
            final(self).dark_mode == old(self).dark_mode,
    {
        self.state = AppState::default();
        let cur = self.state_list.current_app_state.clone();
        self.state_list.delete_page(cur.as_str());
        self.state_list.current_app_state = String::new();
    }

    /// Switches between the dark and the light theme.
    pub fn toggle_theme(&mut self)
        ensures
            final(self).dark_mode.is_dark_mode == !old(self).dark_mode.is_dark_mode,
            final(self).state == old(self).state,
            final(self).state_list == old(self).state_list,
            final(self).panel_manager == old(self).panel_manager,
    {
        self.dark_mode.is_dark_mode = !self.dark_mode.is_dark_mode;
    }
}

/// Whether `arr` lists the position `k`.
fn contains_index(arr: &Vec<usize>, k: usize) -> (r: bool)
    ensures
        r == arr@.contains(k),
{
    let mut j: usize = 0;
    while j < arr.len()
        invariant
            j <= arr.len(),
            forall|m: int| 0 <= m < j ==> arr@[m] != k,
        decreases arr.len() - j,
    {
        if arr[j] == k {
            return true;
        }
        j = j + 1;
    }
    false
}

} // verus!
