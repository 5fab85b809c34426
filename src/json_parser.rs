//! The stored forms of a page, of the index of pages and of the theme, as
//! pretty-printed JSON text:
//!
//! - a page: `{"list": [{"text": "...", "is_checked": false}, ...]}`;
//! - the index: `{"list": {"<title>": "<page text>", ...}, "current_app_state": "<title>"}`;
//! - the theme: `{"is_dark_mode": true}`.
//!
//! Each reader is the spec function `parse_*`, which accepts any white space
//! between tokens; each writer is the spec function `*_json`, which lays the
//! text out with an indent of two spaces per level.
use vstd::prelude::*;
use crate::json_syntax::{
    bool_word, chars_of, index_result, parse_bool, parse_punct, parse_string, push_char, quoted,
    read_bool, read_punct, read_string, skip_ws, write_quoted, ws_end,
};
use crate::todo_func::{
    find_page, has_key, keys_distinct, notes_of, pages_of, upsert, upsert_page, AppState, Content,
    LibraryView, NoteView, StateList, Theme,
};

verus! {

/// Why stored text could not be read.
#[derive(PartialEq, Eq, Structural, Clone, Copy, Debug)]
pub enum PersistError {
    /// The text is not in the stored form of the value asked for.
    InvalidPersistedData,
}

pub open spec fn key_list() -> Seq<char> {
    "list"@
}

pub open spec fn key_text() -> Seq<char> {
    "text"@
}

pub open spec fn key_is_checked() -> Seq<char> {
    "is_checked"@
}

pub open spec fn key_current() -> Seq<char> {
    "current_app_state"@
}

pub open spec fn key_dark() -> Seq<char> {
    "is_dark_mode"@
}

/// The string literal `k` followed by a colon; the position after the colon.
pub open spec fn parse_key(s: Seq<char>, i: int, k: Seq<char>) -> Option<int> {
    match parse_string(s, i) {
        Some((t, j)) => if t == k {
            parse_punct(s, j, ':')
        } else {
            None
        },
        None => None,
    }
}

pub open spec fn parse_note(s: Seq<char>, i: int) -> Option<(NoteView, int)> {
    match parse_punct(s, i, '{') {
        None => None,
        Some(a) => match parse_key(s, a, key_text()) {
            None => None,
            Some(b) => match parse_string(s, b) {
                None => None,
                Some((t, c)) => match parse_punct(s, c, ',') {
                    None => None,
                    Some(d) => match parse_key(s, d, key_is_checked()) {
                        None => None,
                        Some(e) => match parse_bool(s, e) {
                            None => None,
                            Some((flag, f)) => match parse_punct(s, f, '}') {
                                None => None,
                                Some(g) => Some((NoteView { text: t, checked: flag }, g)),
                            },
                        },
                    },
                },
            },
        },
    }
}

/// The notes that follow one already read, added to `acc`, up to and
/// including the closing bracket.
pub open spec fn notes_tail(s: Seq<char>, i: int, acc: Seq<NoteView>) -> Option<
    (Seq<NoteView>, int),
>
    decreases s.len() - i,
{
    let j = ws_end(s, i);
    if !(0 <= i <= j < s.len()) {
        None
    } else if s[j] == ']' {
        Some((acc, j + 1))
    } else if s[j] == ',' {
        match parse_note(s, j + 1) {
            Some((n, k)) => if i < k <= s.len() {
                notes_tail(s, k, acc.push(n))
            } else {
                None
            },
            None => None,
        }
    } else {
        None
    }
}

pub open spec fn parse_note_list(s: Seq<char>, i: int) -> Option<(Seq<NoteView>, int)> {
    match parse_punct(s, i, '[') {
        None => None,
        Some(a) => {
            let j = ws_end(s, a);
            if 0 <= j < s.len() && s[j] == ']' {
                Some((Seq::empty(), j + 1))
            } else {
                match parse_note(s, a) {
                    Some((n, k)) => notes_tail(s, k, seq![n]),
                    None => None,
                }
            }
        },
    }
}

/// The notes of the page stored as `s`.
pub open spec fn parse_page(s: Seq<char>) -> Option<Seq<NoteView>> {
    match parse_punct(s, 0, '{') {
        None => None,
        Some(a) => match parse_key(s, a, key_list()) {
            None => None,
            Some(b) => match parse_note_list(s, b) {
                None => None,
                Some((ns, c)) => match parse_punct(s, c, '}') {
                    None => None,
                    Some(d) => if ws_end(s, d) == s.len() {
                        Some(ns)
                    } else {
                        None
                    },
                },
            },
        },
    }
}

pub open spec fn parse_entry(s: Seq<char>, i: int) -> Option<((Seq<char>, Seq<char>), int)> {
    match parse_string(s, i) {
        None => None,
        Some((k, a)) => match parse_punct(s, a, ':') {
            None => None,
            Some(b) => match parse_string(s, b) {
                None => None,
                Some((v, c)) => Some(((k, v), c)),
            },
        },
    }
}

/// The entries that follow one already read, bound in `acc` (a later entry
/// of a title replaces an earlier one), up to and including the closing brace.
pub open spec fn entries_tail(s: Seq<char>, i: int, acc: Seq<(Seq<char>, Seq<char>)>) -> Option<
    (Seq<(Seq<char>, Seq<char>)>, int),
>
    decreases s.len() - i,
{
    let j = ws_end(s, i);
    if !(0 <= i <= j < s.len()) {
        None
    } else if s[j] == '}' {
        Some((acc, j + 1))
    } else if s[j] == ',' {
        match parse_entry(s, j + 1) {
            Some((e, k)) => if i < k <= s.len() {
                entries_tail(s, k, upsert(acc, e.0, e.1))
            } else {
                None
            },
            None => None,
        }
    } else {
        None
    }
}

pub open spec fn parse_entries(s: Seq<char>, i: int) -> Option<(Seq<(Seq<char>, Seq<char>)>, int)> {
    match parse_punct(s, i, '{') {
        None => None,
        Some(a) => {
            let j = ws_end(s, a);
            if 0 <= j < s.len() && s[j] == '}' {
                Some((Seq::empty(), j + 1))
            } else {
                match parse_entry(s, a) {
                    Some((e, k)) => entries_tail(s, k, seq![e]),
                    None => None,
                }
            }
        },
    }
}

/// The current title as kept: cleared where no page has it.
pub open spec fn kept_current(pages: Seq<(Seq<char>, Seq<char>)>, cur: Seq<char>) -> Seq<char> {
    if has_key(pages, cur) {
        cur
    } else {
        Seq::empty()
    }
}

/// The index of pages stored as `s`.
pub open spec fn parse_library(s: Seq<char>) -> Option<LibraryView> {
    match parse_punct(s, 0, '{') {
        None => None,
        Some(a) => match parse_key(s, a, key_list()) {
            None => None,
            Some(b) => match parse_entries(s, b) {
                None => None,
                Some((es, c)) => match parse_punct(s, c, ',') {
                    None => None,
                    Some(d) => match parse_key(s, d, key_current()) {
                        None => None,
                        Some(e) => match parse_string(s, e) {
                            None => None,
                            Some((cur, f)) => match parse_punct(s, f, '}') {
                                None => None,
                                Some(g) => if ws_end(s, g) == s.len() {
                                    Some(LibraryView { pages: es, current: kept_current(es, cur) })
                                } else {
                                    None
                                },
                            },
                        },
                    },
                },
            },
        },
    }
}

/// Whether the theme stored as `s` is the dark one.
pub open spec fn parse_theme(s: Seq<char>) -> Option<bool> {
    match parse_punct(s, 0, '{') {
        None => None,
        Some(a) => match parse_key(s, a, key_dark()) {
            None => None,
            Some(b) => match parse_bool(s, b) {
                None => None,
                Some((d, c)) => match parse_punct(s, c, '}') {
                    None => None,
                    Some(e) => if ws_end(s, e) == s.len() {
                        Some(d)
                    } else {
                        None
                    },
                },
            },
        },
    }
}

/// A line break followed by `n` spaces.
pub open spec fn nl(n: nat) -> Seq<char> {
    seq!['\n'] + Seq::new(n, |_i: int| ' ')
}

/// The comma before every item but the first.
pub open spec fn sep(count: int) -> Seq<char> {
    if count <= 1 {
        Seq::empty()
    } else {
        seq![',']
    }
}

pub open spec fn note_json(n: NoteView) -> Seq<char> {
    nl(4) + seq!['{'] + nl(6) + quoted(key_text()) + seq![':', ' '] + quoted(n.text) + seq![',']
        + nl(6) + quoted(key_is_checked()) + seq![':', ' '] + bool_word(n.checked) + nl(4) + seq![
        '}',
    ]
}

pub open spec fn notes_json(p: Seq<NoteView>) -> Seq<char>
    decreases p.len(),
{
    if p.len() == 0 {
        Seq::empty()
    } else {
        notes_json(p.drop_last()) + sep(p.len() as int) + note_json(p.last())
    }
}

pub open spec fn note_list_json(p: Seq<NoteView>) -> Seq<char> {
    if p.len() == 0 {
        seq!['[', ']']
    } else {
        seq!['['] + notes_json(p) + nl(2) + seq![']']
    }
}

/// The stored text of a page with the notes `p`.
pub open spec fn page_json(p: Seq<NoteView>) -> Seq<char> {
    seq!['{'] + nl(2) + quoted(key_list()) + seq![':', ' '] + note_list_json(p) + nl(0) + seq![
        '}',
    ]
}

pub open spec fn entry_json(e: (Seq<char>, Seq<char>)) -> Seq<char> {
    nl(4) + quoted(e.0) + seq![':', ' '] + quoted(e.1)
}

pub open spec fn entry_lines(es: Seq<(Seq<char>, Seq<char>)>) -> Seq<char>
    decreases es.len(),
{
    if es.len() == 0 {
        Seq::empty()
    } else {
        entry_lines(es.drop_last()) + sep(es.len() as int) + entry_json(es.last())
    }
}

pub open spec fn entries_json(es: Seq<(Seq<char>, Seq<char>)>) -> Seq<char> {
    if es.len() == 0 {
        seq!['{', '}']
    } else {
        seq!['{'] + entry_lines(es) + nl(2) + seq!['}']
    }
}

/// The stored text of the index of pages `l`.
pub open spec fn library_json(l: LibraryView) -> Seq<char> {
    seq!['{'] + nl(2) + quoted(key_list()) + seq![':', ' '] + entries_json(l.pages) + seq![',']
        + nl(2) + quoted(key_current()) + seq![':', ' '] + quoted(l.current) + nl(0) + seq!['}']
}

/// The stored text of a theme.
pub open spec fn theme_json(dark: bool) -> Seq<char> {
    seq!['{'] + nl(2) + quoted(key_dark()) + seq![':', ' '] + bool_word(dark) + nl(0) + seq!['}']
}

pub open spec fn note_result(r: Option<(Content, usize)>) -> Option<(NoteView, int)> {
    match r {
        Some((c, k)) => Some((c@, k as int)),
        None => None,
    }
}

pub open spec fn notes_result(r: Option<(Vec<Content>, usize)>) -> Option<(Seq<NoteView>, int)> {
    match r {
        Some((v, k)) => Some((notes_of(v@), k as int)),
        None => None,
    }
}

pub open spec fn entry_result(r: Option<((String, String), usize)>) -> Option<
    ((Seq<char>, Seq<char>), int),
> {
    match r {
        Some((e, k)) => Some(((e.0@, e.1@), k as int)),
        None => None,
    }
}

pub open spec fn entries_result(r: Option<(Vec<(String, String)>, usize)>) -> Option<
    (Seq<(Seq<char>, Seq<char>)>, int),
> {
    match r {
        Some((v, k)) => Some((pages_of(v@), k as int)),
        None => None,
    }
}

fn read_key(s: &Vec<char>, i: usize, key: &str) -> (r: Option<usize>)
    requires
        i <= s.len(),
    ensures
        index_result(r) == parse_key(s@, i as int, key@),
        r matches Some(k) ==> k <= s.len(),
{
    match read_string(s, i) {
        Some((t, j)) => {
            let want = key.to_owned();
            if t == want {
                read_punct(s, j, ':')
            } else {
                None
            }
        },
        None => None,
    }
}

fn read_note(s: &Vec<char>, i: usize) -> (r: Option<(Content, usize)>)
    requires
        i <= s.len(),
    ensures
        note_result(r) == parse_note(s@, i as int),
        r matches Some((_, k)) ==> k <= s.len(),
{
    let a = match read_punct(s, i, '{') {
        Some(a) => a,
        None => return None,
    };
    let b = match read_key(s, a, "text") {
        Some(b) => b,
        None => return None,
    };
    let (text, c) = match read_string(s, b) {
        Some(x) => x,
        None => return None,
    };
    let d = match read_punct(s, c, ',') {
        Some(d) => d,
        None => return None,
    };
    let e = match read_key(s, d, "is_checked") {
        Some(e) => e,
        None => return None,
    };
    let (flag, f) = match read_bool(s, e) {
        Some(x) => x,
        None => return None,
    };
    match read_punct(s, f, '}') {
        Some(g) => Some((Content { text, is_checked: flag }, g)),
        None => None,
    }
}

fn read_note_list(s: &Vec<char>, i: usize) -> (r: Option<(Vec<Content>, usize)>)
    requires
        i <= s.len(),
    ensures
        notes_result(r) == parse_note_list(s@, i as int),
        r matches Some((_, k)) ==> k <= s.len(),
{
    let a = match read_punct(s, i, '[') {
        Some(a) => a,
        None => return None,
    };
    let j = skip_ws(s, a);
    if j < s.len() && s[j] == ']' {
        let empty: Vec<Content> = Vec::new();
        assert(notes_of(empty@) =~= Seq::<NoteView>::empty());
        return Some((empty, j + 1));
    }
    let (first, k0) = match read_note(s, a) {
        Some(x) => x,
        None => return None,
    };
    let ghost first_view = first@;
    let mut out: Vec<Content> = Vec::new();
    out.push(first);
    assert(notes_of(out@) =~= seq![first_view]);
    let mut k = k0;
    loop
        invariant
            k <= s.len(),
            parse_note_list(s@, i as int) == notes_tail(s@, k0 as int, seq![first_view]),
            notes_tail(s@, k0 as int, seq![first_view]) == notes_tail(s@, k as int, notes_of(out@)),
        decreases s.len() - k,
    {
        let j = skip_ws(s, k);
        if j >= s.len() {
            return None;
        }
        if s[j] == ']' {
            return Some((out, j + 1));
        }
        if s[j] != ',' {
            return None;
        }
        match read_note(s, j + 1) {
            Some((n, k2)) => {
                if k2 <= k {
                    return None;
                }
                let ghost before = notes_of(out@);
                let ghost nv = n@;
                out.push(n);
                assert(notes_of(out@) =~= before.push(nv));
                k = k2;
            },
            None => {
                return None;
            },
        }
    }
}

fn read_page(s: &Vec<char>) -> (r: Option<Vec<Content>>)
    ensures
        r matches Some(v) ==> parse_page(s@) == Some(notes_of(v@)),
        r is None <==> parse_page(s@) is None,
{
    let a = match read_punct(s, 0, '{') {
        Some(a) => a,
        None => return None,
    };
    let b = match read_key(s, a, "list") {
        Some(b) => b,
        None => return None,
    };
    let (notes, c) = match read_note_list(s, b) {
        Some(x) => x,
        None => return None,
    };
    match read_punct(s, c, '}') {
        Some(d) => if skip_ws(s, d) == s.len() {
            Some(notes)
        } else {
            None
        },
        None => None,
    }
}

fn read_entry(s: &Vec<char>, i: usize) -> (r: Option<((String, String), usize)>)
    requires
        i <= s.len(),
    ensures
        entry_result(r) == parse_entry(s@, i as int),
        r matches Some((_, k)) ==> k <= s.len(),
{
    let (k, a) = match read_string(s, i) {
        Some(x) => x,
        None => return None,
    };
    let b = match read_punct(s, a, ':') {
        Some(b) => b,
        None => return None,
    };
    match read_string(s, b) {
        Some((v, c)) => Some(((k, v), c)),
        None => None,
    }
}

fn read_entries(s: &Vec<char>, i: usize) -> (r: Option<(Vec<(String, String)>, usize)>)
    requires
        i <= s.len(),
    ensures
        entries_result(r) == parse_entries(s@, i as int),
        r matches Some((v, k)) ==> k <= s.len() && keys_distinct(pages_of(v@)),
{
    let a = match read_punct(s, i, '{') {
        Some(a) => a,
        None => return None,
    };
    let j = skip_ws(s, a);
    if j < s.len() && s[j] == '}' {
        let empty: Vec<(String, String)> = Vec::new();
        assert(pages_of(empty@) =~= Seq::<(Seq<char>, Seq<char>)>::empty());
        return Some((empty, j + 1));
    }
    let (first, k0) = match read_entry(s, a) {
        Some(x) => x,
        None => return None,
    };
    let ghost first_view = (first.0@, first.1@);
    let mut out: Vec<(String, String)> = Vec::new();
    out.push(first);
    assert(pages_of(out@) =~= seq![first_view]);
    let mut k = k0;
    loop
        invariant
            k <= s.len(),
            keys_distinct(pages_of(out@)),
            parse_entries(s@, i as int) == entries_tail(s@, k0 as int, seq![first_view]),
            entries_tail(s@, k0 as int, seq![first_view]) == entries_tail(
                s@,
                k as int,
                pages_of(out@),
            ),
        decreases s.len() - k,
    {
        let j = skip_ws(s, k);
        if j >= s.len() {
            return None;
        }
        if s[j] == '}' {
            return Some((out, j + 1));
        }
        if s[j] != ',' {
            return None;
        }
        match read_entry(s, j + 1) {
            Some((e, k2)) => {
                if k2 <= k {
                    return None;
                }
                let (key, value) = e;
                upsert_page(&mut out, key, value);
                k = k2;
            },
            None => {
                return None;
            },
        }
    }
}

fn read_library(s: &Vec<char>) -> (r: Option<StateList>)
    ensures
        r matches Some(l) ==> parse_library(s@) == Some(l@) && keys_distinct(l@.pages),
        r is None <==> parse_library(s@) is None,
{
    let a = match read_punct(s, 0, '{') {
        Some(a) => a,
        None => return None,
    };
    let b = match read_key(s, a, "list") {
        Some(b) => b,
        None => return None,
    };
    let (list, c) = match read_entries(s, b) {
        Some(x) => x,
        None => return None,
    };
    let d = match read_punct(s, c, ',') {
        Some(d) => d,
        None => return None,
    };
    let e = match read_key(s, d, "current_app_state") {
        Some(e) => e,
        None => return None,
    };
    let (cur, f) = match read_string(s, e) {
        Some(x) => x,
        None => return None,
    };
    match read_punct(s, f, '}') {
        Some(g) => if skip_ws(s, g) == s.len() {
            let current_app_state = match find_page(&list, &cur) {
                Some(_) => cur,
                None => String::new(),
            };
            Some(StateList { list, current_app_state })
        } else {
            None
        },
        None => None,
    }
}

fn read_theme_text(s: &Vec<char>) -> (r: Option<bool>)
    ensures
        r == parse_theme(s@),
{
    let a = match read_punct(s, 0, '{') {
        Some(a) => a,
        None => return None,
    };
    let b = match read_key(s, a, "is_dark_mode") {
        Some(b) => b,
        None => return None,
    };
    let (dark, c) = match read_bool(s, b) {
        Some(x) => x,
        None => return None,
    };
    match read_punct(s, c, '}') {
        Some(e) => if skip_ws(s, e) == s.len() {
            Some(dark)
        } else {
            None
        },
        None => None,
    }
}

/// The notes of a stored page: none where nothing is stored or the text is
/// not a stored page.
pub open spec fn page_or_empty(text: Option<Seq<char>>) -> Seq<NoteView> {
    match text {
        Some(t) => match parse_page(t) {
            Some(p) => p,
            None => Seq::empty(),
        },
        None => Seq::empty(),
    }
}

pub open spec fn empty_library() -> LibraryView {
    LibraryView { pages: Seq::empty(), current: Seq::empty() }
}

/// The stored index of pages: an empty one where nothing is stored or the
/// text is not a stored index.
pub open spec fn library_or_empty(text: Option<Seq<char>>) -> LibraryView {
    match text {
        Some(t) => match parse_library(t) {
            Some(l) => l,
            None => empty_library(),
        },
        None => empty_library(),
    }
}

pub open spec fn opt_view(json: Option<&String>) -> Option<Seq<char>> {
    match json {
        Some(t) => Some(t@),
        None => None,
    }
}

fn write_nl(out: &mut String, n: usize)
    ensures
        final(out)@ == old(out)@ + nl(n as nat),
{
    push_char(out, '\n');
    let mut k: usize = 0;
    while k < n
        invariant
            k <= n,
            out@ == old(out)@ + seq!['\n'] + Seq::new(k as nat, |_i: int| ' '),
        decreases n - k,
    {
        push_char(out, ' ');
        k = k + 1;
        assert(out@ =~= old(out)@ + seq!['\n'] + Seq::new(k as nat, |_i: int| ' '));
    }
}

fn write_bool(out: &mut String, b: bool)
    ensures
        final(out)@ == old(out)@ + bool_word(b),
{
    if b {
        push_char(out, 't');
        push_char(out, 'r');
        push_char(out, 'u');
        push_char(out, 'e');
    } else {
        push_char(out, 'f');
        push_char(out, 'a');
        push_char(out, 'l');
        push_char(out, 's');
        push_char(out, 'e');
    }
    assert(out@ =~= old(out)@ + bool_word(b));
}

fn write_note(out: &mut String, c: &Content)
    ensures
        final(out)@ == old(out)@ + note_json(c@),
{
    write_nl(out, 4);
    push_char(out, '{');
    write_nl(out, 6);
    write_quoted(out, "text");
    push_char(out, ':');
    push_char(out, ' ');
    write_quoted(out, c.text.as_str());
    push_char(out, ',');
    write_nl(out, 6);
    write_quoted(out, "is_checked");
    push_char(out, ':');
    push_char(out, ' ');
    write_bool(out, c.is_checked);
    write_nl(out, 4);
    push_char(out, '}');
    assert(out@ =~= old(out)@ + note_json(c@));
}

fn write_entry(out: &mut String, e: &(String, String))
    ensures
        final(out)@ == old(out)@ + entry_json((e.0@, e.1@)),
{
    write_nl(out, 4);
    write_quoted(out, e.0.as_str());
    push_char(out, ':');
    push_char(out, ' ');
    write_quoted(out, e.1.as_str());
    assert(out@ =~= old(out)@ + entry_json((e.0@, e.1@)));
}

/// The stored text of a page.
pub fn state_to_json_string(state: &AppState) -> (r: String)
    ensures
        r@ == page_json(state@),
{
    let ghost p = state@;
    let mut out = String::new();
    push_char(&mut out, '{');
    write_nl(&mut out, 2);
    write_quoted(&mut out, "list");
    push_char(&mut out, ':');
    push_char(&mut out, ' ');
    let ghost list_start = out@;
    push_char(&mut out, '[');
    let ghost head = out@;
    if state.list.len() == 0 {
        push_char(&mut out, ']');
    } else {
        let mut i: usize = 0;
        while i < state.list.len()
            invariant
                i <= state.list.len(),
                p == notes_of(state.list@),
                out@ == head + notes_json(p.take(i as int)),
            decreases state.list.len() - i,
        {
            assert(p.take(i + 1).drop_last() =~= p.take(i as int));
            if i > 0 {
                push_char(&mut out, ',');
            }
            write_note(&mut out, &state.list[i]);
            i = i + 1;
            assert(out@ =~= head + notes_json(p.take(i as int)));
        }
        assert(p.take(i as int) =~= p);
        write_nl(&mut out, 2);
        push_char(&mut out, ']');
    }
    assert(out@ =~= list_start + note_list_json(p));
    write_nl(&mut out, 0);
    push_char(&mut out, '}');
    assert(out@ =~= page_json(p));
    out
}

/// The stored text of the index of pages.
pub fn state_list_to_json_string(l: &StateList) -> (r: String)
    ensures
        r@ == library_json(l@),
{
    let ghost es = l@.pages;
    let mut out = String::new();
    push_char(&mut out, '{');
    write_nl(&mut out, 2);
    write_quoted(&mut out, "list");
    push_char(&mut out, ':');
    push_char(&mut out, ' ');
    let ghost head = out@;
    push_char(&mut out, '{');
    if l.list.len() == 0 {
        push_char(&mut out, '}');
    } else {
        let ghost opened = out@;
        let mut i: usize = 0;
        while i < l.list.len()
            invariant
                i <= l.list.len(),
                es == pages_of(l.list@),
                out@ == opened + entry_lines(es.take(i as int)),
            decreases l.list.len() - i,
        {
            assert(es.take(i + 1).drop_last() =~= es.take(i as int));
            if i > 0 {
                push_char(&mut out, ',');
            }
            write_entry(&mut out, &l.list[i]);
            i = i + 1;
            assert(out@ =~= opened + entry_lines(es.take(i as int)));
        }
        assert(es.take(i as int) =~= es);
        write_nl(&mut out, 2);
        push_char(&mut out, '}');
    }
    assert(out@ =~= head + entries_json(es));
    push_char(&mut out, ',');
    write_nl(&mut out, 2);
    write_quoted(&mut out, "current_app_state");
    push_char(&mut out, ':');
    push_char(&mut out, ' ');
    write_quoted(&mut out, l.current_app_state.as_str());
    write_nl(&mut out, 0);
    push_char(&mut out, '}');
    assert(out@ =~= library_json(l@));
    out
}

/// The stored text of a theme.
pub fn theme_to_json_string(theme: &Theme) -> (r: String)
    ensures
        r@ == theme_json(theme.is_dark_mode),
{
    let mut out = String::new();
    push_char(&mut out, '{');
    write_nl(&mut out, 2);
    write_quoted(&mut out, "is_dark_mode");
    push_char(&mut out, ':');
    push_char(&mut out, ' ');
    write_bool(&mut out, theme.is_dark_mode);
    write_nl(&mut out, 0);
    push_char(&mut out, '}');
    assert(out@ =~= theme_json(theme.is_dark_mode));
    out
}

/// The page stored as `json`; an empty page where nothing is stored.
pub fn json_string_to_state(json: Option<&String>) -> (r: Result<AppState, PersistError>)
    ensures
        json is None ==> (r matches Ok(st) && st@ == Seq::<NoteView>::empty()),
        json matches Some(t) ==> match parse_page(t@) {
            Some(p) => r matches Ok(st) && st@ == p,
            None => r == Err::<AppState, PersistError>(PersistError::InvalidPersistedData),
        },
{
    match json {
        None => Ok(AppState::default()),
        Some(text) => {
            let cs = chars_of(text.as_str());
            match read_page(&cs) {
                Some(list) => Ok(AppState { list }),
                None => Err(PersistError::InvalidPersistedData),
            }
        },
    }
}

/// The page stored as `json`, or an empty page where nothing is stored or
/// the text is not a stored page.
pub fn state_or_default(json: Option<&String>) -> (r: AppState)
    ensures
        r@ == page_or_empty(opt_view(json)),
{
    match json_string_to_state(json) {
        Ok(st) => st,
        Err(_) => AppState::default(),
    }
}

/// The index of pages stored as `json`; an empty index where nothing is
/// stored.
pub fn json_string_to_state_list(json: Option<&String>) -> (r: Result<StateList, PersistError>)
    ensures
        json is None ==> (r matches Ok(l) && l@ == empty_library()),
        json matches Some(t) ==> match parse_library(t@) {
            Some(v) => r matches Ok(l) && l@ == v,
            None => r == Err::<StateList, PersistError>(PersistError::InvalidPersistedData),
        },
        r matches Ok(l) ==> l@.wf(),
{
    match json {
        None => Ok(StateList::default()),
        Some(text) => {
            let cs = chars_of(text.as_str());
            match read_library(&cs) {
                Some(l) => Ok(l),
                None => Err(PersistError::InvalidPersistedData),
            }
        },
    }
}

/// The index of pages stored as `json`, or an empty index where nothing is
/// stored or the text is not a stored index.
pub fn state_list_or_default(json: Option<&String>) -> (r: StateList)
    ensures
        r@ == library_or_empty(opt_view(json)),
        r@.wf(),
{
    match json_string_to_state_list(json) {
        Ok(l) => l,
        Err(_) => {
            let l = StateList::default();
            assert(l@ =~= empty_library());
            l
        },
    }
}

/// The theme stored as `json`; the default (dark) theme where nothing is
/// stored.
pub fn json_string_to_theme(json: Option<&String>) -> (r: Result<Theme, PersistError>)
    ensures
        json is None ==> (r matches Ok(t) && t.is_dark_mode),
        json matches Some(t) ==> match parse_theme(t@) {
            Some(d) => r == Ok::<Theme, PersistError>(Theme { is_dark_mode: d }),
            None => r == Err::<Theme, PersistError>(PersistError::InvalidPersistedData),
        },
{
    match json {
        None => Ok(Theme::default()),
        Some(text) => {
            let cs = chars_of(text.as_str());
            match read_theme_text(&cs) {
                Some(d) => Ok(Theme { is_dark_mode: d }),
                None => Err(PersistError::InvalidPersistedData),
            }
        },
    }
}

/// The theme stored as `json`, or the default (dark) theme where nothing is
/// stored or the text is not a stored theme.
pub fn theme_or_default(json: Option<&String>) -> (r: Theme)
    ensures
        r.is_dark_mode == match opt_view(json) {
            Some(t) => match parse_theme(t) {
                Some(d) => d,
                None => true,
            },
            None => true,
        },
{
    match json_string_to_theme(json) {
        Ok(t) => t,
        Err(_) => Theme::default(),
    }
}

} // verus!
