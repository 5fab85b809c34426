//! Proofs that each stored form is read back as the value it was written
//! from.
use vstd::prelude::*;
use crate::json_syntax::{
    at, all_ws, bool_word, is_ws, parse_bool, parse_punct, parse_string, quoted, ws_end,
    lemma_at_split, lemma_at_index, lemma_at_empty, lemma_ws_run, lemma_parse_string_quoted, lemma_parse_punct_at,
    lemma_parse_bool_at,
};
use crate::json_parser::{
    key_list, key_text, key_is_checked, key_current, key_dark, parse_key, parse_note,
    notes_tail, parse_note_list, parse_page, parse_entry, entries_tail, parse_entries,
    parse_library, parse_theme, kept_current, nl, sep, note_json, notes_json, note_list_json,
    page_json, entry_json, entry_lines, entries_json, library_json, theme_json,
};
use crate::todo_func::{LibraryView, NoteView, has_key, keys_distinct, upsert};

verus! {

proof fn lemma_nl_ws(n: nat)
    ensures
        all_ws(nl(n)),
        nl(n).len() == n + 1,
        nl(n)[0] == '\n',
{
    assert forall|k: int| 0 <= k < nl(n).len() implies is_ws(#[trigger] nl(n)[k]) by {
        if k > 0 {
            assert(nl(n)[k] == ' ');
        }
    }
}

proof fn lemma_small_ws()
    ensures
        all_ws(Seq::<char>::empty()),
        all_ws(seq![' ']),
{
    assert forall|k: int| 0 <= k < seq![' '].len() implies is_ws(#[trigger] seq![' '][k]) by {
        assert(seq![' '][k] == ' ');
    }
}

/// `y` stands where a text that begins with `y` stands.
proof fn lemma_at_prefix(s: Seq<char>, i: int, x: Seq<char>, y: Seq<char>)
    requires
        at(s, i, x),
        y.len() <= x.len(),
        x.subrange(0, y.len() as int) == y,
    ensures
        at(s, i, y),
{
    reveal(at);
    assert(s.subrange(i, i + y.len()) =~= x.subrange(0, y.len() as int));
}

proof fn lemma_at_join(s: Seq<char>, i: int, a: Seq<char>, b: Seq<char>)
    requires
        at(s, i, a),
        at(s, i + a.len(), b),
    ensures
        at(s, i, a + b),
{
    reveal(at);
    assert(s.subrange(i, i + a.len() + b.len()) =~= s.subrange(i, i + a.len()) + s.subrange(
        i + a.len(),
        i + a.len() + b.len(),
    ));
}

proof fn lemma_whole(s: Seq<char>)
    ensures
        at(s, 0, s),
{
    reveal(at);
    assert(s.subrange(0, s.len() as int) =~= s);
}

proof fn lemma_ws_at_end(s: Seq<char>)
    ensures
        ws_end(s, s.len() as int) == s.len(),
{
}

/// The string literal `k` and a colon, after white space, are read as that key.
proof fn lemma_parse_key_at(s: Seq<char>, i: int, w: Seq<char>, k: Seq<char>)
    requires
        at(s, i, w + quoted(k) + seq![':']),
        all_ws(w),
    ensures
        parse_key(s, i, k) == Some(i + w.len() + quoted(k).len() + 1),
{
    lemma_at_split(s, i, w + quoted(k), seq![':']);
    lemma_parse_string_quoted(s, i, w, k);
    let j = i + w.len() + quoted(k).len();
    lemma_small_ws();
    assert(Seq::<char>::empty() + seq![':'] =~= seq![':']);
    lemma_parse_punct_at(s, j, Seq::empty(), ':');
}

proof fn lemma_parse_note_json(s: Seq<char>, i: int, n: NoteView)
    requires
        at(s, i, note_json(n)),
    ensures
        parse_note(s, i) == Some((n, i + note_json(n).len())),
{
    let e = Seq::<char>::empty();
    let opening = nl(4) + seq!['{'];
    let text_key = nl(6) + quoted(key_text()) + seq![':'];
    let text_val = seq![' '] + quoted(n.text);
    let comma = e + seq![','];
    let flag_key = nl(6) + quoted(key_is_checked()) + seq![':'];
    let flag_val = seq![' '] + bool_word(n.checked);
    let close = nl(4) + seq!['}'];
    assert(note_json(n) =~= opening + (text_key + (text_val + (comma + (flag_key + (flag_val + close))))));
    lemma_nl_ws(4);
    lemma_nl_ws(6);
    lemma_small_ws();
    lemma_at_split(s, i, opening, text_key + (text_val + (comma + (flag_key + (flag_val + close)))));
    lemma_parse_punct_at(s, i, nl(4), '{');
    let a = i + opening.len();
    lemma_at_split(s, a, text_key, text_val + (comma + (flag_key + (flag_val + close))));
    lemma_parse_key_at(s, a, nl(6), key_text());
    let b = a + text_key.len();
    lemma_at_split(s, b, text_val, comma + (flag_key + (flag_val + close)));
    lemma_parse_string_quoted(s, b, seq![' '], n.text);
    let c = b + text_val.len();
    lemma_at_split(s, c, comma, flag_key + (flag_val + close));
    lemma_parse_punct_at(s, c, e, ',');
    let d = c + comma.len();
    lemma_at_split(s, d, flag_key, flag_val + close);
    lemma_parse_key_at(s, d, nl(6), key_is_checked());
    let f = d + flag_key.len();
    lemma_at_split(s, f, flag_val, close);
    lemma_parse_bool_at(s, f, seq![' '], n.checked);
    let g = f + flag_val.len();
    lemma_parse_punct_at(s, g, nl(4), '}');
}

/// The text of the first `k` notes begins the text of all of them.
proof fn lemma_notes_json_prefix(p: Seq<NoteView>, k: int)
    requires
        0 <= k <= p.len(),
    ensures
        notes_json(p.take(k)).len() <= notes_json(p).len(),
        notes_json(p).subrange(0, notes_json(p.take(k)).len() as int) == notes_json(p.take(k)),
    decreases p.len() - k,
{
    if k == p.len() {
        assert(p.take(k) =~= p);
        assert(notes_json(p).subrange(0, notes_json(p).len() as int) =~= notes_json(p));
    } else {
        lemma_notes_json_prefix(p, k + 1);
        assert(p.take(k + 1).drop_last() =~= p.take(k));
        let a = notes_json(p.take(k));
        let b = notes_json(p.take(k + 1));
        assert(b == a + sep(k + 1) + note_json(p[k]));
        assert(b.subrange(0, a.len() as int) =~= a);
        assert(notes_json(p).subrange(0, a.len() as int) =~= b.subrange(0, a.len() as int));
    }
}

proof fn lemma_notes_tail_json(s: Seq<char>, a: int, p: Seq<NoteView>, k: int)
    requires
        at(s, a, notes_json(p) + nl(2) + seq![']']),
        1 <= k <= p.len(),
    ensures
        notes_tail(s, a + notes_json(p.take(k)).len(), p.take(k)) == Some(
            (p, a + notes_json(p).len() + 4),
        ),
    decreases p.len() - k,
{
    lemma_nl_ws(2);
    lemma_small_ws();
    if k == p.len() {
        assert(p.take(k) =~= p);
        let q = a + notes_json(p).len();
        assert(notes_json(p) + nl(2) + seq![']'] =~= notes_json(p) + (nl(2) + seq![']']));
        lemma_at_split(s, a, notes_json(p), nl(2) + seq![']']);
        lemma_at_index(s, q, nl(2) + seq![']'], 3);
        lemma_at_split(s, q, nl(2), seq![']']);
        lemma_ws_run(s, q, nl(2));
    } else {
        lemma_notes_json_prefix(p, k + 1);
        assert(notes_json(p) + nl(2) + seq![']'] =~= notes_json(p) + (nl(2) + seq![']']));
        lemma_at_split(s, a, notes_json(p), nl(2) + seq![']']);
        let x = notes_json(p.take(k));
        let y = notes_json(p.take(k + 1));
        lemma_at_prefix(s, a, notes_json(p), y);
        assert(p.take(k + 1).drop_last() =~= p.take(k));
        assert(y == x + seq![','] + note_json(p[k]));
        assert(y =~= x + (seq![','] + note_json(p[k])));
        lemma_at_split(s, a, x, seq![','] + note_json(p[k]));
        let q = a + x.len();
        lemma_at_split(s, q, seq![','], note_json(p[k]));
        lemma_at_index(s, q, seq![','], 0);
        lemma_at_empty(s, q, seq![',']);
        lemma_ws_run(s, q, Seq::empty());
        lemma_parse_note_json(s, q + 1, p[k]);
        assert(p.take(k).push(p[k]) =~= p.take(k + 1));
        lemma_notes_tail_json(s, a, p, k + 1);
    }
}

proof fn lemma_note_list_json(s: Seq<char>, i: int, p: Seq<NoteView>)
    requires
        at(s, i, seq![' '] + note_list_json(p)),
    ensures
        parse_note_list(s, i) == Some((p, i + 1 + note_list_json(p).len())),
{
    lemma_small_ws();
    lemma_nl_ws(2);
    lemma_nl_ws(4);
    if p.len() == 0 {
        assert(seq![' '] + note_list_json(p) =~= (seq![' '] + seq!['[']) + seq![']']);
        lemma_at_split(s, i, seq![' '] + seq!['['], seq![']']);
        lemma_parse_punct_at(s, i, seq![' '], '[');
        lemma_at_index(s, i + 2, seq![']'], 0);
        lemma_at_empty(s, i + 2, seq![']']);
        lemma_ws_run(s, i + 2, Seq::empty());
        assert(p =~= Seq::<NoteView>::empty());
    } else {
        let rest = notes_json(p) + nl(2) + seq![']'];
        assert(seq![' '] + note_list_json(p) =~= (seq![' '] + seq!['[']) + rest);
        lemma_at_split(s, i, seq![' '] + seq!['['], rest);
        lemma_parse_punct_at(s, i, seq![' '], '[');
        let a = i + 2;
        lemma_notes_json_prefix(p, 1);
        assert(p.take(1).drop_last() =~= Seq::<NoteView>::empty());
        assert(p.take(1).last() == p[0]);
        assert(notes_json(p.take(1).drop_last()) =~= Seq::<char>::empty());
        assert(notes_json(p.take(1)) =~= note_json(p[0]));
        assert(notes_json(p) + nl(2) + seq![']'] =~= notes_json(p) + (nl(2) + seq![']']));
        lemma_at_split(s, a, notes_json(p), nl(2) + seq![']']);
        lemma_at_prefix(s, a, notes_json(p), note_json(p[0]));
        lemma_at_index(s, a, note_json(p[0]), 0);
        lemma_at_index(s, a, note_json(p[0]), 5);
        assert(note_json(p[0]).subrange(0, 5) =~= nl(4));
        lemma_at_prefix(s, a, note_json(p[0]), nl(4));
        lemma_ws_run(s, a, nl(4));
        lemma_parse_note_json(s, a, p[0]);
        assert(p.take(1) =~= seq![p[0]]);
        lemma_notes_tail_json(s, a, p, 1);
    }
}

/// A page's stored text is read back as that page.
/// A page's stored text is read back as that page.
pub proof fn lemma_page_round_trip(p: Seq<NoteView>)
    ensures
        parse_page(page_json(p)) == Some(p),
{
    let s = page_json(p);
    let e = Seq::<char>::empty();
    let a = seq!['{'];
    let b = nl(2);
    let c = quoted(key_list());
    let d = seq![':', ' '];
    let l = note_list_json(p);
    let f = nl(0);
    let g = seq!['}'];
    lemma_whole(s);
    lemma_small_ws();
    lemma_nl_ws(0);
    lemma_nl_ws(2);
    lemma_at_split(s, 0, a + b + c + d + l + f, g);
    lemma_at_split(s, 0, a + b + c + d + l, f);
    lemma_at_split(s, 0, a + b + c + d, l);
    lemma_at_split(s, 0, a + b + c, d);
    lemma_at_split(s, 0, a + b, c);
    lemma_at_split(s, 0, a, b);
    let pc = 1 + b.len() as int;
    let pd = pc + c.len() as int;
    let pf = pd + 2 + l.len() as int;
    assert(d =~= seq![':'] + seq![' ']);
    lemma_at_split(s, pd, seq![':'], seq![' ']);
    assert(e + a =~= a);
    lemma_parse_punct_at(s, 0, e, '{');
    lemma_at_join(s, 1, b, c);
    lemma_at_join(s, 1, b + c, seq![':']);
    lemma_parse_key_at(s, 1, b, key_list());
    lemma_at_join(s, pd + 1, seq![' '], l);
    lemma_note_list_json(s, pd + 1, p);
    lemma_at_join(s, pf, f, g);
    lemma_parse_punct_at(s, pf, f, '}');
    lemma_ws_at_end(s);
    lemma_page_steps(s, p, pd + 1, pf);
}

proof fn lemma_page_steps(s: Seq<char>, p: Seq<NoteView>, b: int, c: int)
    requires
        parse_punct(s, 0, '{') == Some(1int),
        parse_key(s, 1, key_list()) == Some(b),
        parse_note_list(s, b) == Some((p, c)),
        parse_punct(s, c, '}') == Some(s.len() as int),
        ws_end(s, s.len() as int) == s.len(),
    ensures
        parse_page(s) == Some(p),
{
}

proof fn lemma_parse_entry_json(s: Seq<char>, i: int, en: (Seq<char>, Seq<char>))
    requires
        at(s, i, entry_json(en)),
    ensures
        parse_entry(s, i) == Some((en, i + entry_json(en).len())),
{
    let e = Seq::<char>::empty();
    let a = nl(4);
    let b = quoted(en.0);
    let d = seq![':', ' '];
    let c = quoted(en.1);
    lemma_nl_ws(4);
    lemma_small_ws();
    lemma_at_split(s, i, a + b + d, c);
    lemma_at_split(s, i, a + b, d);
    lemma_parse_string_quoted(s, i, a, en.0);
    let pd = i + a.len() + b.len();
    assert(d =~= seq![':'] + seq![' ']);
    lemma_at_split(s, pd, seq![':'], seq![' ']);
    assert(e + seq![':'] =~= seq![':']);
    lemma_parse_punct_at(s, pd, e, ':');
    lemma_at_join(s, pd + 1, seq![' '], c);
    lemma_parse_string_quoted(s, pd + 1, seq![' '], en.1);
}

/// The text of the first `k` entries begins the text of all of them.
proof fn lemma_entry_lines_prefix(es: Seq<(Seq<char>, Seq<char>)>, k: int)
    requires
        0 <= k <= es.len(),
    ensures
        entry_lines(es.take(k)).len() <= entry_lines(es).len(),
        entry_lines(es).subrange(0, entry_lines(es.take(k)).len() as int) == entry_lines(
            es.take(k),
        ),
    decreases es.len() - k,
{
    if k == es.len() {
        assert(es.take(k) =~= es);
        assert(entry_lines(es).subrange(0, entry_lines(es).len() as int) =~= entry_lines(es));
    } else {
        lemma_entry_lines_prefix(es, k + 1);
        assert(es.take(k + 1).drop_last() =~= es.take(k));
        let a = entry_lines(es.take(k));
        let b = entry_lines(es.take(k + 1));
        assert(b == a + sep(k + 1) + entry_json(es[k]));
        assert(b.subrange(0, a.len() as int) =~= a);
        assert(entry_lines(es).subrange(0, a.len() as int) =~= b.subrange(0, a.len() as int));
    }
}

proof fn lemma_entries_tail_json(s: Seq<char>, a: int, es: Seq<(Seq<char>, Seq<char>)>, k: int)
    requires
        at(s, a, entry_lines(es) + nl(2) + seq!['}']),
        keys_distinct(es),
        1 <= k <= es.len(),
    ensures
        entries_tail(s, a + entry_lines(es.take(k)).len(), es.take(k)) == Some(
            (es, a + entry_lines(es).len() + 4),
        ),
    decreases es.len() - k,
{
    lemma_nl_ws(2);
    lemma_small_ws();
    assert(entry_lines(es) + nl(2) + seq!['}'] =~= entry_lines(es) + (nl(2) + seq!['}']));
    lemma_at_split(s, a, entry_lines(es), nl(2) + seq!['}']);
    if k == es.len() {
        assert(es.take(k) =~= es);
        let q = a + entry_lines(es).len();
        lemma_at_index(s, q, nl(2) + seq!['}'], 3);
        lemma_at_split(s, q, nl(2), seq!['}']);
        lemma_ws_run(s, q, nl(2));
    } else {
        lemma_entry_lines_prefix(es, k + 1);
        let x = entry_lines(es.take(k));
        let y = entry_lines(es.take(k + 1));
        lemma_at_prefix(s, a, entry_lines(es), y);
        assert(es.take(k + 1).drop_last() =~= es.take(k));
        assert(y == x + seq![','] + entry_json(es[k]));
        assert(y =~= x + (seq![','] + entry_json(es[k])));
        lemma_at_split(s, a, x, seq![','] + entry_json(es[k]));
        let q = a + x.len();
        lemma_at_split(s, q, seq![','], entry_json(es[k]));
        lemma_at_index(s, q, seq![','], 0);
        lemma_at_empty(s, q, seq![',']);
        lemma_ws_run(s, q, Seq::empty());
        lemma_parse_entry_json(s, q + 1, es[k]);
        assert(!has_key(es.take(k), es[k].0)) by {
            if has_key(es.take(k), es[k].0) {
                let j = choose|j: int| 0 <= j < es.take(k).len() && #[trigger] es.take(k)[j].0
                    == es[k].0;
                assert(es[j].0 == es[k].0);
            }
        }
        assert(upsert(es.take(k), es[k].0, es[k].1) =~= es.take(k + 1));
        lemma_entries_tail_json(s, a, es, k + 1);
    }
}

proof fn lemma_entries_json(s: Seq<char>, i: int, es: Seq<(Seq<char>, Seq<char>)>)
    requires
        at(s, i, seq![' '] + entries_json(es)),
        keys_distinct(es),
    ensures
        parse_entries(s, i) == Some((es, i + 1 + entries_json(es).len())),
{
    lemma_small_ws();
    lemma_nl_ws(2);
    lemma_nl_ws(4);
    if es.len() == 0 {
        assert(seq![' '] + entries_json(es) =~= (seq![' '] + seq!['{']) + seq!['}']);
        lemma_at_split(s, i, seq![' '] + seq!['{'], seq!['}']);
        lemma_parse_punct_at(s, i, seq![' '], '{');
        lemma_at_index(s, i + 2, seq!['}'], 0);
        lemma_at_empty(s, i + 2, seq!['}']);
        lemma_ws_run(s, i + 2, Seq::empty());
        assert(es =~= Seq::<(Seq<char>, Seq<char>)>::empty());
    } else {
        let rest = entry_lines(es) + nl(2) + seq!['}'];
        assert(seq![' '] + entries_json(es) =~= (seq![' '] + seq!['{']) + rest);
        lemma_at_split(s, i, seq![' '] + seq!['{'], rest);
        lemma_parse_punct_at(s, i, seq![' '], '{');
        let a = i + 2;
        lemma_entry_lines_prefix(es, 1);
        assert(es.take(1).last() == es[0]);
        assert(entry_lines(es.take(1).drop_last()) =~= Seq::<char>::empty());
        assert(entry_lines(es.take(1)) =~= entry_json(es[0]));
        assert(rest =~= entry_lines(es) + (nl(2) + seq!['}']));
        lemma_at_split(s, a, entry_lines(es), nl(2) + seq!['}']);
        lemma_at_prefix(s, a, entry_lines(es), entry_json(es[0]));
        lemma_at_index(s, a, entry_json(es[0]), 5);
        assert(entry_json(es[0]).subrange(0, 5) =~= nl(4));
        assert(entry_json(es[0])[5] == '"');
        lemma_at_prefix(s, a, entry_json(es[0]), nl(4));
        lemma_ws_run(s, a, nl(4));
        lemma_parse_entry_json(s, a, es[0]);
        assert(es.take(1) =~= seq![es[0]]);
        lemma_entries_tail_json(s, a, es, 1);
    }
}

/// The stored text of a well-formed index of pages is read back as that
/// index.
#[verifier::rlimit(60)]
pub proof fn lemma_library_round_trip(l: LibraryView)
    requires
        l.wf(),
    ensures
        parse_library(library_json(l)) == Some(l),
{
    let s = library_json(l);
    let e = Seq::<char>::empty();
    let a = seq!['{'];
    let b = nl(2);
    let c = quoted(key_list());
    let d = seq![':', ' '];
    let en = entries_json(l.pages);
    let f = seq![','];
    let g = nl(2);
    let h = quoted(key_current());
    let i = seq![':', ' '];
    let j = quoted(l.current);
    let k = nl(0);
    let m = seq!['}'];
    lemma_whole(s);
    lemma_small_ws();
    lemma_nl_ws(0);
    lemma_nl_ws(2);
    lemma_at_split(s, 0, a + b + c + d + en + f + g + h + i + j + k, m);
    lemma_at_split(s, 0, a + b + c + d + en + f + g + h + i + j, k);
    lemma_at_split(s, 0, a + b + c + d + en + f + g + h + i, j);
    lemma_at_split(s, 0, a + b + c + d + en + f + g + h, i);
    lemma_at_split(s, 0, a + b + c + d + en + f + g, h);
    lemma_at_split(s, 0, a + b + c + d + en + f, g);
    lemma_at_split(s, 0, a + b + c + d + en, f);
    lemma_at_split(s, 0, a + b + c + d, en);
    lemma_at_split(s, 0, a + b + c, d);
    lemma_at_split(s, 0, a + b, c);
    lemma_at_split(s, 0, a, b);
    let pc = 1 + b.len() as int;
    let pd = pc + c.len() as int;
    let pf = pd + 2 + en.len() as int;
    let ph = pf + 1 + g.len() as int;
    let pi = ph + h.len() as int;
    let pk = pi + 2 + j.len() as int;
    assert(d =~= seq![':'] + seq![' ']);
    assert(e + a =~= a);
    assert(e + f =~= f);
    lemma_at_split(s, pd, seq![':'], seq![' ']);
    lemma_at_split(s, pi, seq![':'], seq![' ']);
    lemma_parse_punct_at(s, 0, e, '{');
    lemma_at_join(s, 1, b, c);
    lemma_at_join(s, 1, b + c, seq![':']);
    lemma_parse_key_at(s, 1, b, key_list());
    lemma_at_join(s, pd + 1, seq![' '], en);
    lemma_entries_json(s, pd + 1, l.pages);
    lemma_parse_punct_at(s, pf, e, ',');
    lemma_at_join(s, pf + 1, g, h);
    lemma_at_join(s, pf + 1, g + h, seq![':']);
    lemma_parse_key_at(s, pf + 1, g, key_current());
    lemma_at_join(s, pi + 1, seq![' '], j);
    lemma_parse_string_quoted(s, pi + 1, seq![' '], l.current);
    lemma_at_join(s, pk, k, m);
    lemma_parse_punct_at(s, pk, k, '}');
    lemma_ws_at_end(s);
    assert(kept_current(l.pages, l.current) == l.current);
    lemma_library_steps(s, l, pd + 1, pf, pf + 1, pi + 1, pk);
}

proof fn lemma_library_steps(s: Seq<char>, l: LibraryView, b: int, c: int, d: int, e: int, g: int)
    requires
        parse_punct(s, 0, '{') == Some(1int),
        parse_key(s, 1, key_list()) == Some(b),
        parse_entries(s, b) == Some((l.pages, c)),
        parse_punct(s, c, ',') == Some(d),
        parse_key(s, d, key_current()) == Some(e),
        parse_string(s, e) == Some((l.current, g)),
        parse_punct(s, g, '}') == Some(s.len() as int),
        ws_end(s, s.len() as int) == s.len(),
        kept_current(l.pages, l.current) == l.current,
    ensures
        parse_library(s) == Some(l),
{
}

/// A theme's stored text is read back as that theme.
pub proof fn lemma_theme_round_trip(dark: bool)
    ensures
        parse_theme(theme_json(dark)) == Some(dark),
{
    let s = theme_json(dark);
    let e = Seq::<char>::empty();
    let a = seq!['{'];
    let b = nl(2);
    let c = quoted(key_dark());
    let d = seq![':', ' '];
    let w = bool_word(dark);
    let f = nl(0);
    let g = seq!['}'];
    lemma_whole(s);
    lemma_small_ws();
    lemma_nl_ws(0);
    lemma_nl_ws(2);
    lemma_at_split(s, 0, a + b + c + d + w + f, g);
    lemma_at_split(s, 0, a + b + c + d + w, f);
    lemma_at_split(s, 0, a + b + c + d, w);
    lemma_at_split(s, 0, a + b + c, d);
    lemma_at_split(s, 0, a + b, c);
    lemma_at_split(s, 0, a, b);
    let pc = 1 + b.len() as int;
    let pd = pc + c.len() as int;
    let pf = pd + 2 + w.len() as int;
    assert(d =~= seq![':'] + seq![' ']);
    lemma_at_split(s, pd, seq![':'], seq![' ']);
    assert(e + a =~= a);
    lemma_parse_punct_at(s, 0, e, '{');
    lemma_at_join(s, 1, b, c);
    lemma_at_join(s, 1, b + c, seq![':']);
    lemma_parse_key_at(s, 1, b, key_dark());
    lemma_at_join(s, pd + 1, seq![' '], w);
    lemma_parse_bool_at(s, pd + 1, seq![' '], dark);
    lemma_at_join(s, pf, f, g);
    lemma_parse_punct_at(s, pf, f, '}');
    lemma_ws_at_end(s);
    lemma_theme_steps(s, dark, pd + 1, pf);
}

proof fn lemma_theme_steps(s: Seq<char>, dark: bool, b: int, c: int)
    requires
        parse_punct(s, 0, '{') == Some(1int),
        parse_key(s, 1, key_dark()) == Some(b),
        parse_bool(s, b) == Some((dark, c)),
        parse_punct(s, c, '}') == Some(s.len() as int),
        ws_end(s, s.len() as int) == s.len(),
    ensures
        parse_theme(s) == Some(dark),
{
}

} // verus!
