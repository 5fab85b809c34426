//! The lexical layer of the JSON text that the application stores: white
//! space, string literals with their escapes, the two boolean words and
//! single punctuation characters.
//!
//! Every reader is given as a spec function over a character sequence and a
//! position, returning what was read and the position after it. The
//! executable readers are proved to compute exactly those functions.
use vstd::prelude::*;

verus! {

pub open spec fn is_ws(c: char) -> bool {
    c == ' ' || c == '\t' || c == '\n' || c == '\r'
}

/// The first position at or after `i` that holds no white space.
pub open spec fn ws_end(s: Seq<char>, i: int) -> int
    decreases s.len() - i,
{
    if 0 <= i < s.len() && is_ws(s[i]) {
        ws_end(s, i + 1)
    } else {
        i
    }
}

pub open spec fn char_code(c: char) -> int {
    c as int
}

/// The char whose scalar value is `v`.
pub open spec fn char_of(v: int) -> char {
    choose|c: char| #[trigger] char_code(c) == v
}

pub open spec fn is_scalar(v: int) -> bool {
    (0 <= v < 0xD800) || (0xE000 <= v <= 0x10FFFF)
}

/// The value of a hexadecimal digit, or -1.
pub open spec fn hex_val(c: char) -> int {
    let k = char_code(c);
    if 48 <= k <= 57 {
        k - 48
    } else if 97 <= k <= 102 {
        k - 87
    } else if 65 <= k <= 70 {
        k - 55
    } else {
        -1
    }
}

/// The value of the four hexadecimal digits at `i`, or -1.
pub open spec fn hex4(s: Seq<char>, i: int) -> int {
    if 0 <= i && i + 4 <= s.len() && hex_val(s[i]) >= 0 && hex_val(s[i + 1]) >= 0 && hex_val(
        s[i + 2],
    ) >= 0 && hex_val(s[i + 3]) >= 0 {
        4096 * hex_val(s[i]) + 256 * hex_val(s[i + 1]) + 16 * hex_val(s[i + 2]) + hex_val(
            s[i + 3],
        )
    } else {
        -1
    }
}

/// The escape sequence that starts with the backslash at `i`: the char it
/// stands for and the position after it.
pub open spec fn escape_step(s: Seq<char>, i: int) -> Option<(char, int)> {
    if !(0 <= i && i + 1 < s.len()) {
        None
    } else {
        let e = s[i + 1];
        if e == '"' {
            Some(('"', i + 2))
        } else if e == '\\' {
            Some(('\\', i + 2))
        } else if e == '/' {
            Some(('/', i + 2))
        } else if e == 'b' {
            Some(('\x08', i + 2))
        } else if e == 'f' {
            Some(('\x0c', i + 2))
        } else if e == 'n' {
            Some(('\n', i + 2))
        } else if e == 'r' {
            Some(('\r', i + 2))
        } else if e == 't' {
            Some(('\t', i + 2))
        } else if e == 'u' {
            let v = hex4(s, i + 2);
            if v < 0 {
                None
            } else if is_scalar(v) {
                Some((char_of(v), i + 6))
            } else if 0xD800 <= v < 0xDC00 && i + 7 < s.len() && s[i + 6] == '\\' && s[i + 7]
                == 'u' {
                let w = hex4(s, i + 8);
                if 0xDC00 <= w < 0xE000 {
                    Some((char_of(0x10000 + (v - 0xD800) * 1024 + (w - 0xDC00)), i + 12))
                } else {
                    None
                }
            } else {
                None
            }
        } else {
            None
        }
    }
}

/// One char of a string literal's body at `i`, written plainly or escaped.
pub open spec fn char_step(s: Seq<char>, i: int) -> Option<(char, int)> {
    if !(0 <= i < s.len()) {
        None
    } else if s[i] == '\\' {
        escape_step(s, i)
    } else if char_code(s[i]) < 0x20 {
        None
    } else {
        Some((s[i], i + 1))
    }
}

/// The rest of a string literal's body from `i` to its closing quote, added
/// to `acc`, and the position after the quote.
pub open spec fn string_body(s: Seq<char>, i: int, acc: Seq<char>) -> Option<(Seq<char>, int)>
    decreases s.len() - i,
{
    if !(0 <= i < s.len()) {
        None
    } else if s[i] == '"' {
        Some((acc, i + 1))
    } else {
        match char_step(s, i) {
            Some((c, j)) => if i < j {
                string_body(s, j, acc.push(c))
            } else {
                None
            },
            None => None,
        }
    }
}

/// A string literal after optional white space.
pub open spec fn parse_string(s: Seq<char>, i: int) -> Option<(Seq<char>, int)> {
    let j = ws_end(s, i);
    if 0 <= j < s.len() && s[j] == '"' {
        string_body(s, j + 1, Seq::empty())
    } else {
        None
    }
}

/// The char `c` after optional white space; the position after it.
pub open spec fn parse_punct(s: Seq<char>, i: int, c: char) -> Option<int> {
    let j = ws_end(s, i);
    if 0 <= j < s.len() && s[j] == c {
        Some(j + 1)
    } else {
        None
    }
}

pub open spec fn true_word() -> Seq<char> {
    seq!['t', 'r', 'u', 'e']
}

pub open spec fn false_word() -> Seq<char> {
    seq!['f', 'a', 'l', 's', 'e']
}

pub open spec fn bool_word(b: bool) -> Seq<char> {
    if b {
        true_word()
    } else {
        false_word()
    }
}

/// `true` or `false` after optional white space.
pub open spec fn parse_bool(s: Seq<char>, i: int) -> Option<(bool, int)> {
    let j = ws_end(s, i);
    if 0 <= j && j + 4 <= s.len() && s.subrange(j, j + 4) == true_word() {
        Some((true, j + 4))
    } else if 0 <= j && j + 5 <= s.len() && s.subrange(j, j + 5) == false_word() {
        Some((false, j + 5))
    } else {
        None
    }
}

/// A lowercase hexadecimal digit.
pub open spec fn hex_digit(n: int) -> char {
    if n < 10 {
        ((n + 48) as u8) as char
    } else {
        ((n + 87) as u8) as char
    }
}

/// How one char is written inside a string literal.
pub open spec fn escape_char(c: char) -> Seq<char> {
    if c == '"' {
        seq!['\\', '"']
    } else if c == '\\' {
        seq!['\\', '\\']
    } else if c == '\x08' {
        seq!['\\', 'b']
    } else if c == '\x0c' {
        seq!['\\', 'f']
    } else if c == '\n' {
        seq!['\\', 'n']
    } else if c == '\r' {
        seq!['\\', 'r']
    } else if c == '\t' {
        seq!['\\', 't']
    } else if char_code(c) < 0x20 {
        seq!['\\', 'u', '0', '0', hex_digit(char_code(c) / 16), hex_digit(char_code(c) % 16)]
    } else {
        seq![c]
    }
}

/// The body of the string literal that holds `t`.
pub open spec fn escape(t: Seq<char>) -> Seq<char>
    decreases t.len(),
{
    if t.len() == 0 {
        Seq::empty()
    } else {
        escape(t.drop_last()) + escape_char(t.last())
    }
}

/// The string literal that holds `t`.
pub open spec fn quoted(t: Seq<char>) -> Seq<char> {
    seq!['"'] + escape(t) + seq!['"']
}

pub open spec fn string_result(r: Option<(String, usize)>) -> Option<(Seq<char>, int)> {
    match r {
        Some((o, k)) => Some((o@, k as int)),
        None => None,
    }
}

pub open spec fn char_result(r: Option<(char, usize)>) -> Option<(char, int)> {
    match r {
        Some((c, k)) => Some((c, k as int)),
        None => None,
    }
}

pub open spec fn index_result(r: Option<usize>) -> Option<int> {
    match r {
        Some(k) => Some(k as int),
        None => None,
    }
}

pub open spec fn bool_result(r: Option<(bool, usize)>) -> Option<(bool, int)> {
    match r {
        Some((b, k)) => Some((b, k as int)),
        None => None,
    }
}

/// Relies on String::push: it appends one char.
#[verifier::external_body]
pub(crate) fn push_char(s: &mut String, c: char)
    ensures
        final(s)@ == old(s)@.push(c),
{
    s.push(c)
}

/// Relies on char::from_u32: the char whose scalar value is `v`, and None
/// where `v` is no scalar value.
#[verifier::external_body]
fn char_from_u32(v: u32) -> (r: Option<char>)
    ensures
        r matches Some(c) ==> char_code(c) == v,
        r is None <==> !is_scalar(v as int),
{
    char::from_u32(v)
}

/// The chars of `s`, one per element.
pub fn chars_of(s: &str) -> (r: Vec<char>)
    ensures
        r@ == s@,
{
    let mut r: Vec<char> = Vec::new();
    for c in it: s.chars()
        invariant
            r@ == it.seq().take(it.index() as int),
    {
        r.push(c);
    }
    r
}

pub fn is_ws_char(c: char) -> (r: bool)
    ensures
        r == is_ws(c),
{
    c == ' ' || c == '\t' || c == '\n' || c == '\r'
}

pub fn skip_ws(s: &Vec<char>, i: usize) -> (j: usize)
    requires
        i <= s.len(),
    ensures
        j == ws_end(s@, i as int),
        i <= j <= s.len(),
{
    let mut j = i;
    while j < s.len() && is_ws_char(s[j])
        invariant
            i <= j <= s.len(),
            ws_end(s@, i as int) == ws_end(s@, j as int),
        decreases s.len() - j,
    {
        j = j + 1;
    }
    j
}

fn hex_value(c: char) -> (r: u32)
    ensures
        hex_val(c) < 0 ==> r == 16,
        hex_val(c) >= 0 ==> r == hex_val(c),
{
    let k = c as u32;
    if 48 <= k && k <= 57 {
        k - 48
    } else if 97 <= k && k <= 102 {
        k - 87
    } else if 65 <= k && k <= 70 {
        k - 55
    } else {
        16
    }
}

fn read_hex4(s: &Vec<char>, i: usize) -> (r: Option<u32>)
    requires
        i <= s.len(),
    ensures
        hex4(s@, i as int) < 0 ==> r is None,
        hex4(s@, i as int) >= 0 ==> r == Some(hex4(s@, i as int) as u32),
{
    if s.len() - i < 4 {
        return None;
    }
    let a = hex_value(s[i]);
    let b = hex_value(s[i + 1]);
    let c = hex_value(s[i + 2]);
    let d = hex_value(s[i + 3]);
    if a == 16 || b == 16 || c == 16 || d == 16 {
        None
    } else {
        Some(4096 * a + 256 * b + 16 * c + d)
    }
}

proof fn lemma_char_range(c: char)
    ensures
        0 <= char_code(c) <= 0x10FFFF,
{
}

proof fn lemma_char_of(c: char)
    ensures
        char_of(char_code(c)) == c,
{
    assert(char_code(c) == char_code(c));
    let d = char_of(char_code(c));
    assert(char_code(d) == char_code(c));
}

fn code_to_char(v: u32) -> (r: Option<char>)
    ensures
        r is None <==> !is_scalar(v as int),
        r matches Some(c) ==> c == char_of(v as int),
{
    let r = char_from_u32(v);
    proof {
        if let Some(c) = r {
            lemma_char_of(c);
        }
    }
    r
}

fn read_escape(s: &Vec<char>, i: usize) -> (r: Option<(char, usize)>)
    requires
        i < s.len(),
        s[i as int] == '\\',
    ensures
        char_result(r) == escape_step(s@, i as int),
        r matches Some((_, j)) ==> i < j <= s.len(),
{
    if i + 1 >= s.len() {
        return None;
    }
    let e = s[i + 1];
    if e == '"' {
        Some(('"', i + 2))
    } else if e == '\\' {
        Some(('\\', i + 2))
    } else if e == '/' {
        Some(('/', i + 2))
    } else if e == 'b' {
        Some(('\x08', i + 2))
    } else if e == 'f' {
        Some(('\x0c', i + 2))
    } else if e == 'n' {
        Some(('\n', i + 2))
    } else if e == 'r' {
        Some(('\r', i + 2))
    } else if e == 't' {
        Some(('\t', i + 2))
    } else if e == 'u' {
        match read_hex4(s, i + 2) {
            None => None,
            Some(v) => {
                if let Some(c) = code_to_char(v) {
                    Some((c, i + 6))
                } else if 0xD800 <= v && v < 0xDC00 && s.len() - i > 7 && s[i + 6] == '\\'
                    && s[i + 7] == 'u' {
                    match read_hex4(s, i + 8) {
                        Some(w) => {
                            if 0xDC00 <= w && w < 0xE000 {
                                let code = 0x10000 + (v - 0xD800) * 1024 + (w - 0xDC00);
                                match code_to_char(code) {
                                    Some(c) => Some((c, i + 12)),
                                    None => None,
                                }
                            } else {
                                None
                            }
                        },
                        None => None,
                    }
                } else {
                    None
                }
            },
        }
    } else {
        None
    }
}

fn read_char(s: &Vec<char>, i: usize) -> (r: Option<(char, usize)>)
    requires
        i < s.len(),
    ensures
        char_result(r) == char_step(s@, i as int),
        r matches Some((_, j)) ==> i < j <= s.len(),
{
    let c = s[i];
    let k = c as u32;
    proof {
        lemma_char_range(c);
    }
    if c == '\\' {
        read_escape(s, i)
    } else if k < 0x20 {
        None
    } else {
        Some((c, i + 1))
    }
}

/// Reads a string literal's body from `start`, just after its opening quote.
pub fn read_string_body(s: &Vec<char>, start: usize) -> (r: Option<(String, usize)>)
    requires
        start <= s.len(),
    ensures
        string_result(r) == string_body(s@, start as int, Seq::empty()),
        r matches Some((_, k)) ==> k <= s.len(),
{
    let mut out = String::new();
    let mut i = start;
    while i < s.len()
        invariant
            start <= i <= s.len(),
            string_body(s@, start as int, Seq::empty()) == string_body(s@, i as int, out@),
        decreases s.len() - i,
    {
        if s[i] == '"' {
            return Some((out, i + 1));
        }
        match read_char(s, i) {
            Some((c, j)) => {
                push_char(&mut out, c);
                i = j;
            },
            None => {
                return None;
            },
        }
    }
    None
}

pub fn read_string(s: &Vec<char>, i: usize) -> (r: Option<(String, usize)>)
    requires
        i <= s.len(),
    ensures
        string_result(r) == parse_string(s@, i as int),
        r matches Some((_, k)) ==> k <= s.len(),
{
    let j = skip_ws(s, i);
    if j < s.len() && s[j] == '"' {
        read_string_body(s, j + 1)
    } else {
        None
    }
}

pub fn read_punct(s: &Vec<char>, i: usize, c: char) -> (r: Option<usize>)
    requires
        i <= s.len(),
    ensures
        index_result(r) == parse_punct(s@, i as int, c),
        r matches Some(k) ==> k <= s.len(),
{
    let j = skip_ws(s, i);
    if j < s.len() && s[j] == c {
        Some(j + 1)
    } else {
        None
    }
}

pub fn read_bool(s: &Vec<char>, i: usize) -> (r: Option<(bool, usize)>)
    requires
        i <= s.len(),
    ensures
        bool_result(r) == parse_bool(s@, i as int),
        r matches Some((_, k)) ==> k <= s.len(),
{
    let j = skip_ws(s, i);
    let n = s.len() - j;
    if n >= 4 && s[j] == 't' && s[j + 1] == 'r' && s[j + 2] == 'u' && s[j + 3] == 'e' {
        assert(s@.subrange(j as int, j + 4) =~= true_word());
        Some((true, j + 4))
    } else if n >= 5 && s[j] == 'f' && s[j + 1] == 'a' && s[j + 2] == 'l' && s[j + 3] == 's'
        && s[j + 4] == 'e' {
        assert(s@.subrange(j as int, j + 4) != true_word());
        assert(s@.subrange(j as int, j + 5) =~= false_word());
        Some((false, j + 5))
    } else {
        proof {
            if n >= 4 && s@.subrange(j as int, j + 4) == true_word() {
                assert(s@.subrange(j as int, j + 4)[0] == s@[j as int]);
                assert(s@.subrange(j as int, j + 4)[1] == s@[j + 1]);
                assert(s@.subrange(j as int, j + 4)[2] == s@[j + 2]);
                assert(s@.subrange(j as int, j + 4)[3] == s@[j + 3]);
            }
            if n >= 5 && s@.subrange(j as int, j + 5) == false_word() {
                assert(s@.subrange(j as int, j + 5)[0] == s@[j as int]);
                assert(s@.subrange(j as int, j + 5)[1] == s@[j + 1]);
                assert(s@.subrange(j as int, j + 5)[2] == s@[j + 2]);
                assert(s@.subrange(j as int, j + 5)[3] == s@[j + 3]);
                assert(s@.subrange(j as int, j + 5)[4] == s@[j + 4]);
            }
        }
        None
    }
}

fn hex_digit_char(n: u32) -> (c: char)
    requires
        n < 16,
    ensures
        c == hex_digit(n as int),
{
    if n < 10 {
        ((n + 48) as u8) as char
    } else {
        ((n + 87) as u8) as char
    }
}

/// Appends how `c` is written inside a string literal.
fn write_escaped_char(out: &mut String, c: char)
    ensures
        final(out)@ == old(out)@ + escape_char(c),
{
    let pair = if c == '"' {
        Some('"')
    } else if c == '\\' {
        Some('\\')
    } else if c == '\x08' {
        Some('b')
    } else if c == '\x0c' {
        Some('f')
    } else if c == '\n' {
        Some('n')
    } else if c == '\r' {
        Some('r')
    } else if c == '\t' {
        Some('t')
    } else {
        None
    };
    match pair {
        Some(e) => {
            push_char(out, '\\');
            push_char(out, e);
            assert(final(out)@ =~= old(out)@ + escape_char(c));
        },
        None => {
            let k = c as u32;
            if k < 0x20 {
                push_char(out, '\\');
                push_char(out, 'u');
                push_char(out, '0');
                push_char(out, '0');
                push_char(out, hex_digit_char(k / 16));
                push_char(out, hex_digit_char(k % 16));
                assert(final(out)@ =~= old(out)@ + escape_char(c));
            } else {
                push_char(out, c);
                assert(final(out)@ =~= old(out)@ + escape_char(c));
            }
        },
    }
}

/// Appends the string literal that holds `t`.
pub fn write_quoted(out: &mut String, t: &str)
    ensures
        final(out)@ == old(out)@ + quoted(t@),
{
    let cs = chars_of(t);
    push_char(out, '"');
    let mut i: usize = 0;
    while i < cs.len()
        invariant
            i <= cs.len(),
            cs@ == t@,
            out@ == old(out)@ + seq!['"'] + escape(cs@.take(i as int)),
        decreases cs.len() - i,
    {
        assert(cs@.take(i + 1).drop_last() =~= cs@.take(i as int));
        write_escaped_char(out, cs[i]);
        i = i + 1;
    }
    assert(cs@.take(i as int) =~= t@);
    push_char(out, '"');
    assert(out@ =~= old(out)@ + quoted(t@));
}

/// `x` stands in `s` from position `i` on.
#[verifier::opaque]
pub open spec fn at(s: Seq<char>, i: int, x: Seq<char>) -> bool {
    0 <= i && i + x.len() <= s.len() && s.subrange(i, i + x.len()) == x
}

pub open spec fn all_ws(w: Seq<char>) -> bool {
    forall|k: int| 0 <= k < w.len() ==> is_ws(#[trigger] w[k])
}

pub proof fn lemma_at_split(s: Seq<char>, i: int, a: Seq<char>, b: Seq<char>)
    requires
        at(s, i, a + b),
    ensures
        at(s, i, a),
        at(s, i + a.len(), b),
        0 <= i,
        i + a.len() + b.len() <= s.len(),
{
    reveal(at);
    let whole = s.subrange(i, i + a.len() + b.len());
    assert(whole == a + b);
    assert(s.subrange(i, i + a.len()) =~= whole.subrange(0, a.len() as int));
    assert(whole.subrange(0, a.len() as int) =~= a);
    assert(s.subrange(i + a.len(), i + a.len() + b.len()) =~= whole.subrange(
        a.len() as int,
        (a.len() + b.len()) as int,
    ));
    assert(whole.subrange(a.len() as int, (a.len() + b.len()) as int) =~= b);
}

pub proof fn lemma_at_index(s: Seq<char>, i: int, x: Seq<char>, k: int)
    requires
        at(s, i, x),
        0 <= k < x.len(),
    ensures
        s[i + k] == x[k],
        0 <= i,
        i + x.len() <= s.len(),
{
    reveal(at);
    assert(s.subrange(i, i + x.len())[k] == s[i + k]);
}

/// Nothing stands wherever something stands.
pub proof fn lemma_at_empty(s: Seq<char>, i: int, x: Seq<char>)
    requires
        at(s, i, x),
    ensures
        at(s, i, Seq::empty()),
{
    reveal(at);
    assert(s.subrange(i, i) =~= Seq::<char>::empty());
}

/// White space that ends where a char other than white space stands.
pub proof fn lemma_ws_run(s: Seq<char>, i: int, w: Seq<char>)
    requires
        at(s, i, w),
        all_ws(w),
        i + w.len() < s.len(),
        !is_ws(s[i + w.len()]),
    ensures
        ws_end(s, i) == i + w.len(),
    decreases w.len(),
{
    reveal(at);
    if w.len() > 0 {
        lemma_at_index(s, i, w, 0);
        assert(w.subrange(0, 1) + w.drop_first() =~= w);
        lemma_at_split(s, i, w.subrange(0, 1), w.drop_first());
        assert forall|k: int| 0 <= k < w.drop_first().len() implies is_ws(
            #[trigger] w.drop_first()[k],
        ) by {
            assert(w.drop_first()[k] == w[k + 1]);
        }
        lemma_ws_run(s, i + 1, w.drop_first());
    }
}

pub proof fn lemma_escape_append(a: Seq<char>, b: Seq<char>)
    ensures
        escape(a + b) == escape(a) + escape(b),
    decreases b.len(),
{
    if b.len() == 0 {
        assert(a + b =~= a);
        assert(escape(a) + escape(b) =~= escape(a));
    } else {
        assert((a + b).drop_last() =~= a + b.drop_last());
        lemma_escape_append(a, b.drop_last());
        assert(escape(a + b) =~= escape(a) + escape(b));
    }
}

proof fn lemma_hex_digit(n: int)
    requires
        0 <= n < 16,
    ensures
        hex_val(hex_digit(n)) == n,
{
}

/// A char written as `escape_char` is read back by `char_step`.
pub proof fn lemma_char_step_escaped(s: Seq<char>, p: int, c: char)
    requires
        at(s, p, escape_char(c)),
    ensures
        char_step(s, p) == Some((c, p + escape_char(c).len())),
        s[p] != '"',
{
    reveal(at);
    let e = escape_char(c);
    lemma_at_index(s, p, e, 0);
    if e.len() >= 2 {
        lemma_at_index(s, p, e, 1);
    }
    if c != '"' && c != '\\' && c != '\x08' && c != '\x0c' && c != '\n' && c != '\r' && c
        != '\t' && char_code(c) < 0x20 {
        lemma_at_index(s, p, e, 2);
        lemma_at_index(s, p, e, 3);
        lemma_at_index(s, p, e, 4);
        lemma_at_index(s, p, e, 5);
        let code = char_code(c);
        lemma_hex_digit(code / 16);
        lemma_hex_digit(code % 16);
        assert(hex_val('0') == 0);
        assert(hex4(s, p + 2) == code);
        lemma_char_of(c);
    }
}

/// The body of a string literal written by `escape`, with its closing quote,
/// is read back whole.
pub proof fn lemma_string_body_escaped(s: Seq<char>, i: int, t: Seq<char>, acc: Seq<char>)
    requires
        at(s, i, escape(t) + seq!['"']),
    ensures
        string_body(s, i, acc) == Some((acc + t, i + escape(t).len() + 1)),
{
    reveal(at);
    lemma_string_body_prefix(s, i, t, acc, t.len() as int);
    assert(t.take(t.len() as int) =~= t);
    lemma_at_split(s, i, escape(t), seq!['"']);
    lemma_at_index(s, i + escape(t).len(), seq!['"'], 0);
}

proof fn lemma_string_body_prefix(s: Seq<char>, i: int, t: Seq<char>, acc: Seq<char>, k: int)
    requires
        at(s, i, escape(t) + seq!['"']),
        0 <= k <= t.len(),
    ensures
        string_body(s, i, acc) == string_body(
            s,
            i + escape(t.take(k)).len(),
            acc + t.take(k),
        ),
    decreases k,
{
    reveal(at);
    if k == 0 {
        assert(t.take(0) =~= Seq::<char>::empty());
        assert(acc + t.take(0) =~= acc);
    } else {
        lemma_string_body_prefix(s, i, t, acc, k - 1);
        let a = t.take(k - 1);
        let c = t[k - 1];
        assert(t.take(k).drop_last() =~= a);
        assert(escape(t.take(k)) == escape(a) + escape_char(c));
        assert(t =~= t.take(k) + t.skip(k));
        lemma_escape_append(t.take(k), t.skip(k));
        assert(escape(t) + seq!['"'] =~= escape(a) + (escape_char(c) + (escape(t.skip(k)) + seq![
            '"',
        ])));
        lemma_at_split(s, i, escape(a), escape_char(c) + (escape(t.skip(k)) + seq!['"']));
        let p = i + escape(a).len();
        lemma_at_split(s, p, escape_char(c), escape(t.skip(k)) + seq!['"']);
        lemma_char_step_escaped(s, p, c);
        assert(p < s.len());
        assert((acc + a).push(c) =~= acc + t.take(k));
    }
}

/// A string literal written by `quoted` after white space is read back.
pub proof fn lemma_parse_string_quoted(s: Seq<char>, i: int, w: Seq<char>, t: Seq<char>)
    requires
        at(s, i, w + quoted(t)),
        all_ws(w),
    ensures
        parse_string(s, i) == Some((t, i + w.len() + quoted(t).len())),
{
    reveal(at);
    lemma_at_split(s, i, w, quoted(t));
    let j = i + w.len();
    assert(quoted(t) =~= seq!['"'] + (escape(t) + seq!['"']));
    lemma_at_split(s, j, seq!['"'], escape(t) + seq!['"']);
    lemma_at_index(s, j, quoted(t), 0);
    lemma_ws_run(s, i, w);
    lemma_string_body_escaped(s, j + 1, t, Seq::empty());
    assert(Seq::<char>::empty() + t =~= t);
}

/// A char other than white space after white space is read back.
pub proof fn lemma_parse_punct_at(s: Seq<char>, i: int, w: Seq<char>, c: char)
    requires
        at(s, i, w + seq![c]),
        all_ws(w),
        !is_ws(c),
    ensures
        parse_punct(s, i, c) == Some(i + w.len() + 1),
{
    reveal(at);
    lemma_at_split(s, i, w, seq![c]);
    lemma_at_index(s, i + w.len(), seq![c], 0);
    lemma_ws_run(s, i, w);
}

/// A boolean word after white space is read back.
pub proof fn lemma_parse_bool_at(s: Seq<char>, i: int, w: Seq<char>, b: bool)
    requires
        at(s, i, w + bool_word(b)),
        all_ws(w),
    ensures
        parse_bool(s, i) == Some((b, i + w.len() + bool_word(b).len())),
{
    reveal(at);
    lemma_at_split(s, i, w, bool_word(b));
    let j = i + w.len();
    lemma_at_index(s, j, bool_word(b), 0);
    lemma_ws_run(s, i, w);
    if !b {
        lemma_at_index(s, j, bool_word(b), 1);
        lemma_at_index(s, j, bool_word(b), 2);
        lemma_at_index(s, j, bool_word(b), 3);
        assert(s.subrange(j, j + 4) != true_word()) by {
            assert(s.subrange(j, j + 4)[0] == s[j]);
        }
    }
}

} // verus!
