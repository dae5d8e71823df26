//! Hex colours of the form `#rrggbb`: reading them and writing them in
//! canonical lower-case form.
use vstd::prelude::*;
use crate::text::{chars_of, is_ws, lemma_trim_clean, trim_end, trim_start, push_char, sub_chars, trim, trim_chars};

verus! {

// ---------------------------------------------------------------------
// Specifications
// ---------------------------------------------------------------------

/// `s` without its leading `#` characters (`trim_start_matches('#')`).
pub open spec fn strip_hashes(s: Seq<char>) -> Seq<char>
    decreases s.len(),
{
    if s.len() > 0 && s[0] == '#' {
        strip_hashes(s.drop_first())
    } else {
        s
    }
}

/// What is left of a colour text once it is trimmed and its leading `#`s
/// are removed.
pub open spec fn hex_body(s: Seq<char>) -> Seq<char> {
    strip_hashes(trim(s))
}

/// The value of a hexadecimal digit (either case).
pub open spec fn hex_digit_val(c: char) -> Option<nat> {
    if '0' <= c && c <= '9' {
        Some((c as int - '0' as int) as nat)
    } else if 'a' <= c && c <= 'f' {
        Some((c as int - 'a' as int + 10) as nat)
    } else if 'A' <= c && c <= 'F' {
        Some((c as int - 'A' as int + 10) as nat)
    } else {
        None
    }
}

/// The byte that two hexadecimal digits denote (one colour component).
pub open spec fn hex_pair(a: char, b: char) -> Option<u8> {
    match (hex_digit_val(a), hex_digit_val(b)) {
        (Some(x), Some(y)) => Some((x * 16 + y) as u8),
        _ => None,
    }
}

/// The red, green and blue components that a colour text denotes.
pub open spec fn parse_hex_spec(s: Seq<char>) -> Option<(u8, u8, u8)> {
    let h = hex_body(s);
    if h.len() == 6 {
        match (hex_pair(h[0], h[1]), hex_pair(h[2], h[3]), hex_pair(h[4], h[5])) {
            (Some(r), Some(g), Some(b)) => Some((r, g, b)),
            _ => None,
        }
    } else {
        None
    }
}

/// Number of bytes that `c` takes in UTF-8.
pub open spec fn utf8_width(c: char) -> nat {
    let u = c as u32;
    if u < 0x80 {
        1
    } else if u < 0x800 {
        2
    } else if u < 0x10000 {
        3
    } else {
        4
    }
}

/// Number of bytes that `s` takes in UTF-8 (`str::len`).
pub open spec fn utf8_len(s: Seq<char>) -> nat
    decreases s.len(),
{
    if s.len() == 0 {
        0
    } else {
        utf8_len(s.drop_last()) + utf8_width(s.last())
    }
}

proof fn lemma_utf8_len_prefix(s: Seq<char>, k: int)
    requires
        0 <= k <= s.len(),
    ensures
        utf8_len(s.take(k)) <= utf8_len(s),
    decreases s.len(),
{
    if k < s.len() {
        lemma_utf8_len_prefix(s.drop_last(), k);
        assert(s.drop_last().take(k) =~= s.take(k));
    } else {
        assert(s.take(k) =~= s);
    }
}

/// Cutting the first two bytes off `s` would split a character.
pub open spec fn cut_splits_char(s: Seq<char>) -> bool {
    &&& s.len() > 0
    &&& (utf8_width(s[0]) >= 3 || (utf8_width(s[0]) == 1 && s.len() > 1 && utf8_width(s[1]) > 1))
}

/// The inputs on which reading a colour by two-byte slices panics: the
/// body is six bytes long, and a slice boundary falls inside a character
/// before a component has failed to read.
pub open spec fn parse_hex_panics(s: Seq<char>) -> bool {
    let h = hex_body(s);
    &&& utf8_len(h) == 6
    &&& (cut_splits_char(h) || (h.len() >= 2 && hex_pair(h[0], h[1]) is Some && cut_splits_char(
        h.skip(2),
    )))
}

/// Lower-case hexadecimal digit character of `d < 16`.
pub open spec fn lower_hex_char(d: nat) -> char {
    if d < 10 {
        (('0' as int) + d) as char
    } else {
        (('a' as int) + d - 10) as char
    }
}

/// Two lower-case hex digits for a byte (`{:02x}`).
pub open spec fn hex2(x: u8) -> Seq<char> {
    seq![lower_hex_char((x / 16) as nat), lower_hex_char((x % 16) as nat)]
}

/// The canonical text `#rrggbb` of a colour.
pub open spec fn canonical_hex(r: u8, g: u8, b: u8) -> Seq<char> {
    seq!['#'] + hex2(r) + hex2(g) + hex2(b)
}

/// The canonical form of a colour text, when it denotes one.
pub open spec fn normalize_hex_spec(s: Seq<char>) -> Option<Seq<char>> {
    match parse_hex_spec(s) {
        Some((r, g, b)) => Some(canonical_hex(r, g, b)),
        None => None,
    }
}

// ---------------------------------------------------------------------
// Lemmas and laws
// ---------------------------------------------------------------------

proof fn lemma_lower_hex_char(d: nat)
    requires
        d < 16,
    ensures
        hex_digit_val(lower_hex_char(d)) == Some(d),
        lower_hex_char(d) != '#',
        !is_ws(lower_hex_char(d)),
        utf8_width(lower_hex_char(d)) == 1,
{
}

proof fn lemma_hex2(x: u8)
    ensures
        hex_pair(hex2(x)[0], hex2(x)[1]) == Some(x),
        hex2(x).len() == 2,
        !is_ws(hex2(x)[1]),
        utf8_width(hex2(x)[0]) == 1,
        utf8_width(hex2(x)[1]) == 1,
{
    lemma_lower_hex_char((x / 16) as nat);
    lemma_lower_hex_char((x % 16) as nat);
}

/// Reading the canonical text of a colour gives the colour back, without
/// panicking.
pub proof fn lemma_parse_canonical(r: u8, g: u8, b: u8)
    ensures
        parse_hex_spec(canonical_hex(r, g, b)) == Some((r, g, b)),
        !parse_hex_panics(canonical_hex(r, g, b)),
        hex_body(canonical_hex(r, g, b)) == canonical_hex(r, g, b).drop_first(),
        canonical_hex(r, g, b).len() == 7,
{
    let t = canonical_hex(r, g, b);
    lemma_hex2(r);
    lemma_hex2(g);
    lemma_hex2(b);
    assert(t.len() == 7);
    assert(t[0] == '#');
    assert(t.last() == hex2(b)[1]);
    lemma_trim_clean(t);
    let h = t.drop_first();
    assert(strip_hashes(t) == strip_hashes(h));
    lemma_lower_hex_char((r / 16) as nat);
    assert(h[0] == hex2(r)[0]);
    assert(strip_hashes(h) == h);
    assert(h =~= hex2(r) + hex2(g) + hex2(b));
    assert(h[0] == hex2(r)[0] && h[1] == hex2(r)[1]);
    assert(h[2] == hex2(g)[0] && h[3] == hex2(g)[1]);
    assert(h[4] == hex2(b)[0] && h[5] == hex2(b)[1]);
    assert(!cut_splits_char(h));
}

/// A canonical colour text is its own canonical form, and it denotes the
/// same colour as the text it was made from.
pub proof fn law_normalize_idempotent(s: Seq<char>)
    requires
        normalize_hex_spec(s) is Some,
    ensures
        normalize_hex_spec(normalize_hex_spec(s)->0) == normalize_hex_spec(s),
        parse_hex_spec(normalize_hex_spec(s)->0) == parse_hex_spec(s),
        !parse_hex_panics(normalize_hex_spec(s)->0),
{
    let (r, g, b) = parse_hex_spec(s)->0;
    lemma_parse_canonical(r, g, b);
}

/// ASCII upper case of a character (`char::to_ascii_uppercase`).
pub open spec fn ascii_upper(c: char) -> char {
    if 'a' <= c && c <= 'z' {
        ((c as int) - 32) as char
    } else {
        c
    }
}

/// A text in ASCII upper case (`str::to_ascii_uppercase`).
pub open spec fn upper_text(s: Seq<char>) -> Seq<char> {
    s.map_values(|c: char| ascii_upper(c))
}

/// Every character of `w` is whitespace.
pub open spec fn all_ws(w: Seq<char>) -> bool {
    forall|i: int| 0 <= i < w.len() ==> is_ws(#[trigger] w[i])
}

proof fn lemma_upper_char(c: char)
    ensures
        is_ws(ascii_upper(c)) == is_ws(c),
        (ascii_upper(c) == '#') == (c == '#'),
        hex_digit_val(ascii_upper(c)) == hex_digit_val(c),
{
}

proof fn lemma_trim_start_upper(s: Seq<char>)
    ensures
        trim_start(upper_text(s)) == upper_text(trim_start(s)),
    decreases s.len(),
{
    if s.len() > 0 {
        lemma_upper_char(s[0]);
        assert(upper_text(s).drop_first() =~= upper_text(s.drop_first()));
        lemma_trim_start_upper(s.drop_first());
    }
}

proof fn lemma_trim_end_upper(s: Seq<char>)
    ensures
        trim_end(upper_text(s)) == upper_text(trim_end(s)),
    decreases s.len(),
{
    if s.len() > 0 {
        lemma_upper_char(s.last());
        assert(upper_text(s).drop_last() =~= upper_text(s.drop_last()));
        lemma_trim_end_upper(s.drop_last());
    }
}

proof fn lemma_strip_hashes_upper(s: Seq<char>)
    ensures
        strip_hashes(upper_text(s)) == upper_text(strip_hashes(s)),
    decreases s.len(),
{
    if s.len() > 0 {
        lemma_upper_char(s[0]);
        assert(upper_text(s).drop_first() =~= upper_text(s.drop_first()));
        lemma_strip_hashes_upper(s.drop_first());
    }
}

/// Law: letter case does not change the colour a text denotes.
pub proof fn law_parse_hex_ignores_case(s: Seq<char>)
    ensures
        parse_hex_spec(upper_text(s)) == parse_hex_spec(s),
{
    lemma_trim_start_upper(s);
    lemma_trim_end_upper(trim_start(s));
    lemma_strip_hashes_upper(trim(s));
    let h = hex_body(s);
    assert(hex_body(upper_text(s)) == upper_text(h));
    if h.len() == 6 {
        lemma_upper_char(h[0]);
        lemma_upper_char(h[1]);
        lemma_upper_char(h[2]);
        lemma_upper_char(h[3]);
        lemma_upper_char(h[4]);
        lemma_upper_char(h[5]);
    }
}

proof fn lemma_trim_start_ws_prefix(w: Seq<char>, t: Seq<char>)
    requires
        all_ws(w),
    ensures
        trim_start(w + t) == trim_start(t),
    decreases w.len(),
{
    if w.len() > 0 {
        assert((w + t).drop_first() =~= w.drop_first() + t);
        assert((w + t)[0] == w[0]);
        lemma_trim_start_ws_prefix(w.drop_first(), t);
    } else {
        assert(w + t =~= t);
    }
}

proof fn lemma_trim_end_ws_suffix(t: Seq<char>, w: Seq<char>)
    requires
        all_ws(w),
    ensures
        trim_end(t + w) == trim_end(t),
    decreases w.len(),
{
    if w.len() > 0 {
        assert((t + w).drop_last() =~= t + w.drop_last());
        assert((t + w).last() == w.last());
        lemma_trim_end_ws_suffix(t, w.drop_last());
    } else {
        assert(t + w =~= t);
    }
}

/// Law: surrounding whitespace and one more leading `#` do not change the
/// colour a text denotes.
pub proof fn law_parse_hex_ignores_padding(s: Seq<char>, w1: Seq<char>, w2: Seq<char>)
    requires
        all_ws(w1),
        all_ws(w2),
        s.len() == 0 || (!is_ws(s[0]) && !is_ws(s.last())),
    ensures
        parse_hex_spec(w1 + seq!['#'] + s + w2) == parse_hex_spec(s),
{
    let x = seq!['#'] + s;
    assert(w1 + seq!['#'] + s + w2 =~= w1 + (x + w2));
    lemma_trim_start_ws_prefix(w1, x + w2);
    assert((x + w2)[0] == '#');
    assert(trim_start(x + w2) == x + w2);
    lemma_trim_end_ws_suffix(x, w2);
    assert(x.last() == (if s.len() == 0 { '#' } else { s.last() }));
    assert(trim_end(x) == x);
    assert(trim(w1 + seq!['#'] + s + w2) == x);
    assert(x.drop_first() =~= s);
    assert(strip_hashes(x) == strip_hashes(s));
    lemma_trim_clean(s);
}

// ---------------------------------------------------------------------
// Executable functions
// ---------------------------------------------------------------------

fn hex_digit(c: char) -> (r: Option<u32>)
    ensures
        match r {
            Some(v) => hex_digit_val(c) == Some(v as nat) && v < 16,
            None => hex_digit_val(c) is None,
        },
{
    if '0' <= c && c <= '9' {
        Some(c as u32 - '0' as u32)
    } else if 'a' <= c && c <= 'f' {
        Some(c as u32 - 'a' as u32 + 10)
    } else if 'A' <= c && c <= 'F' {
        Some(c as u32 - 'A' as u32 + 10)
    } else {
        None
    }
}

fn read_pair(a: char, b: char) -> (r: Option<u8>)
    ensures
        r == hex_pair(a, b),
{
    match (hex_digit(a), hex_digit(b)) {
        (Some(x), Some(y)) => Some((x * 16 + y) as u8),
        _ => None,
    }
}

/// `v` without its leading `#` characters.
fn strip_hash_chars(v: &Vec<char>) -> (r: Vec<char>)
    ensures
        r@ == strip_hashes(v@),
{
    let n = v.len();
    let mut a: usize = 0;
    assert(v@.skip(0) =~= v@);
    while a < n && v[a] == '#'
        invariant
            a <= n == v.len(),
            strip_hashes(v@) == strip_hashes(v@.skip(a as int)),
        decreases n - a,
    {
        assert(v@.skip(a as int).drop_first() =~= v@.skip(a + 1));
        a += 1;
    }
    assert(v@.skip(a as int) =~= v@.subrange(a as int, n as int));
    sub_chars(v, a, n)
}

/// Whether reading `hex` as a colour would panic (see `parse_hex_panics`):
/// callers outside the verified library test this before `parse_hex`.
pub fn parse_hex_would_panic(hex: &str) -> (r: bool)
    ensures
        r == parse_hex_panics(hex@),
{
    let h = strip_hash_chars(&trim_chars(&chars_of(hex)));
    let mut len: usize = 0;
    let mut i: usize = 0;
    assert(h@.take(0) =~= Seq::<char>::empty());
    while i < h.len()
        invariant
            i <= h.len(),
            len == utf8_len(h@.take(i as int)),
            len <= 6,
            h@ == hex_body(hex@),
        decreases h.len() - i,
    {
        assert(h@.take(i + 1).drop_last() =~= h@.take(i as int));
        len += width_of(h[i]);
        i += 1;
        if len > 6 {
            proof {
                lemma_utf8_len_prefix(h@, i as int);
            }
            return false;
        }
    }
    assert(h@.take(h.len() as int) =~= h@);
    if len != 6 {
        return false;
    }
    if cuts_char(&h, 0) {
        return true;
    }
    if h.len() >= 2 {
        assert(h@.skip(2).len() == h@.len() - 2);
        if read_pair(h[0], h[1]).is_some() && cuts_char(&h, 2) {
            return true;
        }
    }
    false
}

fn width_of(c: char) -> (w: usize)
    ensures
        w == utf8_width(c),
{
    let u = c as u32;
    if u < 0x80 {
        1
    } else if u < 0x800 {
        2
    } else if u < 0x10000 {
        3
    } else {
        4
    }
}

/// Whether cutting two bytes off `h[k..]` would split a character.
fn cuts_char(h: &Vec<char>, k: usize) -> (r: bool)
    requires
        k <= h.len(),
    ensures
        r == cut_splits_char(h@.skip(k as int)),
{
    let ghost s = h@.skip(k as int);
    if k >= h.len() {
        return false;
    }
    let w0 = width_of(h[k]);
    assert(s[0] == h@[k as int]);
    if w0 >= 3 {
        return true;
    }
    if w0 == 1 && k + 1 < h.len() {
        assert(s[1] == h@[k + 1]);
        return width_of(h[k + 1]) > 1;
    }
    false
}

/// Reads a colour text `#rrggbb` (leading `#`s and surrounding whitespace
/// are ignored) into its red, green and blue components.
pub fn parse_hex(hex: &str) -> (r: Option<(u8, u8, u8)>)
    requires
        !parse_hex_panics(hex@),
    ensures
        r == parse_hex_spec(hex@),
{
    let h = strip_hash_chars(&trim_chars(&chars_of(hex)));
    if h.len() != 6 {
        return None;
    }
    let r = read_pair(h[0], h[1]);
    let g = read_pair(h[2], h[3]);
    let b = read_pair(h[4], h[5]);
    match (r, g, b) {
        (Some(r), Some(g), Some(b)) => Some((r, g, b)),
        _ => None,
    }
}

fn lower_hex_digit(d: u8) -> (c: char)
    requires
        d < 16,
    ensures
        c == lower_hex_char(d as nat),
{
    match d {
        0 => '0',
        1 => '1',
        2 => '2',
        3 => '3',
        4 => '4',
        5 => '5',
        6 => '6',
        7 => '7',
        8 => '8',
        9 => '9',
        10 => 'a',
        11 => 'b',
        12 => 'c',
        13 => 'd',
        14 => 'e',
        _ => 'f',
    }
}

fn push_hex2(s: &mut String, x: u8)
    ensures
        final(s)@ == old(s)@ + hex2(x),
{
    let ghost s0 = s@;
    push_char(s, lower_hex_digit(x / 16));
    push_char(s, lower_hex_digit(x % 16));
    assert(s@ =~= s0 + hex2(x));
}

/// The canonical lower-case text `#rrggbb` of a colour text, if it denotes
/// a colour.
pub fn normalize_hex(hex: &str) -> (r: Option<String>)
    requires
        !parse_hex_panics(hex@),
    ensures
        match r {
            Some(t) => normalize_hex_spec(hex@) == Some(t@),
            None => normalize_hex_spec(hex@) is None,
        },
{
    match parse_hex(hex) {
        Some((r, g, b)) => {
            let mut s = String::new();
            push_char(&mut s, '#');
            push_hex2(&mut s, r);
            push_hex2(&mut s, g);
            push_hex2(&mut s, b);
            assert(s@ =~= canonical_hex(r, g, b));
            Some(s)
        },
        None => None,
    }
}

} // verus!
