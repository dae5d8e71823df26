//! What the editor shows: 24-bit colour swatches, the title with its live
//! preview, the category list, the settings of the current category and
//! the status line. Text that the terminal library styles (bold, reverse,
//! underline, 256-colour foreground) is handed out as spans with a style.
use vstd::prelude::*;
use crate::hex::{parse_hex, parse_hex_panics, parse_hex_spec, parse_hex_would_panic};
use crate::model::{
    default_categories, font_size_at, font_sizes, same_cat_shape, same_item_shape, theme_name,
    theme_name_at, wf_state, App, AppV, CategoryV, ItemKind, ItemV, KindV, lemma_layout_lengths,
};
use crate::nav::{color_of, items_len};
use crate::text::{
    chars_of, decimal, pad_right, push_char, push_decimal, push_padded, push_str, string_of,
    all_digits, is_digit, lemma_decimal_digits, lemma_parse_decimal, parse_u32,
};

verus! {

broadcast use {vstd::string::group_string_axioms, crate::model::lemma_app_view};

// ---------------------------------------------------------------------
// 24-bit colour
// ---------------------------------------------------------------------

/// The escape sequence that selects a 24-bit colour (`code` 38 for the
/// foreground, 48 for the background).
pub open spec fn esc24(code: Seq<char>, r: u8, g: u8, b: u8) -> Seq<char> {
    seq!['\u{1b}', '['] + code + seq![';', '2', ';'] + decimal(r as nat) + seq![';'] + decimal(
        g as nat,
    ) + seq![';'] + decimal(b as nat) + seq!['m']
}

/// The escape sequence that resets all attributes.
pub open spec fn reset_seq() -> Seq<char> {
    seq!['\u{1b}', '[', '0', 'm']
}

/// `text` in the 24-bit colour `hex`, or plain when `hex` is no colour.
pub open spec fn colored(code: Seq<char>, text: Seq<char>, hex: Seq<char>) -> Seq<char> {
    match parse_hex_spec(hex) {
        Some((r, g, b)) => esc24(code, r, g, b) + text + reset_seq(),
        None => text,
    }
}

pub open spec fn fg24_spec(text: Seq<char>, hex: Seq<char>) -> Seq<char> {
    colored(seq!['3', '8'], text, hex)
}

pub open spec fn bg24_spec(text: Seq<char>, hex: Seq<char>) -> Seq<char> {
    colored(seq!['4', '8'], text, hex)
}

fn push_colored(out: &mut String, background: bool, text: &str, hex: &str)
    requires
        !parse_hex_panics(hex@),
    ensures
        final(out)@ == old(out)@ + colored(
            if background {
                seq!['4', '8']
            } else {
                seq!['3', '8']
            },
            text@,
            hex@,
        ),
{
    let ghost o = out@;
    match parse_hex(hex) {
        Some((r, g, b)) => {
            push_char(out, '\u{1b}');
            push_char(out, '[');
            if background {
                push_char(out, '4');
            } else {
                push_char(out, '3');
            }
            push_char(out, '8');
            push_char(out, ';');
            push_char(out, '2');
            push_char(out, ';');
            push_decimal(out, r as u64);
            push_char(out, ';');
            push_decimal(out, g as u64);
            push_char(out, ';');
            push_decimal(out, b as u64);
            push_char(out, 'm');
            push_str(out, text);
            push_char(out, '\u{1b}');
            push_char(out, '[');
            push_char(out, '0');
            push_char(out, 'm');
            let ghost code = if background {
                seq!['4', '8']
            } else {
                seq!['3', '8']
            };
            assert(out@ =~= o + (esc24(code, r, g, b) + text@ + reset_seq()));
        },
        None => {
            push_str(out, text);
        },
    }
}

/// `text` in the 24-bit foreground colour `hex` (`fg24`).
pub fn fg24(text: &str, hex: &str) -> (r: String)
    requires
        !parse_hex_panics(hex@),
    ensures
        r@ == fg24_spec(text@, hex@),
{
    let mut out = String::new();
    push_colored(&mut out, false, text, hex);
    out
}

/// `text` on the 24-bit background colour `hex` (`bg24`).
pub fn bg24(text: &str, hex: &str) -> (r: String)
    requires
        !parse_hex_panics(hex@),
    ensures
        r@ == bg24_spec(text@, hex@),
{
    let mut out = String::new();
    push_colored(&mut out, true, text, hex);
    out
}

// ---------------------------------------------------------------------
// Styled spans
// ---------------------------------------------------------------------

/// How the terminal library is to style a span.
#[derive(Clone, Copy, Debug)]
pub enum Style {
    Plain,
    /// 256-colour foreground.
    Fg(u8),
    /// Bold, in a 256-colour foreground.
    BoldFg(u8),
    Underline,
    Reverse,
}

/// A piece of a line, with its style.
pub struct Span {
    pub text: String,
    pub style: Style,
}

pub struct SpanV {
    pub text: Seq<char>,
    pub style: Style,
}

impl View for Span {
    type V = SpanV;

    open spec fn view(&self) -> SpanV {
        SpanV { text: self.text@, style: self.style }
    }
}

pub open spec fn plain(t: Seq<char>) -> SpanV {
    SpanV { text: t, style: Style::Plain }
}

pub open spec fn styled(t: Seq<char>, st: Style) -> SpanV {
    SpanV { text: t, style: st }
}

/// The views of lines of spans.
pub open spec fn lines_view(v: Seq<Vec<Span>>) -> Seq<Seq<SpanV>> {
    v.map_values(|l: Vec<Span>| l@.map_values(|sp: Span| sp@))
}

fn span(text: String, style: Style) -> (r: Span)
    ensures
        r@ == styled(text@, style),
{
    Span { text, style }
}

// ---------------------------------------------------------------------
// The preview colours
// ---------------------------------------------------------------------

/// A colour of the settings, or `dflt` where there is none.
pub open spec fn color_or(cats: Seq<CategoryV>, key: Seq<char>, dflt: Seq<char>) -> Seq<char> {
    match color_of(cats, key) {
        Some(c) => c,
        None => dflt,
    }
}

pub open spec fn preview_bg(cats: Seq<CategoryV>) -> Seq<char> {
    color_or(cats, "bg"@, "#000000"@)
}

pub open spec fn preview_fg(cats: Seq<CategoryV>) -> Seq<char> {
    color_or(cats, "fg"@, "#ffffff"@)
}

pub open spec fn preview_cursor(cats: Seq<CategoryV>) -> Seq<char> {
    color_or(cats, "cursor"@, "#f7768e"@)
}

/// The preview colours can be read without a panic.
pub open spec fn preview_safe(cats: Seq<CategoryV>) -> bool {
    &&& !parse_hex_panics(preview_bg(cats))
    &&& !parse_hex_panics(preview_fg(cats))
    &&& !parse_hex_panics(preview_cursor(cats))
}

/// The prompt line of the preview: a prompt, a cursor and a blank.
pub open spec fn prompt_preview(cats: Seq<CategoryV>, prompt: Seq<char>) -> Seq<char> {
    let bg = preview_bg(cats);
    bg24_spec(fg24_spec(prompt, preview_fg(cats)), bg) + bg24_spec(
        fg24_spec(">"@, preview_cursor(cats)),
        bg,
    ) + bg24_spec(" "@, bg)
}

impl App {
    fn preview_colors(&self) -> (r: (&str, &str, &str))
        requires
            preview_safe(self.cats()),
        ensures
            r.0@ == preview_bg(self.cats()),
            r.1@ == preview_fg(self.cats()),
            r.2@ == preview_cursor(self.cats()),
    {
        let bg = match self.current_color("bg") {
            Some(c) => c,
            None => "#000000",
        };
        let fg = match self.current_color("fg") {
            Some(c) => c,
            None => "#ffffff",
        };
        let cursor = match self.current_color("cursor") {
            Some(c) => c,
            None => "#f7768e",
        };
        (bg, fg, cursor)
    }

    fn push_prompt_preview(&self, out: &mut String, prompt: &str)
        requires
            preview_safe(self.cats()),
        ensures
            final(out)@ == old(out)@ + prompt_preview(self.cats(), prompt@),
    {
        let ghost o = out@;
        let (bg, fg, cursor) = self.preview_colors();
        let a = fg24(prompt, fg);
        push_colored(out, true, a.as_str(), bg);
        let b = fg24(">", cursor);
        push_colored(out, true, b.as_str(), bg);
        push_colored(out, true, " ", bg);
        assert(out@ =~= o + prompt_preview(self.cats(), prompt@));
    }
}

// ---------------------------------------------------------------------
// Title, categories, status
// ---------------------------------------------------------------------

/// The title line: the program name, a mark when modified, and a preview
/// of the prompt in the current colours.
pub open spec fn title_spec(s: AppV) -> Seq<char> {
    " glassconf"@ + (if s.dirty {
        " [modified]"@
    } else {
        Seq::<char>::empty()
    }) + "    preview:"@ + seq![' '] + prompt_preview(s.cats, " geir@juba: ~/ "@)
}

/// The category list: each name between blanks, the current one
/// reversed.
pub open spec fn category_spans(s: AppV) -> Seq<SpanV> {
    Seq::new(
        s.cats.len(),
        |c: int|
            styled(
                seq![' '] + s.cats[c].name + seq![' '],
                if c == s.cat_index {
                    Style::Reverse
                } else {
                    Style::Plain
                },
            ),
    )
}

/// The status line: the position in the category and the key help.
pub open spec fn status_spec(s: AppV) -> Seq<char> {
    seq![' '] + decimal(s.item_index + 1) + seq!['/'] + decimal(items_len(s))
        + "  j/k:item  J/K:category  h/l:change  Enter:edit  W/s:save  q:quit"@
}

impl App {
    /// The title line (the text of the top pane in `render`).
    pub fn title_text(&self) -> (r: String)
        requires
            preview_safe(self.cats()),
        ensures
            r@ == title_spec(self@),
    {
        proof {
            use_type_invariant(&*self);
        }
        let mut out = string_of(" glassconf");
        if self.dirty {
            push_str(&mut out, " [modified]");
        }
        push_str(&mut out, "    preview:");
        push_char(&mut out, ' ');
        let ghost mid = out@;
        self.push_prompt_preview(&mut out, " geir@juba: ~/ ");
        assert(out@ =~= title_spec(self@));
        out
    }

    /// The category list (the left pane in `render`).
    pub fn category_list(&self) -> (r: Vec<Span>)
        ensures
            r@.map_values(|sp: Span| sp@) == category_spans(self@),
    {
        proof {
            use_type_invariant(&*self);
        }
        let ghost s = self@;
        let mut out: Vec<Span> = Vec::new();
        let n = self.categories.len();
        let mut c: usize = 0;
        while c < n
            invariant
                c <= n == self.categories@.len() == s.cats.len(),
                s == self@,
                out@.len() == c,
                forall|j: int|
                    0 <= j < c ==> #[trigger] out@[j]@ == category_spans(s)[j],
            decreases n - c,
        {
            let mut t = String::new();
            push_char(&mut t, ' ');
            push_str(&mut t, self.categories[c].name.as_str());
            push_char(&mut t, ' ');
            let st = if c == self.cat_index {
                Style::Reverse
            } else {
                Style::Plain
            };
            assert(self.categories@[c as int]@ == s.cats[c as int]);
            assert(t@ =~= seq![' '] + s.cats[c as int].name + seq![' ']);
            out.push(span(t, st));
            assert(out@[c as int]@ == category_spans(s)[c as int]);
            c += 1;
        }
        assert(out@.map_values(|sp: Span| sp@) =~= category_spans(s));
        out
    }

    /// The status line (the bottom pane in `render`).
    pub fn status_text(&self) -> (r: String)
        ensures
            r@ == status_spec(self@),
    {
        proof {
            use_type_invariant(&*self);
        }
        let ghost s = self@;
        let ghost d = default_categories();
        assert(same_cat_shape(s.cats[self.cat_index as int], d[self.cat_index as int]));
        let len = if self.cat_index < self.categories.len() {
            self.categories[self.cat_index].items.len()
        } else {
            0
        };
        let mut out = String::new();
        push_char(&mut out, ' ');
        push_decimal(&mut out, self.item_index as u64 + 1);
        push_char(&mut out, '/');
        push_decimal(&mut out, len as u64);
        push_str(&mut out, "  j/k:item  J/K:category  h/l:change  Enter:edit  W/s:save  q:quit");
        assert(out@ =~= status_spec(s));
        out
    }
}

// ---------------------------------------------------------------------
// The settings of the current category
// ---------------------------------------------------------------------

/// The swatches of a colour list, one after another.
pub open spec fn swatches(v: Seq<Seq<char>>) -> Seq<char>
    decreases v.len(),
{
    if v.len() == 0 {
        Seq::<char>::empty()
    } else {
        swatches(v.drop_last()) + bg24_spec("  "@, v.last())
    }
}

/// How a value is shown.
pub open spec fn value_spans(k: KindV, theme_idx: nat) -> Seq<SpanV> {
    match k {
        KindV::HexColor(hex) => seq![plain(bg24_spec("    "@, hex) + seq![' '] + hex)],
        KindV::FontSize(i) => seq![plain(decimal(font_sizes()[i as int] as nat))],
        KindV::Number(v, _, _) => seq![plain(decimal(v as nat))],
        KindV::BgCycle(v) => {
            let tail = " ("@ + decimal(v.len()) + " colors)"@;
            if v.len() == 0 {
                seq![styled("(empty)"@, Style::Fg(245)), plain(tail)]
            } else {
                seq![plain(swatches(v) + tail)]
            }
        },
        KindV::Toggle(on, a, b) => if on {
            seq![styled(a, Style::Fg(82))]
        } else {
            seq![styled(b, Style::Fg(245))]
        },
        KindV::Keybind(s) => if s.len() == 0 {
            seq![styled("(disabled)"@, Style::Fg(245))]
        } else {
            seq![styled(s, Style::Fg(81))]
        },
        KindV::Theme => seq![styled(theme_name(theme_idx as int), Style::Fg(220))],
    }
}

/// The line of one setting: its label padded to 20 characters (underlined
/// when selected), arrows around the value when selected.
pub open spec fn item_spans(it: ItemV, selected: bool, theme_idx: nat) -> Seq<SpanV> {
    seq![
        plain("  "@),
        styled(
            pad_right(it.label, 20),
            if selected {
                Style::Underline
            } else {
                Style::Plain
            },
        ),
        plain(
            if selected {
                "\u{25C0} "@
            } else {
                "  "@
            },
        ),
    ] + value_spans(it.kind, theme_idx) + seq![
        plain(
            if selected {
                " \u{25B6}"@
            } else {
                "  "@
            },
        ),
    ]
}

/// Every colour of a value can be read without a panic.
pub open spec fn kind_safe(k: KindV) -> bool {
    match k {
        KindV::HexColor(hex) => !parse_hex_panics(hex),
        KindV::BgCycle(v) => forall|j: int| 0 <= j < v.len() ==> !parse_hex_panics(#[trigger] v[j]),
        _ => true,
    }
}

/// Every colour shown for the current category can be read without a
/// panic.
pub open spec fn items_safe(s: AppV) -> bool {
    let items = s.cats[s.cat_index as int].items;
    forall|i: int| 0 <= i < items.len() ==> kind_safe(#[trigger] items[i].kind)
}

/// The lines of the settings pane: the category name in
/// bold, a rule, a blank line, one line per setting, then a blank line and
/// a live preview of the prompt and a command line in the current colours.
pub open spec fn item_lines_spec(s: AppV) -> Seq<Seq<SpanV>> {
    let cat = s.cats[s.cat_index as int];
    let bg = preview_bg(s.cats);
    seq![
        seq![styled(cat.name, Style::BoldFg(81))],
        seq![styled(Seq::new(40, |i: int| '\u{2500}'), Style::Fg(245))],
        Seq::<SpanV>::empty(),
    ] + Seq::new(
        cat.items.len(),
        |i: int| item_spans(cat.items[i], i == s.item_index, s.theme_idx),
    ) + seq![
        Seq::<SpanV>::empty(),
        seq![styled("Live preview:"@, Style::Fg(245))],
        seq![plain(prompt_preview(s.cats, " geir@juba: ~/projects "@))],
        seq![plain(bg24_spec(pad_right(" ls -la | grep glass"@, 60), bg))],
        seq![plain(bg24_spec(pad_right(" "@, 60), bg))],
    ]
}

fn value_span_vec(k: &ItemKind, theme_idx: usize) -> (r: Vec<Span>)
    requires
        theme_idx < 6,
        kind_safe(k@),
        k@ is FontSize ==> k@->FontSize_0 < 9,
    ensures
        r@.map_values(|sp: Span| sp@) == value_spans(k@, theme_idx as nat),
{
    let mut out: Vec<Span> = Vec::new();
    match k {
        ItemKind::HexColor(hex) => {
            assert(k@ == KindV::HexColor(hex@));
            let mut t = bg24("    ", hex.as_str());
            push_char(&mut t, ' ');
            push_str(&mut t, hex.as_str());
            assert(t@ =~= bg24_spec("    "@, hex@) + seq![' '] + hex@);
            out.push(span(t, Style::Plain));
            assert(out@.map_values(|sp: Span| sp@) =~= value_spans(k@, theme_idx as nat));
        },
        ItemKind::FontSize(i) => {
            let mut t = String::new();
            push_decimal(&mut t, font_size_at(*i) as u64);
            out.push(span(t, Style::Plain));
        },
        ItemKind::Number(v, _, _) => {
            let mut t = String::new();
            push_decimal(&mut t, *v as u64);
            out.push(span(t, Style::Plain));
        },
        ItemKind::BgCycle(v) => {
            let ghost vs = v@.map_values(|x: String| x@);
            assert(k@ == KindV::BgCycle(vs));
            assert(kind_safe(k@));
            let ghost kv = k@->BgCycle_0;
            assert(kv =~= vs);
            assert forall|q: int| 0 <= q < vs.len() implies !parse_hex_panics(#[trigger] vs[q]) by {
                assert(!parse_hex_panics(kv[q]));
            }
            let mut sw = String::new();
            let mut j: usize = 0;
            assert(vs.take(0) =~= Seq::<Seq<char>>::empty());
            while j < v.len()
                invariant
                    j <= v.len(),
                    vs == v@.map_values(|x: String| x@),
                    forall|q: int| 0 <= q < vs.len() ==> !parse_hex_panics(#[trigger] vs[q]),
                    sw@ == swatches(vs.take(j as int)),
                decreases v.len() - j,
            {
                assert(vs.take(j + 1).drop_last() =~= vs.take(j as int));
                assert(vs[j as int] == v@[j as int]@);
                push_colored(&mut sw, true, "  ", v[j].as_str());
                j += 1;
            }
            assert(vs.take(v.len() as int) =~= vs);
            let mut tail = string_of(" (");
            push_decimal(&mut tail, v.len() as u64);
            push_str(&mut tail, " colors)");
            assert(vs.len() == v.len());
            if v.len() == 0 {
                out.push(span(string_of("(empty)"), Style::Fg(245)));
                out.push(span(tail, Style::Plain));
                assert(out@.map_values(|sp: Span| sp@) =~= value_spans(k@, theme_idx as nat));
            } else {
                push_str(&mut sw, tail.as_str());
                out.push(span(sw, Style::Plain));
                assert(out@.map_values(|sp: Span| sp@) =~= value_spans(k@, theme_idx as nat));
            }
        },
        ItemKind::Toggle(on, a, b) => {
            if *on {
                out.push(span(string_of(a), Style::Fg(82)));
            } else {
                out.push(span(string_of(b), Style::Fg(245)));
            }
        },
        ItemKind::Keybind(s) => {
            if s.as_str().is_empty() {
                out.push(span(string_of("(disabled)"), Style::Fg(245)));
            } else {
                out.push(span(s.clone(), Style::Fg(81)));
            }
        },
        ItemKind::Theme => {
            out.push(span(string_of(theme_name_at(theme_idx)), Style::Fg(220)));
        },
    }
    assert(out@.map_values(|sp: Span| sp@) =~= value_spans(k@, theme_idx as nat));
    out
}

fn item_span_vec(label: &String, k: &ItemKind, selected: bool, theme_idx: usize) -> (r: Vec<Span>)
    requires
        theme_idx < 6,
        kind_safe(k@),
        k@ is FontSize ==> k@->FontSize_0 < 9,
    ensures
        r@.map_values(|sp: Span| sp@) == item_spans(
            ItemV { label: label@, key: Seq::<char>::empty(), kind: k@ },
            selected,
            theme_idx as nat,
        ),
{
    let mut out: Vec<Span> = Vec::new();
    out.push(span(string_of("  "), Style::Plain));
    let mut padded = String::new();
    push_padded(&mut padded, &chars_of(label.as_str()), 20);
    out.push(span(padded, if selected {
        Style::Underline
    } else {
        Style::Plain
    }));
    out.push(span(string_of(if selected {
        "\u{25C0} "
    } else {
        "  "
    }), Style::Plain));
    let ghost head = out@.map_values(|sp: Span| sp@);
    let mut vals = value_span_vec(k, theme_idx);
    out.append(&mut vals);
    out.push(span(string_of(if selected {
        " \u{25B6}"
    } else {
        "  "
    }), Style::Plain));
    assert(out@.map_values(|sp: Span| sp@) =~= item_spans(
        ItemV { label: label@, key: Seq::<char>::empty(), kind: k@ },
        selected,
        theme_idx as nat,
    ));
    out
}

fn one_span(text: String, style: Style) -> (r: Vec<Span>)
    ensures
        r@.map_values(|sp: Span| sp@) == seq![styled(text@, style)],
{
    let mut v: Vec<Span> = Vec::new();
    v.push(span(text, style));
    assert(v@.map_values(|sp: Span| sp@) =~= seq![styled(text@, style)]);
    v
}

impl App {
    /// The lines of the settings pane (the right pane in `render`).
    pub fn item_lines(&self) -> (r: Vec<Vec<Span>>)
        requires
            preview_safe(self.cats()),
            items_safe(self@),
        ensures
            lines_view(r@) == item_lines_spec(self@),
    {
        proof {
            use_type_invariant(&*self);
        }
        let ghost s = self@;
        let ghost d = default_categories();
        let ci = self.cat_index;
        assert(same_cat_shape(s.cats[ci as int], d[ci as int]));
        let cat = &self.categories[ci];
        let ghost cv = s.cats[ci as int];
        assert(cv == cat@);
        let mut lines: Vec<Vec<Span>> = Vec::new();
        lines.push(one_span(cat.name.clone(), Style::BoldFg(81)));
        let mut rule = String::new();
        let mut k: usize = 0;
        while k < 40
            invariant
                k <= 40,
                rule@ == Seq::new(k as nat, |i: int| '\u{2500}'),
            decreases 40 - k,
        {
            push_char(&mut rule, '\u{2500}');
            k += 1;
            assert(rule@ =~= Seq::new(k as nat, |i: int| '\u{2500}'));
        }
        lines.push(one_span(rule, Style::Fg(245)));
        lines.push(Vec::new());
        assert(lines_view(lines@)[2] =~= Seq::<SpanV>::empty());
        let ghost first = seq![
            seq![styled(cv.name, Style::BoldFg(81))],
            seq![styled(Seq::new(40, |i: int| '\u{2500}'), Style::Fg(245))],
            Seq::<SpanV>::empty(),
        ];
        assert(lines_view(lines@) =~= first);
        let ghost mid = Seq::new(
            cv.items.len(),
            |i: int| item_spans(cv.items[i], i == s.item_index, s.theme_idx),
        );
        let m = cat.items.len();
        let mut i: usize = 0;
        assert(mid.take(0) =~= Seq::<Seq<SpanV>>::empty());
        assert(lines_view(lines@) =~= first + mid.take(0));
        while i < m
            invariant
                s == self@,
                wf_state(s),
                cat == &self.categories@[ci as int],
                ci == s.cat_index,
                cv == s.cats[ci as int],
                cv == cat@,
                m == cat.items@.len() == cv.items.len(),
                same_cat_shape(cv, d[ci as int]),
                d == default_categories(),
                items_safe(s),
                i <= m,
                mid == Seq::new(
                    cv.items.len(),
                    |i: int| item_spans(cv.items[i], i == s.item_index, s.theme_idx),
                ),
                lines_view(lines@) == first + mid.take(i as int),
            decreases m - i,
        {
            let it = &cat.items[i];
            assert(it@ == cv.items[i as int]);
            assert(same_item_shape(cv.items[i as int], d[ci as int].items[i as int]));
            let row = item_span_vec(&it.label, &it.kind, i == self.item_index, self.theme_idx);
            assert(item_spans(
                ItemV { label: it.label@, key: Seq::<char>::empty(), kind: it.kind@ },
                i == self.item_index,
                s.theme_idx,
            ) == mid[i as int]);
            let ghost before = lines_view(lines@);
            lines.push(row);
            assert(lines_view(lines@) =~= before.push(mid[i as int]));
            assert(mid.take(i + 1) =~= mid.take(i as int).push(mid[i as int]));
            i += 1;
        }
        assert(mid.take(m as int) =~= mid);
        let ghost upto = lines_view(lines@);
        lines.push(Vec::new());
        lines.push(one_span(string_of("Live preview:"), Style::Fg(245)));
        let mut l1 = String::new();
        self.push_prompt_preview(&mut l1, " geir@juba: ~/projects ");
        lines.push(one_span(l1, Style::Plain));
        let (bg, _, _) = self.preview_colors();
        let mut p2 = String::new();
        push_padded(&mut p2, &chars_of(" ls -la | grep glass"), 60);
        lines.push(one_span(bg24(p2.as_str(), bg), Style::Plain));
        let mut p3 = String::new();
        push_padded(&mut p3, &chars_of(" "), 60);
        lines.push(one_span(bg24(p3.as_str(), bg), Style::Plain));
        assert(lines_view(lines@) =~= item_lines_spec(s));
        lines
    }
}


impl App {
    /// Whether drawing the screen would panic on a colour that cannot be
    /// read (see `preview_safe` and `items_safe`): callers outside the
    /// verified library test this before `title_text` and `item_lines`.
    pub fn render_would_panic(&self) -> (r: bool)
        ensures
            r == !(preview_safe(self.cats()) && items_safe(self@)),
    {
        proof {
            use_type_invariant(&*self);
        }
        let ghost s = self@;
        let bg = match self.current_color("bg") {
            Some(c) => c,
            None => "#000000",
        };
        let fg = match self.current_color("fg") {
            Some(c) => c,
            None => "#ffffff",
        };
        let cursor = match self.current_color("cursor") {
            Some(c) => c,
            None => "#f7768e",
        };
        if parse_hex_would_panic(bg) || parse_hex_would_panic(fg) || parse_hex_would_panic(cursor) {
            return true;
        }
        let ci = self.cat_index;
        let ghost d = default_categories();
        assert(same_cat_shape(s.cats[ci as int], d[ci as int]));
        let items = &self.categories[ci].items;
        let ghost iv = s.cats[ci as int].items;
        assert(iv == items@.map_values(|i: crate::model::Item| i@));
        let mut i: usize = 0;
        while i < items.len()
            invariant
                s == self@,
                wf_state(s),
                preview_safe(self.cats()),
                items == &self.categories@[ci as int].items,
                ci == s.cat_index,
                i <= items@.len() == iv.len(),
                iv == items@.map_values(|i: crate::model::Item| i@),
                iv == s.cats[s.cat_index as int].items,
                forall|j: int| 0 <= j < i ==> kind_safe(#[trigger] iv[j].kind),
            decreases items@.len() - i,
        {
            assert(items@[i as int]@ == iv[i as int]);
            match &items[i].kind {
                ItemKind::HexColor(hex) => {
                    if parse_hex_would_panic(hex.as_str()) {
                        assert(iv[i as int].kind == KindV::HexColor(hex@));
                        assert(!kind_safe(iv[i as int].kind));
                        assert(!items_safe(s));
                        return true;
                    }
                },
                ItemKind::BgCycle(v) => {
                    let ghost vs = v@.map_values(|x: String| x@);
                    let ghost kv = iv[i as int].kind->BgCycle_0;
                    assert(iv[i as int].kind == KindV::BgCycle(vs));
                    let mut j: usize = 0;
                    assert(kv =~= vs);
                    while j < v.len()
                        invariant
                            s == self@,
                            i < iv.len(),
                            iv == s.cats[s.cat_index as int].items,
                            kv == iv[i as int].kind->BgCycle_0,
                            iv[i as int].kind == KindV::BgCycle(vs),
                            j <= v.len(),
                            vs == v@.map_values(|x: String| x@),
                            forall|q: int| 0 <= q < j ==> !parse_hex_panics(#[trigger] vs[q]),
                        decreases v.len() - j,
                    {
                        assert(vs[j as int] == v@[j as int]@);
                        if parse_hex_would_panic(v[j].as_str()) {
                            assert(parse_hex_panics(kv[j as int]));
                            assert(!kind_safe(iv[i as int].kind));
                            assert(!items_safe(s));
                            return true;
                        }
                        j += 1;
                    }
                },
                _ => {},
            }
            i += 1;
        }
        false
    }
}

/// Under the default layout, a category holds at most five settings.
proof fn lemma_items_len_small(s: AppV)
    requires
        wf_state(s),
    ensures
        items_len(s) <= 5,
        s.item_index < items_len(s),
{
    lemma_layout_lengths(s);
    let d = default_categories();
    assert(d[0].items.len() == 1);
    assert(d[1].items.len() == 3);
    assert(d[2].items.len() == 2);
    assert(d[3].items.len() == 3);
    assert(d[4].items.len() == 1);
    assert(d[5].items.len() == 5);
    assert(s.cats[s.cat_index as int].items.len() == d[s.cat_index as int].items.len());
}

/// Law: the status line starts with the selected setting's position in its
/// category, counted from one, then `/`, then the number of settings in the
/// category; the position never exceeds that number.
pub proof fn law_status_position(s: AppV)
    requires
        wf_state(s),
    ensures
        ({
            let t = status_spec(s);
            let k: int = decimal(s.item_index + 1).len() as int + 1;
            let k2: int = k + 1 + decimal(items_len(s)).len();
            &&& t[0] == ' '
            &&& 1 < k < k2 < t.len()
            &&& t[k] == '/'
            &&& forall|j: int| 1 <= j < k ==> t[j] != '/'
            &&& parse_u32(t.subrange(1, k)) == Some((s.item_index + 1) as u32)
            &&& t[k2] == ' '
            &&& parse_u32(t.subrange(k + 1, k2)) == Some(items_len(s) as u32)
            &&& s.item_index + 1 <= items_len(s)
        }),
{
    lemma_items_len_small(s);
    let a = decimal(s.item_index + 1);
    let b = decimal(items_len(s));
    lemma_decimal_digits(s.item_index + 1);
    lemma_decimal_digits(items_len(s));
    lemma_parse_decimal((s.item_index + 1) as u32);
    lemma_parse_decimal(items_len(s) as u32);
    let t = status_spec(s);
    let k: int = a.len() as int + 1;
    let k2: int = k + 1 + b.len();
    let help = "  j/k:item  J/K:category  h/l:change  Enter:edit  W/s:save  q:quit"@;
    reveal_strlit("  j/k:item  J/K:category  h/l:change  Enter:edit  W/s:save  q:quit");
    assert(t =~= seq![' '] + a + seq!['/'] + b + help);
    assert(t.subrange(1, k) =~= a);
    assert(t.subrange(k + 1, k2) =~= b);
    assert forall|j: int| 1 <= j < k implies t[j] != '/' by {
        assert(t[j] == a[j - 1]);
        assert(is_digit(a[j - 1]));
    }
    assert(t[k2] == help[0]);
}

/// Law: the settings pane shows a number setting's current value, and a
/// font size setting's size, as decimal text that reads back as that
/// value.
pub proof fn law_shown_numbers(s: AppV, i: int)
    requires
        wf_state(s),
        0 <= i < s.cats[s.cat_index as int].items.len(),
    ensures
        ({
            let k = s.cats[s.cat_index as int].items[i].kind;
            let line = item_lines_spec(s)[3 + i];
            &&& k is Number ==> line.len() == 5 && line[3].style == Style::Plain && parse_u32(
                line[3].text,
            ) == Some(k->Number_0)
            &&& k is FontSize && k->FontSize_0 < 9 ==> line.len() == 5 && line[3].style
                == Style::Plain && parse_u32(line[3].text) == Some(font_sizes()[k->FontSize_0 as int])
        }),
{
    let cat = s.cats[s.cat_index as int];
    let it = cat.items[i];
    let line = item_lines_spec(s)[3 + i];
    assert(line == item_spans(it, i == s.item_index, s.theme_idx));
    match it.kind {
        KindV::Number(v, _, _) => {
            lemma_parse_decimal(v);
        },
        KindV::FontSize(f) => {
            if f < 9 {
                lemma_parse_decimal(font_sizes()[f as int]);
            }
        },
        _ => {},
    }
}

/// Law: the title marks the settings as modified exactly when they are.
pub proof fn law_title_marks_changes(s: AppV)
    ensures
        title_spec(s).subrange(0, 10) == " glassconf"@,
        (title_spec(s).subrange(10, 21) == " [modified]"@) <==> s.dirty,
{
    reveal_strlit(" glassconf");
    reveal_strlit(" [modified]");
    reveal_strlit("    preview:");
    let t = title_spec(s);
    assert(t.subrange(0, 10) =~= " glassconf"@);
    if s.dirty {
        assert(t.subrange(10, 21) =~= " [modified]"@);
    } else {
        assert(t[11] == ' ');
        assert(" [modified]"@[1] == '[');
    }
}

/// Law: the category list shows every category's name between blanks, and
/// exactly the current category is reversed.
pub proof fn law_category_list(s: AppV)
    ensures
        category_spans(s).len() == s.cats.len(),
        forall|c: int|
            0 <= c < s.cats.len() ==> (#[trigger] category_spans(s)[c].style == Style::Reverse
                <==> c == s.cat_index),
        forall|c: int|
            0 <= c < s.cats.len() ==> #[trigger] category_spans(s)[c].text.subrange(
                1,
                s.cats[c].name.len() as int + 1,
            ) == s.cats[c].name,
{
    assert forall|c: int| 0 <= c < s.cats.len() implies #[trigger] category_spans(s)[c].text.subrange(
        1,
        s.cats[c].name.len() as int + 1,
    ) == s.cats[c].name by {
        assert(category_spans(s)[c].text.subrange(1, s.cats[c].name.len() as int + 1) =~= s.cats[c].name);
    }
}

} // verus!
