//! Editing the selected setting as free text (Enter): what is offered for
//! editing, and what the typed text does.
use vstd::prelude::*;
use crate::config::{join, keep_nonempty, push_joined};
use crate::hex::{
    canonical_hex, law_normalize_idempotent, normalize_hex, normalize_hex_spec, parse_hex_panics,
    parse_hex_spec, parse_hex_would_panic,
};
use crate::model::{
    default_categories, font_pos, font_position, lemma_font_pos, font_size_at, font_sizes, same_cat_shape,
    same_item_shape, same_kind_shape, wf_state, App, AppV, CategoryV, ItemKind, KindV,
};
use crate::nav::{selected_kind, set_selected};
use crate::text::{
    chars_of, decimal, decimal_string, lowercase_of, parse_u32, parse_u32_chars, push_char,
    push_str, split, split_chars, string_from, to_lowercase, trim, trim_chars, vviews,
    lemma_decimal_plain, lemma_parse_decimal, lemma_trim_clean,
};

verus! {

broadcast use {vstd::string::group_string_axioms, crate::model::lemma_app_view};

/// What Enter does on the selected setting.
pub enum EditRequest {
    /// The theme selector and toggles step as with `l`.
    Step,
    /// Ask for a new value, showing the setting's label and its current
    /// value as the text to start from.
    Ask { label: String, initial: String },
}

/// The text offered for editing a value.
pub open spec fn edit_initial(k: KindV) -> Seq<char> {
    match k {
        KindV::HexColor(s) => s,
        KindV::FontSize(i) => decimal(font_sizes()[i as int] as nat),
        KindV::Number(v, _, _) => decimal(v as nat),
        KindV::BgCycle(v) => join(v, ','),
        KindV::Keybind(s) => s,
        _ => Seq::<char>::empty(),
    }
}

/// The canonical colours among comma-separated pieces, in order: each
/// piece is trimmed, and the pieces that are not colours are dropped.
pub open spec fn edited_cycle(v: Seq<char>) -> Seq<Seq<char>> {
    keep_colors(split(v, ',').map_values(|p: Seq<char>| trim(p)))
}

pub open spec fn keep_colors(s: Seq<Seq<char>>) -> Seq<Seq<char>>
    decreases s.len(),
{
    if s.len() == 0 {
        Seq::<Seq<char>>::empty()
    } else {
        let r = keep_colors(s.drop_last());
        match normalize_hex_spec(s.last()) {
            Some(t) => r.push(t),
            None => r,
        }
    }
}

/// Reading some trimmed piece of a colour list would panic.
pub open spec fn cycle_edit_panics(v: Seq<char>) -> bool {
    let ps = split(v, ',');
    exists|j: int| 0 <= j < ps.len() && parse_hex_panics(trim(#[trigger] ps[j]))
}

/// The inputs on which editing the selected setting panics: a colour, or
/// a piece of a colour list, whose reading panics (see `parse_hex_panics`).
pub open spec fn edit_panics(s: AppV, input: Seq<char>) -> bool {
    let v = trim(input);
    &&& v.len() > 0
    &&& match selected_kind(s) {
        KindV::HexColor(_) => parse_hex_panics(v),
        KindV::BgCycle(_) => cycle_edit_panics(v),
        _ => false,
    }
}

/// The new value of the selected setting after the text `input` is typed,
/// if it changes: a colour must read as one and is stored in canonical
/// form; a font size must be one of the sizes; a number must lie within
/// its bounds; a colour list keeps the pieces that are colours, and
/// changes only if one is; a key binding is stored in lower case.
pub open spec fn edited_kind(k: KindV, v: Seq<char>) -> Option<KindV> {
    match k {
        KindV::HexColor(_) => match normalize_hex_spec(v) {
            Some(t) => Some(KindV::HexColor(t)),
            None => None,
        },
        KindV::FontSize(_) => match parse_u32(v) {
            Some(n) => match font_pos(n) {
                Some(i) => Some(KindV::FontSize(i)),
                None => None,
            },
            None => None,
        },
        KindV::Number(_, lo, hi) => match parse_u32(v) {
            Some(n) => if lo <= n && n <= hi {
                Some(KindV::Number(n, lo, hi))
            } else {
                None
            },
            None => None,
        },
        KindV::BgCycle(_) => if edited_cycle(v).len() > 0 {
            Some(KindV::BgCycle(edited_cycle(v)))
        } else {
            None
        },
        KindV::Keybind(_) => Some(KindV::Keybind(lowercase_of(v))),
        _ => None,
    }
}

/// The state after the text `input` is typed for the selected setting
/// (blank input changes nothing; any change marks the state modified).
pub open spec fn apply_edit_spec(s: AppV, input: Seq<char>) -> AppV {
    let v = trim(input);
    if v.len() == 0 {
        s
    } else {
        match edited_kind(selected_kind(s), v) {
            Some(k) => AppV { cats: set_selected(s, k), dirty: true, ..s },
            None => s,
        }
    }
}

proof fn lemma_edited_shape(k: KindV, v: Seq<char>)
    requires
        same_kind_shape(k, k),
    ensures
        edited_kind(k, v) matches Some(n) ==> same_kind_shape(n, k),
{
    match k {
        KindV::FontSize(_) => {
            match parse_u32(v) {
                Some(n) => {
                    if font_pos(n) is Some {
                        let j = choose|j: int| 0 <= j < 9 && font_sizes()[j] == n;
                        assert(0 <= j < 9);
                    }
                },
                None => {},
            }
        },
        _ => {},
    }
}

/// The canonical colours among the pieces of a colour list.
fn edited_cycle_exec(v: &Vec<char>) -> (r: Vec<String>)
    requires
        !cycle_edit_panics(v@),
    ensures
        r@.map_values(|s: String| s@) == edited_cycle(v@),
{
    let pieces = split_chars(v, ',');
    let ghost ps = split(v@, ',');
    let ghost tp = ps.map_values(|p: Seq<char>| trim(p));
    let mut out: Vec<String> = Vec::new();
    let mut i: usize = 0;
    assert(tp.take(0) =~= Seq::<Seq<char>>::empty());
    while i < pieces.len()
        invariant
            i <= pieces.len(),
            vviews(pieces@) == ps,
            ps == split(v@, ','),
            !cycle_edit_panics(v@),
            tp == ps.map_values(|p: Seq<char>| trim(p)),
            out@.map_values(|s: String| s@) == keep_colors(tp.take(i as int)),
        decreases pieces.len() - i,
    {
        let t = trim_chars(&pieces[i]);
        assert(pieces@[i as int]@ == ps[i as int]);
        assert(tp.take(i + 1).drop_last() =~= tp.take(i as int));
        assert(tp.take(i + 1).last() == t@);
        assert(!parse_hex_panics(trim(ps[i as int])));
        let ts = string_from(&t);
        let ghost before = out@.map_values(|s: String| s@);
        match normalize_hex(ts.as_str()) {
            Some(n) => {
                out.push(n);
                assert(out@.map_values(|s: String| s@) =~= before.push(normalize_hex_spec(t@)->0));
            },
            None => {},
        }
        i += 1;
    }
    assert(tp.take(pieces.len() as int) =~= tp);
    out
}

impl App {
    /// What Enter offers on the selected setting (the first half of
    /// `edit_value`): a step for the theme selector and toggles, otherwise
    /// a question with the setting's label and its current value as text.
    pub fn edit_request(&self) -> (r: EditRequest)
        ensures
            match r {
                EditRequest::Step => selected_kind(self@) is Theme || selected_kind(
                    self@,
                ) is Toggle,
                EditRequest::Ask { label, initial } => {
                    &&& !(selected_kind(self@) is Theme || selected_kind(self@) is Toggle)
                    &&& label@ == self@.cats[self@.cat_index as int].items[self@.item_index as int].label
                    &&& initial@ == edit_initial(selected_kind(self@))
                },
            },
    {
        proof {
            use_type_invariant(&*self);
        }
        let ghost s = self@;
        let ci = self.cat_index;
        let ii = self.item_index;
        let ghost d = default_categories();
        assert(same_cat_shape(s.cats[ci as int], d[ci as int]));
        assert(same_item_shape(s.cats[ci as int].items[ii as int], d[ci as int].items[ii as int]));
        let item = &self.categories[ci].items[ii];
        assert(item@ == s.cats[ci as int].items[ii as int]);
        let initial = match &item.kind {
            ItemKind::HexColor(x) => x.clone(),
            ItemKind::FontSize(i) => decimal_string(font_size_at(*i)),
            ItemKind::Number(v, _, _) => decimal_string(*v),
            ItemKind::BgCycle(v) => {
                let mut out = String::new();
                push_joined(&mut out, v, ',');
                assert(out@ =~= join(v@.map_values(|s: String| s@), ','));
                out
            },
            ItemKind::Keybind(x) => x.clone(),
            ItemKind::Theme => {
                return EditRequest::Step;
            },
            ItemKind::Toggle(_, _, _) => {
                return EditRequest::Step;
            },
        };
        EditRequest::Ask { label: item.label.clone(), initial }
    }

    /// Whether typing `input` for the selected setting would panic (see
    /// `edit_panics`): callers outside the verified library test this
    /// before `apply_edit`.
    pub fn edit_would_panic(&self, input: &str) -> (r: bool)
        ensures
            r == edit_panics(self@, input@),
    {
        proof {
            use_type_invariant(&*self);
        }
        let ghost s = self@;
        let v = trim_chars(&chars_of(input));
        if v.len() == 0 {
            return false;
        }
        let ci = self.cat_index;
        let ii = self.item_index;
        assert(self.categories@[ci as int].items@[ii as int]@ == s.cats[ci as int].items[ii as int]);
        match &self.categories[ci].items[ii].kind {
            ItemKind::HexColor(_) => parse_hex_would_panic(string_from(&v).as_str()),
            ItemKind::BgCycle(_) => {
                let pieces = split_chars(&v, ',');
                let ghost ps = split(v@, ',');
                let mut j: usize = 0;
                while j < pieces.len()
                    invariant
                        j <= pieces.len(),
                        vviews(pieces@) == ps,
                        ps == split(v@, ','),
                        forall|q: int| 0 <= q < j ==> !parse_hex_panics(trim(#[trigger] ps[q])),
                        v@ == trim(input@),
                        v@.len() > 0,
                        selected_kind(self@) is BgCycle,
                    decreases pieces.len() - j,
                {
                    assert(pieces@[j as int]@ == ps[j as int]);
                    let t = trim_chars(&pieces[j]);
                    if parse_hex_would_panic(string_from(&t).as_str()) {
                        assert(parse_hex_panics(trim(ps[j as int])));
                        assert(cycle_edit_panics(v@));
                        return true;
                    }
                    j += 1;
                }
                false
            },
            _ => false,
        }
    }

    /// Applies the text typed for the selected setting (the second half of
    /// `edit_value`, once the answer is in).
    pub fn apply_edit(&mut self, input: &str)
        requires
            !edit_panics(old(self)@, input@),
        ensures
            final(self)@ == apply_edit_spec(old(self)@, input@),
    {
        proof {
            use_type_invariant(&*self);
        }
        let ghost s = self@;
        let v = trim_chars(&chars_of(input));
        if v.len() == 0 {
            return;
        }
        let vs = string_from(&v);
        let ci = self.cat_index;
        let ii = self.item_index;
        let ghost d = default_categories();
        assert(same_cat_shape(s.cats[ci as int], d[ci as int]));
        assert(same_item_shape(s.cats[ci as int].items[ii as int], d[ci as int].items[ii as int]));
        assert(self.categories@[ci as int].items@[ii as int]@ == s.cats[ci as int].items[ii as int]);
        let new_kind: Option<ItemKind> = match &self.categories[ci].items[ii].kind {
            ItemKind::HexColor(_) => match normalize_hex(vs.as_str()) {
                Some(t) => Some(ItemKind::HexColor(t)),
                None => None,
            },
            ItemKind::FontSize(_) => match parse_u32_chars(&v) {
                Some(n) => match font_position(n) {
                    Some(i) => Some(ItemKind::FontSize(i)),
                    None => None,
                },
                None => None,
            },
            ItemKind::Number(_, lo, hi) => match parse_u32_chars(&v) {
                Some(n) => {
                    if n >= *lo && n <= *hi {
                        Some(ItemKind::Number(n, *lo, *hi))
                    } else {
                        None
                    }
                },
                None => None,
            },
            ItemKind::BgCycle(_) => {
                let parsed = edited_cycle_exec(&v);
                if parsed.len() > 0 {
                    Some(ItemKind::BgCycle(parsed))
                } else {
                    None
                }
            },
            ItemKind::Keybind(_) => Some(ItemKind::Keybind(to_lowercase(vs.as_str()))),
            ItemKind::Theme => None,
            ItemKind::Toggle(_, _, _) => None,
        };
        proof {
            lemma_edited_shape(selected_kind(s), v@);
        }
        match new_kind {
            Some(k) => {
                assert(k@ == edited_kind(selected_kind(s), v@)->0);
                self.set_selected_kind(k);
            },
            None => {},
        }
    }
}

/// Law: a colour stored by editing is in canonical form, and denotes the
/// colour that was typed.
pub proof fn law_edited_color_canonical(s: AppV, input: Seq<char>)
    requires
        selected_kind(s) is HexColor,
        edited_kind(selected_kind(s), trim(input)) is Some,
    ensures
        ({
            let t = edited_kind(selected_kind(s), trim(input))->0->HexColor_0;
            &&& normalize_hex_spec(t) == Some(t)
            &&& parse_hex_spec(t) == parse_hex_spec(trim(input))
        }),
{
    law_normalize_idempotent(trim(input));
}

/// Law: a number stored by editing lies within its bounds.
pub proof fn law_edited_number_in_range(k: KindV, v: Seq<char>)
    requires
        k is Number,
        edited_kind(k, v) is Some,
    ensures
        edited_kind(k, v)->0 matches KindV::Number(n, lo, hi) && lo <= n <= hi,
{
}

/// Law: typing a number for a number setting stores exactly that number
/// when it lies within the setting's bounds, both ends included, and marks
/// the state modified; a number outside the bounds changes nothing. The
/// cursor stays where it was.
pub proof fn law_edit_number_in_bounds(s: AppV, n: u32)
    requires
        wf_state(s),
        selected_kind(s) is Number,
    ensures
        ({
            let lo = selected_kind(s)->Number_1;
            let hi = selected_kind(s)->Number_2;
            let r = apply_edit_spec(s, decimal(n as nat));
            &&& lo <= n <= hi ==> selected_kind(r) == KindV::Number(n, lo, hi) && r.dirty
                && r.cat_index == s.cat_index && r.item_index == s.item_index
            &&& !(lo <= n <= hi) ==> r == s
        }),
{
    let d = decimal(n as nat);
    lemma_decimal_plain(n as nat);
    lemma_trim_clean(d);
    lemma_parse_decimal(n);
    assert(trim(d) == d);
    assert(d.len() > 0);
}

/// Law: typing one of the nine font sizes for the font size setting
/// selects exactly that size and marks the state modified; typing a number
/// that is no font size changes nothing.
pub proof fn law_edit_font_size(s: AppV, n: u32)
    requires
        wf_state(s),
        selected_kind(s) is FontSize,
    ensures
        ({
            let r = apply_edit_spec(s, decimal(n as nat));
            &&& forall|i: int|
                0 <= i < 9 && #[trigger] font_sizes()[i] == n ==> selected_kind(r) == KindV::FontSize(
                    i as nat,
                ) && r.dirty
            &&& (forall|i: int| 0 <= i < 9 ==> #[trigger] font_sizes()[i] != n) ==> r == s
        }),
{
    let d = decimal(n as nat);
    lemma_decimal_plain(n as nat);
    lemma_trim_clean(d);
    lemma_parse_decimal(n);
    assert(trim(d) == d);
    assert(d.len() > 0);
    assert forall|i: int| 0 <= i < 9 && #[trigger] font_sizes()[i] == n implies selected_kind(
        apply_edit_spec(s, d),
    ) == KindV::FontSize(i as nat) && apply_edit_spec(s, d).dirty by {
        lemma_font_pos(i);
    }
}

proof fn lemma_keep_colors(s: Seq<Seq<char>>)
    ensures
        forall|j: int|
            0 <= j < keep_colors(s).len() ==> exists|i: int|
                0 <= i < s.len() && normalize_hex_spec(s[i]) == Some(#[trigger] keep_colors(s)[j]),
    decreases s.len(),
{
    if s.len() > 0 {
        let p = s.drop_last();
        lemma_keep_colors(p);
        let r = keep_colors(s);
        let q = keep_colors(p);
        assert forall|j: int| 0 <= j < r.len() implies exists|i: int|
            0 <= i < s.len() && normalize_hex_spec(s[i]) == Some(#[trigger] r[j]) by {
            if j < q.len() {
                assert(r[j] == q[j]);
                let i = choose|i: int| 0 <= i < p.len() && normalize_hex_spec(p[i]) == Some(q[j]);
                assert(s[i] == p[i]);
            } else {
                assert(s[s.len() - 1] == s.last());
            }
        }
    }
}

/// Law: every colour of a list stored by editing is in canonical form and
/// is the canonical form of one of the comma-separated pieces typed.
pub proof fn law_edited_cycle_canonical(v: Seq<char>)
    ensures
        forall|j: int|
            0 <= j < edited_cycle(v).len() ==> {
                let e = #[trigger] edited_cycle(v)[j];
                &&& normalize_hex_spec(e) == Some(e)
                &&& exists|i: int|
                    0 <= i < split(v, ',').len() && normalize_hex_spec(trim(split(v, ',')[i])) == Some(e)
            },
{
    let ps = split(v, ',');
    let tp = ps.map_values(|p: Seq<char>| trim(p));
    lemma_keep_colors(tp);
    assert forall|j: int| 0 <= j < edited_cycle(v).len() implies {
        let e = #[trigger] edited_cycle(v)[j];
        &&& normalize_hex_spec(e) == Some(e)
        &&& exists|i: int| 0 <= i < ps.len() && normalize_hex_spec(trim(ps[i])) == Some(e)
    } by {
        let e = edited_cycle(v)[j];
        let i = choose|i: int| 0 <= i < tp.len() && normalize_hex_spec(tp[i]) == Some(keep_colors(tp)[j]);
        assert(normalize_hex_spec(trim(ps[i])) == Some(e));
        law_normalize_idempotent(trim(ps[i]));
    }
}

} // verus!
