//! Moving through the settings, stepping values, theme presets, and the
//! colour lookups they rest on.
use vstd::prelude::*;
use crate::config::{flat, map_items, set_color_cats, set_color_item};
use crate::model::{
    default_categories, font_sizes, same_cat_shape, same_item_shape, same_kind_shape, same_layout,
    theme_colors, theme_colors_at, wf_state, cat_views, lemma_layout_lengths, App, AppV, CategoryV, ItemKind, ItemV, KindV,
    N_FONT_SIZES, N_THEMES,
};
use crate::text::chars_of;

verus! {

broadcast use {vstd::string::group_string_axioms, crate::model::lemma_app_view};

// ---------------------------------------------------------------------
// Colours
// ---------------------------------------------------------------------

/// `it` is a colour setting with key `key`.
pub open spec fn is_color_for(it: ItemV, key: Seq<char>) -> bool {
    it.key == key && it.kind is HexColor
}

/// The value of the first colour setting with key `key`, in category and
/// setting order (`current_color`).
pub open spec fn color_of(cats: Seq<CategoryV>, key: Seq<char>) -> Option<Seq<char>> {
    let f = flat(cats);
    if exists|p: int|
        0 <= p < f.len() && is_color_for(f[p], key) && (forall|q: int|
            0 <= q < p ==> !is_color_for(f[q], key)) {
        let p = choose|p: int|
            0 <= p < f.len() && is_color_for(f[p], key) && (forall|q: int|
                0 <= q < p ==> !is_color_for(f[q], key));
        Some(f[p].kind->HexColor_0)
    } else {
        None
    }
}

/// The settings with theme preset `t` applied: background, foreground and
/// cursor colours take the theme's values (`apply_theme`).
pub open spec fn themed(cats: Seq<CategoryV>, t: int) -> Seq<CategoryV> {
    let (bg, fg, cursor) = theme_colors(t);
    set_color_cats(set_color_cats(set_color_cats(cats, "bg"@, bg), "fg"@, fg), "cursor"@, cursor)
}

/// Setting colours keeps the layout.
pub proof fn lemma_set_color_layout(cats: Seq<CategoryV>, key: Seq<char>, val: Seq<char>)
    requires
        same_layout(cats, default_categories()),
    ensures
        same_layout(set_color_cats(cats, key, val), default_categories()),
{
    let d = default_categories();
    let r = set_color_cats(cats, key, val);
    assert forall|c: int| 0 <= c < r.len() implies same_cat_shape(#[trigger] r[c], d[c]) by {
        assert(same_cat_shape(cats[c], d[c]));
        assert forall|i: int| 0 <= i < r[c].items.len() implies same_item_shape(
            #[trigger] r[c].items[i],
            d[c].items[i],
        ) by {
            assert(same_item_shape(cats[c].items[i], d[c].items[i]));
        }
    }
}

/// Setting colours keeps the layout and changes neither the number of
/// categories nor their sizes.
pub proof fn lemma_themed_layout(cats: Seq<CategoryV>, t: int)
    requires
        same_layout(cats, default_categories()),
    ensures
        same_layout(themed(cats, t), default_categories()),
{
    let (bg, fg, cursor) = theme_colors(t);
    lemma_set_color_layout(cats, "bg"@, bg);
    lemma_set_color_layout(set_color_cats(cats, "bg"@, bg), "fg"@, fg);
    lemma_set_color_layout(
        set_color_cats(set_color_cats(cats, "bg"@, bg), "fg"@, fg),
        "cursor"@,
        cursor,
    );
}

proof fn lemma_flat_step(a: Seq<CategoryV>, c: int)
    requires
        0 <= c < a.len(),
    ensures
        flat(a.take(c + 1)).len() == flat(a.take(c)).len() + a[c].items.len(),
{
    assert(a.take(c + 1).drop_last() =~= a.take(c));
    assert(a.take(c + 1).last() == a[c]);
}

impl App {
    /// The value of the first colour setting with key `key`
    /// (`current_color`).
    pub fn current_color(&self, key: &str) -> (r: Option<&str>)
        ensures
            match r {
                Some(s) => color_of(self.cats(), key@) == Some(s@),
                None => color_of(self.cats(), key@) is None,
            },
    {
        let ghost cats = self.cats();
        let ghost f = flat(cats);
        let k = chars_of(key);
        let n = self.categories.len();
        let mut ci: usize = 0;
        assert(cats.take(0) =~= Seq::<CategoryV>::empty());
        while ci < n
            invariant
                cats == self.cats(),
                f == flat(cats),
                n == cats.len(),
                ci <= n,
                k@ == key@,
                forall|q: int| 0 <= q < flat(cats.take(ci as int)).len() ==> !is_color_for(f[q], key@),
            decreases n - ci,
        {
            let items = &self.categories[ci].items;
            let m = items.len();
            let ghost off = flat(cats.take(ci as int)).len();
            assert(cats[ci as int].items == items@.map_values(|i: crate::model::Item| i@));
            let mut ii: usize = 0;
            while ii < m
                invariant
                    cats == self.cats(),
                    f == flat(cats),
                    n == cats.len(),
                    ci < n,
                    k@ == key@,
                    items == &self.categories@[ci as int].items,
                    m == items@.len() == cats[ci as int].items.len(),
                    cats[ci as int].items == items@.map_values(|i: crate::model::Item| i@),
                    off == flat(cats.take(ci as int)).len(),
                    ii <= m,
                    forall|q: int| 0 <= q < off + ii ==> !is_color_for(f[q], key@),
                decreases m - ii,
            {
                proof {
                    crate::roundtrip::lemma_flat_index(cats, ci as int, ii as int);
                }
                let ghost it = cats[ci as int].items[ii as int];
                assert(f[off + ii] == it);
                let same = crate::text::chars_eq(&chars_of(items[ii].key), &k);
                if same {
                    match &items[ii].kind {
                        ItemKind::HexColor(s) => {
                            assert(is_color_for(f[off + ii], key@));
                            let ghost p = off + ii;
                            let ghost w = choose|w: int|
                                0 <= w < f.len() && is_color_for(f[w], key@) && (forall|q: int|
                                    0 <= q < w ==> !is_color_for(f[q], key@));
                            assert(w == p) by {
                                if w < p {
                                } else if w > p {
                                    assert(!is_color_for(f[p], key@));
                                }
                            }
                            return Some(s.as_str());
                        },
                        _ => {},
                    }
                }
                ii += 1;
            }
            proof {
                lemma_flat_step(cats, ci as int);
            }
            ci += 1;
        }
        assert(cats.take(n as int) =~= cats);
        None
    }

    /// Every colour setting with key `key` takes the value `val`
    /// (`set_color`).
    pub fn set_color(&mut self, key: &str, val: &str)
        ensures
            final(self).cats() == set_color_cats(old(self).cats(), key@, val@),
            final(self)@.cat_index == old(self)@.cat_index,
            final(self)@.item_index == old(self)@.item_index,
            final(self)@.theme_idx == old(self)@.theme_idx,
            final(self)@.dirty == old(self)@.dirty,
    {
        let k = chars_of(key);
        let v = chars_of(val);
        self.set_color_chars(&k, &v);
    }

    /// Background, foreground and cursor colours take the values of theme
    /// preset `t` (`apply_theme`).
    pub fn apply_theme(&mut self, t: usize)
        requires
            t < N_THEMES,
        ensures
            final(self).cats() == themed(old(self).cats(), t as int),
            final(self)@.cat_index == old(self)@.cat_index,
            final(self)@.item_index == old(self)@.item_index,
            final(self)@.theme_idx == old(self)@.theme_idx,
            final(self)@.dirty == old(self)@.dirty,
    {
        let (bg, fg, cursor) = theme_colors_at(t);
        self.set_color("bg", bg);
        self.set_color("fg", fg);
        self.set_color("cursor", cursor);
    }
}

// ---------------------------------------------------------------------
// Moving
// ---------------------------------------------------------------------

/// Number of settings in the current category (0 if there is none).
pub open spec fn items_len(s: AppV) -> nat {
    if s.cat_index < s.cats.len() {
        s.cats[s.cat_index as int].items.len()
    } else {
        0
    }
}

pub open spec fn move_down_spec(s: AppV) -> AppV {
    if s.item_index + 1 < items_len(s) {
        AppV { item_index: s.item_index + 1, ..s }
    } else {
        s
    }
}

pub open spec fn move_up_spec(s: AppV) -> AppV {
    if s.item_index > 0 {
        AppV { item_index: (s.item_index - 1) as nat, ..s }
    } else {
        s
    }
}

pub open spec fn next_category_spec(s: AppV) -> AppV {
    if s.cat_index + 1 < s.cats.len() {
        AppV { cat_index: s.cat_index + 1, item_index: 0, ..s }
    } else {
        s
    }
}

pub open spec fn prev_category_spec(s: AppV) -> AppV {
    if s.cat_index > 0 {
        AppV { cat_index: (s.cat_index - 1) as nat, item_index: 0, ..s }
    } else {
        s
    }
}

// ---------------------------------------------------------------------
// Stepping values
// ---------------------------------------------------------------------

/// The value of the selected setting.
pub open spec fn selected_kind(s: AppV) -> KindV {
    s.cats[s.cat_index as int].items[s.item_index as int].kind
}

/// The settings with the selected setting holding `k`.
pub open spec fn set_selected(s: AppV, k: KindV) -> Seq<CategoryV> {
    let c = s.cat_index as int;
    let i = s.item_index as int;
    let it = s.cats[c].items[i];
    s.cats.update(
        c,
        CategoryV {
            name: s.cats[c].name,
            items: s.cats[c].items.update(i, ItemV { label: it.label, key: it.key, kind: k }),
        },
    )
}

/// One step up for a value (`l`): the next font size, the number plus
/// one up to its maximum, the toggle flipped; `None` where nothing moves.
pub open spec fn value_up(k: KindV) -> Option<KindV> {
    match k {
        KindV::FontSize(i) => if i + 1 < N_FONT_SIZES {
            Some(KindV::FontSize(i + 1))
        } else {
            None
        },
        KindV::Number(v, lo, hi) => if v < hi {
            Some(KindV::Number((v + 1) as u32, lo, hi))
        } else {
            None
        },
        KindV::Toggle(on, a, b) => Some(KindV::Toggle(!on, a, b)),
        _ => None,
    }
}

/// One step down for a value (`h`).
pub open spec fn value_down(k: KindV) -> Option<KindV> {
    match k {
        KindV::FontSize(i) => if i > 0 {
            Some(KindV::FontSize((i - 1) as nat))
        } else {
            None
        },
        KindV::Number(v, lo, hi) => if v > lo {
            Some(KindV::Number((v - 1) as u32, lo, hi))
        } else {
            None
        },
        KindV::Toggle(on, a, b) => Some(KindV::Toggle(!on, a, b)),
        _ => None,
    }
}

/// The state after `l` on the selected setting: the theme selector moves
/// to the next preset and applies it; other values step up; any change
/// marks the state modified.
pub open spec fn next_value_spec(s: AppV) -> AppV {
    if selected_kind(s) is Theme {
        let t = (s.theme_idx + 1) % (N_THEMES as nat);
        AppV { cats: themed(s.cats, t as int), theme_idx: t, dirty: true, ..s }
    } else {
        match value_up(selected_kind(s)) {
            Some(k) => AppV { cats: set_selected(s, k), dirty: true, ..s },
            None => s,
        }
    }
}

/// The state after `h` on the selected setting.
pub open spec fn prev_value_spec(s: AppV) -> AppV {
    if selected_kind(s) is Theme {
        let t = (s.theme_idx + N_THEMES - 1) % (N_THEMES as int);
        AppV { cats: themed(s.cats, t as int), theme_idx: t as nat, dirty: true, ..s }
    } else {
        match value_down(selected_kind(s)) {
            Some(k) => AppV { cats: set_selected(s, k), dirty: true, ..s },
            None => s,
        }
    }
}

proof fn lemma_set_selected_layout(s: AppV, k: KindV)
    requires
        wf_state(s),
        same_kind_shape(k, selected_kind(s)),
    ensures
        wf_state(AppV { cats: set_selected(s, k), ..s }),
{
    let d = default_categories();
    let c = s.cat_index as int;
    let i = s.item_index as int;
    let r = set_selected(s, k);
    assert(same_cat_shape(s.cats[c], d[c]));
    assert(same_item_shape(s.cats[c].items[i], d[c].items[i]));
    assert forall|x: int| 0 <= x < r.len() implies same_cat_shape(#[trigger] r[x], d[x]) by {
        assert(same_cat_shape(s.cats[x], d[x]));
        if x == c {
            assert forall|j: int| 0 <= j < r[x].items.len() implies same_item_shape(
                #[trigger] r[x].items[j],
                d[x].items[j],
            ) by {
                assert(same_item_shape(s.cats[x].items[j], d[x].items[j]));
            }
        }
    }
    assert(r[c].items.len() == s.cats[c].items.len());
}

/// A value step keeps the kind and its fixed parts.
proof fn lemma_value_step_shape(k: KindV, d: KindV)
    requires
        same_kind_shape(k, d),
    ensures
        value_up(k) matches Some(n) ==> same_kind_shape(n, k) && same_kind_shape(n, d),
        value_down(k) matches Some(n) ==> same_kind_shape(n, k) && same_kind_shape(n, d),
{
}

impl App {
    /// Moves to the next setting of the category, if there is one.
    pub fn move_down(&mut self)
        ensures
            final(self)@ == move_down_spec(old(self)@),
    {
        proof {
            use_type_invariant(&*self);
        }
        let len = if self.cat_index < self.categories.len() {
            self.categories[self.cat_index].items.len()
        } else {
            0
        };
        if self.item_index + 1 < len {
            self.item_index += 1;
        }
    }

    /// Moves to the previous setting of the category, if there is one.
    pub fn move_up(&mut self)
        ensures
            final(self)@ == move_up_spec(old(self)@),
    {
        proof {
            use_type_invariant(&*self);
        }
        if self.item_index > 0 {
            self.item_index -= 1;
        }
    }

    /// Moves to the first setting of the next category, if there is one.
    pub fn next_category(&mut self)
        ensures
            final(self)@ == next_category_spec(old(self)@),
    {
        proof {
            use_type_invariant(&*self);
        }
        if self.cat_index + 1 < self.categories.len() {
            proof {
                lemma_layout_lengths(self@);
            }
            self.item_index = 0;
            self.cat_index += 1;
        }
    }

    /// Moves to the first setting of the previous category, if there is
    /// one.
    pub fn prev_category(&mut self)
        ensures
            final(self)@ == prev_category_spec(old(self)@),
    {
        proof {
            use_type_invariant(&*self);
        }
        if self.cat_index > 0 {
            proof {
                lemma_layout_lengths(self@);
            }
            self.item_index = 0;
            self.cat_index -= 1;
        }
    }

    /// `l`: steps the selected setting's value up (see `next_value_spec`).
    pub fn next_value(&mut self)
        ensures
            final(self)@ == next_value_spec(old(self)@),
    {
        proof {
            use_type_invariant(&*self);
        }
        self.step_value(true);
    }

    /// `h`: steps the selected setting's value down (see
    /// `prev_value_spec`).
    pub fn prev_value(&mut self)
        ensures
            final(self)@ == prev_value_spec(old(self)@),
    {
        proof {
            use_type_invariant(&*self);
        }
        self.step_value(false);
    }

    /// The selected setting takes the value `k`, and the state is marked
    /// modified.
    pub(crate) fn set_selected_kind(&mut self, k: ItemKind)
        requires
            same_kind_shape(k@, selected_kind(old(self)@)),
        ensures
            final(self)@ == (AppV { cats: set_selected(old(self)@, k@), dirty: true, ..old(self)@ }),
    {
        proof {
            use_type_invariant(&*self);
        }
        let ghost s = self@;
        let ghost nk = k@;
        let ci = self.cat_index;
        let ii = self.item_index;
        let mut cats = self.take_categories();
        let ghost bv = cats@;
        assert(cat_views(bv) == s.cats);
        cats[ci].items[ii].kind = k;
        proof {
            let target = set_selected(s, nk);
            assert forall|c: int| 0 <= c < target.len() implies #[trigger] cat_views(cats@)[c]
                == target[c] by {
                if c == ci {
                    assert forall|j: int| 0 <= j < target[c].items.len() implies #[trigger] cat_views(cats@)[c].items[j]
                        == target[c].items[j] by {
                        if j != ii {
                            assert(cats@[c].items@[j] == bv[c].items@[j]);
                        }
                    }
                    assert(cat_views(cats@)[c].items =~= target[c].items);
                } else {
                    assert(cats@[c] == bv[c]);
                }
            }
            assert(cat_views(cats@) =~= set_selected(s, nk));
            lemma_set_selected_layout(s, nk);
        }
        self.replace_categories(cats);
        self.dirty = true;
    }

    fn step_value(&mut self, up: bool)
        ensures
            final(self)@ == (if up {
                next_value_spec(old(self)@)
            } else {
                prev_value_spec(old(self)@)
            }),
    {
        proof {
            use_type_invariant(&*self);
        }
        let ghost s = self@;
        let ci = self.cat_index;
        let ii = self.item_index;
        let ghost d = default_categories();
        assert(same_cat_shape(s.cats[ci as int], d[ci as int]));
        assert(same_item_shape(s.cats[ci as int].items[ii as int], d[ci as int].items[ii as int]));
        assert(self.categories@[ci as int].items@[ii as int]@ == s.cats[ci as int].items[ii as int]);
        let mut new_theme: Option<usize> = None;
        let new_kind: Option<ItemKind> = match &self.categories[ci].items[ii].kind {
            ItemKind::FontSize(idx) => {
                if up {
                    if *idx + 1 < N_FONT_SIZES {
                        Some(ItemKind::FontSize(*idx + 1))
                    } else {
                        None
                    }
                } else {
                    if *idx > 0 {
                        Some(ItemKind::FontSize(*idx - 1))
                    } else {
                        None
                    }
                }
            },
            ItemKind::Number(v, lo, hi) => {
                if up {
                    if *v < *hi {
                        Some(ItemKind::Number(*v + 1, *lo, *hi))
                    } else {
                        None
                    }
                } else {
                    if *v > *lo {
                        Some(ItemKind::Number(*v - 1, *lo, *hi))
                    } else {
                        None
                    }
                }
            },
            ItemKind::Toggle(on, a, b) => Some(ItemKind::Toggle(!*on, a, b)),
            ItemKind::Theme => {
                let t = if up {
                    (self.theme_idx + 1) % N_THEMES
                } else {
                    (self.theme_idx + N_THEMES - 1) % N_THEMES
                };
                new_theme = Some(t);
                None
            },
            _ => None,
        };
        proof {
            lemma_value_step_shape(selected_kind(s), d[ci as int].items[ii as int].kind);
        }
        match new_kind {
            Some(k) => {
                self.set_selected_kind(k);
            },
            None => {},
        }
        match new_theme {
            Some(t) => {
                self.theme_idx = t;
                self.dirty = true;
                self.apply_theme(t);
                proof {
                    lemma_themed_layout(s.cats, t as int);
                    assert(same_cat_shape(self.cats()[ci as int], d[ci as int]));
                }
            },
            None => {},
        }
    }
}


// ---------------------------------------------------------------------
// Laws
// ---------------------------------------------------------------------

pub proof fn lemma_flat_map_items(cats: Seq<CategoryV>, f: spec_fn(ItemV) -> ItemV)
    ensures
        flat(map_items(cats, f)) == flat(cats).map_values(f),
    decreases cats.len(),
{
    if cats.len() > 0 {
        let m = map_items(cats, f);
        assert(m.drop_last() =~= map_items(cats.drop_last(), f));
        lemma_flat_map_items(cats.drop_last(), f);
        assert(flat(cats).map_values(f) =~= flat(cats.drop_last()).map_values(f)
            + cats.last().items.map_values(f));
    } else {
        assert(flat(map_items(cats, f)) =~= flat(cats).map_values(f));
    }
}

/// Law (read after write): once the colour `key` is set to `val`, reading
/// the colour `key` gives `val`, provided there is a colour setting with
/// that key.
pub proof fn law_set_color_then_read(cats: Seq<CategoryV>, key: Seq<char>, val: Seq<char>)
    requires
        color_of(cats, key) is Some,
    ensures
        color_of(set_color_cats(cats, key, val), key) == Some(val),
{
    let f = flat(cats);
    lemma_flat_map_items(cats, |it: ItemV| set_color_item(it, key, val));
    let g = flat(set_color_cats(cats, key, val));
    assert(g == f.map_values(|it: ItemV| set_color_item(it, key, val)));
    let p = choose|p: int|
        0 <= p < f.len() && is_color_for(f[p], key) && (forall|q: int|
            0 <= q < p ==> !is_color_for(f[q], key));
    assert(is_color_for(g[p], key));
    assert forall|q: int| 0 <= q < p implies !is_color_for(g[q], key) by {
        assert(!is_color_for(f[q], key));
    }
    let w = choose|w: int|
        0 <= w < g.len() && is_color_for(g[w], key) && (forall|q: int|
            0 <= q < w ==> !is_color_for(g[q], key));
    assert(w == p) by {
        if w < p {
        } else if w > p {
            assert(!is_color_for(g[p], key));
        }
    }
}

/// Setting the colour `other` leaves the colour `key` as it was.
pub proof fn lemma_set_other_color(cats: Seq<CategoryV>, other: Seq<char>, val: Seq<char>, key: Seq<char>)
    requires
        other != key,
    ensures
        color_of(set_color_cats(cats, other, val), key) == color_of(cats, key),
{
    let f = flat(cats);
    lemma_flat_map_items(cats, |it: ItemV| set_color_item(it, other, val));
    let g = flat(set_color_cats(cats, other, val));
    assert(g.len() == f.len());
    assert forall|q: int| 0 <= q < f.len() implies (is_color_for(#[trigger] g[q], key) <==> is_color_for(f[q], key))
        && (is_color_for(f[q], key) ==> g[q] == f[q]) by {
        assert(g[q] == set_color_item(f[q], other, val));
    }
    if exists|p: int|
        0 <= p < f.len() && is_color_for(f[p], key) && (forall|q: int|
            0 <= q < p ==> !is_color_for(f[q], key)) {
        let p = choose|p: int|
            0 <= p < f.len() && is_color_for(f[p], key) && (forall|q: int|
                0 <= q < p ==> !is_color_for(f[q], key));
        assert(is_color_for(g[p], key));
        assert forall|q: int| 0 <= q < p implies !is_color_for(g[q], key) by {
            assert(!is_color_for(f[q], key));
        }
        let w = choose|w: int|
            0 <= w < g.len() && is_color_for(g[w], key) && (forall|q: int|
                0 <= q < w ==> !is_color_for(g[q], key));
        assert(w == p) by {
            if w < p {
            } else if w > p {
                assert(!is_color_for(g[p], key));
            }
        }
    } else {
        if exists|w: int|
            0 <= w < g.len() && is_color_for(g[w], key) && (forall|q: int|
                0 <= q < w ==> !is_color_for(g[q], key)) {
            let w = choose|w: int|
                0 <= w < g.len() && is_color_for(g[w], key) && (forall|q: int|
                    0 <= q < w ==> !is_color_for(g[q], key));
            assert(is_color_for(f[w], key));
            assert forall|q: int| 0 <= q < w implies !is_color_for(f[q], key) by {
                assert(!is_color_for(g[q], key));
            }
        }
    }
}

/// In a state with the default layout, `bg`, `fg` and `cursor` are colour
/// settings.
proof fn lemma_layout_has_colors(cats: Seq<CategoryV>)
    requires
        same_layout(cats, default_categories()),
    ensures
        color_of(cats, "bg"@) is Some,
        color_of(cats, "fg"@) is Some,
        color_of(cats, "cursor"@) is Some,
{
    let d = default_categories();
    let f = flat(cats);
    assert(same_cat_shape(cats[1], d[1]));
    assert(same_item_shape(cats[1].items[0], d[1].items[0]));
    assert(same_item_shape(cats[1].items[1], d[1].items[1]));
    assert(same_item_shape(cats[1].items[2], d[1].items[2]));
    crate::roundtrip::lemma_flat_index(cats, 1, 0);
    crate::roundtrip::lemma_flat_index(cats, 1, 1);
    crate::roundtrip::lemma_flat_index(cats, 1, 2);
    let off = flat(cats.take(1)).len() as int;
    assert(is_color_for(f[off], "bg"@));
    assert(is_color_for(f[off + 1], "fg"@));
    assert(is_color_for(f[off + 2], "cursor"@));
    lemma_first_exists(f, "bg"@, off);
    lemma_first_exists(f, "fg"@, off + 1);
    lemma_first_exists(f, "cursor"@, off + 2);
}

/// If some setting is a colour for `key`, a first one is.
proof fn lemma_first_exists(f: Seq<ItemV>, key: Seq<char>, p: int)
    requires
        0 <= p < f.len(),
        is_color_for(f[p], key),
    ensures
        exists|w: int|
            0 <= w < f.len() && is_color_for(f[w], key) && (forall|q: int|
                0 <= q < w ==> !is_color_for(f[q], key)),
    decreases p,
{
    if exists|q: int| 0 <= q < p && is_color_for(f[q], key) {
        let q = choose|q: int| 0 <= q < p && is_color_for(f[q], key);
        lemma_first_exists(f, key, q);
    } else {
        assert(forall|q: int| 0 <= q < p ==> !is_color_for(f[q], key));
    }
}

/// Law: applying theme preset `t` makes the background, foreground and
/// cursor colours those of the theme.
pub proof fn law_theme_sets_colors(s: AppV, t: int)
    requires
        wf_state(s),
        0 <= t < N_THEMES,
    ensures
        color_of(themed(s.cats, t), "bg"@) == Some(theme_colors(t).0),
        color_of(themed(s.cats, t), "fg"@) == Some(theme_colors(t).1),
        color_of(themed(s.cats, t), "cursor"@) == Some(theme_colors(t).2),
{
    reveal_strlit("bg");
    reveal_strlit("fg");
    reveal_strlit("cursor");
    assert("bg"@[0] != "fg"@[0]);
    assert("bg"@ != "fg"@);
    assert("bg"@.len() != "cursor"@.len());
    assert("fg"@.len() != "cursor"@.len());
    let (bg, fg, cursor) = theme_colors(t);
    let c0 = s.cats;
    lemma_layout_has_colors(c0);
    let c1 = set_color_cats(c0, "bg"@, bg);
    law_set_color_then_read(c0, "bg"@, bg);
    lemma_set_other_color(c0, "bg"@, bg, "fg"@);
    lemma_set_other_color(c0, "bg"@, bg, "cursor"@);
    let c2 = set_color_cats(c1, "fg"@, fg);
    law_set_color_then_read(c1, "fg"@, fg);
    lemma_set_other_color(c1, "fg"@, fg, "bg"@);
    lemma_set_other_color(c1, "fg"@, fg, "cursor"@);
    law_set_color_then_read(c2, "cursor"@, cursor);
    lemma_set_other_color(c2, "cursor"@, cursor, "bg"@);
    lemma_set_other_color(c2, "cursor"@, cursor, "fg"@);
}

/// A value that `l` moves and `h` can move back.
pub open spec fn up_then_down_ok(k: KindV) -> bool {
    match k {
        KindV::FontSize(i) => i + 1 < N_FONT_SIZES,
        KindV::Number(v, lo, hi) => lo <= v < hi,
        KindV::Toggle(_, _, _) => true,
        _ => false,
    }
}

/// A value that `h` moves and `l` can move back.
pub open spec fn down_then_up_ok(k: KindV) -> bool {
    match k {
        KindV::FontSize(i) => i > 0,
        KindV::Number(v, lo, hi) => lo < v <= hi,
        KindV::Toggle(_, _, _) => true,
        _ => false,
    }
}

/// A number within its bounds.
pub open spec fn number_in_range(k: KindV) -> bool {
    match k {
        KindV::Number(v, lo, hi) => lo <= v <= hi,
        _ => false,
    }
}

/// Law: `h` undoes `l` on the selected setting when `l` moved it and `h`
/// can move it back: a font size below the largest, a number from its
/// minimum up to below its maximum, or a toggle (for the theme selector see
/// `law_theme_steps_undo`). Only the modified mark remains.
pub proof fn law_prev_undoes_next(s: AppV)
    requires
        wf_state(s),
        up_then_down_ok(selected_kind(s)),
    ensures
        prev_value_spec(next_value_spec(s)) == (AppV { dirty: true, ..s }),
{
    let k = selected_kind(s);
    let nk = value_up(k)->0;
    let n = next_value_spec(s);
    let c = s.cat_index as int;
    let i = s.item_index as int;
    assert(selected_kind(n) == nk);
    assert(value_down(nk) == Some(k));
    assert(set_selected(n, k) =~= s.cats) by {
        assert(set_selected(n, k)[c].items =~= s.cats[c].items);
    }
}

/// Law: `l` undoes `h` on the selected setting when `h` moved it and `l`
/// can move it back.
pub proof fn law_next_undoes_prev(s: AppV)
    requires
        wf_state(s),
        down_then_up_ok(selected_kind(s)),
    ensures
        next_value_spec(prev_value_spec(s)) == (AppV { dirty: true, ..s }),
{
    let k = selected_kind(s);
    let nk = value_down(k)->0;
    let n = prev_value_spec(s);
    let c = s.cat_index as int;
    let i = s.item_index as int;
    assert(selected_kind(n) == nk);
    assert(value_up(nk) == Some(k));
    assert(set_selected(n, k) =~= s.cats) by {
        assert(set_selected(n, k)[c].items =~= s.cats[c].items);
    }
}

/// Law: on the theme selector, `h` after `l` (and `l` after `h`) returns
/// to the same preset.
pub proof fn law_theme_steps_undo(s: AppV)
    requires
        wf_state(s),
        selected_kind(s) is Theme,
    ensures
        prev_value_spec(next_value_spec(s)).theme_idx == s.theme_idx,
        next_value_spec(prev_value_spec(s)).theme_idx == s.theme_idx,
{
    let d = default_categories();
    let c = s.cat_index as int;
    let i = s.item_index as int;
    let n = next_value_spec(s);
    let t = (s.theme_idx + 1) % 6;
    lemma_themed_layout(s.cats, t as int);
    assert(same_cat_shape(s.cats[c], d[c]));
    assert(same_item_shape(s.cats[c].items[i], d[c].items[i]));
    assert(same_cat_shape(n.cats[c], d[c]));
    assert(same_item_shape(n.cats[c].items[i], d[c].items[i]));
    assert(selected_kind(n) is Theme);
    let p = prev_value_spec(s);
    let t2 = (s.theme_idx + 5) % 6;
    lemma_themed_layout(s.cats, t2 as int);
    assert(same_cat_shape(p.cats[c], d[c]));
    assert(same_item_shape(p.cats[c].items[i], d[c].items[i]));
    assert(selected_kind(p) is Theme);
}

/// Law: a number stepped with `l` or `h` stays within its bounds if it
/// started within them.
pub proof fn law_steps_stay_in_range(k: KindV)
    requires
        number_in_range(k),
    ensures
        value_up(k) is Some ==> number_in_range(value_up(k)->0),
        value_down(k) is Some ==> number_in_range(value_down(k)->0),
{
}

/// Law: moving down then up (or up then down) returns to the same setting
/// when the first move happened.
pub proof fn law_moves_undo(s: AppV)
    requires
        wf_state(s),
    ensures
        s.item_index + 1 < items_len(s) ==> move_up_spec(move_down_spec(s)) == s,
        s.item_index > 0 ==> move_down_spec(move_up_spec(s)) == s,
        s.cat_index + 1 < s.cats.len() ==> prev_category_spec(next_category_spec(s)).cat_index
            == s.cat_index,
        s.cat_index > 0 ==> next_category_spec(prev_category_spec(s)).cat_index == s.cat_index,
{
}

/// Law: `l` on the font size moves to the next larger of the nine sizes
/// (none lies between), and `h` to the next smaller one; at the largest
/// and the smallest size nothing changes.
pub proof fn law_font_steps_to_neighbour_size(s: AppV)
    requires
        wf_state(s),
        selected_kind(s) is FontSize,
    ensures
        ({
            let i = selected_kind(s)->FontSize_0 as int;
            let up = selected_kind(next_value_spec(s));
            let down = selected_kind(prev_value_spec(s));
            &&& i + 1 < 9 ==> up is FontSize && font_sizes()[up->FontSize_0 as int] > font_sizes()[i]
                && forall|m: int|
                0 <= m < 9 && #[trigger] font_sizes()[m] > font_sizes()[i] ==> font_sizes()[m]
                    >= font_sizes()[up->FontSize_0 as int]
            &&& i > 0 ==> down is FontSize && font_sizes()[down->FontSize_0 as int] < font_sizes()[i]
                && forall|m: int|
                0 <= m < 9 && #[trigger] font_sizes()[m] < font_sizes()[i] ==> font_sizes()[m]
                    <= font_sizes()[down->FontSize_0 as int]
            &&& i + 1 >= 9 ==> next_value_spec(s) == s
            &&& i == 0 ==> prev_value_spec(s) == s
        }),
{
    let d = default_categories();
    assert(same_cat_shape(s.cats[s.cat_index as int], d[s.cat_index as int]));
    assert(same_item_shape(
        s.cats[s.cat_index as int].items[s.item_index as int],
        d[s.cat_index as int].items[s.item_index as int],
    ));
}

/// Law: `l` and `h` change a number by exactly one, and only within its
/// bounds.
pub proof fn law_number_steps_by_one(s: AppV)
    requires
        wf_state(s),
        selected_kind(s) is Number,
    ensures
        ({
            let k = selected_kind(s);
            let up = selected_kind(next_value_spec(s));
            let down = selected_kind(prev_value_spec(s));
            &&& up is Number && down is Number
            &&& k->Number_0 < k->Number_2 ==> up->Number_0 == k->Number_0 + 1
            &&& k->Number_0 >= k->Number_2 ==> next_value_spec(s) == s
            &&& k->Number_0 > k->Number_1 ==> down->Number_0 == k->Number_0 - 1
            &&& k->Number_0 <= k->Number_1 ==> prev_value_spec(s) == s
        }),
{
}

} // verus!
