//! The glass config file: reading `key = value` lines into the settings,
//! and writing the settings back out.
use vstd::prelude::*;
use crate::model::{
    font_pos, font_position, font_size_at, font_sizes, same_cat_shape, same_item_shape,
    same_kind_shape, same_layout, cat_views, App, AppV,
    Category, CategoryV, Item, ItemKind, ItemV, KindV, default_categories,
};
use crate::text::{
    chars_eq, chars_of, decimal, find_char, parse_u32, parse_u32_chars, push_char, push_chars,
    push_decimal, push_str, split, split_chars, split_once, string_from, sub_chars, trim,
    trim_chars, vviews, is_ws, lemma_trim_trimmed,
};

verus! {

broadcast use {vstd::string::group_string_axioms, crate::model::lemma_app_view};

// ---------------------------------------------------------------------
// Reading
// ---------------------------------------------------------------------

/// Applies `f` to every setting of every category.
pub open spec fn map_items(cats: Seq<CategoryV>, f: spec_fn(ItemV) -> ItemV) -> Seq<CategoryV> {
    cats.map_values(|c: CategoryV| CategoryV { name: c.name, items: c.items.map_values(f) })
}

/// The non-empty texts of `s`, in order (`filter(|s| !s.is_empty())`).
pub open spec fn keep_nonempty(s: Seq<Seq<char>>) -> Seq<Seq<char>>
    decreases s.len(),
{
    if s.len() == 0 {
        s
    } else {
        let r = keep_nonempty(s.drop_last());
        if s.last().len() > 0 {
            r.push(s.last())
        } else {
            r
        }
    }
}

/// The colour list that a value text denotes: its comma-separated pieces,
/// trimmed, without the empty ones.
pub open spec fn cycle_list(val: Seq<char>) -> Seq<Seq<char>> {
    keep_nonempty(split(val, ',').map_values(|p: Seq<char>| trim(p)))
}

/// The value of a setting after the config file gives it `val`: a number
/// outside its bounds, or a text that is no number or no font size, leaves
/// the value as it was.
pub open spec fn loaded_kind(k: KindV, val: Seq<char>) -> KindV {
    match k {
        KindV::HexColor(_) => KindV::HexColor(val),
        KindV::FontSize(i) => match parse_u32(val) {
            Some(n) => match font_pos(n) {
                Some(j) => KindV::FontSize(j),
                None => k,
            },
            None => k,
        },
        KindV::Number(v, lo, hi) => match parse_u32(val) {
            Some(n) => if lo <= n && n <= hi {
                KindV::Number(n, lo, hi)
            } else {
                k
            },
            None => k,
        },
        KindV::BgCycle(_) => KindV::BgCycle(cycle_list(val)),
        KindV::Toggle(_, a, b) => KindV::Toggle(val == a, a, b),
        KindV::Keybind(_) => KindV::Keybind(val),
        KindV::Theme => k,
    }
}

/// The setting `it` after the config file gives `key` the value `val`.
pub open spec fn set_from_file(it: ItemV, key: Seq<char>, val: Seq<char>) -> ItemV {
    if it.key == key {
        ItemV { label: it.label, key: it.key, kind: loaded_kind(it.kind, val) }
    } else {
        it
    }
}

/// The setting `it` after the colour `key` is set to `val`: only a colour
/// setting with that key changes.
pub open spec fn set_color_item(it: ItemV, key: Seq<char>, val: Seq<char>) -> ItemV {
    if it.key == key && it.kind is HexColor {
        ItemV { label: it.label, key: it.key, kind: KindV::HexColor(val) }
    } else {
        it
    }
}

/// Every colour setting with key `key` takes the value `val`.
pub open spec fn set_color_cats(cats: Seq<CategoryV>, key: Seq<char>, val: Seq<char>) -> Seq<
    CategoryV,
> {
    map_items(cats, |it: ItemV| set_color_item(it, key, val))
}

pub open spec fn update_item(it: ItemV, key: Seq<char>, val: Seq<char>, colors_only: bool) -> ItemV {
    if colors_only {
        set_color_item(it, key, val)
    } else {
        set_from_file(it, key, val)
    }
}

/// Every setting with key `key` takes the value `val`.
pub open spec fn apply_setting(cats: Seq<CategoryV>, key: Seq<char>, val: Seq<char>) -> Seq<
    CategoryV,
> {
    map_items(cats, |it: ItemV| set_from_file(it, key, val))
}

/// The key and value that a config line sets: blank lines and lines
/// starting with `#` set nothing, nor do lines without `=`; key and value
/// are the trimmed texts before and after the first `=`.
pub open spec fn parse_line(line: Seq<char>) -> Option<(Seq<char>, Seq<char>)> {
    let t = trim(line);
    if t.len() == 0 || t[0] == '#' {
        None
    } else {
        match split_once(t, '=') {
            Some((k, v)) => Some((trim(k), trim(v))),
            None => None,
        }
    }
}

pub open spec fn apply_line(cats: Seq<CategoryV>, line: Seq<char>) -> Seq<CategoryV> {
    match parse_line(line) {
        Some((k, v)) => apply_setting(cats, k, v),
        None => cats,
    }
}

/// The settings after reading the lines in order.
pub open spec fn apply_lines(cats: Seq<CategoryV>, lines: Seq<Seq<char>>) -> Seq<CategoryV>
    decreases lines.len(),
{
    if lines.len() == 0 {
        cats
    } else {
        apply_line(apply_lines(cats, lines.drop_last()), lines.last())
    }
}

/// The settings after reading a config text: its lines are the pieces
/// between `'\n'`s (a `'\r'` before a `'\n'` is whitespace, which each
/// line loses when trimmed).
pub open spec fn apply_config(cats: Seq<CategoryV>, content: Seq<char>) -> Seq<CategoryV> {
    apply_lines(cats, split(content, '\n'))
}

/// Reading a value never changes what kind a setting is, nor its fixed
/// parts.
pub proof fn lemma_loaded_kind_shape(k: KindV, d: KindV, val: Seq<char>)
    requires
        same_kind_shape(k, d),
    ensures
        same_kind_shape(loaded_kind(k, val), d),
{
    match k {
        KindV::FontSize(i) => {
            match parse_u32(val) {
                Some(n) => {
                    if font_pos(n) is Some {
                        let j = choose|j: int| 0 <= j < 9 && font_sizes()[j] == n;
                        assert(0 <= j < 9);
                    }
                },
                None => {},
            }
        },
        _ => {},
    }
}

/// Applying a setting keeps the layout.
pub proof fn lemma_apply_setting_layout(
    cats: Seq<CategoryV>,
    d: Seq<CategoryV>,
    key: Seq<char>,
    val: Seq<char>,
)
    requires
        same_layout(cats, d),
    ensures
        same_layout(apply_setting(cats, key, val), d),
{
    let r = apply_setting(cats, key, val);
    assert forall|c: int| 0 <= c < r.len() implies same_cat_shape(#[trigger] r[c], d[c]) by {
        assert(same_cat_shape(cats[c], d[c]));
        assert forall|i: int| 0 <= i < r[c].items.len() implies same_item_shape(
            #[trigger] r[c].items[i],
            d[c].items[i],
        ) by {
            assert(same_item_shape(cats[c].items[i], d[c].items[i]));
            lemma_loaded_kind_shape(cats[c].items[i].kind, d[c].items[i].kind, val);
        }
    }
}

/// A number setting's value lies within its bounds (other kinds qualify).
pub open spec fn number_ok(k: KindV) -> bool {
    match k {
        KindV::Number(v, lo, hi) => lo <= v <= hi,
        _ => true,
    }
}

/// Every number setting's value lies within its bounds.
pub open spec fn numbers_in_range(cats: Seq<CategoryV>) -> bool {
    forall|c: int, i: int|
        0 <= c < cats.len() && 0 <= i < cats[c].items.len() ==> number_ok(
            #[trigger] cats[c].items[i].kind,
        )
}

proof fn lemma_apply_setting_numbers(cats: Seq<CategoryV>, key: Seq<char>, val: Seq<char>)
    requires
        numbers_in_range(cats),
    ensures
        numbers_in_range(apply_setting(cats, key, val)),
{
    let r = apply_setting(cats, key, val);
    assert forall|c: int, i: int|
        0 <= c < r.len() && 0 <= i < r[c].items.len() implies number_ok(
            #[trigger] r[c].items[i].kind,
        ) by {
        assert(number_ok(cats[c].items[i].kind));
    }
}

/// Law: reading a config text keeps every number within its bounds, e.g.
/// opacity stays within 0..100 whatever the text says.
pub proof fn law_load_keeps_numbers_in_range(cats: Seq<CategoryV>, content: Seq<char>)
    requires
        numbers_in_range(cats),
    ensures
        numbers_in_range(apply_config(cats, content)),
{
    lemma_apply_lines_numbers(cats, split(content, '\n'));
}

proof fn lemma_apply_lines_numbers(cats: Seq<CategoryV>, lines: Seq<Seq<char>>)
    requires
        numbers_in_range(cats),
    ensures
        numbers_in_range(apply_lines(cats, lines)),
    decreases lines.len(),
{
    if lines.len() > 0 {
        lemma_apply_lines_numbers(cats, lines.drop_last());
        match parse_line(lines.last()) {
            Some((k, v)) => lemma_apply_setting_numbers(apply_lines(cats, lines.drop_last()), k, v),
            None => {},
        }
    }
}

/// The texts kept by `keep_nonempty` are non-empty texts of the input.
proof fn lemma_keep_nonempty(s: Seq<Seq<char>>)
    ensures
        forall|j: int|
            0 <= j < keep_nonempty(s).len() ==> #[trigger] keep_nonempty(s)[j].len() > 0
                && exists|i: int| 0 <= i < s.len() && keep_nonempty(s)[j] == s[i],
    decreases s.len(),
{
    if s.len() > 0 {
        let p = s.drop_last();
        lemma_keep_nonempty(p);
        let r = keep_nonempty(s);
        let q = keep_nonempty(p);
        assert forall|j: int| 0 <= j < r.len() implies #[trigger] r[j].len() > 0
            && exists|i: int| 0 <= i < s.len() && r[j] == s[i] by {
            if j < q.len() {
                assert(r[j] == q[j]);
                let i = choose|i: int| 0 <= i < p.len() && q[j] == p[i];
                assert(s[i] == p[i]);
            } else {
                assert(r[j] == s.last());
                assert(s[s.len() - 1] == s.last());
            }
        }
    }
}

/// Law: every colour of a list read from the config file is a non-empty
/// comma-separated piece of the value, trimmed: no entry keeps whitespace
/// at either end.
pub proof fn law_cycle_entries_trimmed(val: Seq<char>)
    ensures
        forall|j: int|
            0 <= j < cycle_list(val).len() ==> {
                let e = #[trigger] cycle_list(val)[j];
                &&& e.len() > 0
                &&& trim(e) == e
                &&& !is_ws(e[0]) && !is_ws(e.last())
                &&& exists|i: int| 0 <= i < split(val, ',').len() && e == trim(split(val, ',')[i])
            },
{
    let ps = split(val, ',');
    let tp = ps.map_values(|p: Seq<char>| trim(p));
    lemma_keep_nonempty(tp);
    assert forall|j: int| 0 <= j < cycle_list(val).len() implies {
        let e = #[trigger] cycle_list(val)[j];
        &&& e.len() > 0
        &&& trim(e) == e
        &&& !is_ws(e[0]) && !is_ws(e.last())
        &&& exists|i: int| 0 <= i < ps.len() && e == trim(ps[i])
    } by {
        let e = cycle_list(val)[j];
        let i = choose|i: int| 0 <= i < tp.len() && keep_nonempty(tp)[j] == tp[i];
        assert(e == trim(ps[i]));
        lemma_trim_trimmed(ps[i]);
    }
}

/// The colour list of a value text.
fn cycle_from(val: &Vec<char>) -> (r: Vec<String>)
    ensures
        r@.map_values(|s: String| s@) == cycle_list(val@),
{
    let pieces = split_chars(val, ',');
    let ghost ps = split(val@, ',');
    let ghost tp = ps.map_values(|p: Seq<char>| trim(p));
    let mut out: Vec<String> = Vec::new();
    let mut i: usize = 0;
    assert(tp.take(0) =~= Seq::<Seq<char>>::empty());
    while i < pieces.len()
        invariant
            i <= pieces.len(),
            vviews(pieces@) == ps,
            tp == ps.map_values(|p: Seq<char>| trim(p)),
            out@.map_values(|s: String| s@) == keep_nonempty(tp.take(i as int)),
        decreases pieces.len() - i,
    {
        let t = trim_chars(&pieces[i]);
        assert(pieces@[i as int]@ == ps[i as int]);
        assert(tp.take(i + 1).drop_last() =~= tp.take(i as int));
        assert(tp.take(i + 1).last() == t@);
        if t.len() > 0 {
            let ghost before = out@.map_values(|s: String| s@);
            out.push(string_from(&t));
            assert(out@.map_values(|s: String| s@) =~= before.push(t@));
        }
        i += 1;
    }
    assert(tp.take(pieces.len() as int) =~= tp);
    out
}

/// The value of a setting after the config file gives it `val`.
fn loaded(k: &ItemKind, val: &Vec<char>) -> (r: ItemKind)
    ensures
        r@ == loaded_kind(k@, val@),
{
    match k {
        ItemKind::HexColor(_) => ItemKind::HexColor(string_from(val)),
        ItemKind::FontSize(i) => match parse_u32_chars(val) {
            Some(n) => match font_position(n) {
                Some(j) => ItemKind::FontSize(j),
                None => ItemKind::FontSize(*i),
            },
            None => ItemKind::FontSize(*i),
        },
        ItemKind::Number(v, lo, hi) => match parse_u32_chars(val) {
            Some(n) => if *lo <= n && n <= *hi {
                ItemKind::Number(n, *lo, *hi)
            } else {
                ItemKind::Number(*v, *lo, *hi)
            },
            None => ItemKind::Number(*v, *lo, *hi),
        },
        ItemKind::BgCycle(_) => ItemKind::BgCycle(cycle_from(val)),
        ItemKind::Toggle(_, a, b) => {
            let on = chars_eq(val, &chars_of(a));
            ItemKind::Toggle(on, a, b)
        },
        ItemKind::Keybind(_) => ItemKind::Keybind(string_from(val)),
        ItemKind::Theme => ItemKind::Theme,
    }
}

impl App {
    /// Every setting whose key is `key` takes the value `val` as read from
    /// the config file.
    pub fn apply_setting(&mut self, key: &Vec<char>, val: &Vec<char>)
        ensures
            final(self)@ == (AppV { cats: apply_setting(old(self)@.cats, key@, val@), ..old(self)@ }),
    {
        proof {
            use_type_invariant(&*self);
        }
        let ghost c0 = self.cats();
        let mut cats = self.take_categories();
        update_cat_vec(&mut cats, key, val, false);
        let ghost a = map_items(c0, |it: ItemV| update_item(it, key@, val@, false));
        let ghost b = apply_setting(c0, key@, val@);
        assert forall|c: int| 0 <= c < c0.len() implies #[trigger] a[c] == b[c] by {
            assert(a[c].items =~= b[c].items);
        }
        assert(a =~= b);
        proof {
            lemma_apply_setting_layout(c0, default_categories(), key@, val@);
        }
        self.replace_categories(cats);
    }

    /// Every colour setting whose key is `key` takes the value `val`.
    pub(crate) fn set_color_chars(&mut self, key: &Vec<char>, val: &Vec<char>)
        ensures
            final(self)@ == (AppV { cats: set_color_cats(old(self)@.cats, key@, val@), ..old(self)@ }),
    {
        proof {
            use_type_invariant(&*self);
        }
        let ghost c0 = self.cats();
        let mut cats = self.take_categories();
        update_cat_vec(&mut cats, key, val, true);
        let ghost a = map_items(c0, |it: ItemV| update_item(it, key@, val@, true));
        let ghost b = set_color_cats(c0, key@, val@);
        assert forall|c: int| 0 <= c < c0.len() implies #[trigger] a[c] == b[c] by {
            assert(a[c].items =~= b[c].items);
        }
        assert(a =~= b);
        proof {
            crate::nav::lemma_set_color_layout(c0, key@, val@);
        }
        self.replace_categories(cats);
    }
}

fn update_cat_vec(cats: &mut Vec<Category>, key: &Vec<char>, val: &Vec<char>, colors_only: bool)
ensures
    cat_views(final(cats)@) == map_items(
        cat_views(old(cats)@),
        |it: ItemV| update_item(it, key@, val@, colors_only),
    ),
{
    let ghost old_cats = cat_views(cats@);
    let ghost target = map_items(old_cats, |it: ItemV| update_item(it, key@, val@, colors_only));
    let n = cats.len();
    let mut ci: usize = 0;
    while ci < n
        invariant
            n == cats@.len() == old_cats.len(),
            ci <= n,
            target == map_items(old_cats, |it: ItemV| update_item(it, key@, val@, colors_only)),
            forall|c: int| 0 <= c < ci ==> #[trigger] cat_views(cats@)[c] == target[c],
            forall|c: int| ci <= c < n ==> #[trigger] cat_views(cats@)[c] == old_cats[c],
        decreases n - ci,
    {
        let m = cats[ci].items.len();
        let mut ii: usize = 0;
        assert(cat_views(cats@)[ci as int] == old_cats[ci as int]);
        while ii < m
            invariant
                n == cats@.len() == old_cats.len(),
                ci < n,
                ii <= m == cats@[ci as int].items@.len() == old_cats[ci as int].items.len(),
                target == map_items(old_cats, |it: ItemV| update_item(it, key@, val@, colors_only)),
                forall|c: int| 0 <= c < ci ==> #[trigger] cat_views(cats@)[c] == target[c],
                forall|c: int| ci < c < n ==> #[trigger] cat_views(cats@)[c] == old_cats[c],
                cat_views(cats@)[ci as int].name == old_cats[ci as int].name,
                forall|i: int|
                    0 <= i < ii ==> #[trigger] cat_views(cats@)[ci as int].items[i]
                        == target[ci as int].items[i],
                forall|i: int|
                    ii <= i < m ==> #[trigger] cat_views(cats@)[ci as int].items[i]
                        == old_cats[ci as int].items[i],
                            decreases m - ii,
        {
            let ghost before = cat_views(cats@);
            let ghost bv = cats@;
            let k = chars_of(cats[ci].items[ii].key);
            assert(before[ci as int].items[ii as int] == old_cats[ci as int].items[ii as int]);
            if chars_eq(&k, key) {
                if colors_only {
                    let is_color = match &cats[ci].items[ii].kind {
                        ItemKind::HexColor(_) => true,
                        _ => false,
                    };
                    if is_color {
                        cats[ci].items[ii].kind = ItemKind::HexColor(
                            string_from(val),
                        );
                    }
                } else {
                    let nk = loaded(&cats[ci].items[ii].kind, val);
                    cats[ci].items[ii].kind = nk;
                }
            }
            assert(cat_views(cats@)[ci as int].items[ii as int] == target[ci as int].items[ii as int]);
            assert(forall|c: int| 0 <= c < n && c != ci ==> cats@[c] == bv[c]);
            assert(cats@[ci as int].name == bv[ci as int].name);
            assert(forall|i: int|
                0 <= i < m && i != ii ==> cats@[ci as int].items@[i]
                    == bv[ci as int].items@[i]);
            assert forall|i: int| 0 <= i < m && i != ii implies #[trigger] cat_views(cats@)[ci as int].items[i]
                == before[ci as int].items[i] by {
                assert(cats@[ci as int].items@[i] == bv[ci as int].items@[i]);
            }
            assert(forall|c: int| 0 <= c < n && c != ci ==> #[trigger] cat_views(cats@)[c] == before[c]);
            ii += 1;
        }
        assert(cat_views(cats@)[ci as int].items =~= target[ci as int].items);
        assert(cat_views(cats@)[ci as int].name == target[ci as int].name);
        assert(cat_views(cats@)[ci as int] == target[ci as int]);
        ci += 1;
    }
    assert(cat_views(cats@) =~= target);
}

impl App {
    /// Reads a config text (`load_config`, once the file is read): each
    /// `key = value` line sets the settings with that key.
    pub fn load_config_text(&mut self, content: &str)
        ensures
            final(self)@ == (AppV { cats: apply_config(old(self)@.cats, content@), ..old(self)@ }),
    {
        let ghost c0 = self.cats();
        let v = chars_of(content);
        let lines = split_chars(&v, '\n');
        let ghost ls = split(content@, '\n');
        let mut k: usize = 0;
        assert(ls.take(0) =~= Seq::<Seq<char>>::empty());
        while k < lines.len()
            invariant
                k <= lines.len(),
                vviews(lines@) == ls,
                self.cats() == apply_lines(c0, ls.take(k as int)),
                self.cat_index == old(self)@.cat_index,
                self.item_index == old(self)@.item_index,
                self.theme_idx == old(self)@.theme_idx,
                self.dirty == old(self)@.dirty,
            decreases lines.len() - k,
        {
            assert(ls.take(k + 1).drop_last() =~= ls.take(k as int));
            assert(ls.take(k + 1).last() == lines@[k as int]@);
            let t = trim_chars(&lines[k]);
            if t.len() > 0 && t[0] != '#' {
                match find_char(&t, '=') {
                    Some(i) => {
                        let key = trim_chars(&sub_chars(&t, 0, i));
                        let val = trim_chars(&sub_chars(&t, i + 1, t.len()));
                        assert(t@.take(i as int) =~= t@.subrange(0, i as int));
                        assert(t@.skip(i + 1) =~= t@.subrange(i + 1, t@.len() as int));
                        self.apply_setting(&key, &val);
                    },
                    None => {},
                }
            }
            k += 1;
        }
        assert(ls.take(lines.len() as int) =~= ls);
    }
}


// ---------------------------------------------------------------------
// Writing
// ---------------------------------------------------------------------

/// The settings of all categories, in order.
pub open spec fn flat(cats: Seq<CategoryV>) -> Seq<ItemV>
    decreases cats.len(),
{
    if cats.len() == 0 {
        Seq::<ItemV>::empty()
    } else {
        flat(cats.drop_last()) + cats.last().items
    }
}

/// The texts of `v` joined with `sep` between them.
pub open spec fn join(v: Seq<Seq<char>>, sep: char) -> Seq<char>
    decreases v.len(),
{
    if v.len() == 0 {
        Seq::<char>::empty()
    } else if v.len() == 1 {
        v[0]
    } else {
        join(v.drop_last(), sep) + seq![sep] + v.last()
    }
}

/// The text written for a setting's value, if any is written: a theme
/// selector and an empty colour list are not.
pub open spec fn saved_value(k: KindV) -> Option<Seq<char>> {
    match k {
        KindV::HexColor(s) => Some(s),
        KindV::FontSize(i) => Some(decimal(font_sizes()[i as int] as nat)),
        KindV::Number(v, _, _) => Some(decimal(v as nat)),
        KindV::BgCycle(v) => if v.len() > 0 {
            Some(join(v, ','))
        } else {
            None
        },
        KindV::Toggle(on, a, b) => Some(
            if on {
                a
            } else {
                b
            },
        ),
        KindV::Keybind(s) => Some(s),
        KindV::Theme => None,
    }
}

/// The line `key = value`.
pub open spec fn item_line(key: Seq<char>, v: Seq<char>) -> Seq<char> {
    key + seq![' ', '=', ' '] + v
}

/// What is written for one setting.
pub open spec fn item_text(it: ItemV) -> Seq<char> {
    match saved_value(it.kind) {
        Some(v) => item_line(it.key, v) + seq!['\n'],
        None => Seq::<char>::empty(),
    }
}

/// What is written for a list of settings.
pub open spec fn items_text(items: Seq<ItemV>) -> Seq<char>
    decreases items.len(),
{
    if items.len() == 0 {
        Seq::<char>::empty()
    } else {
        items_text(items.drop_last()) + item_text(items.last())
    }
}

/// The first line of a written config.
pub open spec fn header() -> Seq<char> {
    "# glass config \u{2014} managed by glassconf\n"@
}

/// The config text written for the settings (`save_config`, before the
/// file is written).
pub open spec fn config_text_spec(cats: Seq<CategoryV>) -> Seq<char> {
    header() + items_text(flat(cats))
}

pub proof fn lemma_items_text_concat(a: Seq<ItemV>, b: Seq<ItemV>)
    ensures
        items_text(a + b) == items_text(a) + items_text(b),
    decreases b.len(),
{
    if b.len() == 0 {
        assert(a + b =~= a);
        assert(items_text(a) + items_text(b) =~= items_text(a));
    } else {
        lemma_items_text_concat(a, b.drop_last());
        assert((a + b).drop_last() =~= a + b.drop_last());
        assert(items_text(a) + items_text(b) =~= items_text(a) + items_text(b.drop_last())
            + item_text(b.last()));
    }
}

/// Appends the texts of `v` joined with `sep`.
pub(crate) fn push_joined(out: &mut String, v: &Vec<String>, sep: char)
    ensures
        final(out)@ == old(out)@ + join(v@.map_values(|s: String| s@), sep),
{
    let ghost o = out@;
    let ghost vs = v@.map_values(|s: String| s@);
    let mut j: usize = 0;
    assert(vs.take(0) =~= Seq::<Seq<char>>::empty());
    assert(out@ =~= o + join(vs.take(0), sep));
    while j < v.len()
        invariant
            j <= v.len(),
            vs == v@.map_values(|s: String| s@),
            out@ == o + join(vs.take(j as int), sep),
        decreases v.len() - j,
    {
        let ghost before = out@;
        assert(vs.take(j + 1).drop_last() =~= vs.take(j as int));
        assert(vs.take(j + 1).last() == v@[j as int]@);
        if j > 0 {
            push_char(out, sep);
        }
        push_str(out, v[j].as_str());
        if j == 0 {
            assert(vs.take(1) =~= seq![v@[0]@]);
            assert(out@ =~= o + join(vs.take(j + 1), sep));
        } else {
            assert(out@ =~= o + join(vs.take(j + 1), sep));
        }
        j += 1;
    }
    assert(vs.take(v.len() as int) =~= vs);
}

/// Appends what is written for one setting.
fn push_item_text(out: &mut String, it: &Item)
    requires
        match it.kind@ {
            KindV::FontSize(i) => i < 9,
            _ => true,
        },
    ensures
        final(out)@ == old(out)@ + item_text(it@),
{
    let ghost o = out@;
    let written = match &it.kind {
        ItemKind::Theme => false,
        ItemKind::BgCycle(v) => v.len() > 0,
        _ => true,
    };
    if !written {
        assert(out@ =~= o + item_text(it@));
        return;
    }
    push_str(out, it.key);
    push_char(out, ' ');
    push_char(out, '=');
    push_char(out, ' ');
    let ghost mid = out@;
    assert(mid =~= o + it.key@ + seq![' ', '=', ' ']);
    match &it.kind {
        ItemKind::HexColor(s) => push_str(out, s.as_str()),
        ItemKind::FontSize(i) => push_decimal(out, font_size_at(*i) as u64),
        ItemKind::Number(v, _, _) => push_decimal(out, *v as u64),
        ItemKind::BgCycle(v) => push_joined(out, v, ','),
        ItemKind::Toggle(on, a, b) => {
            if *on {
                push_str(out, a)
            } else {
                push_str(out, b)
            }
        },
        ItemKind::Keybind(s) => push_str(out, s.as_str()),
        ItemKind::Theme => {},
    }
    push_char(out, '\n');
    assert(out@ =~= o + item_text(it@));
}

impl App {
    /// The config text for the current settings (`save_config`, before the
    /// file is written).
    pub fn config_text(&self) -> (r: String)
        ensures
            r@ == config_text_spec(self.cats()),
    {
        proof {
            use_type_invariant(&*self);
        }
        let ghost cats = self.cats();
        let mut out = String::new();
        push_str(&mut out, "# glass config \u{2014} managed by glassconf\n");
        let n = self.categories.len();
        let mut ci: usize = 0;
        assert(cats.take(0) =~= Seq::<CategoryV>::empty());
        assert(out@ =~= header() + items_text(flat(cats.take(0))));
        while ci < n
            invariant
                self.wf(),
                cats == self.cats(),
                n == self.categories@.len(),
                ci <= n,
                out@ == header() + items_text(flat(cats.take(ci as int))),
            decreases n - ci,
        {
            let ghost prefix = flat(cats.take(ci as int));
            let items = &self.categories[ci].items;
            let ghost iv = cats[ci as int].items;
            assert(iv == items@.map_values(|i: Item| i@));
            let m = items.len();
            let mut ii: usize = 0;
            assert(iv.take(0) =~= Seq::<ItemV>::empty());
            assert(prefix + iv.take(0) =~= prefix);
            while ii < m
                invariant
                    self.wf(),
                    cats == self.cats(),
                    ci < n == self.categories@.len(),
                    items == &self.categories@[ci as int].items,
                    iv == cats[ci as int].items,
                    iv == items@.map_values(|i: Item| i@),
                    ii <= m == items@.len(),
                    prefix == flat(cats.take(ci as int)),
                    out@ == header() + items_text(prefix + iv.take(ii as int)),
                decreases m - ii,
            {
                let ghost d = default_categories();
                assert(same_cat_shape(cats[ci as int], d[ci as int]));
                assert(same_item_shape(iv[ii as int], d[ci as int].items[ii as int]));
                proof {
                    lemma_items_text_concat(prefix + iv.take(ii as int), seq![iv[ii as int]]);
                }
                push_item_text(&mut out, &items[ii]);
                assert(prefix + iv.take(ii + 1) =~= (prefix + iv.take(ii as int)) + seq![iv[ii as int]]);
                assert(items_text(seq![iv[ii as int]]) =~= item_text(iv[ii as int])) by {
                    assert(seq![iv[ii as int]].drop_last() =~= Seq::<ItemV>::empty());
                    assert(items_text(Seq::<ItemV>::empty()) == Seq::<char>::empty());
                }
                ii += 1;
            }
            assert(iv.take(m as int) =~= iv);
            assert(cats.take(ci + 1).drop_last() =~= cats.take(ci as int));
            assert(flat(cats.take(ci + 1)) == prefix + iv);
            ci += 1;
        }
        assert(cats.take(n as int) =~= cats);
        out
    }
}

} // verus!
