//! Reading back a written config gives the settings that were written.
use vstd::prelude::*;
use crate::config::{
    apply_config, apply_line, apply_lines, apply_setting, config_text_spec, cycle_list, flat,
    header, item_line, item_text, items_text, join, keep_nonempty, loaded_kind, map_items,
    parse_line, saved_value, set_from_file,
};
use crate::model::{
    default_categories, font_sizes, lemma_font_pos, same_cat_shape, same_item_shape, same_kind_shape,
    same_layout, wf_state, AppV, CategoryV,
    ItemV, KindV,
};
use crate::text::{
    decimal, first_index, is_ws, lemma_decimal_plain, lemma_parse_decimal, lemma_split_concat,
    lemma_split_len, lemma_split_no_sep, lemma_trim_clean, parse_u32, split, split_once, trim,
    trim_end, trim_start,
};

verus! {

broadcast use crate::model::lemma_app_view;

// ---------------------------------------------------------------------
// What can be written and read back
// ---------------------------------------------------------------------

/// `s` holds no `c`.
pub open spec fn lacks(s: Seq<char>, c: char) -> bool {
    forall|i: int| 0 <= i < s.len() ==> s[i] != c
}

/// A text that survives a config line: one line, and no whitespace at
/// either end (values are trimmed when read).
pub open spec fn clean_text(s: Seq<char>) -> bool {
    &&& lacks(s, '\n')
    &&& (s.len() == 0 || (!is_ws(s[0]) && !is_ws(s.last())))
}

/// A colour-list entry that survives being joined with commas and split
/// again.
pub open spec fn clean_entry(s: Seq<char>) -> bool {
    &&& s.len() > 0
    &&& clean_text(s)
    &&& lacks(s, ',')
}

/// The value of a setting survives writing and reading: texts are clean,
/// a number lies within its bounds, and a colour list is non-empty (an
/// empty one is not written).
pub open spec fn clean_kind(k: KindV) -> bool {
    match k {
        KindV::HexColor(s) => clean_text(s),
        KindV::Keybind(s) => clean_text(s),
        KindV::Number(v, lo, hi) => lo <= v <= hi,
        KindV::BgCycle(v) => v.len() > 0 && forall|j: int| 0 <= j < v.len() ==> clean_entry(
            #[trigger] v[j],
        ),
        _ => true,
    }
}

/// Every value of the settings survives writing and reading.
pub open spec fn clean_values(cats: Seq<CategoryV>) -> bool {
    forall|p: int| 0 <= p < flat(cats).len() ==> clean_kind(#[trigger] flat(cats)[p].kind)
}

/// A key that can start a config line.
pub open spec fn clean_key(k: Seq<char>) -> bool {
    &&& k.len() > 0
    &&& !is_ws(k[0])
    &&& k[0] != '#'
    &&& !is_ws(k.last())
    &&& lacks(k, '=')
    &&& lacks(k, '\n')
}

/// The toggle words of a setting can be told apart when read back.
pub open spec fn clean_words(k: KindV) -> bool {
    match k {
        KindV::Toggle(_, a, b) => a != b && clean_text(a) && clean_text(b),
        _ => true,
    }
}

/// The keys of a list of settings are clean and distinct, and toggle
/// words are clean and distinct.
pub open spec fn good_keys(items: Seq<ItemV>) -> bool {
    &&& forall|p: int| 0 <= p < items.len() ==> clean_key(#[trigger] items[p].key)
    &&& forall|p: int| 0 <= p < items.len() ==> clean_words(#[trigger] items[p].kind)
    &&& forall|p: int, q: int|
        0 <= p < items.len() && 0 <= q < items.len() && #[trigger] items[p].key
            == #[trigger] items[q].key ==> p == q
}

// ---------------------------------------------------------------------
// The lines of a written config
// ---------------------------------------------------------------------

/// The lines written for a list of settings.
pub open spec fn saved_lines(items: Seq<ItemV>) -> Seq<Seq<char>>
    decreases items.len(),
{
    if items.len() == 0 {
        Seq::<Seq<char>>::empty()
    } else {
        let it = items.last();
        match saved_value(it.kind) {
            Some(v) => saved_lines(items.drop_last()).push(item_line(it.key, v)),
            None => saved_lines(items.drop_last()),
        }
    }
}

/// The settings' written values hold no line break.
pub open spec fn one_line_each(items: Seq<ItemV>) -> bool {
    forall|p: int|
        0 <= p < items.len() ==> match saved_value(#[trigger] items[p].kind) {
            Some(v) => lacks(item_line(items[p].key, v), '\n'),
            None => true,
        }
}

proof fn lemma_split_items_text(items: Seq<ItemV>, w: Seq<char>)
    requires
        one_line_each(items),
    ensures
        split(items_text(items) + w, '\n') == saved_lines(items) + split(w, '\n'),
    decreases items.len(),
{
    if items.len() == 0 {
        assert(items_text(items) + w =~= w);
        assert(saved_lines(items) + split(w, '\n') =~= split(w, '\n'));
    } else {
        let it = items.last();
        let pre = items.drop_last();
        assert(one_line_each(pre)) by {
            assert forall|p: int| 0 <= p < pre.len() implies match saved_value(
                #[trigger] pre[p].kind,
            ) {
                Some(v) => lacks(item_line(pre[p].key, v), '\n'),
                None => true,
            } by {
                assert(pre[p] == items[p]);
            }
        }
        assert(items[items.len() - 1] == it);
        match saved_value(it.kind) {
            Some(v) => {
                let line = item_line(it.key, v);
                let w2 = item_text(it) + w;
                lemma_split_items_text(pre, w2);
                assert(items_text(items) + w =~= items_text(pre) + w2);
                assert(w2 =~= line + seq!['\n'] + w);
                lemma_split_concat(line, w, '\n');
                lemma_split_no_sep(line, '\n');
                assert(saved_lines(pre) + (seq![line] + split(w, '\n')) =~= saved_lines(
                    items,
                ) + split(w, '\n'));
            },
            None => {
                lemma_split_items_text(pre, w);
                assert(items_text(items) + w =~= items_text(pre) + w);
            },
        }
    }
}

/// Every written line is the line of some written setting.
proof fn lemma_saved_line_source(items: Seq<ItemV>, j: int)
    requires
        0 <= j < saved_lines(items).len(),
    ensures
        exists|q: int|
            0 <= q < items.len() && #[trigger] saved_value(items[q].kind) is Some
                && saved_lines(items)[j] == item_line(items[q].key, saved_value(items[q].kind)->0),
    decreases items.len(),
{
    let it = items.last();
    let pre = items.drop_last();
    match saved_value(it.kind) {
        Some(v) => {
            if j == saved_lines(pre).len() {
                let q = items.len() - 1;
                assert(saved_value(items[q].kind) is Some);
            } else {
                lemma_saved_line_source(pre, j);
                let q = choose|q: int|
                    0 <= q < pre.len() && #[trigger] saved_value(pre[q].kind) is Some
                        && saved_lines(pre)[j] == item_line(pre[q].key, saved_value(pre[q].kind)->0);
                assert(items[q] == pre[q]);
                assert(saved_value(items[q].kind) is Some);
            }
        },
        None => {
            lemma_saved_line_source(pre, j);
            let q = choose|q: int|
                0 <= q < pre.len() && #[trigger] saved_value(pre[q].kind) is Some
                    && saved_lines(pre)[j] == item_line(pre[q].key, saved_value(pre[q].kind)->0);
            assert(items[q] == pre[q]);
            assert(saved_value(items[q].kind) is Some);
        },
    }
}

/// The line of every written setting is among the written lines.
proof fn lemma_saved_line_present(items: Seq<ItemV>, p: int)
    requires
        0 <= p < items.len(),
        saved_value(items[p].kind) is Some,
    ensures
        exists|j: int|
            0 <= j < saved_lines(items).len() && #[trigger] saved_lines(items)[j] == item_line(
                items[p].key,
                saved_value(items[p].kind)->0,
            ),
    decreases items.len(),
{
    let pre = items.drop_last();
    if p == items.len() - 1 {
        let j = saved_lines(pre).len() as int;
        assert(saved_lines(items)[j] == item_line(items[p].key, saved_value(items[p].kind)->0));
    } else {
        assert(pre[p] == items[p]);
        lemma_saved_line_present(pre, p);
        let j = choose|j: int|
            0 <= j < saved_lines(pre).len() && #[trigger] saved_lines(pre)[j] == item_line(
                pre[p].key,
                saved_value(pre[p].kind)->0,
            );
        assert(saved_lines(items)[j] == saved_lines(pre)[j]);
    }
}

// ---------------------------------------------------------------------
// Reading one written line
// ---------------------------------------------------------------------

proof fn lemma_trim_key_space(k: Seq<char>)
    requires
        k.len() > 0,
        !is_ws(k[0]),
        !is_ws(k.last()),
    ensures
        trim(k + seq![' ']) == k,
{
    let s = k + seq![' '];
    assert(trim_start(s) == s);
    assert(s.drop_last() =~= k);
    assert(trim_end(s) == trim_end(k));
}

proof fn lemma_trim_space_value(v: Seq<char>)
    requires
        clean_text(v),
    ensures
        trim(seq![' '] + v) == v,
{
    let s = seq![' '] + v;
    assert(s.drop_first() =~= v);
    assert(trim_start(s) == trim_start(v));
    lemma_trim_clean(v);
    if v.len() == 0 {
        assert(trim_start(v) == v);
    }
}

/// A written line reads back as the key and value it was written from.
pub proof fn lemma_parse_item_line(key: Seq<char>, v: Seq<char>)
    requires
        clean_key(key),
        clean_text(v),
    ensures
        parse_line(item_line(key, v)) == Some((key, v)),
{
    let line = item_line(key, v);
    let k = key.len() as int;
    assert(trim_start(line) == line);
    let t = trim(line);
    if v.len() > 0 {
        assert(line.last() == v.last());
        assert(trim_end(line) == line);
        assert(t == line);
    } else {
        assert(line =~= key + seq![' ', '=', ' ']);
        assert(line.drop_last() =~= key + seq![' ', '=']);
        assert(trim_end(line.drop_last()) == line.drop_last());
        assert(t =~= key + seq![' ', '=']);
    }
    assert(t[0] == key[0]);
    assert(t[k + 1] == '=');
    assert forall|j: int| 0 <= j < k + 1 implies t[j] != '=' by {
        if j < k {
            assert(t[j] == key[j]);
        }
    }
    assert(exists|i: int|
        0 <= i < t.len() && t[i] == '=' && (forall|j: int| 0 <= j < i ==> t[j] != '='));
    let i = choose|i: int|
        0 <= i < t.len() && t[i] == '=' && (forall|j: int| 0 <= j < i ==> t[j] != '=');
    assert(i == k + 1) by {
        if i < k + 1 {
            assert(t[i] != '=');
        } else if i > k + 1 {
            assert(t[k + 1] != '=');
        }
    }
    assert(first_index(t, '=') == Some(k + 1));
    assert(t.take(k + 1) =~= key + seq![' ']);
    lemma_trim_key_space(key);
    if v.len() > 0 {
        assert(t.skip(k + 2) =~= seq![' '] + v);
        lemma_trim_space_value(v);
    } else {
        assert(t.skip(k + 2) =~= Seq::<char>::empty());
        assert(trim_start(Seq::<char>::empty()) == Seq::<char>::empty());
        assert(v =~= Seq::<char>::empty());
    }
}

/// The first line of a written config reads as nothing.
proof fn lemma_header()
    ensures
        header() == header().drop_last() + seq!['\n'],
        lacks(header().drop_last(), '\n'),
        parse_line(header().drop_last()) is None,
{
    reveal_strlit("# glass config \u{2014} managed by glassconf\n");
    let h = header().drop_last();
    assert(header() =~= h + seq!['\n']);
    assert(trim_start(h) == h);
    assert(trim_end(h) == h);
}

// ---------------------------------------------------------------------
// Reading lines, setting by setting
// ---------------------------------------------------------------------

/// The value a setting has after the lines are read: each line that sets
/// its key, in order, gives it a value.
pub open spec fn kind_after(k: KindV, key: Seq<char>, lines: Seq<Seq<char>>) -> KindV
    decreases lines.len(),
{
    if lines.len() == 0 {
        k
    } else {
        let k1 = kind_after(k, key, lines.drop_last());
        match parse_line(lines.last()) {
            Some((kk, v)) => if kk == key {
                loaded_kind(k1, v)
            } else {
                k1
            },
            None => k1,
        }
    }
}

pub open spec fn after_lines(it: ItemV, lines: Seq<Seq<char>>) -> ItemV {
    ItemV { label: it.label, key: it.key, kind: kind_after(it.kind, it.key, lines) }
}

/// Reading lines changes each setting on its own.
proof fn lemma_apply_lines_items(cats: Seq<CategoryV>, lines: Seq<Seq<char>>)
    ensures
        apply_lines(cats, lines) == map_items(cats, |it: ItemV| after_lines(it, lines)),
    decreases lines.len(),
{
    if lines.len() == 0 {
        let r = map_items(cats, |it: ItemV| after_lines(it, lines));
        assert forall|c: int| 0 <= c < cats.len() implies #[trigger] r[c] == cats[c] by {
            assert(r[c].items =~= cats[c].items);
        }
        assert(r =~= cats);
    } else {
        let pre = lines.drop_last();
        lemma_apply_lines_items(cats, pre);
        let mid = map_items(cats, |it: ItemV| after_lines(it, pre));
        let r = map_items(cats, |it: ItemV| after_lines(it, lines));
        match parse_line(lines.last()) {
            Some((kk, v)) => {
                let a = apply_setting(mid, kk, v);
                assert forall|c: int| 0 <= c < cats.len() implies #[trigger] a[c] == r[c] by {
                    assert(a[c].items =~= r[c].items);
                }
                assert(a =~= r);
            },
            None => {
                assert forall|c: int| 0 <= c < cats.len() implies #[trigger] mid[c] == r[c] by {
                    assert(mid[c].items =~= r[c].items);
                }
                assert(mid =~= r);
            },
        }
    }
}

proof fn lemma_loaded_idempotent(k: KindV, v: Seq<char>)
    ensures
        loaded_kind(loaded_kind(k, v), v) == loaded_kind(k, v),
{
}

/// No line sets `key`: the setting keeps its value.
proof fn lemma_kind_after_untouched(k: KindV, key: Seq<char>, lines: Seq<Seq<char>>)
    requires
        forall|j: int|
            0 <= j < lines.len() ==> match #[trigger] parse_line(lines[j]) {
                Some((kk, _)) => kk != key,
                None => true,
            },
    ensures
        kind_after(k, key, lines) == k,
    decreases lines.len(),
{
    if lines.len() > 0 {
        let pre = lines.drop_last();
        assert forall|j: int| 0 <= j < pre.len() implies match #[trigger] parse_line(pre[j]) {
            Some((kk, _)) => kk != key,
            None => true,
        } by {
            assert(pre[j] == lines[j]);
        }
        lemma_kind_after_untouched(k, key, pre);
        assert(lines.last() == lines[lines.len() - 1]);
    }
}

/// The lines that set `key` all give it `v`: the setting ends with `v`
/// if some line sets it, and keeps its value otherwise.
proof fn lemma_kind_after_set(k: KindV, key: Seq<char>, v: Seq<char>, lines: Seq<Seq<char>>)
    requires
        forall|j: int|
            0 <= j < lines.len() ==> match #[trigger] parse_line(lines[j]) {
                Some((kk, vv)) => kk == key ==> vv == v,
                None => true,
            },
        exists|j: int| 0 <= j < lines.len() && #[trigger] parse_line(lines[j]) == Some((key, v)),
    ensures
        kind_after(k, key, lines) == loaded_kind(k, v),
    decreases lines.len(),
{
    let pre = lines.drop_last();
    let last = lines.last();
    assert(last == lines[lines.len() - 1]);
    assert forall|j: int| 0 <= j < pre.len() implies match #[trigger] parse_line(pre[j]) {
        Some((kk, vv)) => kk == key ==> vv == v,
        None => true,
    } by {
        assert(pre[j] == lines[j]);
    }
    if parse_line(last) == Some((key, v)) {
        if exists|j: int| 0 <= j < pre.len() && #[trigger] parse_line(pre[j]) == Some((key, v)) {
            lemma_kind_after_set(k, key, v, pre);
            lemma_loaded_idempotent(k, v);
        } else {
            assert forall|j: int| 0 <= j < pre.len() implies match #[trigger] parse_line(pre[j]) {
                Some((kk, _)) => kk != key,
                None => true,
            } by {
                assert(pre[j] == lines[j]);
                match parse_line(pre[j]) {
                    Some((kk, vv)) => {
                        if kk == key {
                            assert(vv == v);
                            assert(parse_line(pre[j]) == Some((key, v)));
                        }
                    },
                    None => {},
                }
            }
            lemma_kind_after_untouched(k, key, pre);
        }
    } else {
        let j0 = choose|j: int| 0 <= j < lines.len() && #[trigger] parse_line(lines[j]) == Some((key, v));
        assert(j0 < pre.len());
        assert(pre[j0] == lines[j0]);
        lemma_kind_after_set(k, key, v, pre);
        match parse_line(last) {
            Some((kk, vv)) => {
                assert(kk != key);
            },
            None => {},
        }
    }
}


// ---------------------------------------------------------------------
// Settings in order
// ---------------------------------------------------------------------

pub proof fn lemma_layout_prefix(a: Seq<CategoryV>, b: Seq<CategoryV>, c: int)
    requires
        same_layout(a, b),
        0 <= c <= a.len(),
    ensures
        same_layout(a.take(c), b.take(c)),
{
    let x = a.take(c);
    let y = b.take(c);
    assert forall|k: int| 0 <= k < x.len() implies #[trigger] x[k] == a[k] && y[k] == b[k] by {}
}

/// Two lists with the same layout list their settings in the same order,
/// with the same labels, keys and kinds.
pub proof fn lemma_flat_layout(a: Seq<CategoryV>, b: Seq<CategoryV>)
    requires
        same_layout(a, b),
    ensures
        flat(a).len() == flat(b).len(),
        forall|p: int| 0 <= p < flat(a).len() ==> same_item_shape(#[trigger] flat(a)[p], flat(b)[p]),
    decreases a.len(),
{
    if a.len() > 0 {
        let n = a.len() - 1;
        lemma_layout_prefix(a, b, n);
        assert(a.take(n) =~= a.drop_last());
        assert(b.take(n) =~= b.drop_last());
        lemma_flat_layout(a.drop_last(), b.drop_last());
        let fa = flat(a.drop_last());
        let fb = flat(b.drop_last());
        assert(same_cat_shape(a[n], b[n]));
        assert forall|p: int| 0 <= p < flat(a).len() implies same_item_shape(
            #[trigger] flat(a)[p],
            flat(b)[p],
        ) by {
            if p < fa.len() {
                assert(flat(a)[p] == fa[p]);
                assert(flat(b)[p] == fb[p]);
                assert(same_item_shape(fa[p], fb[p]));
            } else {
                let i = p - fa.len();
                assert(flat(a)[p] == a[n].items[i]);
                assert(flat(b)[p] == b[n].items[i]);
                assert(same_item_shape(a[n].items[i], b[n].items[i]));
            }
        }
    }
}

/// Setting `i` of category `c` stands in the flat list after the settings
/// of the categories before `c`.
pub proof fn lemma_flat_index(a: Seq<CategoryV>, c: int, i: int)
    requires
        0 <= c < a.len(),
        0 <= i < a[c].items.len(),
    ensures
        flat(a.take(c)).len() + i < flat(a).len(),
        flat(a)[flat(a.take(c)).len() + i] == a[c].items[i],
    decreases a.len(),
{
    let n = a.len() - 1;
    if c == n {
        assert(a.take(c) =~= a.drop_last());
    } else {
        lemma_flat_index(a.drop_last(), c, i);
        assert(a.drop_last().take(c) =~= a.take(c));
        assert(a.drop_last()[c] == a[c]);
    }
}

proof fn lemma_shape_trans(a: KindV, b: KindV, d: KindV)
    requires
        same_kind_shape(a, d),
        same_kind_shape(b, d),
    ensures
        same_kind_shape(a, b),
{
}

pub proof fn lemma_layout_trans(a: Seq<CategoryV>, b: Seq<CategoryV>, d: Seq<CategoryV>)
    requires
        same_layout(a, d),
        same_layout(b, d),
    ensures
        same_layout(a, b),
{
    assert forall|k: int| 0 <= k < a.len() implies same_cat_shape(#[trigger] a[k], b[k]) by {
        assert(same_cat_shape(a[k], d[k]));
        assert(same_cat_shape(b[k], d[k]));
        assert forall|i: int| 0 <= i < a[k].items.len() implies same_item_shape(
            #[trigger] a[k].items[i],
            b[k].items[i],
        ) by {
            assert(same_item_shape(a[k].items[i], d[k].items[i]));
            assert(same_item_shape(b[k].items[i], d[k].items[i]));
            lemma_shape_trans(a[k].items[i].kind, b[k].items[i].kind, d[k].items[i].kind);
        }
    }
}

// ---------------------------------------------------------------------
// Values read back
// ---------------------------------------------------------------------

proof fn lemma_split_join(v: Seq<Seq<char>>)
    requires
        v.len() > 0,
        forall|j: int| 0 <= j < v.len() ==> lacks(#[trigger] v[j], ','),
    ensures
        split(join(v, ','), ',') == v,
    decreases v.len(),
{
    if v.len() == 1 {
        lemma_split_no_sep(v[0], ',');
        assert(seq![v[0]] =~= v);
    } else {
        let pre = v.drop_last();
        assert forall|j: int| 0 <= j < pre.len() implies lacks(#[trigger] pre[j], ',') by {
            assert(pre[j] == v[j]);
        }
        lemma_split_join(pre);
        assert(v.last() == v[v.len() - 1]);
        lemma_split_concat(join(pre, ','), v.last(), ',');
        lemma_split_no_sep(v.last(), ',');
        assert(pre + seq![v.last()] =~= v);
    }
}

proof fn lemma_keep_nonempty_all(v: Seq<Seq<char>>)
    requires
        forall|j: int| 0 <= j < v.len() ==> (#[trigger] v[j]).len() > 0,
    ensures
        keep_nonempty(v) == v,
    decreases v.len(),
{
    if v.len() > 0 {
        let pre = v.drop_last();
        assert forall|j: int| 0 <= j < pre.len() implies (#[trigger] pre[j]).len() > 0 by {
            assert(pre[j] == v[j]);
        }
        lemma_keep_nonempty_all(pre);
        assert(v.last() == v[v.len() - 1]);
        assert(pre.push(v.last()) =~= v);
    }
}

proof fn lemma_cycle_roundtrip(v: Seq<Seq<char>>)
    requires
        v.len() > 0,
        forall|j: int| 0 <= j < v.len() ==> clean_entry(#[trigger] v[j]),
    ensures
        cycle_list(join(v, ',')) == v,
{
    assert forall|j: int| 0 <= j < v.len() implies lacks(#[trigger] v[j], ',') by {
        assert(clean_entry(v[j]));
    }
    lemma_split_join(v);
    let t = split(join(v, ','), ',').map_values(|p: Seq<char>| trim(p));
    assert forall|j: int| 0 <= j < v.len() implies #[trigger] t[j] == v[j] by {
        assert(clean_entry(v[j]));
        lemma_trim_clean(v[j]);
    }
    assert(t =~= v);
    assert forall|j: int| 0 <= j < v.len() implies (#[trigger] v[j]).len() > 0 by {
        assert(clean_entry(v[j]));
    }
    lemma_keep_nonempty_all(v);
}

proof fn lemma_lacks_concat(a: Seq<char>, b: Seq<char>, c: char)
    requires
        lacks(a, c),
        lacks(b, c),
    ensures
        lacks(a + b, c),
{
    assert forall|i: int| 0 <= i < (a + b).len() implies (a + b)[i] != c by {
        if i < a.len() {
            assert((a + b)[i] == a[i]);
        } else {
            assert((a + b)[i] == b[i - a.len()]);
        }
    }
}

proof fn lemma_join_clean(v: Seq<Seq<char>>)
    requires
        v.len() > 0,
        forall|j: int| 0 <= j < v.len() ==> clean_entry(#[trigger] v[j]),
    ensures
        clean_text(join(v, ',')),
        join(v, ',').len() > 0,
    decreases v.len(),
{
    let r = join(v, ',');
    assert(clean_entry(v[0]));
    if v.len() == 1 {
    } else {
        let pre = v.drop_last();
        assert forall|j: int| 0 <= j < pre.len() implies clean_entry(#[trigger] pre[j]) by {
            assert(pre[j] == v[j]);
        }
        lemma_join_clean(pre);
        let l = v.last();
        assert(l == v[v.len() - 1]);
        assert(clean_entry(l));
        let a = join(pre, ',');
        assert(r == a + seq![','] + l);
        assert(r[0] == a[0]);
        assert(r.last() == l.last());
        lemma_lacks_concat(a + seq![','], l, '\n');
        lemma_lacks_concat(a, seq![','], '\n');
    }
}

/// The value written for a setting is a clean text.
proof fn lemma_saved_clean(k: KindV)
    requires
        clean_kind(k),
        clean_words(k),
        saved_value(k) is Some,
        match k {
            KindV::FontSize(i) => i < 9,
            _ => true,
        },
    ensures
        clean_text(saved_value(k)->0),
{
    match k {
        KindV::FontSize(i) => {
            let d = decimal(font_sizes()[i as int] as nat);
            lemma_decimal_plain(font_sizes()[i as int] as nat);
            assert forall|j: int| 0 <= j < d.len() implies d[j] != '\n' by {
                assert(crate::text::is_digit(d[j]));
            }
        },
        KindV::Number(v, _, _) => {
            let d = decimal(v as nat);
            lemma_decimal_plain(v as nat);
            assert forall|j: int| 0 <= j < d.len() implies d[j] != '\n' by {
                assert(crate::text::is_digit(d[j]));
            }
        },
        KindV::BgCycle(v) => {
            lemma_join_clean(v);
        },
        _ => {},
    }
}

/// Reading back the value written for a setting restores it.
proof fn lemma_loaded_saved(k: KindV, b: KindV)
    requires
        same_kind_shape(k, b),
        clean_kind(k),
        clean_words(k),
        saved_value(k) is Some,
    ensures
        loaded_kind(b, saved_value(k)->0) == k,
{
    match k {
        KindV::FontSize(i) => {
            lemma_parse_decimal(font_sizes()[i as int]);
            lemma_font_pos(i as int);
        },
        KindV::Number(v, _, _) => {
            lemma_parse_decimal(v);
        },
        KindV::BgCycle(v) => {
            lemma_cycle_roundtrip(v);
        },
        _ => {},
    }
}


// ---------------------------------------------------------------------
// The law
// ---------------------------------------------------------------------

/// The keys of the default layout are clean and distinct.
pub proof fn lemma_default_keys()
    ensures
        good_keys(flat(default_categories())),
{
    let d = default_categories();
    reveal_with_fuel(flat, 7);
    let f = flat(d);
    assert(f =~= d[0].items + d[1].items + d[2].items + d[3].items + d[4].items + d[5].items);
    reveal_strlit("_theme");
    reveal_strlit("bg");
    reveal_strlit("fg");
    reveal_strlit("cursor");
    reveal_strlit("font_size");
    reveal_strlit("font_weight");
    reveal_strlit("opacity");
    reveal_strlit("cursor_blink");
    reveal_strlit("unfocused_dim");
    reveal_strlit("bg_cycle");
    reveal_strlit("key.font_inc");
    reveal_strlit("key.font_dec");
    reveal_strlit("key.font_reset");
    reveal_strlit("key.bg_cycle");
    reveal_strlit("key.opacity");
    reveal_strlit("bold");
    reveal_strlit("regular");
    assert(f.len() == 15);
    assert forall|p: int| 0 <= p < f.len() implies clean_key(#[trigger] f[p].key) by {
        let k = f[p].key;
        assert forall|i: int| 0 <= i < k.len() implies k[i] != '=' && k[i] != '\n' by {}
    }
    assert forall|p: int| 0 <= p < f.len() implies clean_words(#[trigger] f[p].kind) by {
        if p == 5 {
            let a = "bold"@;
            let b = "regular"@;
            assert(a.len() != b.len());
            assert forall|i: int| 0 <= i < a.len() implies a[i] != '\n' by {}
            assert forall|i: int| 0 <= i < b.len() implies b[i] != '\n' by {}
        }
    }
    assert forall|p: int, q: int|
        0 <= p < f.len() && 0 <= q < f.len() && #[trigger] f[p].key == #[trigger] f[q].key
            implies p == q by {
        if p != q {
            let kp = f[p].key;
            let kq = f[q].key;
            if kp.len() == kq.len() {
                assert(exists|i: int| 0 <= i < kp.len() && kp[i] != kq[i]) by {
                    if kp.len() == 2 {
                        assert(kp[0] != kq[0]);
                    } else if kp.len() == 12 {
                        assert(kp[9] != kq[9]);
                    } else if kp.len() == 6 {
                        assert(kp[0] != kq[0]);
                    } else if kp.len() == 8 {
                        assert(kp[0] != kq[0]);
                    } else if kp.len() == 11 {
                        assert(kp[0] != kq[0]);
                    } else {
                        assert(kp[0] != kq[0]);
                    }
                }
            }
        }
    }
}

/// One setting after the written lines are read back over `g`.
proof fn lemma_item_reads_back(f: Seq<ItemV>, g: ItemV, p: int, lines: Seq<Seq<char>>)
    requires
        0 <= p < f.len(),
        same_item_shape(f[p], g),
        good_keys(f),
        forall|q: int| 0 <= q < f.len() ==> clean_kind(#[trigger] f[q].kind),
        forall|q: int| 0 <= q < f.len() ==> same_kind_shape(#[trigger] f[q].kind, f[q].kind),
        lines == seq![header().drop_last()] + saved_lines(f) + seq![Seq::<char>::empty()],
    ensures
        after_lines(g, lines) == f[p],
{
    let key = f[p].key;
    let s = saved_lines(f);
    lemma_header();
    assert(parse_line(Seq::<char>::empty()) is None) by {
        assert(trim_start(Seq::<char>::empty()) == Seq::<char>::empty());
    }
    // Every line that sets `key` is the line of setting `p`.
    assert forall|j: int| 0 <= j < lines.len() implies match #[trigger] parse_line(lines[j]) {
        Some((kk, vv)) => kk == key ==> (saved_value(f[p].kind) is Some && vv == saved_value(
            f[p].kind,
        )->0),
        None => true,
    } by {
        if 0 < j < lines.len() - 1 {
            assert(lines[j] == s[j - 1]);
            lemma_saved_line_source(f, j - 1);
            let q = choose|q: int|
                0 <= q < f.len() && #[trigger] saved_value(f[q].kind) is Some && s[j - 1]
                    == item_line(f[q].key, saved_value(f[q].kind)->0);
            assert(clean_kind(f[q].kind) && clean_words(f[q].kind) && clean_key(f[q].key));
            assert(same_kind_shape(f[q].kind, f[q].kind));
            lemma_saved_clean(f[q].kind);
            lemma_parse_item_line(f[q].key, saved_value(f[q].kind)->0);
            if f[q].key == key {
                assert(q == p);
            }
        } else if j == 0 {
            assert(lines[j] == header().drop_last());
        } else {
            assert(lines[j] == Seq::<char>::empty());
        }
    }
    assert(clean_kind(f[p].kind) && clean_words(f[p].kind));
    match saved_value(f[p].kind) {
        Some(v) => {
            lemma_saved_line_present(f, p);
            let j = choose|j: int|
                0 <= j < s.len() && #[trigger] s[j] == item_line(key, v);
            assert(lines[j + 1] == s[j]);
            assert(same_kind_shape(f[p].kind, f[p].kind));
            lemma_saved_clean(f[p].kind);
            lemma_parse_item_line(key, v);
            assert(parse_line(lines[j + 1]) == Some((key, v)));
            assert forall|j2: int| 0 <= j2 < lines.len() implies match #[trigger] parse_line(
                lines[j2],
            ) {
                Some((kk, vv)) => kk == key ==> vv == v,
                None => true,
            } by {}
            lemma_kind_after_set(g.kind, key, v, lines);
            lemma_loaded_saved(f[p].kind, g.kind);
        },
        None => {
            assert forall|j2: int| 0 <= j2 < lines.len() implies match #[trigger] parse_line(
                lines[j2],
            ) {
                Some((kk, _)) => kk != key,
                None => true,
            } by {}
            lemma_kind_after_untouched(g.kind, key, lines);
        },
    }
}

/// Law: writing the settings and reading the written text back, over any
/// settings of the same layout, gives exactly the settings that were
/// written, as long as each value survives a config line (`clean_values`:
/// one-line texts without surrounding whitespace, and a non-empty colour
/// list of such entries without commas).
pub proof fn law_written_config_reads_back(cats: Seq<CategoryV>, base: Seq<CategoryV>)
    requires
        same_layout(cats, default_categories()),
        same_layout(base, default_categories()),
        clean_values(cats),
    ensures
        apply_config(base, config_text_spec(cats)) == cats,
{
    let d = default_categories();
    lemma_layout_trans(cats, base, d);
    let f = flat(cats);
    let g = flat(base);
    lemma_flat_layout(cats, d);
    lemma_flat_layout(cats, base);
    lemma_default_keys();
    let fd = flat(d);
    assert(good_keys(f)) by {
        assert forall|p: int| 0 <= p < f.len() implies clean_key(#[trigger] f[p].key) by {
            assert(same_item_shape(f[p], fd[p]));
            assert(clean_key(fd[p].key));
        }
        assert forall|p: int| 0 <= p < f.len() implies clean_words(#[trigger] f[p].kind) by {
            assert(same_item_shape(f[p], fd[p]));
            assert(clean_words(fd[p].kind));
        }
        assert forall|p: int, q: int|
            0 <= p < f.len() && 0 <= q < f.len() && #[trigger] f[p].key == #[trigger] f[q].key
                implies p == q by {
            assert(same_item_shape(f[p], fd[p]));
            assert(same_item_shape(f[q], fd[q]));
            assert(fd[p].key == fd[q].key);
        }
    }
    assert forall|q: int| 0 <= q < f.len() implies same_kind_shape(
        #[trigger] f[q].kind,
        f[q].kind,
    ) by {
        assert(same_item_shape(f[q], fd[q]));
    }
    assert(one_line_each(f)) by {
        assert forall|q: int| 0 <= q < f.len() implies match saved_value(#[trigger] f[q].kind) {
            Some(v) => lacks(item_line(f[q].key, v), '\n'),
            None => true,
        } by {
            assert(clean_kind(f[q].kind) && clean_words(f[q].kind) && clean_key(f[q].key));
            assert(same_kind_shape(f[q].kind, f[q].kind));
            match saved_value(f[q].kind) {
                Some(v) => {
                    lemma_saved_clean(f[q].kind);
                    lemma_lacks_concat(f[q].key, seq![' ', '=', ' '], '\n');
                    lemma_lacks_concat(f[q].key + seq![' ', '=', ' '], v, '\n');
                },
                None => {},
            }
        }
    }
    // The written text, line by line.
    lemma_header();
    let h = header().drop_last();
    let text = config_text_spec(cats);
    assert(text =~= h + seq!['\n'] + items_text(f));
    lemma_split_concat(h, items_text(f), '\n');
    lemma_split_no_sep(h, '\n');
    lemma_split_items_text(f, Seq::<char>::empty());
    assert(items_text(f) + Seq::<char>::empty() =~= items_text(f));
    assert(split(Seq::<char>::empty(), '\n') == seq![Seq::<char>::empty()]);
    let lines = split(text, '\n');
    assert(lines =~= seq![h] + saved_lines(f) + seq![Seq::<char>::empty()]);
    lemma_apply_lines_items(base, lines);
    let r = map_items(base, |it: ItemV| after_lines(it, lines));
    assert forall|c: int| 0 <= c < cats.len() implies #[trigger] r[c] == cats[c] by {
        assert(same_cat_shape(cats[c], base[c]));
        assert forall|i: int| 0 <= i < cats[c].items.len() implies #[trigger] r[c].items[i]
            == cats[c].items[i] by {
            lemma_flat_index(cats, c, i);
            lemma_flat_index(base, c, i);
            lemma_layout_prefix(cats, base, c);
            lemma_flat_layout(cats.take(c), base.take(c));
            let p = flat(base.take(c)).len() + i;
            assert(f[p] == cats[c].items[i]);
            assert(g[p] == base[c].items[i]);
            assert(same_item_shape(f[p], g[p]));
            lemma_item_reads_back(f, g[p], p, lines);
        }
        assert(r[c].items =~= cats[c].items);
    }
    assert(r =~= cats);
}

/// Law, for editor states: saving one state and loading the saved text
/// into another gives the settings of the first.
pub proof fn law_save_then_load(saved: AppV, loading: AppV)
    requires
        wf_state(saved),
        wf_state(loading),
        clean_values(saved.cats),
    ensures
        apply_config(loading.cats, config_text_spec(saved.cats)) == saved.cats,
{
    law_written_config_reads_back(saved.cats, loading.cats);
}

} // verus!
