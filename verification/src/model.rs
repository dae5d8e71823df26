//! The settings of the glass terminal: their kinds, the categories they are
//! grouped in, the default layout, and the editor state.
use vstd::prelude::*;
use vstd::string::*;
use crate::text::string_of;

verus! {

broadcast use vstd::string::group_string_axioms;

// ---------------------------------------------------------------------
// Fixed tables
// ---------------------------------------------------------------------

/// The nine font sizes that glass offers.
pub open spec fn font_sizes() -> Seq<u32> {
    seq![10u32, 13, 15, 18, 20, 22, 24, 28, 32]
}

/// Number of font sizes.
pub const N_FONT_SIZES: usize = 9;

/// Number of theme presets.
pub const N_THEMES: usize = 6;

/// Position of a size in `font_sizes()`, if it is one of them.
pub open spec fn font_pos(n: u32) -> Option<nat> {
    if exists|i: int| 0 <= i < 9 && font_sizes()[i] == n {
        Some((choose|i: int| 0 <= i < 9 && font_sizes()[i] == n) as nat)
    } else {
        None
    }
}

/// The font size at position `i` (`FONT_SIZES[i]`).
pub fn font_size_at(i: usize) -> (r: u32)
    requires
        i < N_FONT_SIZES,
    ensures
        r == font_sizes()[i as int],
{
    match i {
        0 => 10,
        1 => 13,
        2 => 15,
        3 => 18,
        4 => 20,
        5 => 22,
        6 => 24,
        7 => 28,
        _ => 32,
    }
}

/// The sizes are distinct, so a size has one position.
pub proof fn lemma_font_pos(i: int)
    requires
        0 <= i < 9,
    ensures
        font_pos(font_sizes()[i]) == Some(i as nat),
{
    let n = font_sizes()[i];
    let j = choose|j: int| 0 <= j < 9 && font_sizes()[j] == n;
    assert(font_sizes()[j] == n);
}

/// Position of `n` among the font sizes (`FONT_SIZES.iter().position`).
pub fn font_position(n: u32) -> (r: Option<usize>)
    ensures
        match r {
            Some(i) => i < N_FONT_SIZES && font_pos(n) == Some(i as nat),
            None => font_pos(n) is None,
        },
{
    let mut i: usize = 0;
    while i < N_FONT_SIZES
        invariant
            i <= N_FONT_SIZES,
            forall|j: int| 0 <= j < i ==> font_sizes()[j] != n,
        decreases N_FONT_SIZES - i,
    {
        if font_size_at(i) == n {
            proof {
                lemma_font_pos(i as int);
            }
            return Some(i);
        }
        i += 1;
    }
    None
}

/// Names of the theme presets.
pub open spec fn theme_name(i: int) -> Seq<char> {
    if i == 0 {
        "default"@
    } else if i == 1 {
        "tokyonight"@
    } else if i == 2 {
        "gruvbox"@
    } else if i == 3 {
        "nord"@
    } else if i == 4 {
        "dracula"@
    } else {
        "solarized"@
    }
}

/// The background, foreground and cursor colours of theme preset `i`.
pub open spec fn theme_colors(i: int) -> (Seq<char>, Seq<char>, Seq<char>) {
    if i == 0 {
        ("#000000"@, "#ffffff"@, "#f7768e"@)
    } else if i == 1 {
        ("#1a1b26"@, "#c0caf5"@, "#f7768e"@)
    } else if i == 2 {
        ("#282828"@, "#ebdbb2"@, "#fb4934"@)
    } else if i == 3 {
        ("#2e3440"@, "#d8dee9"@, "#88c0d0"@)
    } else if i == 4 {
        ("#282a36"@, "#f8f8f2"@, "#ff79c6"@)
    } else {
        ("#002b36"@, "#839496"@, "#cb4b16"@)
    }
}

/// `THEME_NAMES[i]`.
pub fn theme_name_at(i: usize) -> (r: &'static str)
    requires
        i < N_THEMES,
    ensures
        r@ == theme_name(i as int),
{
    match i {
        0 => "default",
        1 => "tokyonight",
        2 => "gruvbox",
        3 => "nord",
        4 => "dracula",
        _ => "solarized",
    }
}

/// `THEMES[i]`.
pub fn theme_colors_at(i: usize) -> (r: (&'static str, &'static str, &'static str))
    requires
        i < N_THEMES,
    ensures
        (r.0@, r.1@, r.2@) == theme_colors(i as int),
{
    match i {
        0 => ("#000000", "#ffffff", "#f7768e"),
        1 => ("#1a1b26", "#c0caf5", "#f7768e"),
        2 => ("#282828", "#ebdbb2", "#fb4934"),
        3 => ("#2e3440", "#d8dee9", "#88c0d0"),
        4 => ("#282a36", "#f8f8f2", "#ff79c6"),
        _ => ("#002b36", "#839496", "#cb4b16"),
    }
}

// ---------------------------------------------------------------------
// Settings
// ---------------------------------------------------------------------

/// What a setting holds.
pub enum ItemKind {
    /// A colour `#rrggbb` (bg, fg, cursor).
    HexColor(String),
    /// An index into the font sizes.
    FontSize(usize),
    /// A value with its minimum and maximum.
    Number(u32, u32, u32),
    /// A list of colours.
    BgCycle(Vec<String>),
    /// On or off, with the words written for each.
    Toggle(bool, &'static str, &'static str),
    /// A key binding such as `alt+plus`.
    Keybind(String),
    /// The theme preset selector.
    Theme,
}

/// The mathematical value of an `ItemKind`.
pub enum KindV {
    HexColor(Seq<char>),
    FontSize(nat),
    Number(u32, u32, u32),
    BgCycle(Seq<Seq<char>>),
    Toggle(bool, Seq<char>, Seq<char>),
    Keybind(Seq<char>),
    Theme,
}

impl View for ItemKind {
    type V = KindV;

    open spec fn view(&self) -> KindV {
        match self {
            ItemKind::HexColor(s) => KindV::HexColor(s@),
            ItemKind::FontSize(i) => KindV::FontSize(*i as nat),
            ItemKind::Number(v, lo, hi) => KindV::Number(*v, *lo, *hi),
            ItemKind::BgCycle(v) => KindV::BgCycle(v@.map_values(|s: String| s@)),
            ItemKind::Toggle(on, a, b) => KindV::Toggle(*on, a@, b@),
            ItemKind::Keybind(s) => KindV::Keybind(s@),
            ItemKind::Theme => KindV::Theme,
        }
    }
}

/// One setting: what the editor shows, the key in the config file, and
/// its value.
pub struct Item {
    pub label: String,
    pub key: &'static str,
    pub kind: ItemKind,
}

pub struct ItemV {
    pub label: Seq<char>,
    pub key: Seq<char>,
    pub kind: KindV,
}

impl View for Item {
    type V = ItemV;

    open spec fn view(&self) -> ItemV {
        ItemV { label: self.label@, key: self.key@, kind: self.kind@ }
    }
}

/// A named group of settings.
pub struct Category {
    pub name: String,
    pub items: Vec<Item>,
}

pub struct CategoryV {
    pub name: Seq<char>,
    pub items: Seq<ItemV>,
}

impl View for Category {
    type V = CategoryV;

    open spec fn view(&self) -> CategoryV {
        CategoryV { name: self.name@, items: self.items@.map_values(|i: Item| i@) }
    }
}

pub open spec fn item_v(label: Seq<char>, key: Seq<char>, kind: KindV) -> ItemV {
    ItemV { label, key, kind }
}

/// The categories and settings with their default values.
pub open spec fn default_categories() -> Seq<CategoryV> {
    seq![
        CategoryV { name: "Theme"@, items: seq![item_v("Theme preset"@, "_theme"@, KindV::Theme)] },
        CategoryV {
            name: "Colors"@,
            items: seq![
                item_v("Background"@, "bg"@, KindV::HexColor("#000000"@)),
                item_v("Foreground"@, "fg"@, KindV::HexColor("#ffffff"@)),
                item_v("Cursor"@, "cursor"@, KindV::HexColor("#f7768e"@)),
            ],
        },
        CategoryV {
            name: "Font"@,
            items: seq![
                item_v("Font size"@, "font_size"@, KindV::FontSize(1)),
                item_v(
                    "Font weight"@,
                    "font_weight"@,
                    KindV::Toggle(false, "bold"@, "regular"@),
                ),
            ],
        },
        CategoryV {
            name: "Window"@,
            items: seq![
                item_v("Opacity (%)"@, "opacity"@, KindV::Number(100, 0, 100)),
                item_v("Cursor blink (ms)"@, "cursor_blink"@, KindV::Number(0, 0, 2000)),
                item_v("Unfocused dim (%)"@, "unfocused_dim"@, KindV::Number(0, 0, 100)),
            ],
        },
        CategoryV {
            name: "BG Cycle"@,
            items: seq![
                item_v(
                    "Cycle list"@,
                    "bg_cycle"@,
                    KindV::BgCycle(
                        seq![
                            "#000000"@,
                            "#001a33"@,
                            "#002200"@,
                            "#200033"@,
                            "#330011"@,
                            "#332200"@,
                            "#003333"@,
                        ],
                    ),
                ),
            ],
        },
        CategoryV {
            name: "Keybindings"@,
            items: seq![
                item_v("Font size +"@, "key.font_inc"@, KindV::Keybind("alt+plus"@)),
                item_v("Font size -"@, "key.font_dec"@, KindV::Keybind("alt+minus"@)),
                item_v("Font reset"@, "key.font_reset"@, KindV::Keybind("alt+underscore"@)),
                item_v("BG cycle"@, "key.bg_cycle"@, KindV::Keybind("alt+b"@)),
                item_v("Opacity toggle"@, "key.opacity"@, KindV::Keybind("alt+t"@)),
            ],
        },
    ]
}

/// Two values of a setting share the same kind, and the same fixed parts
/// (bounds of a number, words of a toggle); a font index stays in range.
pub open spec fn same_kind_shape(k: KindV, d: KindV) -> bool {
    match (k, d) {
        (KindV::HexColor(_), KindV::HexColor(_)) => true,
        (KindV::FontSize(i), KindV::FontSize(_)) => i < 9,
        (KindV::Number(_, a, b), KindV::Number(_, c, e)) => a == c && b == e,
        (KindV::BgCycle(_), KindV::BgCycle(_)) => true,
        (KindV::Toggle(_, a, b), KindV::Toggle(_, c, e)) => a == c && b == e,
        (KindV::Keybind(_), KindV::Keybind(_)) => true,
        (KindV::Theme, KindV::Theme) => true,
        _ => false,
    }
}

/// Two settings differ at most in their values.
pub open spec fn same_item_shape(a: ItemV, b: ItemV) -> bool {
    &&& a.label == b.label
    &&& a.key == b.key
    &&& same_kind_shape(a.kind, b.kind)
}

/// Two categories differ at most in the values of their settings.
pub open spec fn same_cat_shape(a: CategoryV, b: CategoryV) -> bool {
    &&& a.name == b.name
    &&& a.items.len() == b.items.len()
    &&& forall|i: int| 0 <= i < a.items.len() ==> same_item_shape(#[trigger] a.items[i], b.items[i])
}

/// Two lists of categories have the same layout: names, labels, keys and
/// kinds agree position by position; only the values may differ.
pub open spec fn same_layout(a: Seq<CategoryV>, b: Seq<CategoryV>) -> bool {
    &&& a.len() == b.len()
    &&& forall|c: int| 0 <= c < a.len() ==> same_cat_shape(#[trigger] a[c], b[c])
}

/// The editor's state, apart from the terminal panes and the file path.
/// Its fields are read through methods; every state satisfies `wf`.
pub struct App {
    pub(crate) categories: Vec<Category>,
    pub(crate) cat_index: usize,
    pub(crate) item_index: usize,
    pub(crate) theme_idx: usize,
    pub(crate) dirty: bool,
}

/// The mathematical value of the editor state.
pub struct AppV {
    pub cats: Seq<CategoryV>,
    pub cat_index: nat,
    pub item_index: nat,
    pub theme_idx: nat,
    pub dirty: bool,
}

/// The values of a list of categories.
pub open spec fn cat_views(v: Seq<Category>) -> Seq<CategoryV> {
    v.map_values(|c: Category| c@)
}

impl View for App {
    type V = AppV;

    closed spec fn view(&self) -> AppV {
        AppV {
            cats: cat_views(self.categories@),
            cat_index: self.cat_index as nat,
            item_index: self.item_index as nat,
            theme_idx: self.theme_idx as nat,
            dirty: self.dirty,
        }
    }
}

/// Inside the crate, the value of the state is made of its fields.
pub(crate) broadcast proof fn lemma_app_view(a: &App)
    ensures
        #[trigger] a@ == (AppV {
            cats: cat_views(a.categories@),
            cat_index: a.cat_index as nat,
            item_index: a.item_index as nat,
            theme_idx: a.theme_idx as nat,
            dirty: a.dirty,
        }),
{
}

/// A well-formed state value: the default layout, the cursor on a setting,
/// the theme index in range.
pub open spec fn wf_state(s: AppV) -> bool {
    &&& same_layout(s.cats, default_categories())
    &&& s.cat_index < s.cats.len()
    &&& s.item_index < s.cats[s.cat_index as int].items.len()
    &&& s.theme_idx < N_THEMES
}

impl App {
    /// The categories as values.
    pub open spec fn cats(&self) -> Seq<CategoryV> {
        self@.cats
    }

    /// The state is well formed: the categories have the default layout,
    /// the cursor points at a setting, and the theme index is in range.
    #[verifier::type_invariant]
    pub(crate) open spec fn wf(&self) -> bool {
        wf_state(self@)
    }

    /// The categories with their default values (`build_categories`).
    pub fn build_categories(&mut self)
        ensures
            final(self)@ == (AppV { cats: default_categories(), ..old(self)@ }),
    {
        proof {
            use_type_invariant(&*self);
            lemma_default_layout();
            lemma_layout_lengths(self@);
        }
        self.categories = default_category_vec();
    }

    /// A fresh editor: default settings, the cursor on the first setting,
    /// the first theme, nothing modified.
    pub fn new() -> (r: App)
        ensures
            r@ == (AppV {
                cats: default_categories(),
                cat_index: 0,
                item_index: 0,
                theme_idx: 0,
                dirty: false,
            }),
    {
        let categories = default_category_vec();
        proof {
            lemma_default_layout();
        }
        App { categories, cat_index: 0, item_index: 0, theme_idx: 0, dirty: false }
    }

    /// The settings, category by category.
    pub fn categories(&self) -> (r: &Vec<Category>)
        ensures
            cat_views(r@) == self@.cats,
    {
        &self.categories
    }

    /// Position of the current category.
    pub fn cat_index(&self) -> (r: usize)
        ensures
            r == self@.cat_index,
    {
        self.cat_index
    }

    /// Position of the selected setting in its category.
    pub fn item_index(&self) -> (r: usize)
        ensures
            r == self@.item_index,
    {
        self.item_index
    }

    /// Position of the current theme preset.
    pub fn theme_idx(&self) -> (r: usize)
        ensures
            r == self@.theme_idx,
    {
        self.theme_idx
    }

    /// Whether the settings were changed since they were last saved.
    pub fn dirty(&self) -> (r: bool)
        ensures
            r == self@.dirty,
    {
        self.dirty
    }

    /// Clears the modified mark once the settings are saved.
    pub fn mark_saved(&mut self)
        ensures
            final(self)@ == (AppV { dirty: false, ..old(self)@ }),
    {
        proof {
            use_type_invariant(&*self);
        }
        self.dirty = false;
    }

    /// Replaces the categories with `cats`, which keep the layout; the
    /// cursor and the other fields stay.
    pub(crate) fn replace_categories(&mut self, cats: Vec<Category>)
        requires
            same_layout(cat_views(cats@), default_categories()),
        ensures
            final(self)@ == (AppV { cats: cat_views(cats@), ..old(self)@ }),
    {
        proof {
            use_type_invariant(&*self);
            lemma_layout_lengths(self@);
            lemma_layout_lengths(AppV { cats: cat_views(cats@), ..self@ });
        }
        self.categories = cats;
    }

    /// Takes the categories out, leaving the default ones in their place
    /// until `replace_categories` puts the changed ones back.
    pub(crate) fn take_categories(&mut self) -> (r: Vec<Category>)
        ensures
            cat_views(r@) == old(self)@.cats,
            final(self)@ == (AppV { cats: default_categories(), ..old(self)@ }),
    {
        proof {
            use_type_invariant(&*self);
            lemma_default_layout();
            lemma_layout_lengths(self@);
        }
        let mut cats = default_category_vec();
        std::mem::swap(&mut cats, &mut self.categories);
        cats
    }
}

/// In a layout of the default categories, every category has as many
/// settings as the default one, and at least one.
pub proof fn lemma_layout_lengths(s: AppV)
    requires
        same_layout(s.cats, default_categories()),
    ensures
        s.cats.len() == 6,
        forall|c: int| 0 <= c < 6 ==> #[trigger] s.cats[c].items.len() == default_categories()[c].items.len(),
        forall|c: int| 0 <= c < 6 ==> #[trigger] s.cats[c].items.len() >= 1,
{
    let d = default_categories();
    assert forall|c: int| 0 <= c < 6 implies #[trigger] s.cats[c].items.len() == d[c].items.len() by {
        assert(same_cat_shape(s.cats[c], d[c]));
    }
}

/// The default layout is a layout.
pub proof fn lemma_default_layout()
    ensures
        same_layout(default_categories(), default_categories()),
{
    let d = default_categories();
    assert forall|c: int| 0 <= c < d.len() implies same_cat_shape(#[trigger] d[c], d[c]) by {
        assert forall|i: int| 0 <= i < d[c].items.len() implies same_item_shape(
            #[trigger] d[c].items[i],
            d[c].items[i],
        ) by {
            if c == 2 && i == 0 {
                assert(d[c].items[i].kind == KindV::FontSize(1));
            }
        }
    }
}

fn mk_item(label: &str, key: &'static str, kind: ItemKind) -> (r: Item)
    ensures
        r@ == item_v(label@, key@, kind@),
{
    Item { label: string_of(label), key, kind }
}

fn mk_category(name: &str, items: Vec<Item>) -> (r: Category)
    ensures
        r@ == (CategoryV { name: name@, items: items@.map_values(|i: Item| i@) }),
{
    Category { name: string_of(name), items }
}

fn default_bg_cycle() -> (r: Vec<String>)
    ensures
        r@.map_values(|s: String| s@) == seq![
            "#000000"@,
            "#001a33"@,
            "#002200"@,
            "#200033"@,
            "#330011"@,
            "#332200"@,
            "#003333"@,
        ],
{
    let mut v: Vec<String> = Vec::new();
    v.push(string_of("#000000"));
    v.push(string_of("#001a33"));
    v.push(string_of("#002200"));
    v.push(string_of("#200033"));
    v.push(string_of("#330011"));
    v.push(string_of("#332200"));
    v.push(string_of("#003333"));
    assert(v@.map_values(|s: String| s@) =~= seq![
        "#000000"@,
        "#001a33"@,
        "#002200"@,
        "#200033"@,
        "#330011"@,
        "#332200"@,
        "#003333"@,
    ]);
    v
}

fn default_category_vec() -> (r: Vec<Category>)
    ensures
        r@.map_values(|c: Category| c@) == default_categories(),
{
    let mut theme: Vec<Item> = Vec::new();
    theme.push(mk_item("Theme preset", "_theme", ItemKind::Theme));

    let mut colors: Vec<Item> = Vec::new();
    colors.push(mk_item("Background", "bg", ItemKind::HexColor(string_of("#000000"))));
    colors.push(mk_item("Foreground", "fg", ItemKind::HexColor(string_of("#ffffff"))));
    colors.push(mk_item("Cursor", "cursor", ItemKind::HexColor(string_of("#f7768e"))));

    let mut font: Vec<Item> = Vec::new();
    let default_font = font_position(13);
    proof {
        lemma_font_pos(1);
    }
    let idx = match default_font {
        Some(i) => i,
        None => 0,
    };
    font.push(mk_item("Font size", "font_size", ItemKind::FontSize(idx)));
    font.push(mk_item("Font weight", "font_weight", ItemKind::Toggle(false, "bold", "regular")));

    let mut window: Vec<Item> = Vec::new();
    window.push(mk_item("Opacity (%)", "opacity", ItemKind::Number(100, 0, 100)));
    window.push(mk_item("Cursor blink (ms)", "cursor_blink", ItemKind::Number(0, 0, 2000)));
    window.push(mk_item("Unfocused dim (%)", "unfocused_dim", ItemKind::Number(0, 0, 100)));

    let mut cycle: Vec<Item> = Vec::new();
    cycle.push(mk_item("Cycle list", "bg_cycle", ItemKind::BgCycle(default_bg_cycle())));

    let mut keys: Vec<Item> = Vec::new();
    keys.push(mk_item("Font size +", "key.font_inc", ItemKind::Keybind(string_of("alt+plus"))));
    keys.push(mk_item("Font size -", "key.font_dec", ItemKind::Keybind(string_of("alt+minus"))));
    keys.push(
        mk_item("Font reset", "key.font_reset", ItemKind::Keybind(string_of("alt+underscore"))),
    );
    keys.push(mk_item("BG cycle", "key.bg_cycle", ItemKind::Keybind(string_of("alt+b"))));
    keys.push(mk_item("Opacity toggle", "key.opacity", ItemKind::Keybind(string_of("alt+t"))));

    let ghost d = default_categories();
    assert(theme@.map_values(|i: Item| i@) =~= d[0].items);
    assert(colors@.map_values(|i: Item| i@) =~= d[1].items);
    assert(font@.map_values(|i: Item| i@) =~= d[2].items);
    assert(window@.map_values(|i: Item| i@) =~= d[3].items);
    assert(cycle@.map_values(|i: Item| i@) =~= d[4].items);
    assert(keys@.map_values(|i: Item| i@) =~= d[5].items);
    let mut cats: Vec<Category> = Vec::new();
    cats.push(mk_category("Theme", theme));
    cats.push(mk_category("Colors", colors));
    cats.push(mk_category("Font", font));
    cats.push(mk_category("Window", window));
    cats.push(mk_category("BG Cycle", cycle));
    cats.push(mk_category("Keybindings", keys));
    assert(cats@.map_values(|c: Category| c@) =~= default_categories());
    cats
}

} // verus!
