use glassconf::edit::EditRequest;
use glassconf::hex::{normalize_hex, parse_hex, parse_hex_would_panic};
use glassconf::keys::{key_of, save_on_quit, Action, Key};
use glassconf::model::{App, ItemKind};
use glassconf::render::{bg24, fg24, Span, Style};

const DEFAULT_TEXT: &str = "# glass config \u{2014} managed by glassconf\n\
bg = #000000\n\
fg = #ffffff\n\
cursor = #f7768e\n\
font_size = 13\n\
font_weight = regular\n\
opacity = 100\n\
cursor_blink = 0\n\
unfocused_dim = 0\n\
bg_cycle = #000000,#001a33,#002200,#200033,#330011,#332200,#003333\n\
key.font_inc = alt+plus\n\
key.font_dec = alt+minus\n\
key.font_reset = alt+underscore\n\
key.bg_cycle = alt+b\n\
key.opacity = alt+t\n";

fn kind(app: &App, c: usize, i: usize) -> &ItemKind {
    &app.categories()[c].items[i].kind
}

fn text_of(app: &App, c: usize, i: usize) -> String {
    match kind(app, c, i) {
        ItemKind::HexColor(s) => s.clone(),
        ItemKind::Keybind(s) => s.clone(),
        _ => panic!("not a text setting"),
    }
}

fn cycle_of(app: &App) -> Vec<String> {
    match kind(app, 4, 0) {
        ItemKind::BgCycle(v) => v.clone(),
        _ => panic!("not a colour list"),
    }
}

fn number_of(app: &App, i: usize) -> u32 {
    match kind(app, 3, i) {
        ItemKind::Number(v, _, _) => *v,
        _ => panic!("not a number"),
    }
}

fn font_index(app: &App) -> usize {
    match kind(app, 2, 0) {
        ItemKind::FontSize(i) => *i,
        _ => panic!("not a font size"),
    }
}

fn weight_on(app: &App) -> bool {
    match kind(app, 2, 1) {
        ItemKind::Toggle(on, _, _) => *on,
        _ => panic!("not a toggle"),
    }
}

fn select(app: &mut App, c: usize, i: usize) {
    while app.cat_index() > 0 {
        app.prev_category();
    }
    for _ in 0..c {
        app.next_category();
    }
    for _ in 0..i {
        app.move_down();
    }
    assert_eq!((app.cat_index(), app.item_index()), (c, i));
}

fn span_text(line: &[Span]) -> String {
    line.iter().map(|s| s.text.clone()).collect::<Vec<_>>().join("")
}

// ---------------------------------------------------------------------
// Colours
// ---------------------------------------------------------------------

#[test]
fn parse_hex_reads_components() {
    assert_eq!(parse_hex("#ff0000"), Some((255, 0, 0)));
    assert_eq!(parse_hex("  ##FF00aa "), Some((255, 0, 170)));
    assert_eq!(parse_hex("0a0b0c"), Some((10, 11, 12)));
}

#[test]
fn parse_hex_rejects_non_colours() {
    assert_eq!(parse_hex("#12345"), None);
    assert_eq!(parse_hex("#1234567"), None);
    assert_eq!(parse_hex("#gg0000"), None);
    assert_eq!(parse_hex("#-10000"), None);
    assert_eq!(parse_hex("#+f+f+f"), None);
    assert_eq!(parse_hex("+0+0+0"), None);
    assert_eq!(parse_hex(""), None);
    assert_eq!(parse_hex("\u{e9}1234"), None);
}

#[test]
fn parse_hex_panic_inputs_are_detected() {
    assert!(parse_hex_would_panic("a\u{e9}123"));
    assert!(parse_hex_would_panic("\u{20ac}123"));
    assert!(!parse_hex_would_panic("\u{e9}1234"));
    assert!(!parse_hex_would_panic("#ffffff"));
    assert!(!parse_hex_would_panic("zz\u{e9}12"));
}

#[test]
fn normalize_hex_is_canonical() {
    assert_eq!(normalize_hex("#ABCDEF"), Some("#abcdef".to_string()));
    assert_eq!(normalize_hex(" 0A0b0C\n"), Some("#0a0b0c".to_string()));
    assert_eq!(normalize_hex(" +a+b+c"), None);
    assert_eq!(normalize_hex("nothex"), None);
}

#[test]
fn normalize_hex_twice_is_once() {
    for s in ["#ABCDEF", "  #010203", "123abc", "#7F7f7F"] {
        let once = normalize_hex(s).unwrap();
        assert_eq!(normalize_hex(&once), Some(once.clone()));
        assert_eq!(parse_hex(&once), parse_hex(s));
    }
}

#[test]
fn fg24_and_bg24_wrap_text() {
    assert_eq!(fg24("x", "#010203"), "\x1b[38;2;1;2;3mx\x1b[0m");
    assert_eq!(bg24("ab", "#ff0000"), "\x1b[48;2;255;0;0mab\x1b[0m");
    assert_eq!(fg24("x", "zz"), "x");
    assert_eq!(bg24("x", ""), "x");
}

// ---------------------------------------------------------------------
// The config file
// ---------------------------------------------------------------------

#[test]
fn new_app_has_defaults() {
    let app = App::new();
    assert_eq!(app.categories().len(), 6);
    assert_eq!(app.current_color("bg"), Some("#000000"));
    assert_eq!(app.current_color("fg"), Some("#ffffff"));
    assert_eq!(app.current_color("cursor"), Some("#f7768e"));
    assert_eq!(app.current_color("font_size"), None);
    assert_eq!(font_index(&app), 1);
    assert_eq!(cycle_of(&app).len(), 7);
    assert!(!app.dirty());
}

#[test]
fn default_config_text() {
    let app = App::new();
    assert_eq!(app.config_text(), DEFAULT_TEXT);
}

#[test]
fn load_config_reads_settings() {
    let mut app = App::new();
    app.load_config_text(
        "bg = #112233\n  font_size = 18 \nopacity=50\nfont_weight = bold\n# comment\n\
         bogus line\nbg_cycle = #111111, ,#222222,\nkey.opacity = ALT+O\r\n",
    );
    assert_eq!(text_of(&app, 1, 0), "#112233");
    assert_eq!(font_index(&app), 3);
    assert_eq!(number_of(&app, 0), 50);
    assert!(weight_on(&app));
    assert_eq!(cycle_of(&app), vec!["#111111".to_string(), "#222222".to_string()]);
    assert_eq!(text_of(&app, 5, 4), "ALT+O");
    assert!(!app.dirty());
}

#[test]
fn load_config_keeps_unreadable_values() {
    let mut app = App::new();
    app.load_config_text("font_size = 14\nopacity = lots\ncursor_blink = -3\n_theme = nord\n");
    assert_eq!(font_index(&app), 1);
    assert_eq!(number_of(&app, 0), 100);
    assert_eq!(number_of(&app, 1), 0);
    assert_eq!(app.config_text(), DEFAULT_TEXT);
}

#[test]
fn load_config_keeps_numbers_in_bounds() {
    let mut app = App::new();
    app.load_config_text("opacity = 50\nunfocused_dim = 101\ncursor_blink = 2000\n");
    assert_eq!(number_of(&app, 0), 50);
    assert_eq!(number_of(&app, 1), 2000);
    assert_eq!(number_of(&app, 2), 0);
    app.load_config_text("opacity = 500\n");
    assert_eq!(number_of(&app, 0), 50);
}

#[test]
fn load_config_does_not_check_colours() {
    let mut app = App::new();
    app.load_config_text("fg = not a colour\nfont_weight = BOLD\n");
    assert_eq!(text_of(&app, 1, 1), "not a colour");
    assert!(!weight_on(&app));
}

#[test]
fn load_config_later_line_wins() {
    let mut app = App::new();
    app.load_config_text("bg = #010101\nbg = #020202");
    assert_eq!(text_of(&app, 1, 0), "#020202");
}

#[test]
fn empty_cycle_is_not_written() {
    let mut app = App::new();
    app.load_config_text("bg_cycle = , ,\n");
    assert!(cycle_of(&app).is_empty());
    assert!(!app.config_text().contains("\nbg_cycle ="));
}

#[test]
fn saved_config_reads_back() {
    let mut app = App::new();
    app.load_config_text(
        "bg = #123456\nfont_size = 32\nfont_weight = bold\ncursor_blink = 530\n\
         bg_cycle = #aaaaaa,#bbbbbb\nkey.bg_cycle = ctrl+b\nkey.opacity =\n",
    );
    let text = app.config_text();
    let mut fresh = App::new();
    fresh.load_config_text(&text);
    assert_eq!(fresh.config_text(), text);
    assert_eq!(text_of(&fresh, 1, 0), "#123456");
    assert_eq!(font_index(&fresh), 8);
    assert!(weight_on(&fresh));
    assert_eq!(number_of(&fresh, 1), 530);
    assert_eq!(text_of(&fresh, 5, 4), "");
}

// ---------------------------------------------------------------------
// Moving and stepping
// ---------------------------------------------------------------------

#[test]
fn moving_stays_within_categories() {
    let mut app = App::new();
    app.move_down();
    assert_eq!(app.item_index(), 0);
    app.move_up();
    assert_eq!(app.item_index(), 0);
    app.prev_category();
    assert_eq!(app.cat_index(), 0);
    app.next_category();
    app.move_down();
    app.move_down();
    app.move_down();
    assert_eq!((app.cat_index(), app.item_index()), (1, 2));
    app.move_up();
    assert_eq!(app.item_index(), 1);
    app.next_category();
    assert_eq!((app.cat_index(), app.item_index()), (2, 0));
    for _ in 0..10 {
        app.next_category();
    }
    assert_eq!(app.cat_index(), 5);
}

#[test]
fn moves_undo_each_other() {
    let mut app = App::new();
    select(&mut app, 1, 1);
    app.move_down();
    app.move_up();
    assert_eq!((app.cat_index(), app.item_index()), (1, 1));
    app.next_category();
    app.prev_category();
    assert_eq!(app.cat_index(), 1);
}

#[test]
fn theme_steps_apply_presets() {
    let mut app = App::new();
    app.next_value();
    assert_eq!(app.theme_idx(), 1);
    assert!(app.dirty());
    assert_eq!(app.current_color("bg"), Some("#1a1b26"));
    assert_eq!(app.current_color("fg"), Some("#c0caf5"));
    assert_eq!(app.current_color("cursor"), Some("#f7768e"));
    app.prev_value();
    app.prev_value();
    assert_eq!(app.theme_idx(), 5);
    assert_eq!(app.current_color("bg"), Some("#002b36"));
    assert_eq!(app.current_color("fg"), Some("#839496"));
    assert_eq!(app.current_color("cursor"), Some("#cb4b16"));
}

#[test]
fn font_size_steps_stop_at_the_ends() {
    let mut app = App::new();
    select(&mut app, 2, 0);
    app.next_value();
    assert_eq!(font_index(&app), 2);
    app.prev_value();
    app.prev_value();
    app.prev_value();
    assert_eq!(font_index(&app), 0);
    for _ in 0..20 {
        app.next_value();
    }
    assert_eq!(font_index(&app), 8);
}

#[test]
fn number_at_maximum_does_not_move() {
    let mut app = App::new();
    select(&mut app, 3, 0);
    app.next_value();
    assert_eq!(number_of(&app, 0), 100);
    assert!(!app.dirty());
    app.prev_value();
    assert_eq!(number_of(&app, 0), 99);
    assert!(app.dirty());
}

#[test]
fn number_steps_undo_each_other() {
    let mut app = App::new();
    select(&mut app, 3, 1);
    app.next_value();
    assert_eq!(number_of(&app, 1), 1);
    app.prev_value();
    assert_eq!(number_of(&app, 1), 0);
    app.prev_value();
    assert_eq!(number_of(&app, 1), 0);
}

#[test]
fn toggle_flips_both_ways() {
    let mut app = App::new();
    select(&mut app, 2, 1);
    app.next_value();
    assert!(weight_on(&app));
    app.prev_value();
    assert!(!weight_on(&app));
}

#[test]
fn colour_list_does_not_step() {
    let mut app = App::new();
    select(&mut app, 4, 0);
    app.next_value();
    app.prev_value();
    assert!(!app.dirty());
}

#[test]
fn set_color_then_current_color() {
    let mut app = App::new();
    app.set_color("fg", "#abcdef");
    assert_eq!(app.current_color("fg"), Some("#abcdef"));
    assert_eq!(app.current_color("bg"), Some("#000000"));
    app.set_color("opacity", "#abcdef");
    assert_eq!(number_of(&app, 0), 100);
}

#[test]
fn apply_theme_sets_three_colours() {
    let mut app = App::new();
    app.apply_theme(3);
    assert_eq!(app.current_color("bg"), Some("#2e3440"));
    assert_eq!(app.current_color("fg"), Some("#d8dee9"));
    assert_eq!(app.current_color("cursor"), Some("#88c0d0"));
    assert_eq!(app.theme_idx(), 0);
}

// ---------------------------------------------------------------------
// Editing
// ---------------------------------------------------------------------

fn ask(app: &App) -> (String, String) {
    match app.edit_request() {
        EditRequest::Ask { label, initial } => (label, initial),
        EditRequest::Step => panic!("expected a question"),
    }
}

#[test]
fn edit_request_offers_current_values() {
    let mut app = App::new();
    assert!(matches!(app.edit_request(), EditRequest::Step));
    select(&mut app, 1, 0);
    assert_eq!(ask(&app), ("Background".to_string(), "#000000".to_string()));
    select(&mut app, 2, 0);
    assert_eq!(ask(&app).1, "13");
    select(&mut app, 2, 1);
    assert!(matches!(app.edit_request(), EditRequest::Step));
    select(&mut app, 3, 0);
    assert_eq!(ask(&app), ("Opacity (%)".to_string(), "100".to_string()));
    select(&mut app, 4, 0);
    assert_eq!(ask(&app).1, "#000000,#001a33,#002200,#200033,#330011,#332200,#003333");
    select(&mut app, 5, 2);
    assert_eq!(ask(&app).1, "alt+underscore");
}

#[test]
fn edit_colour_is_normalized() {
    let mut app = App::new();
    select(&mut app, 1, 0);
    app.apply_edit("  #ABC123 ");
    assert_eq!(text_of(&app, 1, 0), "#abc123");
    assert!(app.dirty());
    let stored = text_of(&app, 1, 0);
    assert_eq!(normalize_hex(&stored), Some(stored.clone()));
}

#[test]
fn edit_rejects_non_colour_and_blank() {
    let mut app = App::new();
    select(&mut app, 1, 2);
    app.apply_edit("nothex");
    app.apply_edit("   ");
    assert_eq!(text_of(&app, 1, 2), "#f7768e");
    assert!(!app.dirty());
}

#[test]
fn edit_number_within_bounds() {
    let mut app = App::new();
    select(&mut app, 3, 0);
    app.apply_edit("150");
    assert_eq!(number_of(&app, 0), 100);
    assert!(!app.dirty());
    app.apply_edit("+42");
    assert_eq!(number_of(&app, 0), 42);
    assert!(app.dirty());
    app.apply_edit("0");
    assert_eq!(number_of(&app, 0), 0);
}

#[test]
fn edit_font_size_must_be_a_preset() {
    let mut app = App::new();
    select(&mut app, 2, 0);
    app.apply_edit("23");
    assert_eq!(font_index(&app), 1);
    app.apply_edit(" 22 ");
    assert_eq!(font_index(&app), 5);
}

#[test]
fn edit_colour_list_keeps_colours() {
    let mut app = App::new();
    select(&mut app, 4, 0);
    app.apply_edit("#fff, zz, #AABBCC,##0000ff");
    assert_eq!(cycle_of(&app), vec!["#aabbcc".to_string(), "#0000ff".to_string()]);
    app.apply_edit("zz, ,");
    assert_eq!(cycle_of(&app).len(), 2);
}

#[test]
fn edit_keybind_is_lowercased() {
    let mut app = App::new();
    select(&mut app, 5, 0);
    app.apply_edit("ALT+Q");
    assert_eq!(text_of(&app, 5, 0), "alt+q");
    app.apply_edit("\u{c0}\u{c9}");
    assert_eq!(text_of(&app, 5, 0), "\u{e0}\u{e9}");
}

#[test]
fn edit_panic_inputs_are_detected() {
    let mut app = App::new();
    select(&mut app, 1, 0);
    assert!(app.edit_would_panic("a\u{e9}123"));
    assert!(!app.edit_would_panic("#ffffff"));
    select(&mut app, 4, 0);
    assert!(app.edit_would_panic("#ffffff, a\u{e9}123"));
    assert!(!app.edit_would_panic("#ffffff, #000000"));
    select(&mut app, 5, 0);
    assert!(!app.edit_would_panic("a\u{e9}123"));
}

// ---------------------------------------------------------------------
// What is shown
// ---------------------------------------------------------------------

#[test]
fn title_shows_mark_and_preview() {
    let mut app = App::new();
    let swatch = format!(
        "\x1b[48;2;0;0;0m\x1b[38;2;255;255;255m geir@juba: ~/ \x1b[0m\x1b[0m\
         \x1b[48;2;0;0;0m\x1b[38;2;247;118;142m>\x1b[0m\x1b[0m\
         \x1b[48;2;0;0;0m \x1b[0m"
    );
    assert_eq!(app.title_text(), format!(" glassconf    preview: {}", swatch));
    select(&mut app, 2, 1);
    app.next_value();
    app.next_value();
    assert!(app.dirty());
    assert_eq!(app.title_text(), format!(" glassconf [modified]    preview: {}", swatch));
}

#[test]
fn status_shows_position() {
    let mut app = App::new();
    select(&mut app, 1, 1);
    assert_eq!(
        app.status_text(),
        " 2/3  j/k:item  J/K:category  h/l:change  Enter:edit  W/s:save  q:quit"
    );
}

#[test]
fn category_list_reverses_current() {
    let mut app = App::new();
    app.next_category();
    let spans = app.category_list();
    assert_eq!(spans.len(), 6);
    assert_eq!(spans[0].text, " Theme ");
    assert!(matches!(spans[0].style, Style::Plain));
    assert_eq!(spans[1].text, " Colors ");
    assert!(matches!(spans[1].style, Style::Reverse));
}

#[test]
fn item_lines_for_colours() {
    let mut app = App::new();
    select(&mut app, 1, 0);
    let lines = app.item_lines();
    assert_eq!(lines.len(), 11);
    assert_eq!(lines[0][0].text, "Colors");
    assert!(matches!(lines[0][0].style, Style::BoldFg(81)));
    assert_eq!(lines[1][0].text, "\u{2500}".repeat(40));
    assert!(lines[2].is_empty());
    assert_eq!(lines[3][1].text, format!("{:<20}", "Background"));
    assert!(matches!(lines[3][1].style, Style::Underline));
    assert_eq!(
        span_text(&lines[3]),
        format!("  {:<20}\u{25C0} \x1b[48;2;0;0;0m    \x1b[0m #000000 \u{25B6}", "Background")
    );
    assert_eq!(
        span_text(&lines[4]),
        format!("  {:<20}  \x1b[48;2;255;255;255m    \x1b[0m #ffffff  ", "Foreground")
    );
    assert!(lines[6].is_empty());
    assert_eq!(lines[7][0].text, "Live preview:");
    assert_eq!(
        lines[8][0].text,
        "\x1b[48;2;0;0;0m\x1b[38;2;255;255;255m geir@juba: ~/projects \x1b[0m\x1b[0m\
         \x1b[48;2;0;0;0m\x1b[38;2;247;118;142m>\x1b[0m\x1b[0m\x1b[48;2;0;0;0m \x1b[0m"
    );
    assert_eq!(
        lines[9][0].text,
        format!("\x1b[48;2;0;0;0m{:<60}\x1b[0m", " ls -la | grep glass")
    );
    assert_eq!(lines[10][0].text, format!("\x1b[48;2;0;0;0m{:<60}\x1b[0m", " "));
}

#[test]
fn item_lines_for_other_kinds() {
    let mut app = App::new();
    app.load_config_text("bg_cycle = ,\nkey.font_dec =\n");
    select(&mut app, 0, 0);
    let lines = app.item_lines();
    assert_eq!(lines[3][3].text, "default");
    assert!(matches!(lines[3][3].style, Style::Fg(220)));
    select(&mut app, 4, 0);
    let lines = app.item_lines();
    assert_eq!(lines[3][3].text, "(empty)");
    assert!(matches!(lines[3][3].style, Style::Fg(245)));
    assert_eq!(lines[3][4].text, " (0 colors)");
    select(&mut app, 5, 1);
    let lines = app.item_lines();
    assert_eq!(lines[3][3].text, "alt+plus");
    assert!(matches!(lines[3][3].style, Style::Fg(81)));
    assert_eq!(lines[4][3].text, "(disabled)");
    select(&mut app, 2, 0);
    let lines = app.item_lines();
    assert_eq!(lines[3][3].text, "13");
    assert_eq!(lines[4][3].text, "regular");
    assert!(matches!(lines[4][3].style, Style::Fg(245)));
}

#[test]
fn colour_list_swatches() {
    let mut app = App::new();
    app.load_config_text("bg_cycle = #010203,#040506\n");
    select(&mut app, 4, 0);
    let lines = app.item_lines();
    assert_eq!(
        lines[3][3].text,
        "\x1b[48;2;1;2;3m  \x1b[0m\x1b[48;2;4;5;6m  \x1b[0m (2 colors)"
    );
}

#[test]
fn render_panic_inputs_are_detected() {
    let mut app = App::new();
    assert!(!app.render_would_panic());
    app.load_config_text("bg = a\u{e9}123\n");
    assert!(app.render_would_panic());
    let mut other = App::new();
    other.load_config_text("bg_cycle = #000000, \u{20ac}123\n");
    assert!(!other.render_would_panic());
    select(&mut other, 4, 0);
    assert!(other.render_would_panic());
}

// ---------------------------------------------------------------------
// Colours: case and padding
// ---------------------------------------------------------------------

#[test]
fn parse_hex_ignores_case_and_padding() {
    for s in ["1a2b3c", "#A0b0C0", "ffffff", "12345", "xyz123"] {
        assert_eq!(parse_hex(&s.to_ascii_uppercase()), parse_hex(s));
        assert_eq!(parse_hex(&format!(" \t#{}\n", s)), parse_hex(s));
    }
}

// ---------------------------------------------------------------------
// Keys
// ---------------------------------------------------------------------

#[test]
fn key_names_map_to_keys() {
    assert_eq!(key_of("q"), Key::Quit);
    assert_eq!(key_of("ESC"), Key::Quit);
    assert_eq!(key_of("j"), Key::Down);
    assert_eq!(key_of("DOWN"), Key::Down);
    assert_eq!(key_of("k"), Key::Up);
    assert_eq!(key_of("UP"), Key::Up);
    assert_eq!(key_of("J"), Key::NextCategory);
    assert_eq!(key_of("PgDOWN"), Key::NextCategory);
    assert_eq!(key_of("K"), Key::PrevCategory);
    assert_eq!(key_of("PgUP"), Key::PrevCategory);
    assert_eq!(key_of("l"), Key::NextValue);
    assert_eq!(key_of("RIGHT"), Key::NextValue);
    assert_eq!(key_of("TAB"), Key::NextValue);
    assert_eq!(key_of("h"), Key::PrevValue);
    assert_eq!(key_of("LEFT"), Key::PrevValue);
    assert_eq!(key_of("S-TAB"), Key::PrevValue);
    assert_eq!(key_of("ENTER"), Key::Edit);
    assert_eq!(key_of("W"), Key::Save);
    assert_eq!(key_of("s"), Key::Save);
    assert_eq!(key_of("RESIZE"), Key::Resize);
    assert_eq!(key_of("x"), Key::Other);
    assert_eq!(key_of("Q"), Key::Other);
    assert_eq!(key_of(""), Key::Other);
}

#[test]
fn quit_asks_to_save_only_when_modified() {
    let mut app = App::new();
    assert_eq!(app.on_key(Key::Quit), Action::Exit);
    select(&mut app, 2, 1);
    assert_eq!(app.on_key(Key::NextValue), Action::Redraw);
    assert!(weight_on(&app));
    assert_eq!(app.on_key(Key::Quit), Action::AskSave);
    assert!(app.dirty());
}

#[test]
fn save_clears_the_modified_mark() {
    let mut app = App::new();
    select(&mut app, 3, 0);
    app.on_key(Key::PrevValue);
    assert_eq!(number_of(&app, 0), 99);
    assert!(app.dirty());
    assert_eq!(app.on_key(Key::Save), Action::SaveAndRedraw);
    assert!(!app.dirty());
    assert_eq!(number_of(&app, 0), 99);
    assert_eq!(app.on_key(Key::Quit), Action::Exit);
}

#[test]
fn mark_saved_keeps_the_settings() {
    let mut app = App::new();
    app.on_key(Key::NextValue);
    assert!(app.dirty());
    let text = app.config_text();
    app.mark_saved();
    assert!(!app.dirty());
    assert_eq!(app.config_text(), text);
    assert_eq!(app.theme_idx(), 1);
}

#[test]
fn keys_move_the_cursor() {
    let mut app = App::new();
    assert_eq!(app.on_key(Key::NextCategory), Action::Redraw);
    assert_eq!(app.on_key(Key::Down), Action::Redraw);
    assert_eq!((app.cat_index(), app.item_index()), (1, 1));
    assert_eq!(app.on_key(Key::Up), Action::Redraw);
    assert_eq!(app.item_index(), 0);
    assert_eq!(app.on_key(Key::PrevCategory), Action::Redraw);
    assert_eq!(app.cat_index(), 0);
    assert_eq!(app.on_key(Key::Resize), Action::Relayout);
    assert_eq!(app.on_key(Key::Other), Action::Nothing);
    assert!(!app.dirty());
}

#[test]
fn enter_steps_toggles_and_asks_for_values() {
    let mut app = App::new();
    assert_eq!(app.on_key(Key::Edit), Action::Redraw);
    assert_eq!(app.theme_idx(), 1);
    select(&mut app, 2, 1);
    assert_eq!(app.on_key(Key::Edit), Action::Redraw);
    assert!(weight_on(&app));
    select(&mut app, 1, 0);
    let before = app.config_text();
    assert_eq!(app.on_key(Key::Edit), Action::AskValue);
    assert_eq!(app.config_text(), before);
}

#[test]
fn quitting_saves_only_on_yes_with_changes() {
    assert!(save_on_quit(true, Some("y")));
    assert!(save_on_quit(true, Some("Y")));
    assert!(!save_on_quit(true, Some("n")));
    assert!(!save_on_quit(true, Some("yes")));
    assert!(!save_on_quit(true, None));
    assert!(!save_on_quit(false, Some("y")));
}
