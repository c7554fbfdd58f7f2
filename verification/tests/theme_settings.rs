use theme_settings::catalog::{
    appearance_choices, catalog_card_visible, CatalogCard, CatalogFilter, ThemeAppearance,
};
use theme_settings::search::{
    selects_all_in_theme_search, theme_name_matches, CONTROL_MASK, KEY_LOWER_A, KEY_UPPER_A,
};
use theme_settings::selection::{
    active_text_size_index, text_size_choices, theme_card_selected, TextSize,
};
use theme_settings::themes::{
    custom_theme_ids, packaged_theme_indices, KnownCustomThemes, ThemeEntry,
};

const SHIFT_MASK: u32 = 1;
const ALT_MASK: u32 = 8;

fn theme(id: &str, name: &str, custom: bool, light: bool) -> ThemeEntry {
    ThemeEntry {
        id: id.to_string(),
        name: name.to_string(),
        custom,
        light,
    }
}

fn card(name: &str, light: bool) -> CatalogCard {
    CatalogCard {
        name: name.to_string(),
        light,
    }
}

#[test]
fn empty_query_matches_every_name() {
    assert!(theme_name_matches("Tokyo Night", ""));
    assert!(theme_name_matches("", ""));
}

#[test]
fn whitespace_only_query_matches_every_name() {
    assert!(theme_name_matches("Gruvbox", "   "));
    assert!(theme_name_matches("Gruvbox", "\t\n "));
}

#[test]
fn query_is_trimmed_before_matching() {
    assert!(theme_name_matches("Nord", "  nord  "));
    assert!(theme_name_matches("Rose Pine", " pine\t"));
}

#[test]
fn matching_ignores_case() {
    assert!(theme_name_matches("Nord", "NORD"));
    assert!(theme_name_matches("catppuccin latte", "Latte"));
}

#[test]
fn query_matches_any_part_of_the_name() {
    assert!(theme_name_matches("Catppuccin Mocha", "mocha"));
    assert!(theme_name_matches("Catppuccin Mocha", "puccin mo"));
    assert!(!theme_name_matches("Catppuccin Mocha", "latte"));
    assert!(!theme_name_matches("Nord", "nordic"));
}

#[test]
fn inner_spaces_of_the_query_are_kept() {
    assert!(!theme_name_matches("Tokyo Night", "tokyo  night"));
    assert!(theme_name_matches("Tokyo Night", "tokyo night"));
}

#[test]
fn control_a_selects_all() {
    assert!(selects_all_in_theme_search(KEY_LOWER_A, CONTROL_MASK));
    assert!(selects_all_in_theme_search(KEY_UPPER_A, CONTROL_MASK | SHIFT_MASK));
}

#[test]
fn extra_modifiers_keep_select_all() {
    assert!(selects_all_in_theme_search(KEY_LOWER_A, CONTROL_MASK | ALT_MASK));
}

#[test]
fn a_without_control_does_not_select_all() {
    assert!(!selects_all_in_theme_search(KEY_LOWER_A, 0));
    assert!(!selects_all_in_theme_search(KEY_UPPER_A, SHIFT_MASK));
    assert!(!selects_all_in_theme_search(0x62, CONTROL_MASK));
}

#[test]
fn gdk_key_values() {
    assert_eq!(KEY_LOWER_A, 97);
    assert_eq!(KEY_UPPER_A, 65);
    assert_eq!(CONTROL_MASK, 1 << 2);
}

#[test]
fn appearance_filter_admits_by_lightness() {
    assert!(catalog_card_visible(ThemeAppearance::All, true, "Latte", ""));
    assert!(catalog_card_visible(ThemeAppearance::All, false, "Mocha", ""));
    assert!(catalog_card_visible(ThemeAppearance::Light, true, "Latte", ""));
    assert!(!catalog_card_visible(ThemeAppearance::Light, false, "Mocha", ""));
    assert!(catalog_card_visible(ThemeAppearance::Dark, false, "Mocha", ""));
    assert!(!catalog_card_visible(ThemeAppearance::Dark, true, "Latte", ""));
}

#[test]
fn card_needs_both_appearance_and_name() {
    assert!(!catalog_card_visible(ThemeAppearance::All, true, "Latte", "mocha"));
    assert!(!catalog_card_visible(ThemeAppearance::Dark, true, "Latte", "latte"));
    assert!(catalog_card_visible(ThemeAppearance::Light, true, "Latte", "LAT"));
}

#[test]
fn all_is_light_or_dark_on_examples() {
    for light in [true, false] {
        for (name, query) in [("Nord", "no"), ("Nord", "x"), ("Latte", "")] {
            let all = catalog_card_visible(ThemeAppearance::All, light, name, query);
            let l = catalog_card_visible(ThemeAppearance::Light, light, name, query);
            let d = catalog_card_visible(ThemeAppearance::Dark, light, name, query);
            assert_eq!(all, l || d);
            assert!(!(l && d));
        }
    }
}

#[test]
fn appearance_buttons_order() {
    assert_eq!(
        appearance_choices(),
        [ThemeAppearance::All, ThemeAppearance::Light, ThemeAppearance::Dark]
    );
}

#[test]
fn filter_starts_showing_everything() {
    let filter = CatalogFilter::new();
    assert_eq!(filter.appearance, ThemeAppearance::All);
    assert!(filter.query.is_empty());
    let cards = vec![card("Latte", true), card("Mocha", false)];
    assert_eq!(filter.visibility(&cards), vec![true, true]);
}

#[test]
fn filter_applies_query_and_appearance_to_each_card() {
    let mut filter = CatalogFilter::new();
    let cards = vec![
        card("Catppuccin Latte", true),
        card("Catppuccin Mocha", false),
        card("Nord", false),
    ];
    assert!(filter.set_query("catppuccin".to_string()));
    assert_eq!(filter.visibility(&cards), vec![true, true, false]);
    assert!(filter.toggle_appearance(ThemeAppearance::Dark, true));
    assert_eq!(filter.visibility(&cards), vec![false, true, false]);
    assert!(!filter.set_query(String::new()));
    assert_eq!(filter.visibility(&cards), vec![false, true, true]);
}

#[test]
fn releasing_a_button_keeps_the_appearance() {
    let mut filter = CatalogFilter::new();
    filter.toggle_appearance(ThemeAppearance::Light, true);
    assert!(!filter.toggle_appearance(ThemeAppearance::All, false));
    assert_eq!(filter.appearance, ThemeAppearance::Light);
}

#[test]
fn empty_catalog_has_no_visibility() {
    let filter = CatalogFilter::new();
    assert!(filter.visibility(&Vec::new()).is_empty());
}

#[test]
fn selected_card_is_the_chosen_theme() {
    let chosen = "nord".to_string();
    assert!(theme_card_selected(false, &chosen, &"nord".to_string()));
    assert!(!theme_card_selected(false, &chosen, &"latte".to_string()));
}

#[test]
fn following_omarchy_selects_no_card() {
    let chosen = "nord".to_string();
    assert!(!theme_card_selected(true, &chosen, &"nord".to_string()));
}

#[test]
fn at_most_one_card_selected() {
    let chosen = "mocha".to_string();
    let ids = ["latte", "mocha", "nord"];
    let selected = ids
        .iter()
        .filter(|id| theme_card_selected(false, &chosen, &id.to_string()))
        .count();
    assert_eq!(selected, 1);
}

#[test]
fn text_size_buttons_round_trip() {
    let sizes = text_size_choices();
    assert_eq!(sizes, [TextSize::Small, TextSize::Medium, TextSize::Large]);
    assert_eq!(active_text_size_index(TextSize::Small), 0);
    assert_eq!(active_text_size_index(TextSize::Medium), 1);
    assert_eq!(active_text_size_index(TextSize::Large), 2);
    for size in sizes {
        assert_eq!(sizes[active_text_size_index(size)], size);
    }
}

#[test]
fn packaged_themes_go_to_the_catalog_in_order() {
    let themes = vec![
        theme("latte", "Latte", false, true),
        theme("mine", "Mine", true, false),
        theme("nord", "Nord", false, false),
        theme("other", "Other", true, true),
    ];
    assert_eq!(packaged_theme_indices(&themes), vec![0, 2]);
    assert_eq!(custom_theme_ids(&themes), vec!["mine".to_string(), "other".to_string()]);
}

#[test]
fn no_themes_no_cards() {
    let themes: Vec<ThemeEntry> = Vec::new();
    assert!(packaged_theme_indices(&themes).is_empty());
    assert!(custom_theme_ids(&themes).is_empty());
}

#[test]
fn known_custom_themes_start_with_installed_ones() {
    let themes = vec![theme("latte", "Latte", false, true), theme("mine", "Mine", true, false)];
    let known = KnownCustomThemes::new(&themes);
    assert!(known.contains(&"mine".to_string()));
    assert!(!known.contains(&"latte".to_string()));
}

#[test]
fn insert_reports_only_new_ids() {
    let mut known = KnownCustomThemes::empty();
    assert!(known.insert("a".to_string()));
    assert!(!known.insert("a".to_string()));
    assert!(known.insert("b".to_string()));
    assert!(known.contains(&"a".to_string()));
}

#[test]
fn only_new_custom_themes_get_a_card() {
    let mut themes = vec![theme("latte", "Latte", false, true), theme("mine", "Mine", true, false)];
    let mut known = KnownCustomThemes::new(&themes);
    themes.push(theme("fresh", "Fresh", true, false));
    themes.push(theme("nord", "Nord", false, false));
    themes.push(theme("fresh", "Fresh again", true, false));
    assert_eq!(known.add_new_cards(&themes), vec![2]);
    assert!(known.contains(&"fresh".to_string()));
}

#[test]
fn second_refresh_adds_nothing() {
    let themes = vec![
        theme("a", "A", true, false),
        theme("b", "B", true, true),
        theme("p", "P", false, true),
    ];
    let mut known = KnownCustomThemes::empty();
    assert_eq!(known.add_new_cards(&themes), vec![0, 1]);
    assert!(known.add_new_cards(&themes).is_empty());
}

const WHITE_SPACE: [char; 25] = [
    '\u{9}', '\u{A}', '\u{B}', '\u{C}', '\u{D}', '\u{20}', '\u{85}', '\u{A0}', '\u{1680}',
    '\u{2000}', '\u{2001}', '\u{2002}', '\u{2003}', '\u{2004}', '\u{2005}', '\u{2006}',
    '\u{2007}', '\u{2008}', '\u{2009}', '\u{200A}', '\u{2028}', '\u{2029}', '\u{202F}',
    '\u{205F}', '\u{3000}',
];

#[test]
fn every_white_space_char_is_trimmed_from_the_query() {
    for c in WHITE_SPACE {
        assert!(c.is_whitespace());
        let query = format!("{c}nord{c}");
        assert!(theme_name_matches("Nord", &query));
        assert!(theme_name_matches("Nord", &c.to_string()));
    }
}

#[test]
fn white_space_list_is_complete() {
    let count = (0..=0x10FFFFu32)
        .filter_map(char::from_u32)
        .filter(|c| c.is_whitespace())
        .count();
    assert_eq!(count, WHITE_SPACE.len());
}

#[test]
fn zero_width_space_is_not_trimmed() {
    assert!(!theme_name_matches("Nord", "nord\u{200B}"));
}

#[test]
fn padding_and_case_never_change_the_answer() {
    let names = ["Nord", "Catppuccin Mocha", "Rose Pine Dawn", "tokyo-night"];
    let queries = ["no", "MOCHA", "pine d", "x", "", "Night"];
    for name in names {
        for query in queries {
            let plain = theme_name_matches(name, query);
            assert_eq!(theme_name_matches(name, &format!("  {}\n", query)), plain);
            assert_eq!(
                theme_name_matches(&name.to_ascii_uppercase(), &query.to_ascii_lowercase()),
                plain
            );
            assert_eq!(
                theme_name_matches(&name.to_ascii_lowercase(), &query.to_ascii_uppercase()),
                plain
            );
        }
    }
}

#[test]
fn blank_query_shows_every_card_of_the_appearance() {
    let mut filter = CatalogFilter::new();
    filter.set_query(" \t".to_string());
    filter.toggle_appearance(ThemeAppearance::Light, true);
    let cards = vec![card("Latte", true), card("Mocha", false)];
    assert_eq!(filter.visibility(&cards), vec![true, false]);
}

#[test]
fn filter_follows_the_last_choices() {
    let cards = vec![
        card("Catppuccin Latte", true),
        card("Catppuccin Mocha", false),
        card("Nord", false),
    ];
    let mut filter = CatalogFilter::new();
    filter.toggle_appearance(ThemeAppearance::Dark, true);
    filter.set_query("nord".to_string());
    filter.toggle_appearance(ThemeAppearance::Light, true);
    filter.toggle_appearance(ThemeAppearance::Dark, false);
    filter.set_query("catppuccin".to_string());
    filter.toggle_appearance(ThemeAppearance::All, false);
    assert_eq!(filter.appearance, ThemeAppearance::Light);
    assert_eq!(filter.query, "catppuccin");
    assert_eq!(filter.visibility(&cards), vec![true, false, false]);
}

#[test]
fn each_new_custom_theme_gets_one_card_over_refreshes() {
    let first = vec![theme("a", "A", true, false), theme("p", "P", false, true)];
    let mut known = KnownCustomThemes::new(&first);
    let second = vec![
        theme("p", "P", false, true),
        theme("b", "B", true, false),
        theme("c", "C", true, false),
        theme("b", "B again", true, true),
    ];
    assert_eq!(known.add_new_cards(&second), vec![1, 2]);
    let removed = vec![theme("a", "A", true, false)];
    assert!(known.add_new_cards(&removed).is_empty());
    let readded = vec![theme("c", "C", true, false), theme("d", "D", true, false)];
    assert_eq!(known.add_new_cards(&readded), vec![1]);
    assert!(known.add_new_cards(&second).is_empty());
}
