//! The packaged theme catalog: which cards the search and the appearance
//! filter leave visible.
use vstd::prelude::*;

use crate::search::{name_matches, theme_name_matches};
use crate::text::{has_substring, trim_ws, unicode_lowercase};

verus! {

/// The appearance filter above the catalog.
#[derive(Clone, Copy, Debug, PartialEq, Eq, Structural)]
pub enum ThemeAppearance {
    All,
    Dark,
    Light,
}

/// Whether the appearance filter lets a theme with the given lightness through.
pub open spec fn appearance_admits(appearance: ThemeAppearance, light: bool) -> bool {
    match appearance {
        ThemeAppearance::All => true,
        ThemeAppearance::Dark => !light,
        ThemeAppearance::Light => light,
    }
}

/// A catalog card is shown when the appearance filter admits it and its name
/// matches the search text.
pub open spec fn card_visible(
    appearance: ThemeAppearance,
    light: bool,
    name: Seq<char>,
    query: Seq<char>,
) -> bool {
    appearance_admits(appearance, light) && name_matches(name, query)
}

/// Whether the card of a packaged theme is shown.
pub fn catalog_card_visible(appearance: ThemeAppearance, light: bool, name: &str, query: &str) -> (r:
    bool)
    ensures
        r == card_visible(appearance, light, name@, query@),
        r == (appearance_admits(appearance, light) && name_matches(name@, query@)),
        trim_ws(query@).len() == 0 ==> r == appearance_admits(appearance, light),
{
    let appearance_matches = match appearance {
        ThemeAppearance::All => true,
        ThemeAppearance::Dark => !light,
        ThemeAppearance::Light => light,
    };
    appearance_matches && theme_name_matches(name, query)
}

/// A card is shown exactly when the filter is "All", or "Dark" and the card
/// is dark, or "Light" and the card is light, and the search text, trimmed
/// and lowercased, is empty or occurs in the lowercased name.
pub proof fn lemma_card_visible_spelled_out(
    appearance: ThemeAppearance,
    light: bool,
    name: Seq<char>,
    query: Seq<char>,
)
    ensures
        card_visible(appearance, light, name, query) == ((appearance == ThemeAppearance::All || (
        appearance == ThemeAppearance::Dark && !light) || (appearance == ThemeAppearance::Light
            && light)) && (unicode_lowercase(trim_ws(query)).len() == 0 || has_substring(
            unicode_lowercase(name),
            unicode_lowercase(trim_ws(query)),
        ))),
{
}

/// The filter "All" shows exactly the cards that "Light" or "Dark" shows, and
/// no card is shown under both.
pub proof fn lemma_all_is_light_or_dark(light: bool, name: Seq<char>, query: Seq<char>)
    ensures
        card_visible(ThemeAppearance::All, light, name, query) == (card_visible(
            ThemeAppearance::Light,
            light,
            name,
            query,
        ) || card_visible(ThemeAppearance::Dark, light, name, query)),
        !(card_visible(ThemeAppearance::Light, light, name, query) && card_visible(
            ThemeAppearance::Dark,
            light,
            name,
            query,
        )),
{
}

/// The appearance choices in the order of the filter's buttons.
pub fn appearance_choices() -> (r: [ThemeAppearance; 3])
    ensures
        r@ == seq![ThemeAppearance::All, ThemeAppearance::Light, ThemeAppearance::Dark],
{
    [ThemeAppearance::All, ThemeAppearance::Light, ThemeAppearance::Dark]
}

/// What the filter reads of a packaged theme's card.
pub struct CatalogCard {
    pub name: String,
    pub light: bool,
}

/// The state of the catalog filter: the chosen appearance and the search text.
pub struct CatalogFilter {
    pub appearance: ThemeAppearance,
    pub query: String,
}

impl View for CatalogFilter {
    type V = (ThemeAppearance, Seq<char>);

    open spec fn view(&self) -> (ThemeAppearance, Seq<char>) {
        (self.appearance, self.query@)
    }
}

/// What happens to the catalog filter.
pub enum FilterEvent {
    /// The search text became this text.
    SearchText(Seq<char>),
    /// An appearance button was toggled, on (`true`) or off.
    Toggled(ThemeAppearance, bool),
}

/// The filter state, appearance and search text, after one event.
pub open spec fn filter_step(state: (ThemeAppearance, Seq<char>), event: FilterEvent) -> (
    ThemeAppearance,
    Seq<char>,
) {
    match event {
        FilterEvent::SearchText(text) => (state.0, text),
        FilterEvent::Toggled(value, active) => if active {
            (value, state.1)
        } else {
            state
        },
    }
}

/// The filter state after the events, in order.
pub open spec fn filter_run(state: (ThemeAppearance, Seq<char>), events: Seq<FilterEvent>) -> (
    ThemeAppearance,
    Seq<char>,
)
    decreases events.len(),
{
    if events.len() == 0 {
        state
    } else {
        filter_step(filter_run(state, events.drop_last()), events.last())
    }
}

/// The appearance of the last button that was turned on, or `initial`.
pub open spec fn last_chosen_appearance(initial: ThemeAppearance, events: Seq<FilterEvent>) -> ThemeAppearance
    decreases events.len(),
{
    if events.len() == 0 {
        initial
    } else {
        match events.last() {
            FilterEvent::Toggled(value, true) => value,
            _ => last_chosen_appearance(initial, events.drop_last()),
        }
    }
}

/// The last search text, or `initial`.
pub open spec fn last_search_text(initial: Seq<char>, events: Seq<FilterEvent>) -> Seq<char>
    decreases events.len(),
{
    if events.len() == 0 {
        initial
    } else {
        match events.last() {
            FilterEvent::SearchText(text) => text,
            _ => last_search_text(initial, events.drop_last()),
        }
    }
}

/// Whatever the events, the filter then shows exactly the cards that the
/// last chosen appearance and the last search text admit: turning a button
/// off never changes it, and earlier choices leave no trace.
pub proof fn lemma_filter_follows_last_choices(
    state: (ThemeAppearance, Seq<char>),
    events: Seq<FilterEvent>,
    light: bool,
    name: Seq<char>,
)
    ensures
        filter_run(state, events) == (
            last_chosen_appearance(state.0, events),
            last_search_text(state.1, events),
        ),
        card_visible(filter_run(state, events).0, light, name, filter_run(state, events).1)
            == card_visible(
            last_chosen_appearance(state.0, events),
            light,
            name,
            last_search_text(state.1, events),
        ),
    decreases events.len(),
{
    if events.len() > 0 {
        lemma_filter_follows_last_choices(state, events.drop_last(), light, name);
    }
}

impl CatalogFilter {
    /// The filter as the page opens: all appearances, empty search.
    pub fn new() -> (r: Self)
        ensures
            r.appearance == ThemeAppearance::All,
            r.query@.len() == 0,
            r@ == (ThemeAppearance::All, Seq::<char>::empty()),
    {
        CatalogFilter { appearance: ThemeAppearance::All, query: String::new() }
    }

    /// The search text changed. Returns whether the button that clears the
    /// search is shown, which it is while the text is not empty.
    pub fn set_query(&mut self, text: String) -> (show_clear: bool)
        ensures
            final(self).query@ == text@,
            final(self).appearance == old(self).appearance,
            show_clear == (text@.len() > 0),
            final(self)@ == filter_step(old(self)@, FilterEvent::SearchText(text@)),
    {
        let show_clear = !text.as_str().is_empty();
        self.query = text;
        show_clear
    }

    /// An appearance button was toggled to `active`. Only a button that turns
    /// on selects its appearance; the result says whether the catalog must be
    /// filtered again.
    pub fn toggle_appearance(&mut self, value: ThemeAppearance, active: bool) -> (refilter: bool)
        ensures
            refilter == active,
            final(self).query == old(self).query,
            final(self).appearance == (if active {
                value
            } else {
                old(self).appearance
            }),
            final(self)@ == filter_step(old(self)@, FilterEvent::Toggled(value, active)),
    {
        if active {
            self.appearance = value;
        }
        active
    }

    /// Whether each card is shown under this filter, in the order of `cards`.
    pub fn visibility(&self, cards: &Vec<CatalogCard>) -> (r: Vec<bool>)
        ensures
            r@.len() == cards@.len(),
            forall|i: int|
                0 <= i < cards@.len() ==> #[trigger] r@[i] == card_visible(
                    self.appearance,
                    cards@[i].light,
                    cards@[i].name@,
                    self.query@,
                ),
            trim_ws(self.query@).len() == 0 ==> forall|i: int|
                0 <= i < cards@.len() ==> #[trigger] r@[i] == appearance_admits(
                    self.appearance,
                    cards@[i].light,
                ),
    {
        let mut r: Vec<bool> = Vec::new();
        let mut i: usize = 0;
        while i < cards.len()
            invariant
                i <= cards@.len(),
                r@.len() == i,
                forall|k: int|
                    0 <= k < i ==> #[trigger] r@[k] == card_visible(
                        self.appearance,
                        cards@[k].light,
                        cards@[k].name@,
                        self.query@,
                    ),
                trim_ws(self.query@).len() == 0 ==> forall|k: int|
                    0 <= k < i ==> #[trigger] r@[k] == appearance_admits(
                        self.appearance,
                        cards@[k].light,
                    ),
            decreases cards@.len() - i,
        {
            let card = &cards[i];
            let shown = catalog_card_visible(
                self.appearance,
                card.light,
                card.name.as_str(),
                self.query.as_str(),
            );
            r.push(shown);
            i = i + 1;
        }
        r
    }
}

} // verus!
