//! Which theme card shows as selected, and which text size button is active.
use vstd::prelude::*;

verus! {

/// A card shows as selected when the page does not follow the system theme
/// and the card's theme is the chosen one.
pub open spec fn card_selected(follows_omarchy: bool, selected_id: Seq<char>, theme_id: Seq<char>) -> bool {
    !follows_omarchy && selected_id == theme_id
}

/// Whether the card of the theme `theme_id` shows as selected.
pub fn theme_card_selected(follows_omarchy: bool, selected_id: &String, theme_id: &String) -> (r:
    bool)
    ensures
        r == card_selected(follows_omarchy, selected_id@, theme_id@),
{
    !follows_omarchy && *selected_id == *theme_id
}

/// A card is selected exactly when the page does not follow the system
/// theme and the card's id is the chosen id; so, when the page does not
/// follow the system theme, the card of the chosen theme is selected
/// whatever its id.
pub proof fn lemma_selected_card_is_the_chosen_one(
    follows_omarchy: bool,
    selected_id: Seq<char>,
    theme_id: Seq<char>,
)
    ensures
        card_selected(follows_omarchy, selected_id, theme_id) == (!follows_omarchy && selected_id
            == theme_id),
        card_selected(false, selected_id, selected_id),
{
}

/// While the page follows the system theme, no card shows as selected.
pub proof fn lemma_following_system_selects_none(selected_id: Seq<char>, theme_id: Seq<char>)
    ensures
        !card_selected(true, selected_id, theme_id),
{
}

/// At most one card is selected: two themes with different ids are never
/// both shown as selected.
pub proof fn lemma_at_most_one_selected(
    follows_omarchy: bool,
    selected_id: Seq<char>,
    first: Seq<char>,
    second: Seq<char>,
)
    requires
        first != second,
    ensures
        !(card_selected(follows_omarchy, selected_id, first) && card_selected(
            follows_omarchy,
            selected_id,
            second,
        )),
{
}

/// The interface text sizes.
#[derive(Clone, Copy, Debug, PartialEq, Eq, Structural)]
pub enum TextSize {
    Small,
    Medium,
    Large,
}

/// The text sizes in the order of their buttons.
pub open spec fn text_size_order() -> Seq<TextSize> {
    seq![TextSize::Small, TextSize::Medium, TextSize::Large]
}

/// The text sizes in the order of their buttons.
pub fn text_size_choices() -> (r: [TextSize; 3])
    ensures
        r@ == text_size_order(),
{
    [TextSize::Small, TextSize::Medium, TextSize::Large]
}

/// The button of the current text size: its position in the order of the
/// buttons. Every size has a button, so the fallback to the middle button
/// is never taken.
pub fn active_text_size_index(current: TextSize) -> (r: usize)
    ensures
        r < 3,
        text_size_order()[r as int] == current,
        r == match current {
            TextSize::Small => 0usize,
            TextSize::Medium => 1usize,
            TextSize::Large => 2usize,
        },
{
    let sizes = text_size_choices();
    let mut i: usize = 0;
    while i < 3
        invariant
            i <= 3,
            sizes@ == text_size_order(),
            forall|k: int| 0 <= k < i ==> sizes@[k] != current,
        decreases 3 - i,
    {
        if sizes[i] == current {
            return i;
        }
        i = i + 1;
    }
    assert(sizes@[0] == TextSize::Small && sizes@[1] == TextSize::Medium && sizes@[2]
        == TextSize::Large);
    1
}

} // verus!
