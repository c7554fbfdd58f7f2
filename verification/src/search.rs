//! Theme search: the name filter and the select-all shortcut of the search field.
use vstd::prelude::*;

use crate::text::{
    all_ascii, all_white_space, ascii_lower, ascii_upper, has_substring, lemma_ascii_case_keeps_ascii,
    lemma_ascii_lower_absorbs, lemma_trim_ws_ascii, lemma_trim_ws_ascii_lower,
    lemma_trim_ws_padding, str_contains, str_to_lowercase, str_trim, trim_ws, unicode_lowercase,
};

verus! {

/// The key value that GDK gives the `a` key.
pub const KEY_LOWER_A: u32 = 0x61;

/// The key value that GDK gives the `A` key (shift held).
pub const KEY_UPPER_A: u32 = 0x41;

/// The bit of GDK's modifier mask that is set while Control is held.
pub const CONTROL_MASK: u32 = 4;

/// The text a query is compared by: trimmed, then lowercased.
pub open spec fn search_key(query: Seq<char>) -> Seq<char> {
    unicode_lowercase(trim_ws(query))
}

/// A theme name matches a query when the query is blank, or when its search
/// key occurs in the lowercased name.
pub open spec fn name_matches(name: Seq<char>, query: Seq<char>) -> bool {
    search_key(query).len() == 0 || has_substring(unicode_lowercase(name), search_key(query))
}

/// On ASCII text, the match with lowercasing written out: the trimmed query,
/// its capital letters made small, is blank or occurs in the name with its
/// capital letters made small.
pub open spec fn ascii_name_matches(name: Seq<char>, query: Seq<char>) -> bool {
    let key = ascii_lower(trim_ws(query));
    key.len() == 0 || has_substring(ascii_lower(name), key)
}

/// Whether the theme called `name` is kept by the search text `query`:
/// case-insensitive substring search, ignoring whitespace around the query.
pub fn theme_name_matches(name: &str, query: &str) -> (r: bool)
    ensures
        r == name_matches(name@, query@),
        trim_ws(query@).len() == 0 ==> r,
        all_ascii(name@) && all_ascii(query@) ==> r == ascii_name_matches(name@, query@),
{
    let trimmed = str_trim(query);
    proof {
        if all_ascii(query@) {
            lemma_trim_ws_ascii(query@);
        }
    }
    let key = str_to_lowercase(trimmed);
    if key.as_str().is_empty() {
        return true;
    }
    let lowered = str_to_lowercase(name);
    str_contains(lowered.as_str(), key.as_str())
}

/// For every name, ASCII or not, and every query: the name matches exactly
/// when the query, trimmed and lowercased, is empty or occurs in the
/// lowercased name. In particular a name matches every query whose trimmed,
/// lowercased form occurs in the name's lowercased form.
pub proof fn lemma_name_matches_is_lowercase_search(name: Seq<char>, query: Seq<char>)
    ensures
        name_matches(name, query) == (unicode_lowercase(trim_ws(query)).len() == 0
            || has_substring(unicode_lowercase(name), unicode_lowercase(trim_ws(query)))),
        has_substring(unicode_lowercase(name), unicode_lowercase(trim_ws(query))) ==> name_matches(
            name,
            query,
        ),
{
}

/// Whitespace around the query never changes whether a name matches.
pub proof fn lemma_padding_never_changes_match(
    name: Seq<char>,
    query: Seq<char>,
    pre: Seq<char>,
    post: Seq<char>,
)
    requires
        all_white_space(pre),
        all_white_space(post),
    ensures
        name_matches(name, pre + query + post) == name_matches(name, query),
{
    lemma_trim_ws_padding(pre, query, post);
}

/// A blank query, empty or whitespace only, keeps every name.
pub proof fn lemma_blank_query_matches_ascii(name: Seq<char>, query: Seq<char>)
    requires
        all_white_space(query),
    ensures
        ascii_name_matches(name, query),
        trim_ws(query).len() == 0,
{
    lemma_trim_ws_padding(query, Seq::empty(), Seq::empty());
    assert(query + Seq::<char>::empty() + Seq::<char>::empty() =~= query);
    assert(trim_ws(Seq::<char>::empty()) =~= Seq::<char>::empty());
}

/// Letter case never changes whether an ASCII name matches an ASCII query:
/// names and queries that are equal once their capital letters are made
/// small give the same answer; in particular capitalising the name or the
/// query, or making either small, changes nothing.
pub proof fn lemma_letter_case_never_changes_match(
    name: Seq<char>,
    query: Seq<char>,
    other_name: Seq<char>,
    other_query: Seq<char>,
)
    requires
        ascii_lower(name) == ascii_lower(other_name),
        ascii_lower(query) == ascii_lower(other_query),
    ensures
        ascii_name_matches(name, query) == ascii_name_matches(other_name, other_query),
{
    lemma_trim_ws_ascii_lower(query);
    lemma_trim_ws_ascii_lower(other_query);
}

/// The two usual case changes are among those that change nothing: the name
/// and the query capitalised, or made small, match as the originals do, and
/// stay ASCII.
pub proof fn lemma_case_changes_keep_match(name: Seq<char>, query: Seq<char>)
    requires
        all_ascii(name),
        all_ascii(query),
    ensures
        all_ascii(ascii_upper(name)) && all_ascii(ascii_lower(name)),
        all_ascii(ascii_upper(query)) && all_ascii(ascii_lower(query)),
        ascii_name_matches(ascii_upper(name), ascii_lower(query)) == ascii_name_matches(name, query),
        ascii_name_matches(ascii_lower(name), ascii_upper(query)) == ascii_name_matches(name, query),
{
    lemma_ascii_case_keeps_ascii(name);
    lemma_ascii_case_keeps_ascii(query);
    lemma_ascii_lower_absorbs(name);
    lemma_ascii_lower_absorbs(query);
    lemma_letter_case_never_changes_match(ascii_upper(name), ascii_lower(query), name, query);
    lemma_letter_case_never_changes_match(ascii_lower(name), ascii_upper(query), name, query);
}

/// The key press selects the whole search text: Control held (whatever other
/// modifiers are) and the `a` key, with or without shift.
pub open spec fn is_select_all(key: u32, modifiers: u32) -> bool {
    (modifiers & CONTROL_MASK) == CONTROL_MASK && (key == KEY_LOWER_A || key == KEY_UPPER_A)
}

/// Whether a key press in the theme search field is the select-all shortcut.
/// `key` is the GDK key value, `modifiers` the bits of GDK's modifier mask.
pub fn selects_all_in_theme_search(key: u32, modifiers: u32) -> (r: bool)
    ensures
        r == is_select_all(key, modifiers),
{
    (modifiers & CONTROL_MASK) == CONTROL_MASK && (key == KEY_LOWER_A || key == KEY_UPPER_A)
}

/// Holding more modifiers never cancels the shortcut: a press that selects
/// all still does with any further modifier bits set.
pub proof fn lemma_select_all_ignores_extra_modifiers(key: u32, modifiers: u32, extra: u32)
    requires
        is_select_all(key, modifiers),
    ensures
        is_select_all(key, modifiers | extra),
{
    assert((modifiers & 4u32) == 4u32 ==> ((modifiers | extra) & 4u32) == 4u32) by (bit_vector);
}

/// Exactly Control+A selects all: the modifier mask has the Control bit
/// (bit 2) and the key is `a` (0x61) or `A` (0x41); no other key selects
/// all, whatever the modifiers.
pub proof fn lemma_select_all_is_control_a(key: u32, modifiers: u32)
    ensures
        is_select_all(key, modifiers) == ((modifiers & 4u32) == 4u32 && (key == 0x61u32 || key
            == 0x41u32)),
        key != 0x61u32 && key != 0x41u32 ==> !is_select_all(key, modifiers),
{
}

/// Without Control no key selects all.
pub proof fn lemma_select_all_needs_control(key: u32, modifiers: u32)
    requires
        (modifiers & CONTROL_MASK) == 0,
    ensures
        !is_select_all(key, modifiers),
{
}

} // verus!
