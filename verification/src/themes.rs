//! The installed themes: which go to the packaged catalog, which are custom,
//! and which custom themes still need a card.
use vstd::prelude::*;

verus! {

/// What the settings page reads of an installed theme.
pub struct ThemeEntry {
    pub id: String,
    pub name: String,
    pub custom: bool,
    pub light: bool,
}

/// The positions of the packaged (not custom) themes, in order: these get a
/// card in the catalog, the others in the grid of the user's themes.
pub open spec fn packaged_positions(themes: Seq<ThemeEntry>) -> Seq<int>
    decreases themes.len(),
{
    if themes.len() == 0 {
        Seq::empty()
    } else {
        let rest = packaged_positions(themes.drop_last());
        if themes.last().custom {
            rest
        } else {
            rest.push(themes.len() - 1)
        }
    }
}

/// The ids of the custom themes, in order.
pub open spec fn custom_ids(themes: Seq<ThemeEntry>) -> Seq<Seq<char>>
    decreases themes.len(),
{
    if themes.len() == 0 {
        Seq::empty()
    } else {
        let rest = custom_ids(themes.drop_last());
        if themes.last().custom {
            rest.push(themes.last().id@)
        } else {
            rest
        }
    }
}

/// Positions of the packaged themes in `themes`, in order.
pub fn packaged_theme_indices(themes: &Vec<ThemeEntry>) -> (r: Vec<usize>)
    ensures
        r@.map_values(|i: usize| i as int) == packaged_positions(themes@),
{
    let mut r: Vec<usize> = Vec::new();
    let mut i: usize = 0;
    while i < themes.len()
        invariant
            i <= themes@.len(),
            r@.map_values(|k: usize| k as int) == packaged_positions(themes@.take(i as int)),
        decreases themes@.len() - i,
    {
        assert(themes@.take(i + 1).drop_last() =~= themes@.take(i as int));
        if !themes[i].custom {
            r.push(i);
        }
        assert(r@.map_values(|k: usize| k as int) =~= packaged_positions(
            themes@.take(i + 1),
        ));
        i = i + 1;
    }
    assert(themes@.take(themes@.len() as int) =~= themes@);
    r
}

/// Every theme gets exactly one card: a theme's position is among the
/// packaged positions (its card goes to the catalog) exactly when the theme
/// is not custom (otherwise its card goes to the grid of the user's themes).
pub proof fn lemma_each_theme_in_one_grid(themes: Seq<ThemeEntry>, i: int)
    requires
        0 <= i < themes.len(),
    ensures
        packaged_positions(themes).contains(i) == !themes[i].custom,
    decreases themes.len(),
{
    lemma_packaged_positions_below(themes);
    let prefix = themes.drop_last();
    let rest = packaged_positions(prefix);
    if i < themes.len() - 1 {
        lemma_each_theme_in_one_grid(prefix, i);
        assert(prefix[i] == themes[i]);
        if rest.contains(i) {
            let k = choose|k: int| 0 <= k < rest.len() && rest[k] == i;
            if !themes.last().custom {
                assert(packaged_positions(themes)[k] == i);
            }
        }
        if packaged_positions(themes).contains(i) {
            let k = choose|k: int|
                0 <= k < packaged_positions(themes).len() && packaged_positions(themes)[k] == i;
            if !themes.last().custom && k == rest.len() {
                assert(false);
            }
            assert(rest[k] == i);
        }
    } else {
        lemma_packaged_positions_below(prefix);
        if !themes.last().custom {
            assert(packaged_positions(themes)[rest.len() as int] == i);
        } else if packaged_positions(themes).contains(i) {
            let k = choose|k: int| 0 <= k < rest.len() && rest[k] == i;
            assert(false);
        }
    }
}

/// The catalog gets each packaged theme exactly once, in list order: the
/// positions strictly increase, and a position is among them exactly when
/// it is the position of a theme that is not custom.
pub proof fn lemma_packaged_positions_exact(themes: Seq<ThemeEntry>)
    ensures
        forall|a: int, b: int|
            0 <= a < b < packaged_positions(themes).len() ==> packaged_positions(themes)[a]
                < packaged_positions(themes)[b],
        forall|p: int|
            packaged_positions(themes).contains(p) <==> (0 <= p < themes.len()
                && !(#[trigger] themes[p]).custom),
    decreases themes.len(),
{
    lemma_packaged_positions_below(themes);
    let f = packaged_positions(themes);
    if themes.len() > 0 {
        let prefix = themes.drop_last();
        let rest = packaged_positions(prefix);
        lemma_packaged_positions_exact(prefix);
        lemma_packaged_positions_below(prefix);
        assert forall|a: int, b: int| 0 <= a < b < f.len() implies f[a] < f[b] by {
            if b < rest.len() {
                assert(f[a] == rest[a] && f[b] == rest[b]);
            } else {
                assert(f[a] == rest[a]);
            }
        }
    }
    assert forall|p: int| f.contains(p) <==> (0 <= p < themes.len() && !(#[trigger] themes[p]).custom) by {
        if f.contains(p) {
            let k = choose|k: int| 0 <= k < f.len() && f[k] == p;
            assert(0 <= f[k] < themes.len());
            lemma_each_theme_in_one_grid(themes, p);
        }
        if 0 <= p < themes.len() {
            lemma_each_theme_in_one_grid(themes, p);
        }
    }
}

/// Packaged positions are positions of `themes`.
proof fn lemma_packaged_positions_below(themes: Seq<ThemeEntry>)
    ensures
        forall|k: int|
            0 <= k < packaged_positions(themes).len() ==> 0 <= #[trigger] packaged_positions(
                themes,
            )[k] < themes.len(),
    decreases themes.len(),
{
    if themes.len() > 0 {
        let prefix = themes.drop_last();
        lemma_packaged_positions_below(prefix);
        let rest = packaged_positions(prefix);
        assert forall|k: int| 0 <= k < packaged_positions(themes).len() implies 0
            <= #[trigger] packaged_positions(themes)[k] < themes.len() by {
            if k < rest.len() {
                assert(packaged_positions(themes)[k] == rest[k]);
            }
        }
    }
}

/// The ids of the custom themes, in order: what the grid of the user's themes
/// watches to notice a new theme.
pub fn custom_theme_ids(themes: &Vec<ThemeEntry>) -> (r: Vec<String>)
    ensures
        r@.map_values(|s: String| s@) == custom_ids(themes@),
{
    let mut r: Vec<String> = Vec::new();
    let mut i: usize = 0;
    while i < themes.len()
        invariant
            i <= themes@.len(),
            r@.map_values(|s: String| s@) == custom_ids(themes@.take(i as int)),
        decreases themes@.len() - i,
    {
        assert(themes@.take(i + 1).drop_last() =~= themes@.take(i as int));
        if themes[i].custom {
            r.push(themes[i].id.clone());
        }
        assert(r@.map_values(|s: String| s@) =~= custom_ids(themes@.take(i + 1)));
        i = i + 1;
    }
    assert(themes@.take(themes@.len() as int) =~= themes@);
    r
}

/// The ids of the custom themes, as a set.
pub open spec fn custom_id_set(themes: Seq<ThemeEntry>) -> Set<Seq<char>> {
    Set::new(|id: Seq<char>| custom_ids(themes).contains(id))
}

/// The positions of the custom themes that still need a card, given the ids
/// `known` that already have one: a custom theme whose id is neither known
/// nor that of a custom theme before it.
pub open spec fn fresh_positions(known: Set<Seq<char>>, themes: Seq<ThemeEntry>) -> Seq<int>
    decreases themes.len(),
{
    if themes.len() == 0 {
        Seq::empty()
    } else {
        let prefix = themes.drop_last();
        let rest = fresh_positions(known, prefix);
        let t = themes.last();
        if t.custom && !known.contains(t.id@) && !custom_ids(prefix).contains(t.id@) {
            rest.push(themes.len() - 1)
        } else {
            rest
        }
    }
}

/// The ids of the custom themes that already have a card in the grid of the
/// user's themes.
pub struct KnownCustomThemes {
    ids: Vec<String>,
}

impl KnownCustomThemes {
    /// No id is held twice.
    #[verifier::type_invariant]
    spec fn distinct(self) -> bool {
        forall|i: int, j: int|
            0 <= i < j < self.ids@.len() ==> #[trigger] self.ids@[i]@ != #[trigger] self.ids@[j]@
    }

    /// The ids held.
    pub closed spec fn known(self) -> Set<Seq<char>> {
        Set::new(|id: Seq<char>| exists|k: int| 0 <= k < self.ids@.len() && self.ids@[k]@ == id)
    }

    /// No id known yet.
    pub fn empty() -> (r: Self)
        ensures
            r.known() == Set::<Seq<char>>::empty(),
    {
        let r = KnownCustomThemes { ids: Vec::new() };
        assert(r.known() =~= Set::<Seq<char>>::empty());
        r
    }

    /// The custom themes that are installed as the page opens all have a card.
    pub fn new(themes: &Vec<ThemeEntry>) -> (r: Self)
        ensures
            r.known() == custom_id_set(themes@),
    {
        let mut r = Self::empty();
        let _ = r.add_new_cards(themes);
        assert(r.known() =~= custom_id_set(themes@));
        r
    }

    /// Whether `id` is known.
    pub fn contains(&self, id: &String) -> (r: bool)
        ensures
            r == self.known().contains(id@),
    {
        let mut k: usize = 0;
        while k < self.ids.len()
            invariant
                k <= self.ids@.len(),
                forall|j: int| 0 <= j < k ==> self.ids@[j]@ != id@,
            decreases self.ids@.len() - k,
        {
            if self.ids[k] == *id {
                return true;
            }
            k = k + 1;
        }
        false
    }

    /// Adds `id`; returns whether it was new.
    pub fn insert(&mut self, id: String) -> (added: bool)
        ensures
            added == !old(self).known().contains(id@),
            final(self).known() == old(self).known().insert(id@),
    {
        if self.contains(&id) {
            assert(self.known() =~= self.known().insert(id@));
            return false;
        }
        proof {
            use_type_invariant(&*self);
        }
        let ghost before = self.ids@;
        let mut ids: Vec<String> = Vec::new();
        std::mem::swap(&mut ids, &mut self.ids);
        ids.push(id);
        proof {
            assert(ids@ == before.push(id));
            assert forall|i: int, j: int| 0 <= i < j < ids@.len() implies #[trigger] ids@[i]@
                != #[trigger] ids@[j]@ by {
                if j == before.len() {
                    assert(ids@[i] == before[i]);
                } else {
                    assert(ids@[i] == before[i] && ids@[j] == before[j]);
                }
            }
        }
        self.ids = ids;
        assert forall|s: Seq<char>| self.known().contains(s) == old(self).known().insert(id@).contains(s) by {
            if old(self).known().contains(s) {
                let k = choose|k: int| 0 <= k < before.len() && before[k]@ == s;
                assert(self.ids@[k] == before[k]);
            }
            if s == id@ {
                assert(self.ids@[before.len() as int]@ == s);
            }
            if self.known().contains(s) {
                let k = choose|k: int| 0 <= k < self.ids@.len() && self.ids@[k]@ == s;
                if k < before.len() {
                    assert(self.ids@[k] == before[k]);
                }
            }
        }
        assert(self.known() =~= old(self).known().insert(id@));
        true
    }

    /// The themes have changed: returns, in order, the positions of the
    /// custom themes that need a card, and records their ids as known.
    pub fn add_new_cards(&mut self, themes: &Vec<ThemeEntry>) -> (r: Vec<usize>)
        ensures
            r@.map_values(|i: usize| i as int) == fresh_positions(old(self).known(), themes@),
            final(self).known() == old(self).known().union(custom_id_set(themes@)),
    {
        let ghost start = self.known();
        let mut r: Vec<usize> = Vec::new();
        let mut i: usize = 0;
        assert(self.known() =~= start.union(custom_id_set(themes@.take(0))));
        while i < themes.len()
            invariant
                i <= themes@.len(),
                start == old(self).known(),
                self.known() == start.union(custom_id_set(themes@.take(i as int))),
                r@.map_values(|k: usize| k as int) == fresh_positions(start, themes@.take(i as int)),
            decreases themes@.len() - i,
        {
            let ghost prefix = themes@.take(i as int);
            assert(themes@.take(i + 1).drop_last() =~= prefix);
            assert(themes@.take(i + 1).last() == themes@[i as int]);
            if themes[i].custom {
                let added = self.insert(themes[i].id.clone());
                if added {
                    r.push(i);
                }
            }
            proof {
                let next = themes@.take(i + 1);
                let t = themes@[i as int];
                if t.custom {
                    assert(custom_ids(next) == custom_ids(prefix).push(t.id@));
                    assert forall|s: Seq<char>| custom_ids(next).contains(s) == (custom_ids(prefix).contains(s) || s == t.id@) by {
                        if custom_ids(prefix).contains(s) {
                            let k = choose|k: int| 0 <= k < custom_ids(prefix).len() && custom_ids(prefix)[k] == s;
                            assert(custom_ids(next)[k] == s);
                        }
                        if s == t.id@ {
                            assert(custom_ids(next)[custom_ids(prefix).len() as int] == s);
                        }
                    }
                } else {
                    assert(custom_ids(next) == custom_ids(prefix));
                }
                assert(self.known() =~= start.union(custom_id_set(next)));
                assert(r@.map_values(|k: usize| k as int) =~= fresh_positions(start, next));
            }
            i = i + 1;
        }
        assert(themes@.take(themes@.len() as int) =~= themes@);
        r
    }
}

/// With every custom id of `themes` known, none of them needs a card.
proof fn lemma_known_ids_bring_no_card(known: Set<Seq<char>>, themes: Seq<ThemeEntry>)
    requires
        custom_id_set(themes).subset_of(known),
    ensures
        fresh_positions(known, themes) == Seq::<int>::empty(),
    decreases themes.len(),
{
    if themes.len() > 0 {
        let prefix = themes.drop_last();
        assert forall|id: Seq<char>| custom_id_set(prefix).contains(id) implies known.contains(id) by {
            let k = choose|k: int| 0 <= k < custom_ids(prefix).len() && custom_ids(prefix)[k] == id;
            if themes.last().custom {
                assert(custom_ids(themes)[k] == id);
            }
            assert(custom_ids(themes).contains(id));
        }
        lemma_known_ids_bring_no_card(known, prefix);
        if themes.last().custom {
            let id = themes.last().id@;
            assert(custom_ids(themes)[custom_ids(prefix).len() as int] == id);
            assert(custom_id_set(themes).contains(id));
        }
    }
}

/// A second refresh with the same themes adds no card: after the cards of
/// `themes` are added, none of its custom themes is fresh any more.
pub proof fn lemma_second_refresh_adds_nothing(known: Set<Seq<char>>, themes: Seq<ThemeEntry>)
    ensures
        fresh_positions(known.union(custom_id_set(themes)), themes) == Seq::<int>::empty(),
{
    lemma_known_ids_bring_no_card(known.union(custom_id_set(themes)), themes);
}

/// The custom ids are the ids of the custom themes, each once per custom
/// theme, in list order: the ids of the themes kept by the filter "custom".
pub proof fn lemma_custom_ids_in_order(themes: Seq<ThemeEntry>)
    ensures
        custom_ids(themes) == themes.filter_map(
            |t: ThemeEntry|
                if t.custom {
                    Option::Some(t.id@)
                } else {
                    Option::None
                },
        ),
    decreases themes.len(),
{
    if themes.len() > 0 {
        lemma_custom_ids_in_order(themes.drop_last());
        let rest = custom_ids(themes.drop_last());
        assert(rest.push(themes.last().id@) =~= rest + seq![themes.last().id@]);
    }
}

/// A custom id is listed exactly when some custom theme of the list has it.
proof fn lemma_custom_ids_contains(themes: Seq<ThemeEntry>, id: Seq<char>)
    ensures
        custom_ids(themes).contains(id) <==> exists|q: int|
            0 <= q < themes.len() && (#[trigger] themes[q]).custom && themes[q].id@ == id,
    decreases themes.len(),
{
    if themes.len() > 0 {
        let prefix = themes.drop_last();
        lemma_custom_ids_contains(prefix, id);
        let rest = custom_ids(prefix);
        if custom_ids(themes).contains(id) {
            let k = choose|k: int| 0 <= k < custom_ids(themes).len() && custom_ids(themes)[k] == id;
            if k < rest.len() {
                assert(rest[k] == id);
                let q = choose|q: int| 0 <= q < prefix.len() && (#[trigger] prefix[q]).custom && prefix[q].id@ == id;
                assert(themes[q] == prefix[q]);
            } else {
                assert(themes[themes.len() - 1] == themes.last());
            }
        }
        if exists|q: int| 0 <= q < themes.len() && (#[trigger] themes[q]).custom && themes[q].id@ == id {
            let q = choose|q: int| 0 <= q < themes.len() && (#[trigger] themes[q]).custom && themes[q].id@ == id;
            if q < themes.len() - 1 {
                assert(prefix[q] == themes[q]);
                let k = choose|k: int| 0 <= k < rest.len() && rest[k] == id;
                if themes.last().custom {
                    assert(custom_ids(themes)[k] == id);
                }
            } else {
                assert(custom_ids(themes)[rest.len() as int] == id);
            }
        }
    }
}

/// `p` is the first custom theme of the list with its id, and that id is not
/// among the `known` ones.
pub open spec fn first_unseen(known: Set<Seq<char>>, themes: Seq<ThemeEntry>, p: int) -> bool {
    &&& 0 <= p < themes.len()
    &&& themes[p].custom
    &&& !known.contains(themes[p].id@)
    &&& forall|q: int| 0 <= q < p && (#[trigger] themes[q]).custom ==> themes[q].id@ != themes[p].id@
}

/// One refresh reports, in list order, exactly the custom themes that are the
/// first of the list with an id not yet known.
pub proof fn lemma_fresh_positions_are_first_unseen(known: Set<Seq<char>>, themes: Seq<ThemeEntry>)
    ensures
        forall|a: int, b: int|
            0 <= a < b < fresh_positions(known, themes).len() ==> fresh_positions(known, themes)[a]
                < fresh_positions(known, themes)[b],
        forall|p: int| fresh_positions(known, themes).contains(p) <==> first_unseen(known, themes, p),
    decreases themes.len(),
{
    if themes.len() > 0 {
        let prefix = themes.drop_last();
        let rest = fresh_positions(known, prefix);
        let n = themes.len() - 1;
        lemma_fresh_positions_are_first_unseen(known, prefix);
        assert forall|k: int| 0 <= k < rest.len() implies #[trigger] rest[k] < n by {
            assert(rest.contains(rest[k]));
            assert(first_unseen(known, prefix, rest[k]));
        }
        let f = fresh_positions(known, themes);
        assert forall|a: int, b: int| 0 <= a < b < f.len() implies f[a] < f[b] by {
            if b < rest.len() {
                assert(f[a] == rest[a] && f[b] == rest[b]);
            } else {
                assert(f[a] == rest[a]);
                assert(rest[a] < n);
            }
        }
        let id = themes.last().id@;
        lemma_custom_ids_contains(prefix, id);
        assert forall|p: int| f.contains(p) <==> first_unseen(known, themes, p) by {
            if p < n {
                if f.contains(p) {
                    let k = choose|k: int| 0 <= k < f.len() && f[k] == p;
                    if k < rest.len() {
                        assert(rest[k] == p);
                    }
                    assert(rest.contains(p));
                    assert(first_unseen(known, prefix, p));
                    assert(themes[p] == prefix[p]);
                    assert forall|q: int| 0 <= q < p && (#[trigger] themes[q]).custom implies themes[q].id@
                        != themes[p].id@ by {
                        assert(themes[q] == prefix[q]);
                        assert(prefix[q].custom);
                    }
                }
                if first_unseen(known, themes, p) {
                    assert(themes[p] == prefix[p]);
                    assert forall|q: int| 0 <= q < p && (#[trigger] prefix[q]).custom implies prefix[q].id@
                        != prefix[p].id@ by {
                        assert(themes[q] == prefix[q]);
                    }
                    assert(first_unseen(known, prefix, p));
                    let k = choose|k: int| 0 <= k < rest.len() && rest[k] == p;
                    assert(f[k] == p);
                }
            } else if p == n {
                if f.contains(p) {
                    let k = choose|k: int| 0 <= k < f.len() && f[k] == p;
                    if k < rest.len() {
                        assert(rest[k] < n);
                    }
                    assert forall|q: int| 0 <= q < p && (#[trigger] themes[q]).custom implies themes[q].id@
                        != themes[p].id@ by {
                        assert(themes[q] == prefix[q]);
                        if themes[q].id@ == id {
                            assert(prefix[q].custom && prefix[q].id@ == id);
                        }
                    }
                }
                if first_unseen(known, themes, p) {
                    if custom_ids(prefix).contains(id) {
                        let q = choose|q: int| 0 <= q < prefix.len() && (#[trigger] prefix[q]).custom && prefix[q].id@ == id;
                        assert(themes[q] == prefix[q]);
                    }
                    assert(f[rest.len() as int] == p);
                }
            } else {
                if f.contains(p) {
                    let k = choose|k: int| 0 <= k < f.len() && f[k] == p;
                    if k < rest.len() {
                        assert(rest[k] < n);
                    }
                }
            }
        }
    }
}

/// The ids known before refresh number `k` of a run of refreshes with the
/// theme lists `lists`: those known at first and the custom ids of every
/// earlier list.
pub open spec fn known_before(known: Set<Seq<char>>, lists: Seq<Seq<ThemeEntry>>, k: int) -> Set<
    Seq<char>,
>
    decreases k,
{
    if k <= 0 {
        known
    } else {
        known_before(known, lists, k - 1).union(custom_id_set(lists[k - 1]))
    }
}

proof fn lemma_known_before_contains(
    known: Set<Seq<char>>,
    lists: Seq<Seq<ThemeEntry>>,
    k: int,
    id: Seq<char>,
)
    requires
        0 <= k <= lists.len(),
    ensures
        !known_before(known, lists, k).contains(id) <==> (!known.contains(id) && forall|j: int|
            0 <= j < k ==> !(#[trigger] custom_id_set(lists[j])).contains(id)),
    decreases k,
{
    if k > 0 {
        lemma_known_before_contains(known, lists, k - 1, id);
    }
}

/// Over any run of refreshes, each custom id that was not known at first is
/// reported exactly once: at the first refresh whose list has it, and there
/// at its first custom theme (the positions of one refresh come in list
/// order, see `lemma_fresh_positions_are_first_unseen`). An id already
/// reported, even if its theme was removed and added again, is never
/// reported again.
pub proof fn lemma_each_new_id_reported_once(
    known: Set<Seq<char>>,
    lists: Seq<Seq<ThemeEntry>>,
    k: int,
    id: Seq<char>,
)
    requires
        0 <= k < lists.len(),
    ensures
        (exists|p: int|
            #[trigger] fresh_positions(known_before(known, lists, k), lists[k]).contains(p)
                && lists[k][p].id@ == id) <==> (!known.contains(id) && custom_id_set(
            lists[k],
        ).contains(id) && forall|j: int|
            0 <= j < k ==> !(#[trigger] custom_id_set(lists[j])).contains(id)),
{
    let kb = known_before(known, lists, k);
    let l = lists[k];
    lemma_known_before_contains(known, lists, k, id);
    lemma_fresh_positions_are_first_unseen(kb, l);
    lemma_custom_ids_contains(l, id);
    if exists|p: int| #[trigger] fresh_positions(kb, l).contains(p) && l[p].id@ == id {
        let p = choose|p: int| #[trigger] fresh_positions(kb, l).contains(p) && l[p].id@ == id;
        assert(first_unseen(kb, l, p));
        assert(l[p].custom && l[p].id@ == id);
        assert(custom_ids(l).contains(id));
    }
    if !known.contains(id) && custom_id_set(l).contains(id) && forall|j: int|
        0 <= j < k ==> !(#[trigger] custom_id_set(lists[j])).contains(id) {
        assert(custom_ids(l).contains(id));
        let q0 = choose|q: int| 0 <= q < l.len() && (#[trigger] l[q]).custom && l[q].id@ == id;
        let p = lemma_first_custom_with_id(l, id, q0);
        assert(first_unseen(kb, l, p));
        assert(fresh_positions(kb, l).contains(p));
    }
}

/// Given a custom theme with `id` at `q`, there is a first one.
proof fn lemma_first_custom_with_id(themes: Seq<ThemeEntry>, id: Seq<char>, q: int) -> (p: int)
    requires
        0 <= q < themes.len(),
        themes[q].custom,
        themes[q].id@ == id,
    ensures
        0 <= p <= q,
        themes[p].custom,
        themes[p].id@ == id,
        forall|r: int| 0 <= r < p && (#[trigger] themes[r]).custom ==> themes[r].id@ != id,
    decreases q,
{
    if exists|r: int| 0 <= r < q && (#[trigger] themes[r]).custom && themes[r].id@ == id {
        let r = choose|r: int| 0 <= r < q && (#[trigger] themes[r]).custom && themes[r].id@ == id;
        lemma_first_custom_with_id(themes, id, r)
    } else {
        q
    }
}

} // verus!
