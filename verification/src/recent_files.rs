//! The list of recently opened files: most recent first, without two
//! entries that name the same path, capped at `MAX_RECENT`.

use vstd::prelude::*;
use crate::paths::{path_texts, paths_equal, same_path};
use crate::json::{json_string_array, parse_string_array, pretty_json_string_array, write_string_array_pretty};

verus! {

/// How many recent files the list keeps.
pub const MAX_RECENT: usize = 10;

/// The entries of `items` that do not name the path `p`, in order.
pub open spec fn without_path(items: Seq<Seq<char>>, p: Seq<char>) -> Seq<Seq<char>> {
    items.filter(|q: Seq<char>| !same_path(q, p))
}

/// The first `MAX_RECENT` entries of `items`.
pub open spec fn capped(items: Seq<Seq<char>>) -> Seq<Seq<char>> {
    if items.len() <= MAX_RECENT {
        items
    } else {
        items.take(MAX_RECENT as int)
    }
}

/// The list after opening `p`: `p` first, then the earlier entries that do
/// not name `p`, capped.
pub open spec fn with_added(items: Seq<Seq<char>>, p: Seq<char>) -> Seq<Seq<char>> {
    capped(seq![p] + without_path(items, p))
}

/// The entries of `items` whose decision is `true`, in order.
pub open spec fn selected(items: Seq<Seq<char>>, decisions: Seq<bool>) -> Seq<Seq<char>>
    decreases items.len(),
{
    if items.len() == 0 || decisions.len() != items.len() {
        Seq::empty()
    } else {
        let rest = selected(items.drop_last(), decisions.drop_last());
        if decisions.last() {
            rest.push(items.last())
        } else {
            rest
        }
    }
}

/// The array of strings that a stored JSON text holds, or the empty list
/// when the text is not a JSON array of strings.
pub open spec fn stored_list(text: Seq<char>) -> Seq<Seq<char>> {
    match json_string_array(text) {
        Some(items) => items,
        None => Seq::<Seq<char>>::empty(),
    }
}

/// The entries of `items` that name no path named by an earlier entry: the
/// first entry for each path, in order.
pub open spec fn first_of_each(items: Seq<Seq<char>>) -> Seq<Seq<char>>
    decreases items.len(),
{
    if items.len() == 0 {
        items
    } else {
        let d = first_of_each(items.drop_last());
        if exists|k: int| 0 <= k < d.len() && same_path(items.last(), #[trigger] d[k]) {
            d
        } else {
            d.push(items.last())
        }
    }
}

/// The list that a stored JSON text loads as: the first entry for each path
/// of the stored array, in stored order, capped at `MAX_RECENT`.
pub open spec fn loaded_list(text: Seq<char>) -> Seq<Seq<char>> {
    capped(first_of_each(stored_list(text)))
}

/// No entry of `items` names the same path as an earlier entry.
pub open spec fn all_distinct(items: Seq<Seq<char>>) -> bool {
    forall|i: int, j: int|
        0 <= j < i < items.len() ==> !same_path(#[trigger] items[i], #[trigger] items[j])
}

/// In-memory list of recently opened file paths, most-recent-first, deduped,
/// capped at MAX_RECENT. Persisted to disk as a JSON array of paths.
pub struct RecentFiles {
    items: Vec<String>,
}

impl RecentFiles {
    /// The stored path strings, most recent first.
    pub closed spec fn entries(&self) -> Seq<String> {
        self.items@
    }

    /// No entry names the same path as an earlier one, and there are at most
    /// `MAX_RECENT` entries.
    #[verifier::type_invariant]
    spec fn well_formed(self) -> bool {
        &&& all_distinct(path_texts(self.items@))
        &&& self.items@.len() <= MAX_RECENT
    }
}

/// Whether an entry of `items` names the path `p`.
fn names_path(items: &Vec<String>, p: &str) -> (r: bool)
    ensures
        r == exists|k: int| 0 <= k < items@.len() && same_path(p@, #[trigger] items@[k]@),
{
    let n: usize = items.len();
    let mut k: usize = 0;
    while k < n
        invariant
            n == items@.len(),
            k <= n,
            forall|j: int| 0 <= j < k ==> !same_path(p@, #[trigger] items@[j]@),
        decreases n - k,
    {
        if paths_equal(p, items[k].as_str()) {
            return true;
        }
        k = k + 1;
    }
    false
}

/// The first entry for each path of `items`, in order.
fn keep_first_of_each(items: &Vec<String>) -> (r: Vec<String>)
    ensures
        path_texts(r@) == first_of_each(path_texts(items@)),
{
    let ghost all = path_texts(items@);
    let mut kept: Vec<String> = Vec::new();
    let n: usize = items.len();
    let mut i: usize = 0;
    while i < n
        invariant
            n == items.len(),
            all == path_texts(items@),
            i <= n,
            path_texts(kept@) == first_of_each(all.take(i as int)),
        decreases n - i,
    {
        let seen = names_path(&kept, items[i].as_str());
        let ghost before = kept@;
        proof {
            let t = all.take(i + 1);
            assert(t.drop_last() =~= all.take(i as int));
            assert(t.last() == items@[i as int]@);
            let d = first_of_each(all.take(i as int));
            assert(forall|k: int| 0 <= k < d.len() ==> #[trigger] d[k] == kept@[k]@);
            if seen {
                let k: int = choose|k: int|
                    0 <= k < kept@.len() && same_path(items@[i as int]@, #[trigger] kept@[k]@);
                assert(same_path(t.last(), d[k]));
                assert(first_of_each(t) == d);
            } else {
                assert forall|k: int| 0 <= k < d.len() implies !same_path(t.last(), #[trigger] d[k]) by {
                    assert(d[k] == kept@[k]@);
                }
                assert(first_of_each(t) == d.push(t.last()));
            }
        }
        if !seen {
            kept.push(items[i].clone());
            assert(path_texts(kept@) =~= path_texts(before).push(items@[i as int]@));
        }
        i = i + 1;
    }
    assert(all.take(n as int) =~= all);
    kept
}

impl View for RecentFiles {
    type V = Seq<Seq<char>>;

    open spec fn view(&self) -> Seq<Seq<char>> {
        path_texts(self.entries())
    }
}

/// Keeps the entries of `items` that do not name `p`.
fn filter_out_path(items: &Vec<String>, p: &str) -> (r: Vec<String>)
    ensures
        path_texts(r@) == without_path(path_texts(items@), p@),
        forall|i: int| 0 <= i < r@.len() ==> #[trigger] r@[i]@ != p@,
{
    let ghost all = path_texts(items@);
    let mut kept: Vec<String> = Vec::new();
    let n: usize = items.len();
    let mut i: usize = 0;
    while i < n
        invariant
            n == items.len(),
            all == path_texts(items@),
            i <= n,
            path_texts(kept@) == without_path(all.take(i as int), p@),
            forall|j: int| 0 <= j < kept@.len() ==> #[trigger] kept@[j]@ != p@,
        decreases n - i,
    {
        let same = paths_equal(items[i].as_str(), p);
        let ghost before = kept@;
        if !same {
            kept.push(items[i].clone());
        }
        proof {
            reveal(Seq::filter);
            assert(all.take(i + 1).drop_last() =~= all.take(i as int));
            assert(all.take(i + 1).last() == items@[i as int]@);
            if !same {
                assert(path_texts(kept@) =~= path_texts(before).push(items@[i as int]@));
            } else {
                assert(path_texts(kept@) =~= path_texts(before));
            }
        }
        i = i + 1;
    }
    assert(all.take(n as int) =~= all);
    kept
}

impl Default for RecentFiles {
    fn default() -> (r: Self)
        ensures
            r@ == Seq::<Seq<char>>::empty(),
    {
        RecentFiles::new()
    }
}

impl RecentFiles {
    pub fn new() -> (r: Self)
        ensures
            r@ == Seq::<Seq<char>>::empty(),
    {
        let r = RecentFiles { items: Vec::new() };
        assert(r@ =~= Seq::<Seq<char>>::empty());
        r
    }

    /// Insert `path` at the front, removing any existing duplicate, capped at MAX_RECENT.
    pub fn add(&mut self, path: String)
        ensures
            final(self)@ == with_added(old(self)@, path@),
            forall|i: int| 1 <= i < final(self)@.len() ==> #[trigger] final(self)@[i] != path@,
    {
        proof {
            use_type_invariant(&*self);
            lemma_added_keeps_distinct(self@, path@);
            lemma_added_capped(self@, path@);
        }
        let mut kept = filter_out_path(&self.items, path.as_str());
        let ghost rest = kept@;
        let ghost p = path@;
        kept.insert(0, path);
        assert(path_texts(kept@) =~= seq![p] + path_texts(rest));
        let ghost full = kept@;
        kept.truncate(MAX_RECENT);
        proof {
            if full.len() > MAX_RECENT {
                assert(path_texts(kept@) =~= path_texts(full).take(MAX_RECENT as int));
            }
            assert(path_texts(kept@) == with_added(self@, p));
            assert(forall|i: int| 1 <= i < kept@.len() ==> kept@[i] == rest[i - 1]);
        }
        self.items = kept;
    }

    pub fn clear(&mut self)
        ensures
            final(self)@ == Seq::<Seq<char>>::empty(),
    {
        self.items = Vec::new();
        assert(self@ =~= Seq::<Seq<char>>::empty());
    }

    /// Remove any entry equal to `path`.
    pub fn remove(&mut self, path: &str)
        ensures
            final(self)@ == without_path(old(self)@, path@),
            forall|i: int| 0 <= i < final(self)@.len() ==> #[trigger] final(self)@[i] != path@,
    {
        proof {
            use_type_invariant(&*self);
            lemma_without_path(self@, path@);
        }
        self.items = filter_out_path(&self.items, path);
    }

    /// Retain only entries for which `keep` returns true (order preserved).
    pub fn prune_with<F: Fn(&String) -> bool>(&mut self, keep: F)
        requires
            forall|s: &String| call_requires(keep, (s,)),
        ensures
            exists|decisions: Seq<bool>|
                {
                    &&& decisions.len() == old(self)@.len()
                    &&& forall|i: int|
                        0 <= i < decisions.len() ==> call_ensures(
                            keep,
                            (&old(self).entries()[i],),
                            #[trigger] decisions[i],
                        )
                    &&& final(self)@ == selected(old(self)@, decisions)
                },
    {
        proof {
            use_type_invariant(&*self);
        }
        let ghost all = self@;
        let n: usize = self.items.len();
        let mut kept: Vec<String> = Vec::new();
        let ghost mut decisions: Seq<bool> = Seq::empty();
        let mut i: usize = 0;
        while i < n
            invariant
                n == self.items.len(),
                all == self@,
                i <= n,
                forall|s: &String| call_requires(keep, (s,)),
                decisions.len() == i,
                forall|j: int|
                    0 <= j < i ==> call_ensures(keep, (&self.items@[j],), #[trigger] decisions[j]),
                path_texts(kept@) == selected(all.take(i as int), decisions),
            decreases n - i,
        {
            let k = keep(&self.items[i]);
            let ghost before = kept@;
            if k {
                kept.push(self.items[i].clone());
            }
            proof {
                assert(all.take(i + 1).drop_last() =~= all.take(i as int));
                let d2 = decisions.push(k);
                assert(d2.drop_last() =~= decisions);
                if k {
                    assert(path_texts(kept@) =~= path_texts(before).push(all[i as int]));
                } else {
                    assert(path_texts(kept@) =~= path_texts(before));
                }
                decisions = d2;
            }
            i = i + 1;
        }
        assert(all.take(n as int) =~= all);
        proof {
            lemma_pruned_keeps_distinct(all, decisions);
        }
        self.items = kept;
    }

    /// The list that a stored JSON text holds: the first entry for each
    /// path, in stored order, capped at `MAX_RECENT`. A text that is not a
    /// JSON array of strings yields an empty list.
    pub fn from_json(text: &str) -> (r: Self)
        ensures
            r@ == loaded_list(text@),
            all_distinct(r@),
            r@.len() <= MAX_RECENT,
    {
        match parse_string_array(text) {
            Some(stored) => {
                let mut items = keep_first_of_each(&stored);
                let ghost full = items@;
                items.truncate(MAX_RECENT);
                proof {
                    lemma_first_of_each_distinct(path_texts(stored@));
                    if full.len() > MAX_RECENT {
                        assert(path_texts(items@) =~= path_texts(full).take(MAX_RECENT as int));
                    }
                    let c = path_texts(items@);
                    assert forall|i: int, j: int| 0 <= j < i < c.len() implies !same_path(
                        #[trigger] c[i],
                        #[trigger] c[j],
                    ) by {
                        assert(c[i] == path_texts(full)[i] && c[j] == path_texts(full)[j]);
                    }
                }
                RecentFiles { items }
            },
            None => {
                let r = RecentFiles::new();
                assert(stored_list(text@) =~= Seq::<Seq<char>>::empty());
                r
            },
        }
    }

    /// The pretty-printed JSON array that stores the list; writing it always
    /// succeeds.
    pub fn to_json(&self) -> (r: Result<String, String>)
        ensures
            r is Ok,
            r matches Ok(s) ==> s@ == pretty_json_string_array(self@),
            r matches Ok(s) ==> json_string_array(s@) == Some(self@),
    {
        write_string_array_pretty(&self.items)
    }

    pub fn list(&self) -> (r: &[String])
        ensures
            path_texts(r@) == self@,
            all_distinct(self@),
            self@.len() <= MAX_RECENT,
    {
        proof {
            use_type_invariant(self);
        }
        self.items.as_slice()
    }
}

/// The entries left after dropping those that name `p` all come from
/// `items`, none names `p`, and a duplicate-free list stays duplicate-free.
proof fn lemma_without_path(items: Seq<Seq<char>>, p: Seq<char>)
    ensures
        without_path(items, p).len() <= items.len(),
        forall|i: int|
            0 <= i < without_path(items, p).len() ==> !same_path(
                #[trigger] without_path(items, p)[i],
                p,
            ),
        forall|q: Seq<char>| #[trigger] without_path(items, p).contains(q) ==> items.contains(q),
        all_distinct(items) ==> all_distinct(without_path(items, p)),
    decreases items.len(),
{
    broadcast use vstd::seq_lib::group_filter_ensures;

    let f = without_path(items, p);
    assert forall|q: Seq<char>| #[trigger] f.contains(q) implies items.contains(q) by {
        items.lemma_filter_contains_rev(|q: Seq<char>| !same_path(q, p), q);
    }
    if items.len() > 0 {
        let init = items.drop_last();
        lemma_without_path(init, p);
        reveal(Seq::filter);
        let g = without_path(init, p);
        if all_distinct(items) {
            assert(all_distinct(init));
            if !same_path(items.last(), p) {
                assert(f == g.push(items.last()));
                assert forall|i: int, j: int| 0 <= j < i < f.len() implies !same_path(
                    #[trigger] f[i],
                    #[trigger] f[j],
                ) by {
                    if i == f.len() - 1 {
                        assert(g.contains(g[j]));
                        assert(init.contains(f[j]));
                        let k: int = choose|k: int| 0 <= k < init.len() && init[k] == f[j];
                        assert(items[items.len() - 1] == f[i]);
                        assert(items[k] == f[j]);
                    } else {
                        assert(f[i] == g[i] && f[j] == g[j]);
                    }
                }
            } else {
                assert(f == g);
            }
        }
    }
}

/// Opening a path puts it first in the list.
pub proof fn lemma_added_path_first(items: Seq<Seq<char>>, p: Seq<char>)
    ensures
        with_added(items, p).len() >= 1,
        with_added(items, p)[0] == p,
{
}

/// The list never holds more than `MAX_RECENT` entries after opening a path.
pub proof fn lemma_added_capped(items: Seq<Seq<char>>, p: Seq<char>)
    ensures
        with_added(items, p).len() <= MAX_RECENT,
{
}

/// After opening a path, no later entry names that path, and every later
/// entry was in the list before.
pub proof fn lemma_added_path_once(items: Seq<Seq<char>>, p: Seq<char>)
    ensures
        forall|i: int|
            1 <= i < with_added(items, p).len() ==> !same_path(#[trigger] with_added(items, p)[i], p),
        forall|i: int|
            1 <= i < with_added(items, p).len() ==> items.contains(#[trigger] with_added(items, p)[i]),
{
    lemma_without_path(items, p);
    let f = without_path(items, p);
    let r = with_added(items, p);
    assert forall|i: int| 1 <= i < r.len() implies items.contains(#[trigger] r[i]) by {
        assert(r[i] == f[i - 1]);
        assert(f.contains(f[i - 1]));
    }
}

/// Opening a path keeps a list without duplicates free of duplicates.
pub proof fn lemma_added_keeps_distinct(items: Seq<Seq<char>>, p: Seq<char>)
    requires
        all_distinct(items),
    ensures
        all_distinct(with_added(items, p)),
{
    lemma_without_path(items, p);
    let f = without_path(items, p);
    let full = seq![p] + f;
    assert forall|i: int, j: int| 0 <= j < i < full.len() implies !same_path(
        #[trigger] full[i],
        #[trigger] full[j],
    ) by {
        if j == 0 {
            assert(full[i] == f[i - 1]);
        } else {
            assert(full[i] == f[i - 1] && full[j] == f[j - 1]);
        }
    }
    let r = with_added(items, p);
    assert forall|i: int, j: int| 0 <= j < i < r.len() implies !same_path(
        #[trigger] r[i],
        #[trigger] r[j],
    ) by {
        assert(r[i] == full[i] && r[j] == full[j]);
    }
}

/// Removing a path leaves no entry that names it, and keeps the list free
/// of duplicates.
pub proof fn lemma_removed_path_gone(items: Seq<Seq<char>>, p: Seq<char>)
    ensures
        forall|i: int|
            0 <= i < without_path(items, p).len() ==> !same_path(#[trigger] without_path(items, p)[i], p),
        all_distinct(items) ==> all_distinct(without_path(items, p)),
{
    lemma_without_path(items, p);
}

/// Pruning keeps only entries of the list, at most as many as it had, and
/// keeps a list without duplicates free of duplicates.
pub proof fn lemma_pruned_keeps_distinct(items: Seq<Seq<char>>, decisions: Seq<bool>)
    requires
        decisions.len() == items.len(),
    ensures
        selected(items, decisions).len() <= items.len(),
        forall|q: Seq<char>| #[trigger] selected(items, decisions).contains(q) ==> items.contains(q),
        all_distinct(items) ==> all_distinct(selected(items, decisions)),
    decreases items.len(),
{
    let f = selected(items, decisions);
    if items.len() > 0 {
        let init = items.drop_last();
        lemma_pruned_keeps_distinct(init, decisions.drop_last());
        let g = selected(init, decisions.drop_last());
        assert forall|q: Seq<char>| #[trigger] f.contains(q) implies items.contains(q) by {
            let k: int = choose|k: int| 0 <= k < f.len() && f[k] == q;
            if decisions.last() && k == f.len() - 1 {
                assert(items[items.len() - 1] == q);
            } else {
                assert(g[k] == q);
                assert(g.contains(q));
                let m: int = choose|m: int| 0 <= m < init.len() && init[m] == q;
                assert(items[m] == q);
            }
        }
        if all_distinct(items) {
            assert(all_distinct(init));
            if decisions.last() {
                assert forall|i: int, j: int| 0 <= j < i < f.len() implies !same_path(
                    #[trigger] f[i],
                    #[trigger] f[j],
                ) by {
                    if i == f.len() - 1 {
                        assert(g.contains(g[j]));
                        let k: int = choose|k: int| 0 <= k < init.len() && init[k] == g[j];
                        assert(items[items.len() - 1] == f[i]);
                        assert(items[k] == f[j]);
                    } else {
                        assert(f[i] == g[i] && f[j] == g[j]);
                    }
                }
            }
        }
    }
}

/// Dropping the entries that name `p` leaves a list unchanged when none of
/// its entries names `p`.
proof fn lemma_without_path_none_named(items: Seq<Seq<char>>, p: Seq<char>)
    requires
        forall|i: int| 0 <= i < items.len() ==> !same_path(#[trigger] items[i], p),
    ensures
        without_path(items, p) == items,
    decreases items.len(),
{
    reveal(Seq::filter);
    if items.len() > 0 {
        lemma_without_path_none_named(items.drop_last(), p);
        assert(items.drop_last().push(items.last()) =~= items);
    }
}

/// Opening the most recent file again leaves the list as it is (for a
/// path that names itself, as every path does).
pub proof fn lemma_reopen_first_unchanged(items: Seq<Seq<char>>, p: Seq<char>)
    requires
        same_path(p, p),
    ensures
        with_added(with_added(items, p), p) == with_added(items, p),
{
    broadcast use vstd::seq::Seq::filter_distributes_over_add;

    let l1 = with_added(items, p);
    lemma_added_path_first(items, p);
    lemma_added_path_once(items, p);
    lemma_added_capped(items, p);
    let rest = l1.drop_first();
    assert(forall|i: int| 0 <= i < rest.len() ==> #[trigger] rest[i] == l1[i + 1]);
    lemma_without_path_none_named(rest, p);
    assert(l1 =~= seq![p] + rest);
    reveal(Seq::filter);
    let single = seq![p];
    assert(single.len() == 1 && single.last() == p);
    assert(single.drop_last() =~= Seq::<Seq<char>>::empty());
    assert(without_path(single.drop_last(), p).len() == 0);
    assert(without_path(single, p) =~= Seq::<Seq<char>>::empty());
    assert(without_path(l1, p) == without_path(single, p) + without_path(rest, p));
    assert(without_path(l1, p) =~= rest);
    assert(seq![p] + without_path(l1, p) =~= l1);
}

/// The first entries for each path name no path twice.
proof fn lemma_first_of_each_distinct(items: Seq<Seq<char>>)
    ensures
        all_distinct(first_of_each(items)),
        first_of_each(items).len() <= items.len(),
    decreases items.len(),
{
    if items.len() > 0 {
        lemma_first_of_each_distinct(items.drop_last());
        let d = first_of_each(items.drop_last());
        if !(exists|k: int| 0 <= k < d.len() && same_path(items.last(), #[trigger] d[k])) {
            let f = d.push(items.last());
            assert forall|i: int, j: int| 0 <= j < i < f.len() implies !same_path(
                #[trigger] f[i],
                #[trigger] f[j],
            ) by {
                if i == f.len() - 1 {
                    assert(f[j] == d[j]);
                } else {
                    assert(f[i] == d[i] && f[j] == d[j]);
                }
            }
        }
    }
}

/// A list without duplicates is its own first entries for each path.
proof fn lemma_first_of_each_of_distinct(items: Seq<Seq<char>>)
    requires
        all_distinct(items),
    ensures
        first_of_each(items) == items,
    decreases items.len(),
{
    if items.len() > 0 {
        let init = items.drop_last();
        assert(all_distinct(init));
        lemma_first_of_each_of_distinct(init);
        assert forall|k: int| 0 <= k < init.len() implies !same_path(
            items.last(),
            #[trigger] init[k],
        ) by {
            assert(items[items.len() - 1] == items.last());
            assert(items[k] == init[k]);
        }
        assert(init.push(items.last()) =~= items);
    }
}

/// A saved list loads back unchanged: `to_json` promises of the text it
/// writes that it reads back as the same array of strings, and a list
/// without duplicates of at most `MAX_RECENT` entries, which every
/// `RecentFiles` holds, loads as exactly that list.
pub proof fn lemma_saved_list_loads_back(items: Seq<Seq<char>>, saved: Seq<char>)
    requires
        json_string_array(saved) == Some(items),
        all_distinct(items),
        items.len() <= MAX_RECENT,
    ensures
        loaded_list(saved) == items,
{
    lemma_first_of_each_of_distinct(items);
}

/// The list after opening each path of `ps` in turn, starting from `items`.
pub open spec fn with_all_added(items: Seq<Seq<char>>, ps: Seq<Seq<char>>) -> Seq<Seq<char>>
    decreases ps.len(),
{
    if ps.len() == 0 {
        items
    } else {
        with_added(with_all_added(items, ps.drop_last()), ps.last())
    }
}

/// Opening up to `MAX_RECENT` paths that name different paths, one after
/// another, on an empty list gives them back most recent first, none
/// dropped.
pub proof fn lemma_adds_most_recent_first(ps: Seq<Seq<char>>)
    requires
        ps.len() <= MAX_RECENT,
        forall|i: int, j: int| 0 <= j < i < ps.len() ==> !same_path(#[trigger] ps[j], #[trigger] ps[i]),
    ensures
        with_all_added(Seq::empty(), ps) == ps.reverse(),
    decreases ps.len(),
{
    if ps.len() > 0 {
        let init = ps.drop_last();
        let p = ps.last();
        assert forall|i: int, j: int| 0 <= j < i < init.len() implies !same_path(
            #[trigger] init[j],
            #[trigger] init[i],
        ) by {
            assert(init[j] == ps[j] && init[i] == ps[i]);
        }
        lemma_adds_most_recent_first(init);
        let l = with_all_added(Seq::empty(), init);
        assert(l == init.reverse());
        assert forall|i: int| 0 <= i < l.len() implies !same_path(#[trigger] l[i], p) by {
            assert(l[i] == init[init.len() - 1 - i]);
            assert(init[init.len() - 1 - i] == ps[init.len() - 1 - i]);
            assert(ps[ps.len() - 1] == p);
        }
        lemma_without_path_none_named(l, p);
        assert(seq![p] + l =~= ps.reverse());
    }
}

/// Dropping the entries that name `p` drops at least one entry when one of
/// them names `p`.
proof fn lemma_without_path_shorter(items: Seq<Seq<char>>, p: Seq<char>, k: int)
    requires
        0 <= k < items.len(),
        same_path(items[k], p),
    ensures
        without_path(items, p).len() < items.len(),
    decreases items.len(),
{
    reveal(Seq::filter);
    let init = items.drop_last();
    lemma_without_path(init, p);
    if k < items.len() - 1 {
        assert(init[k] == items[k]);
        lemma_without_path_shorter(init, p, k);
    }
}

/// An entry that does not name `p` survives dropping the entries that do.
proof fn lemma_without_path_keeps(items: Seq<Seq<char>>, p: Seq<char>, i: int)
    requires
        0 <= i < items.len(),
        !same_path(items[i], p),
    ensures
        without_path(items, p).contains(items[i]),
    decreases items.len(),
{
    reveal(Seq::filter);
    let init = items.drop_last();
    let g = without_path(init, p);
    if i == items.len() - 1 {
        assert(without_path(items, p) == g.push(items[i]));
        assert(without_path(items, p)[g.len() as int] == items[i]);
    } else {
        assert(init[i] == items[i]);
        lemma_without_path_keeps(init, p, i);
        let k: int = choose|k: int| 0 <= k < g.len() && g[k] == items[i];
        let f = without_path(items, p);
        if !same_path(items.last(), p) {
            assert(f == g.push(items.last()));
            assert(f[k] == items[i]);
        } else {
            assert(f == g);
        }
    }
}

/// Opening a path never loses another entry, unless the list was already
/// full and did not hold the path: when the list has room, or one of its
/// entries names the opened path, every entry that does not name it stays.
pub proof fn lemma_added_keeps_other_entries(items: Seq<Seq<char>>, p: Seq<char>)
    requires
        items.len() <= MAX_RECENT,
        items.len() < MAX_RECENT || exists|k: int| 0 <= k < items.len() && same_path(#[trigger] items[k], p),
    ensures
        forall|i: int|
            0 <= i < items.len() && !same_path(items[i], p) ==> with_added(items, p).contains(
                #[trigger] items[i],
            ),
{
    lemma_without_path(items, p);
    let f = without_path(items, p);
    if items.len() == MAX_RECENT {
        let k: int = choose|k: int| 0 <= k < items.len() && same_path(#[trigger] items[k], p);
        lemma_without_path_shorter(items, p, k);
    }
    let full = seq![p] + f;
    assert(full.len() <= MAX_RECENT);
    assert(with_added(items, p) == full);
    assert forall|i: int|
        0 <= i < items.len() && !same_path(items[i], p) implies with_added(items, p).contains(
        #[trigger] items[i],
    ) by {
        lemma_without_path_keeps(items, p, i);
        let k: int = choose|k: int| 0 <= k < f.len() && f[k] == items[i];
        assert(full[k + 1] == items[i]);
    }
}

/// Opening a path that no entry names shifts every entry one place back;
/// only an entry pushed past `MAX_RECENT` (the oldest) drops out.
pub proof fn lemma_added_new_path_shifts(items: Seq<Seq<char>>, p: Seq<char>)
    requires
        forall|i: int| 0 <= i < items.len() ==> !same_path(#[trigger] items[i], p),
    ensures
        with_added(items, p).len() == if items.len() + 1 <= MAX_RECENT {
            (items.len() + 1) as int
        } else {
            MAX_RECENT as int
        },
        with_added(items, p)[0] == p,
        forall|i: int|
            0 <= i < items.len() && i + 1 < MAX_RECENT ==> #[trigger] with_added(items, p)[i + 1]
                == items[i],
{
    lemma_without_path_none_named(items, p);
    let full = seq![p] + items;
    assert(seq![p] + without_path(items, p) == full);
    assert forall|i: int|
        0 <= i < items.len() && i + 1 < MAX_RECENT implies #[trigger] with_added(items, p)[i + 1]
        == items[i] by {
        assert(full[i + 1] == items[i]);
    }
}

/// Pruning keeps exactly the entries the predicate approved: as many entries
/// as there were `true` decisions, each of them an approved entry, and every
/// approved entry among them.
pub proof fn lemma_pruned_keeps_exactly_approved(items: Seq<Seq<char>>, decisions: Seq<bool>)
    requires
        decisions.len() == items.len(),
    ensures
        selected(items, decisions).len() == decisions.filter(|b: bool| b).len(),
        forall|q: Seq<char>|
            #[trigger] selected(items, decisions).contains(q) ==> exists|j: int|
                0 <= j < items.len() && decisions[j] && items[j] == q,
        forall|j: int|
            0 <= j < items.len() && decisions[j] ==> selected(items, decisions).contains(
                #[trigger] items[j],
            ),
    decreases items.len(),
{
    reveal(Seq::filter);
    let f = selected(items, decisions);
    if items.len() > 0 {
        let init = items.drop_last();
        let dinit = decisions.drop_last();
        lemma_pruned_keeps_exactly_approved(init, dinit);
        let g = selected(init, dinit);
        assert forall|q: Seq<char>| #[trigger] f.contains(q) implies exists|j: int|
            0 <= j < items.len() && decisions[j] && items[j] == q by {
            let k: int = choose|k: int| 0 <= k < f.len() && f[k] == q;
            if decisions.last() && k == f.len() - 1 {
                assert(items[items.len() - 1] == q && decisions[items.len() - 1]);
            } else {
                assert(g[k] == q);
                assert(g.contains(q));
                let j: int = choose|j: int| 0 <= j < init.len() && dinit[j] && init[j] == q;
                assert(items[j] == q && decisions[j]);
            }
        }
        assert forall|j: int| 0 <= j < items.len() && decisions[j] implies f.contains(
            #[trigger] items[j],
        ) by {
            if j == items.len() - 1 {
                assert(f[f.len() - 1] == items[j]);
            } else {
                assert(init[j] == items[j] && dinit[j]);
                assert(g.contains(init[j]));
                let k: int = choose|k: int| 0 <= k < g.len() && g[k] == items[j];
                assert(f[k] == items[j]);
            }
        }
    } else {
        assert(decisions.filter(|b: bool| b).len() == 0);
    }
}

} // verus!
