//! A map of environment variable names to values, and the model of a
//! sequence of insertions into a map.
use vstd::prelude::*;

use crate::text::same_text;

verus! {

// ---------------------------------------------------------------------------
// Model
// ---------------------------------------------------------------------------
/// A pair of strings, taken by the characters of each.
pub open spec fn pairs_view(s: Seq<(String, String)>) -> Seq<(Seq<char>, Seq<char>)> {
    s.map_values(|p: (String, String)| (p.0@, p.1@))
}

/// `m` after inserting the entries of `s` one after another, so that of two
/// entries with the same key the later one stays.
pub open spec fn insert_all<K, V>(m: Map<K, V>, s: Seq<(K, V)>) -> Map<K, V>
    decreases s.len(),
{
    if s.len() == 0 {
        m
    } else {
        insert_all(m, s.drop_last()).insert(s.last().0, s.last().1)
    }
}

/// No two entries of `s` have the same key.
pub open spec fn keys_distinct<K, V>(s: Seq<(K, V)>) -> bool {
    forall|i: int, j: int| 0 <= i < j < s.len() ==> s[i].0 != s[j].0
}

/// Some entry of `s` has the key `k`.
pub open spec fn has_key<K, V>(s: Seq<(K, V)>, k: K) -> bool {
    exists|i: int| 0 <= i < s.len() && s[i].0 == k
}

/// The entries of all pages, page after page.
pub open spec fn pages_view(pages: Seq<Vec<(String, String)>>) -> Seq<(Seq<char>, Seq<char>)> {
    pages.map_values(|page: Vec<(String, String)>| pairs_view(page@)).flatten()
}

/// Each pair is taken by the characters of its two strings, in order.
pub proof fn law_pairs_view(s: Seq<(String, String)>)
    ensures
        pairs_view(s).len() == s.len(),
        forall|i: int| 0 <= i < s.len() ==> #[trigger] pairs_view(s)[i] == (s[i].0@, s[i].1@),
{
}

/// No pages have no entries, and another page adds its entries, in order,
/// after those of the pages before it.
pub proof fn law_pages_view(pages: Seq<Vec<(String, String)>>, page: Vec<(String, String)>)
    ensures
        pages_view(Seq::empty()) == Seq::<(Seq<char>, Seq<char>)>::empty(),
        pages_view(pages.push(page)) == pages_view(pages) + pairs_view(page@),
{
    let f = |p: Vec<(String, String)>| pairs_view(p@);
    assert(Seq::<Vec<(String, String)>>::empty().map_values(f) =~= Seq::<
        Seq<(Seq<char>, Seq<char>)>,
    >::empty());
    assert(pages.push(page).map_values(f) =~= pages.map_values(f).push(pairs_view(page@)));
    pages.map_values(f).lemma_flatten_push(pairs_view(page@));
}

// ---------------------------------------------------------------------------
// Laws of `insert_all`
// ---------------------------------------------------------------------------
/// A key that no entry of `s` has is as `m` left it: present in the result
/// exactly when present in `m`, with the same value.
pub proof fn law_untouched_key_kept<K, V>(m: Map<K, V>, s: Seq<(K, V)>, k: K)
    requires
        !has_key(s, k),
    ensures
        insert_all(m, s).dom().contains(k) == m.dom().contains(k),
        m.dom().contains(k) ==> insert_all(m, s)[k] == m[k],
    decreases s.len(),
{
    if s.len() > 0 {
        assert(!has_key(s.drop_last(), k)) by {
            if has_key(s.drop_last(), k) {
                let i = choose|i: int| 0 <= i < s.drop_last().len() && s.drop_last()[i].0 == k;
                assert(s[i].0 == k);
            }
        }
        assert(s[s.len() - 1].0 != k);
        law_untouched_key_kept(m, s.drop_last(), k);
    }
}

/// Of the entries with one key, the last one decides its value.
pub proof fn law_last_entry_wins<K, V>(m: Map<K, V>, s: Seq<(K, V)>, i: int)
    requires
        0 <= i < s.len(),
        forall|j: int| i < j < s.len() ==> s[j].0 != s[i].0,
    ensures
        insert_all(m, s).dom().contains(s[i].0),
        insert_all(m, s)[s[i].0] == s[i].1,
    decreases s.len(),
{
    if i < s.len() - 1 {
        assert(s.drop_last()[i] == s[i]);
        law_last_entry_wins(m, s.drop_last(), i);
    }
}

/// Inserting `a` and then `b` is inserting `a` followed by `b` at once.
pub proof fn law_inserts_merge<K, V>(m: Map<K, V>, a: Seq<(K, V)>, b: Seq<(K, V)>)
    ensures
        insert_all(m, a + b) == insert_all(insert_all(m, a), b),
    decreases b.len(),
{
    if b.len() == 0 {
        assert(a + b =~= a);
    } else {
        assert((a + b).drop_last() =~= a + b.drop_last());
        law_inserts_merge(m, a, b.drop_last());
    }
}

/// The keys of the result are those of `m` and those of the entries.
pub proof fn law_inserted_keys<K, V>(m: Map<K, V>, s: Seq<(K, V)>, k: K)
    ensures
        insert_all(m, s).dom().contains(k) == (m.dom().contains(k) || has_key(s, k)),
{
    if has_key(s, k) {
        let i = choose|i: int| 0 <= i < s.len() && s[i].0 == k;
        let last = last_index_of(s, k, i);
        law_last_entry_wins(m, s, last);
    } else {
        law_untouched_key_kept(m, s, k);
    }
}

/// The last index of an entry with key `k`, given one such index `i`.
proof fn last_index_of<K, V>(s: Seq<(K, V)>, k: K, i: int) -> (last: int)
    requires
        0 <= i < s.len(),
        s[i].0 == k,
    ensures
        i <= last < s.len(),
        s[last].0 == k,
        forall|j: int| last < j < s.len() ==> s[j].0 != k,
    decreases s.len() - i,
{
    if exists|j: int| i < j < s.len() && s[j].0 == k {
        let j = choose|j: int| i < j < s.len() && s[j].0 == k;
        last_index_of(s, k, j)
    } else {
        i
    }
}

/// With distinct keys, each entry's key maps to that entry's value.
proof fn lemma_distinct_lookup<K, V>(s: Seq<(K, V)>, i: int)
    requires
        keys_distinct(s),
        0 <= i < s.len(),
    ensures
        insert_all(Map::empty(), s).dom().contains(s[i].0),
        insert_all(Map::empty(), s)[s[i].0] == s[i].1,
{
    law_last_entry_wins(Map::empty(), s, i);
}

// ---------------------------------------------------------------------------
// The executable map
// ---------------------------------------------------------------------------
/// Environment variable names and their values, each name at most once.
pub struct EnvMap {
    entries: Vec<(String, String)>,
}

impl EnvMap {
    /// The entries, taken by the characters of names and values.
    pub closed spec fn entries_view(&self) -> Seq<(Seq<char>, Seq<char>)> {
        pairs_view(self.entries@)
    }

    #[verifier::type_invariant]
    spec fn names_unique(&self) -> bool {
        keys_distinct(self.entries_view())
    }
}

impl View for EnvMap {
    type V = Map<Seq<char>, Seq<char>>;

    closed spec fn view(&self) -> Map<Seq<char>, Seq<char>> {
        insert_all(Map::empty(), self.entries_view())
    }
}

impl EnvMap {
    /// An empty map.
    pub fn new() -> (res: EnvMap)
        ensures
            res@ == Map::<Seq<char>, Seq<char>>::empty(),
    {
        EnvMap { entries: Vec::new() }
    }

    /// The index of the entry named `name`, if there is one.
    fn find(&self, name: &str) -> (res: Option<usize>)
        ensures
            match res {
                Some(j) => j < self.entries@.len() && self.entries_view()[j as int].0 == name@,
                None => !has_key(self.entries_view(), name@),
            },
    {
        let mut j: usize = 0;
        while j < self.entries.len()
            invariant
                j <= self.entries@.len(),
                forall|i: int| 0 <= i < j ==> self.entries_view()[i].0 != name@,
            decreases self.entries@.len() - j,
        {
            if same_text(self.entries[j].0.as_str(), name) {
                return Some(j);
            }
            j = j + 1;
        }
        None
    }

    /// Sets `name` to `value`, replacing the value it had.
    pub fn insert(&mut self, name: String, value: String)
        ensures
            final(self)@ == old(self)@.insert(name@, value@),
    {
        proof {
            use_type_invariant(&*self);
        }
        let ghost s = self.entries_view();
        let found = self.find(name.as_str());
        let mut entries: Vec<(String, String)> = Vec::new();
        std::mem::swap(&mut entries, &mut self.entries);
        let ghost name_v = name@;
        let ghost value_v = value@;
        match found {
            Some(j) => {
                entries.set(j, (name, value));
                proof {
                    let t = pairs_view(entries@);
                    assert(t =~= s.update(j as int, (name_v, value_v)));
                    assert(keys_distinct(t));
                    let old_m = insert_all(Map::empty(), s);
                    let new_m = insert_all(Map::empty(), t);
                    assert forall|k: Seq<char>| #[trigger]
                        new_m.dom().contains(k) == old_m.insert(name_v, value_v).dom().contains(k)
                        by {
                        law_inserted_keys(Map::empty(), s, k);
                        law_inserted_keys(Map::empty(), t, k);
                        if has_key(s, k) {
                            let i = choose|i: int| 0 <= i < s.len() && s[i].0 == k;
                            assert(t[i].0 == k);
                        }
                        if has_key(t, k) {
                            let i = choose|i: int| 0 <= i < t.len() && t[i].0 == k;
                            assert(s[i].0 == k);
                        }
                    }
                    assert forall|k: Seq<char>| new_m.dom().contains(k) implies new_m[k]
                        == old_m.insert(name_v, value_v)[k] by {
                        law_inserted_keys(Map::empty(), t, k);
                        let i = choose|i: int| 0 <= i < t.len() && t[i].0 == k;
                        lemma_distinct_lookup(t, i);
                        if i != j {
                            lemma_distinct_lookup(s, i);
                        }
                    }
                    assert(new_m =~= old_m.insert(name_v, value_v));
                }
            },
            None => {
                entries.push((name, value));
                proof {
                    let t = pairs_view(entries@);
                    assert(t =~= s.push((name_v, value_v)));
                    assert(t.drop_last() =~= s);
                    assert forall|a: int, b: int| 0 <= a < b < t.len() implies t[a].0 != t[b].0 by {
                        if b == t.len() - 1 {
                            assert(s[a].0 == t[a].0);
                        }
                    }
                }
            },
        }
        self.entries = entries;
    }

    /// The value of `name`, if it has one.
    pub fn get(&self, name: &str) -> (res: Option<&String>)
        ensures
            match res {
                Some(v) => self@.dom().contains(name@) && v@ == self@[name@],
                None => !self@.dom().contains(name@),
            },
    {
        proof {
            use_type_invariant(self);
            law_inserted_keys(Map::empty(), self.entries_view(), name@);
        }
        match self.find(name) {
            Some(j) => {
                proof {
                    lemma_distinct_lookup(self.entries_view(), j as int);
                }
                Some(&self.entries[j].1)
            },
            None => None,
        }
    }

    /// A copy of this map.
    pub fn duplicate(&self) -> (res: EnvMap)
        ensures
            res@ == self@,
    {
        proof {
            use_type_invariant(self);
        }
        let mut entries: Vec<(String, String)> = Vec::new();
        let mut j: usize = 0;
        while j < self.entries.len()
            invariant
                j <= self.entries@.len(),
                pairs_view(entries@) =~= self.entries_view().take(j as int),
            decreases self.entries@.len() - j,
        {
            let name = self.entries[j].0.clone();
            let value = self.entries[j].1.clone();
            let ghost before = entries@;
            entries.push((name, value));
            proof {
                assert(pairs_view(entries@) =~= pairs_view(before).push(self.entries_view()[j as int]));
                assert(self.entries_view().take(j + 1) =~= self.entries_view().take(j as int).push(
                    self.entries_view()[j as int],
                ));
            }
            j = j + 1;
        }
        proof {
            assert(self.entries_view().take(j as int) =~= self.entries_view());
        }
        EnvMap { entries }
    }

    /// The entries of this map, each name once.
    pub fn into_entries(self) -> (res: Vec<(String, String)>)
        ensures
            keys_distinct(pairs_view(res@)),
            insert_all(Map::empty(), pairs_view(res@)) == self@,
    {
        proof {
            use_type_invariant(&self);
        }
        self.entries
    }
}

/// The entries of all pages, page after page.
pub fn flatten_pages(pages: &Vec<Vec<(String, String)>>) -> (res: Vec<(String, String)>)
    ensures
        pairs_view(res@) == pages_view(pages@),
{
    let mut res: Vec<(String, String)> = Vec::new();
    let mut j: usize = 0;
    proof {
        assert(pages@.take(0).map_values(|page: Vec<(String, String)>| pairs_view(page@))
            =~= Seq::<Seq<(Seq<char>, Seq<char>)>>::empty());
    }
    while j < pages.len()
        invariant
            j <= pages@.len(),
            pairs_view(res@) =~= pages_view(pages@.take(j as int)),
        decreases pages@.len() - j,
    {
        let page = &pages[j];
        let ghost before = res@;
        let mut k: usize = 0;
        while k < page.len()
            invariant
                k <= page@.len(),
                pairs_view(res@) =~= pairs_view(before) + pairs_view(page@.take(k as int)),
            decreases page@.len() - k,
        {
            let ghost mid = res@;
            res.push((page[k].0.clone(), page[k].1.clone()));
            proof {
                assert(pairs_view(res@) =~= pairs_view(mid).push(pairs_view(page@)[k as int]));
                assert(pairs_view(page@.take(k + 1)) =~= pairs_view(page@.take(k as int)).push(
                    pairs_view(page@)[k as int],
                ));
            }
            k = k + 1;
        }
        proof {
            let f = |page: Vec<(String, String)>| pairs_view(page@);
            assert(page@.take(k as int) =~= page@);
            assert(pages@.take(j + 1).map_values(f) =~= pages@.take(j as int).map_values(f).push(
                pairs_view(page@),
            ));
            pages@.take(j as int).map_values(f).lemma_flatten_push(pairs_view(page@));
        }
        j = j + 1;
    }
    proof {
        assert(pages@.take(j as int) =~= pages@);
    }
    res
}

} // verus!
