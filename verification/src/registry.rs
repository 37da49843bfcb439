//! Explicit registries that replace ambient global state: the provider
//! registry mapping a competition id to its service configuration, and the
//! category registry mapping a remote category id to its display name.

use vstd::prelude::*;

use crate::htb::ListChallengeCategories;
use crate::provider::ChallengeProviderServiceConfig;

verus! {

/// A provider service configuration registered under its competition id.
pub struct ProviderEntry {
    pub ctf_id: i32,
    pub config: ChallengeProviderServiceConfig,
}

/// Maps a competition id to its provider service configuration; at most
/// one entry per competition.
pub struct ProviderRegistry {
    pub entries: Vec<ProviderEntry>,
}

impl ProviderRegistry {
    /// At most one entry per competition id.
    pub open spec fn wf(&self) -> bool {
        forall|i: int, j: int|
            0 <= i < j < self.entries@.len() ==> self.entries@[i].ctf_id != self.entries@[j].ctf_id
    }

    /// An empty registry.
    pub fn new() -> (r: Self)
        ensures
            r.wf(),
            r.entries@.len() == 0,
    {
        ProviderRegistry { entries: Vec::new() }
    }

    /// The registered configuration of a competition, if any.
    pub fn lookup(&self, ctf_id: i32) -> (r: Option<&ProviderEntry>)
        ensures
            (match r {
                Some(e) => exists|i: int|
                    0 <= i < self.entries@.len() && #[trigger] self.entries@[i].ctf_id
                        == ctf_id && *e == self.entries@[i],
                None => forall|i: int|
                    0 <= i < self.entries@.len() ==> #[trigger] self.entries@[i].ctf_id != ctf_id,
            }),
    {
        let mut i: usize = 0;
        while i < self.entries.len()
            invariant
                i <= self.entries@.len(),
                forall|j: int| 0 <= j < i ==> #[trigger] self.entries@[j].ctf_id != ctf_id,
            decreases self.entries@.len() - i,
        {
            if self.entries[i].ctf_id == ctf_id {
                proof {
                    assert(self.entries@[i as int].ctf_id == ctf_id);
                }
                return Some(&self.entries[i]);
            }
            i += 1;
        }
        None
    }

    /// Registers a configuration under a competition id, replacing any
    /// earlier entry for that id.
    pub fn insert(&mut self, ctf_id: i32, config: ChallengeProviderServiceConfig)
        requires
            old(self).wf(),
        ensures
            final(self).wf(),
            final(self).entries@.len() >= 1,
            final(self).entries@.last() == (ProviderEntry { ctf_id, config }),
            (if exists|j: int|
                0 <= j < old(self).entries@.len() && #[trigger] old(self).entries@[j].ctf_id
                    == ctf_id {
                exists|j: int|
                    0 <= j < old(self).entries@.len() && #[trigger] old(self).entries@[j].ctf_id
                        == ctf_id && final(self).entries@ == old(self).entries@.remove(j).push(
                        ProviderEntry { ctf_id, config },
                    )
            } else {
                final(self).entries@ == old(self).entries@.push(ProviderEntry { ctf_id, config })
            }),
    {
        self.remove(ctf_id);
        self.entries.push(ProviderEntry { ctf_id, config });
        proof {
            assert(self.entries@[self.entries@.len() - 1].ctf_id == ctf_id);
        }
    }

    /// Removes the entry of a competition, if one is registered.
    pub fn remove(&mut self, ctf_id: i32)
        requires
            old(self).wf(),
        ensures
            final(self).wf(),
            forall|i: int|
                0 <= i < final(self).entries@.len() ==> #[trigger] final(self).entries@[i].ctf_id
                    != ctf_id,
            (if exists|j: int|
                0 <= j < old(self).entries@.len() && #[trigger] old(self).entries@[j].ctf_id
                    == ctf_id {
                exists|j: int|
                    0 <= j < old(self).entries@.len() && #[trigger] old(self).entries@[j].ctf_id
                        == ctf_id && final(self).entries@ == old(self).entries@.remove(j)
            } else {
                *final(self) == *old(self)
            }),
    {
        let ghost pre = self.entries@;
        let mut i: usize = 0;
        while i < self.entries.len()
            invariant
                *self == *old(self),
                pre == old(self).entries@,
                old(self).wf(),
                i <= self.entries@.len(),
                forall|j: int| 0 <= j < i ==> #[trigger] self.entries@[j].ctf_id != ctf_id,
            decreases self.entries@.len() - i,
        {
            if self.entries[i].ctf_id == ctf_id {
                self.entries.remove(i);
                proof {
                    let olds = old(self).entries@;
                    assert forall|k: int| 0 <= k < self.entries@.len() implies #[trigger] self.entries@[k]
                        == (if k < i as int {
                        olds[k]
                    } else {
                        olds[k + 1]
                    }) by {
                        assert(self.entries@ == olds.subrange(0, i as int) + olds.subrange(
                            i + 1,
                            olds.len() as int,
                        ));
                    }
                    assert forall|k: int|
                        0 <= k < self.entries@.len() implies #[trigger] self.entries@[k].ctf_id
                        != ctf_id by {
                        if k >= i as int {
                            assert(olds[i as int].ctf_id == ctf_id);
                        }
                    }
                    assert(olds[i as int].ctf_id == ctf_id);
                }
                return ;
            }
            i += 1;
        }
    }
}

/// A category name registered under its remote id.
pub struct CategoryEntry {
    pub id: i32,
    pub name: String,
}

/// Maps a remote category id to its display name; at most one entry per
/// id.
pub struct CategoryRegistry {
    pub entries: Vec<CategoryEntry>,
}

/// The name registered for a category id, if any: the first match.
pub open spec fn category_name_from(s: Seq<CategoryEntry>, id: int, k: int) -> Option<Seq<char>>
    decreases s.len() - k,
{
    if k < 0 || k >= s.len() {
        None
    } else if s[k].id as int == id {
        Some(s[k].name@)
    } else {
        category_name_from(s, id, k + 1)
    }
}

pub open spec fn category_name_of(s: Seq<CategoryEntry>, id: int) -> Option<Seq<char>> {
    category_name_from(s, id, 0)
}

impl CategoryRegistry {
    /// At most one entry per category id.
    pub open spec fn wf(&self) -> bool {
        forall|i: int, j: int|
            0 <= i < j < self.entries@.len() ==> self.entries@[i].id != self.entries@[j].id
    }

    /// An empty registry.
    pub fn new() -> (r: Self)
        ensures
            r.wf(),
            r.entries@.len() == 0,
    {
        CategoryRegistry { entries: Vec::new() }
    }

    /// Registers a category name, replacing any earlier name for the id.
    pub fn insert(&mut self, id: i32, name: String)
        requires
            old(self).wf(),
        ensures
            final(self).wf(),
            category_name_of(final(self).entries@, id as int) == Some(name@),
            forall|other: int|
                other != id as int ==> category_name_of(final(self).entries@, other)
                    == category_name_of(old(self).entries@, other),
    {
        let mut i: usize = 0;
        while i < self.entries.len()
            invariant
                *self == *old(self),
                old(self).wf(),
                i <= self.entries@.len(),
                forall|j: int| 0 <= j < i ==> #[trigger] self.entries@[j].id != id,
            decreases self.entries@.len() - i,
        {
            if self.entries[i].id == id {
                let updated = CategoryEntry { id, name };
                self.entries[i] = updated;
                proof {
                    lemma_category_name_pointwise(
                        old(self).entries@,
                        self.entries@,
                        id as int,
                        i as int,
                    );
                }
                return ;
            }
            i += 1;
        }
        self.entries.push(CategoryEntry { id, name });
        proof {
            lemma_category_name_push(old(self).entries@, id as int, name@);
        }
    }
}

proof fn lemma_category_name_from_skips(s: Seq<CategoryEntry>, t: Seq<CategoryEntry>, id: int, k: int)
    requires
        s.len() == t.len(),
        forall|j: int| 0 <= j < s.len() ==> #[trigger] t[j].id == s[j].id && t[j].name@ == s[j].name@,
    ensures
        category_name_from(s, id, k) == category_name_from(t, id, k),
    decreases s.len() - k,
{
    if 0 <= k < s.len() {
        lemma_category_name_from_skips(s, t, id, k + 1);
    }
}

proof fn lemma_category_name_replaced(s: Seq<CategoryEntry>, t: Seq<CategoryEntry>, id: int, w: int, k: int)
    requires
        s.len() == t.len(),
        0 <= w < s.len(),
        s[w].id as int == id,
        t[w].id as int == id,
        forall|j: int| 0 <= j < s.len() && j != w ==> t[j] == s[j],
        forall|j: int| 0 <= j < w ==> #[trigger] s[j].id as int != id,
    ensures
        category_name_of(t, id) == Some(t[w].name@),
        forall|other: int|
            other != id ==> category_name_of(t, other) == category_name_of(s, other),
    decreases s.len(),
{
    assert forall|other: int| other != id implies category_name_of(t, other) == category_name_of(
        s,
        other,
    ) by {
        lemma_category_name_other(s, t, other, id, w, 0);
    }
    lemma_category_name_first(t, id, w, 0);
}

proof fn lemma_category_name_other(s: Seq<CategoryEntry>, t: Seq<CategoryEntry>, other: int, id: int, w: int, k: int)
    requires
        s.len() == t.len(),
        0 <= w < s.len(),
        s[w].id as int == id,
        t[w].id as int == id,
        other != id,
        forall|j: int| 0 <= j < s.len() && j != w ==> t[j] == s[j],
    ensures
        category_name_from(s, other, k) == category_name_from(t, other, k),
    decreases s.len() - k,
{
    if 0 <= k < s.len() {
        lemma_category_name_other(s, t, other, id, w, k + 1);
    }
}

proof fn lemma_category_name_first(t: Seq<CategoryEntry>, id: int, w: int, k: int)
    requires
        0 <= k <= w < t.len(),
        t[w].id as int == id,
        forall|j: int| k <= j < w ==> #[trigger] t[j].id as int != id,
    ensures
        category_name_from(t, id, k) == Some(t[w].name@),
    decreases w - k,
{
    if k < w {
        lemma_category_name_first(t, id, w, k + 1);
    }
}

proof fn lemma_category_name_pointwise(s: Seq<CategoryEntry>, t: Seq<CategoryEntry>, id: int, w: int)
    requires
        s.len() == t.len(),
        0 <= w < s.len(),
        s[w].id as int == id,
        t[w].id as int == id,
        forall|j: int| 0 <= j < s.len() && j != w ==> t[j] == s[j],
        forall|j: int| 0 <= j < w ==> #[trigger] s[j].id as int != id,
    ensures
        category_name_of(t, id) == Some(t[w].name@),
        forall|other: int|
            other != id ==> category_name_of(t, other) == category_name_of(s, other),
{
    lemma_category_name_replaced(s, t, id, w, 0);
}

proof fn lemma_category_name_push(s: Seq<CategoryEntry>, id: int, name: Seq<char>)
    requires
        forall|j: int| 0 <= j < s.len() ==> #[trigger] s[j].id as int != id,
    ensures
        forall|t: Seq<CategoryEntry>|
            #[trigger] t.len() == s.len() + 1 && (forall|j: int|
                0 <= j < s.len() ==> #[trigger] t[j] == s[j]) && t.last().id as int == id
                && t.last().name@ == name ==> category_name_of(t, id) == Some(name) && (forall|
                other: int,
            |
                other != id ==> category_name_of(t, other) == category_name_of(s, other)),
{
    assert forall|t: Seq<CategoryEntry>|
        #[trigger] t.len() == s.len() + 1 && (forall|j: int|
            0 <= j < s.len() ==> #[trigger] t[j] == s[j]) && t.last().id as int == id
            && t.last().name@ == name implies category_name_of(t, id) == Some(name) && (forall|
        other: int,
    |
        other != id ==> category_name_of(t, other) == category_name_of(s, other)) by {
        lemma_category_name_first(t, id, t.len() - 1, 0);
        assert forall|other: int| other != id implies category_name_of(t, other)
            == category_name_of(s, other) by {
            lemma_category_name_appended(s, t, other, 0);
        }
    }
}

proof fn lemma_category_name_appended(s: Seq<CategoryEntry>, t: Seq<CategoryEntry>, other: int, k: int)
    requires
        t.len() == s.len() + 1,
        forall|j: int| 0 <= j < s.len() ==> #[trigger] t[j] == s[j],
        t.last().id as int != other,
    ensures
        category_name_from(s, other, k) == category_name_from(t, other, k),
    decreases t.len() - k,
{
    if 0 <= k < t.len() {
        if k < s.len() {
            lemma_category_name_appended(s, t, other, k + 1);
        }
    }
}

/// The display name of a challenge category, or `Unknown` when the id is
/// not registered.
pub fn get_challenge_category_from_id(registry: &CategoryRegistry, challenge_category_id: i32) -> (r:
    String)
    ensures
        r@ == (match category_name_of(registry.entries@, challenge_category_id as int) {
            Some(n) => n,
            None => "Unknown"@,
        }),
{
    let mut i: usize = 0;
    while i < registry.entries.len()
        invariant
            i <= registry.entries@.len(),
            category_name_of(registry.entries@, challenge_category_id as int)
                == category_name_from(registry.entries@, challenge_category_id as int, i as int),
        decreases registry.entries@.len() - i,
    {
        if registry.entries[i].id == challenge_category_id {
            return registry.entries[i].name.clone();
        }
        proof {
            assert(category_name_from(registry.entries@, challenge_category_id as int, i as int)
                == category_name_from(
                registry.entries@,
                challenge_category_id as int,
                i + 1,
            ));
        }
        i += 1;
    }
    String::from_str("Unknown")
}

/// Loads the provider's category listing into the registry, and files the
/// synthetic machine category under its reserved id.
pub fn load_categories_to_cache(registry: &mut CategoryRegistry, categories: &ListChallengeCategories)
    requires
        old(registry).wf(),
    ensures
        final(registry).wf(),
        category_name_of(final(registry).entries@, 100) == Some("Machine"@),
        forall|k: int|
            0 <= k < categories.info@.len() && categories.info@[k].id as int != 100 && (forall|
                m: int,
            |
                k < m < categories.info@.len() ==> (#[trigger] categories.info@[m]).id
                    != categories.info@[k].id) ==> category_name_of(
                final(registry).entries@,
                #[trigger] categories.info@[k].id as int,
            ) == Some(categories.info@[k].name@),
{
    let mut i: usize = 0;
    while i < categories.info.len()
        invariant
            registry.wf(),
            i <= categories.info@.len(),
            forall|k: int|
                0 <= k < i && (forall|m: int|
                    k < m < i ==> (#[trigger] categories.info@[m]).id != categories.info@[k].id)
                    ==> category_name_of(
                    registry.entries@,
                    #[trigger] categories.info@[k].id as int,
                ) == Some(categories.info@[k].name@),
        decreases categories.info@.len() - i,
    {
        registry.insert(categories.info[i].id, categories.info[i].name.clone());
        i += 1;
    }
    registry.insert(100, String::from_str("Machine"));
}

} // verus!
