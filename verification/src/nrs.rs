//! NRS maps: public names resolved, through nested sub names, to the XOR-URLs
//! they link to.
//!
//! A map's entries and a definition's fields are kept as lists of (key, value)
//! pairs; a key's value is that of its last occurrence, and the operations of this
//! module never add a key twice.
use vstd::prelude::*;

use crate::error::{Error, Result};
use crate::table::keys_unique;
use crate::text::{first_index_of, lemma_first_index_bound, lemma_first_index_of_concat, owned, push_str, replace_all, replace_str, split_chars, split_on, str_equals, views};
use crate::xorurl::XorName;

verus! {

/// Key of the default entry of a map, and the default name of a map without sub names.
pub const FAKE_RDF_PREDICATE_DEFAULT: &'static str = "_default";

/// Field of a definition that holds the XOR-URL it links to.
pub const FAKE_RDF_PREDICATE_LINK: &'static str = "link";

/// Field of a definition that holds its modification time.
pub const FAKE_RDF_PREDICATE_MODIFIED: &'static str = "modified";

/// Field of a definition that holds its creation time.
pub const FAKE_RDF_PREDICATE_CREATED: &'static str = "created";

/// Sign of an entry that was added.
pub const CONTENT_ADDED_SIGN: &'static str = "+";

/// Type tag of the append-only data that holds an NRS map container.
pub const NRS_MAP_TYPE_TAG: u64 = 1500;

/// The contents of an entry, as plain values.
pub ghost enum EntryV {
    Definition(Map<Seq<char>, Seq<char>>),
    SubName(NrsMapV),
}

/// The contents of an NRS map, as plain values.
pub ghost struct NrsMapV {
    pub entries: Map<Seq<char>, EntryV>,
    pub default: Seq<char>,
}

/// An entry of an NRS map: either a definition (its fields, such as the link it
/// resolves to), or a nested map of sub names.
#[derive(Debug, PartialEq)]
pub enum PublicNameEntry {
    Definition(Vec<(String, String)>),
    SubName(NrsMap),
}

/// A map from public names to entries, with the name of its default entry.
#[derive(Debug, PartialEq, Default)]
pub struct NrsMap {
    pub entries: Vec<(String, PublicNameEntry)>,
    pub default: String,
}

/// The fields of a definition as a map (the last occurrence of a key wins).
pub open spec fn pairs_view(items: Seq<(String, String)>) -> Map<Seq<char>, Seq<char>>
    decreases items.len(),
{
    if items.len() == 0 {
        Map::empty()
    } else {
        pairs_view(items.drop_last()).insert(items.last().0@, items.last().1@)
    }
}

/// The contents of an entry.
pub open spec fn entry_view(e: PublicNameEntry) -> EntryV
    decreases e, 0nat,
{
    match e {
        PublicNameEntry::Definition(d) => EntryV::Definition(pairs_view(d@)),
        PublicNameEntry::SubName(m) => EntryV::SubName(nrs_view(m)),
    }
}

/// The contents of a map.
pub open spec fn nrs_view(m: NrsMap) -> NrsMapV
    decreases m, m.entries@.len() + 1,
{
    NrsMapV { entries: entries_view(m, m.entries@.len()), default: m.default@ }
}

/// The contents of the first `n` entries of a map (the last occurrence of a key wins).
pub open spec fn entries_view(m: NrsMap, n: nat) -> Map<Seq<char>, EntryV>
    decreases m, n,
{
    if n == 0 || n > m.entries@.len() {
        Map::empty()
    } else {
        entries_view(m, (n - 1) as nat).insert(
            m.entries@[n - 1].0@,
            entry_view(m.entries@[n - 1].1),
        )
    }
}

impl View for NrsMap {
    type V = NrsMapV;

    open spec fn view(&self) -> NrsMapV {
        nrs_view(*self)
    }
}

impl View for PublicNameEntry {
    type V = EntryV;

    open spec fn view(&self) -> EntryV {
        entry_view(*self)
    }
}

/// The index of the last item with the given key, if any.
pub open spec fn last_index_of_key<V>(items: Seq<(String, V)>, k: Seq<char>) -> Option<int>
    decreases items.len(),
{
    if items.len() == 0 {
        None
    } else if items.last().0@ == k {
        Some(items.len() - 1)
    } else {
        last_index_of_key(items.drop_last(), k)
    }
}

proof fn lemma_last_index_in_range<V>(items: Seq<(String, V)>, k: Seq<char>)
    ensures
        last_index_of_key(items, k) matches Some(i) ==> 0 <= i < items.len() && items[i].0@ == k
            && forall|j: int| i < j < items.len() ==> items[j].0@ != k,
        last_index_of_key(items, k) is None ==> forall|j: int|
            0 <= j < items.len() ==> items[j].0@ != k,
    decreases items.len(),
{
    if items.len() > 0 {
        lemma_last_index_in_range(items.drop_last(), k);
        if items.last().0@ != k {
            assert forall|j: int| 0 <= j < items.len() - 1 implies items[j] == items.drop_last()[j] by {}
        }
    }
}

proof fn lemma_pairs_view_lookup(items: Seq<(String, String)>, k: Seq<char>)
    ensures
        pairs_view(items).contains_key(k) <==> last_index_of_key(items, k) is Some,
        last_index_of_key(items, k) matches Some(i) ==> pairs_view(items)[k] == items[i].1@,
    decreases items.len(),
{
    if items.len() > 0 {
        lemma_pairs_view_lookup(items.drop_last(), k);
        lemma_last_index_in_range(items.drop_last(), k);
    }
}

proof fn lemma_entries_view_lookup(m: NrsMap, n: nat, k: Seq<char>)
    requires
        n <= m.entries@.len(),
    ensures
        entries_view(m, n).contains_key(k) <==> last_index_of_key(m.entries@.take(n as int), k) is Some,
        last_index_of_key(m.entries@.take(n as int), k) matches Some(i) ==> entries_view(m, n)[k]
            == entry_view(m.entries@[i].1),
    decreases n,
{
    if n > 0 {
        lemma_entries_view_lookup(m, (n - 1) as nat, k);
        assert(m.entries@.take(n as int).drop_last() =~= m.entries@.take(n - 1));
    }
}

/// The index of the entry of a map under a key, if any (its last occurrence).
pub open spec fn entry_index(m: NrsMap, k: Seq<char>) -> Option<int> {
    last_index_of_key(m.entries@, k)
}

proof fn lemma_entry_index(m: NrsMap, k: Seq<char>)
    ensures
        m@.entries.contains_key(k) <==> entry_index(m, k) is Some,
        entry_index(m, k) matches Some(i) ==> 0 <= i < m.entries@.len() && m@.entries[k]
            == entry_view(m.entries@[i].1) && m.entries@[i].0@ == k,
{
    lemma_entries_view_lookup(m, m.entries@.len(), k);
    assert(m.entries@.take(m.entries@.len() as int) =~= m.entries@);
    lemma_last_index_in_range(m.entries@, k);
}

/// The value of a definition field, if present.
pub fn pairs_get<'a>(items: &'a Vec<(String, String)>, key: &str) -> (res: Option<&'a String>)
    ensures
        pairs_view(items@).contains_key(key@) <==> res is Some,
        res matches Some(v) ==> v@ == pairs_view(items@)[key@],
{
    let mut i = items.len();
    while i > 0
        invariant
            i <= items@.len(),
            forall|j: int| i <= j < items@.len() ==> items@[j].0@ != key@,
        decreases i,
    {
        let k = &items[i - 1].0;
        if crate::text::str_equals(k.as_str(), key) {
            proof {
                lemma_pairs_view_lookup(items@, key@);
                lemma_last_index_from(items@, key@, (i - 1) as int);
            }
            return Some(&items[i - 1].1);
        }
        i = i - 1;
    }
    proof {
        lemma_pairs_view_lookup(items@, key@);
        lemma_last_index_none(items@, key@);
    }
    None
}

proof fn lemma_last_index_from<V>(items: Seq<(String, V)>, k: Seq<char>, i: int)
    requires
        0 <= i < items.len(),
        items[i].0@ == k,
        forall|j: int| i < j < items.len() ==> items[j].0@ != k,
    ensures
        last_index_of_key(items, k) == Some(i),
    decreases items.len(),
{
    if items.len() - 1 != i {
        assert(items.last() == items[items.len() - 1]);
        lemma_last_index_from(items.drop_last(), k, i);
    }
}

proof fn lemma_last_index_none<V>(items: Seq<(String, V)>, k: Seq<char>)
    requires
        forall|j: int| 0 <= j < items.len() ==> items[j].0@ != k,
    ensures
        last_index_of_key(items, k) is None,
    decreases items.len(),
{
    if items.len() > 0 {
        assert(items.last() == items[items.len() - 1]);
        lemma_last_index_none(items.drop_last(), k);
    }
}

impl NrsMap {
    /// The entry under a key, if any.
    pub fn get_entry(&self, key: &str) -> (res: Option<&PublicNameEntry>)
        ensures
            self@.entries.contains_key(key@) <==> res is Some,
            res matches Some(e) ==> (e@ == self@.entries[key@] && (entry_index(*self, key@) matches Some(
                i,
            ) && *e == self.entries@[i].1)),
    {
        let mut i = self.entries.len();
        while i > 0
            invariant
                i <= self.entries@.len(),
                forall|j: int| i <= j < self.entries@.len() ==> self.entries@[j].0@ != key@,
            decreases i,
        {
            if crate::text::str_equals(self.entries[i - 1].0.as_str(), key) {
                proof {
                    lemma_last_index_from(self.entries@, key@, (i - 1) as int);
                    lemma_entry_index(*self, key@);
                }
                return Some(&self.entries[i - 1].1);
            }
            i = i - 1;
        }
        proof {
            lemma_last_index_none(self.entries@, key@);
            lemma_entry_index(*self, key@);
        }
        None
    }

    /// The name of the default entry.
    pub fn get_default(&self) -> (res: Result<&str>)
        ensures
            res matches Ok(d) && d@ == self@.default,
    {
        Ok(self.default.as_str())
    }
}


impl PublicNameEntry {
    /// A field lookup that only ever answers for definitions, and then with `None`:
    /// on a nested map it calls itself without end, so such entries are left out.
    pub fn get(&self, key: &str) -> (res: Option<String>)
        requires
            self is Definition,
        ensures
            res is None,
    {
        match self {
            PublicNameEntry::Definition(_) => None,
            PublicNameEntry::SubName(_) => None,
        }
    }
}

/// The outcome of looking up the default link of a map: the link, or the message of
/// the `ContentError`. A default entry that is a nested map is followed to its own default.
pub open spec fn default_link_outcome(m: NrsMap) -> core::result::Result<Seq<char>, Seq<char>>
    decreases m,
{
    match entry_index(m, m.default@) {
        None => Err("No default found for resolvable map."@),
        Some(i) => if 0 <= i < m.entries@.len() {
            match m.entries@[i].1 {
                PublicNameEntry::Definition(d) => if pairs_view(d@).contains_key("link"@) {
                    Ok(pairs_view(d@)["link"@])
                } else {
                    Err("No link found for default entry: "@ + m.default@ + "."@)
                },
                PublicNameEntry::SubName(sub) => default_link_outcome(sub),
            }
        } else {
            Err(Seq::empty())
        },
    }
}

/// The link that resolving a list of sub names reaches, starting from a map: the
/// names are taken from the last to the first; a name whose entry is a nested map
/// moves the walk into it, and a name whose entry is a definition makes the walk's
/// link that definition's `link` field (or none).
pub open spec fn resolve_walk(m: NrsMap, names: Seq<String>, link: Option<Seq<char>>) -> Option<
    Seq<char>,
>
    decreases names.len(),
{
    if names.len() == 0 {
        link
    } else {
        let rest = names.drop_last();
        match entry_index(m, names.last()@) {
            None => resolve_walk(m, rest, link),
            Some(i) => if 0 <= i < m.entries@.len() {
                match m.entries@[i].1 {
                    PublicNameEntry::SubName(sub) => resolve_walk(sub, rest, link),
                    PublicNameEntry::Definition(d) => resolve_walk(
                        m,
                        rest,
                        if pairs_view(d@).contains_key("link"@) {
                            Some(pairs_view(d@)["link"@])
                        } else {
                            None
                        },
                    ),
                }
            } else {
                None
            },
        }
    }
}

impl NrsMap {
    /// The link of the entry under a sub name. Only definitions can be looked up
    /// (a nested map makes the lookup call itself without end), and a definition
    /// never answers the lookup, so this always fails.
    pub fn get_link_for(&self, sub_name: &str) -> (res: Result<String>)
        requires
            self@.entries.contains_key(sub_name@) ==> self@.entries[sub_name@] is Definition,
        ensures
            !self@.entries.contains_key(sub_name@) ==> (res matches Err(Error::ContentError(m))
                && m@ == "No entry \""@ + sub_name@ + "\" found for resolvable map."@),
            self@.entries.contains_key(sub_name@) ==> (res matches Err(Error::ContentError(m))
                && m@ == "No link found for entry: "@ + sub_name@ + "."@),
    {
        let link = match self.get_entry(sub_name) {
            Some(entry) => {
                proof {
                    lemma_entry_index(*self, sub_name@);
                }
                entry.get("link")
            },
            None => {
                let mut msg = owned("No entry \"");
                push_str(&mut msg, sub_name);
                push_str(&mut msg, "\" found for resolvable map.");
                proof {
                    reveal_strlit("No entry \"");
                    reveal_strlit("\" found for resolvable map.");
                }
                return Err(Error::ContentError(msg));
            },
        };
        match link {
            Some(the_link) => Ok(the_link),
            None => {
                let mut msg = owned("No link found for entry: ");
                push_str(&mut msg, sub_name);
                push_str(&mut msg, ".");
                proof {
                    reveal_strlit("No link found for entry: ");
                    reveal_strlit(".");
                }
                Err(Error::ContentError(msg))
            },
        }
    }

    /// The link of the default entry, following nested maps through their own defaults.
    pub fn get_default_link(&self) -> (res: Result<String>)
        ensures
            match default_link_outcome(*self) {
                Ok(l) => res matches Ok(s) && s@ == l,
                Err(msg) => res matches Err(Error::ContentError(m)) && m@ == msg,
            },
        decreases self,
    {
        proof {
            lemma_entry_index(*self, self.default@);
        }
        match self.get_entry(self.default.as_str()) {
            None => {
                let msg = owned("No default found for resolvable map.");
                proof {
                    reveal_strlit("No default found for resolvable map.");
                }
                Err(Error::ContentError(msg))
            },
            Some(PublicNameEntry::Definition(def_map)) => {
                match pairs_get(def_map, "link") {
                    Some(the_link) => {
                        proof {
                            reveal_strlit("link");
                        }
                        Ok(the_link.clone())
                    },
                    None => {
                        let mut msg = owned("No link found for default entry: ");
                        push_str(&mut msg, self.default.as_str());
                        push_str(&mut msg, ".");
                        proof {
                            reveal_strlit("link");
                            reveal_strlit("No link found for default entry: ");
                            reveal_strlit(".");
                        }
                        Err(Error::ContentError(msg))
                    },
                }
            },
            Some(PublicNameEntry::SubName(nrs_sub_name)) => {
                nrs_sub_name.get_default_link()
            },
        }
    }

    /// Resolves a list of sub names (see `resolve_walk`) to the link it reaches.
    pub fn resolve_for_subnames(&self, sub_name_list: Vec<String>) -> (res: Result<String>)
        ensures
            match resolve_walk(*self, sub_name_list@, None) {
                Some(l) => res matches Ok(s) && s@ == l,
                None => res matches Err(Error::ContentError(m)) && m@
                    == "No link found for subnames: ()."@,
            },
    {
        let mut nrs_map: &NrsMap = self;
        let mut link: Option<&String> = None;
        let mut i = sub_name_list.len();
        assert(sub_name_list@.take(i as int) =~= sub_name_list@);
        while i > 0
            invariant
                i <= sub_name_list@.len(),
                resolve_walk(*self, sub_name_list@, None) == resolve_walk(
                    *nrs_map,
                    sub_name_list@.take(i as int),
                    match link {
                        Some(l) => Some(l@),
                        None => None,
                    },
                ),
            decreases i,
        {
            let name = &sub_name_list[i - 1];
            proof {
                lemma_entry_index(*nrs_map, name@);
                assert(sub_name_list@.take(i as int).drop_last() =~= sub_name_list@.take(i - 1));
                assert(sub_name_list@.take(i as int).last() == sub_name_list@[i - 1]);
            }
            match nrs_map.get_entry(name.as_str()) {
                Some(PublicNameEntry::SubName(sub)) => {
                    nrs_map = sub;
                },
                Some(PublicNameEntry::Definition(def_map)) => {
                    link = pairs_get(def_map, "link");
                    proof {
                        reveal_strlit("link");
                    }
                },
                None => {},
            }
            i = i - 1;
        }
        match link {
            Some(the_link) => Ok(the_link.clone()),
            None => {
                let msg = owned("No link found for subnames: ().");
                proof {
                    reveal_strlit("No link found for subnames: ().");
                }
                Err(Error::ContentError(msg))
            },
        }
    }
}

proof fn lemma_pairs_view_congruent(a: Seq<(String, String)>, b: Seq<(String, String)>)
    requires
        a.len() == b.len(),
        forall|i: int| 0 <= i < a.len() ==> a[i].0@ == b[i].0@ && a[i].1@ == b[i].1@,
    ensures
        pairs_view(a) == pairs_view(b),
    decreases a.len(),
{
    if a.len() > 0 {
        lemma_pairs_view_congruent(a.drop_last(), b.drop_last());
    }
}

proof fn lemma_entries_view_congruent(m1: NrsMap, m2: NrsMap, n: nat)
    requires
        n <= m1.entries@.len(),
        n <= m2.entries@.len(),
        forall|i: int|
            0 <= i < n ==> m1.entries@[i].0@ == m2.entries@[i].0@ && entry_view(m1.entries@[i].1)
                == entry_view(m2.entries@[i].1),
    ensures
        entries_view(m1, n) == entries_view(m2, n),
    decreases n,
{
    if n > 0 {
        lemma_entries_view_congruent(m1, m2, (n - 1) as nat);
    }
}

/// Two maps whose entries have the same keys and contents, in the same order, and
/// whose defaults agree, have the same contents.
proof fn lemma_nrs_view_congruent(m1: NrsMap, m2: NrsMap)
    requires
        m1.entries@.len() == m2.entries@.len(),
        m1.default@ == m2.default@,
        forall|i: int|
            0 <= i < m1.entries@.len() ==> m1.entries@[i].0@ == m2.entries@[i].0@ && entry_view(
                m1.entries@[i].1,
            ) == entry_view(m2.entries@[i].1),
    ensures
        m1@ == m2@,
{
    lemma_entries_view_congruent(m1, m2, m1.entries@.len());
}

/// A copy of the fields of a definition.
pub(crate) fn clone_pairs(items: &Vec<(String, String)>) -> (res: Vec<(String, String)>)
    ensures
        pairs_view(res@) == pairs_view(items@),
        res@.len() == items@.len(),
{
    let mut res: Vec<(String, String)> = Vec::new();
    let mut i: usize = 0;
    while i < items.len()
        invariant
            i <= items@.len(),
            res@.len() == i,
            forall|j: int| 0 <= j < i ==> res@[j].0@ == items@[j].0@ && res@[j].1@ == items@[j].1@,
        decreases items@.len() - i,
    {
        let k = items[i].0.clone();
        let v = items[i].1.clone();
        res.push((k, v));
        i = i + 1;
    }
    proof {
        lemma_pairs_view_congruent(res@, items@);
    }
    res
}

impl PublicNameEntry {
    /// A copy of this entry, nested maps included.
    pub fn deep_clone(&self) -> (res: PublicNameEntry)
        ensures
            res@ == self@,
        decreases self,
    {
        match self {
            PublicNameEntry::Definition(d) => PublicNameEntry::Definition(clone_pairs(d)),
            PublicNameEntry::SubName(m) => PublicNameEntry::SubName(m.deep_clone()),
        }
    }
}

impl NrsMap {
    /// An empty map with an empty default name.
    pub fn new() -> (res: NrsMap)
        ensures
            res@ == empty_map_v(),
    {
        let res = NrsMap { entries: Vec::new(), default: String::new() };
        assert(res@.entries =~= Map::<Seq<char>, EntryV>::empty());
        res
    }

    /// A copy of this map, nested maps included.
    pub fn deep_clone(&self) -> (res: NrsMap)
        ensures
            res@ == self@,
        decreases self,
    {
        let mut entries: Vec<(String, PublicNameEntry)> = Vec::new();
        let mut i: usize = 0;
        while i < self.entries.len()
            invariant
                i <= self.entries@.len(),
                entries@.len() == i,
                forall|j: int|
                    0 <= j < i ==> entries@[j].0@ == self.entries@[j].0@ && entry_view(entries@[j].1)
                        == entry_view(self.entries@[j].1),
            decreases self.entries@.len() - i,
        {
            let k = self.entries[i].0.clone();
            proof {
                assert(decreases_to!(self => self.entries@[i as int].1));
            }
            let e = self.entries[i].1.deep_clone();
            entries.push((k, e));
            i = i + 1;
        }
        let res = NrsMap { entries, default: self.default.clone() };
        proof {
            lemma_nrs_view_congruent(res, *self);
        }
        res
    }
}

/// The contents of an empty map with an empty default name.
pub open spec fn empty_map_v() -> NrsMapV {
    NrsMapV { entries: Map::empty(), default: Seq::empty() }
}

proof fn lemma_entries_view_update(m1: NrsMap, m2: NrsMap, i: int, n: nat)
    requires
        0 <= i < n <= m1.entries@.len(),
        m2.entries@.len() == m1.entries@.len(),
        m2.entries@[i].0@ == m1.entries@[i].0@,
        forall|j: int| 0 <= j < m1.entries@.len() && j != i ==> m2.entries@[j] == m1.entries@[j],
        forall|j: int| i < j < m1.entries@.len() ==> m1.entries@[j].0@ != m1.entries@[i].0@,
    ensures
        entries_view(m2, n) == entries_view(m1, n).insert(
            m1.entries@[i].0@,
            entry_view(m2.entries@[i].1),
        ),
    decreases n,
{
    let k = m1.entries@[i].0@;
    let v = entry_view(m2.entries@[i].1);
    if n == i + 1 {
        lemma_entries_view_congruent(m1, m2, i as nat);
        assert(entries_view(m2, n) =~= entries_view(m1, n).insert(k, v));
    } else {
        lemma_entries_view_update(m1, m2, i, (n - 1) as nat);
        let kn = m1.entries@[n - 1].0@;
        assert(kn != k);
        assert(entries_view(m2, n) =~= entries_view(m1, n).insert(k, v));
    }
}

impl NrsMap {
    /// Puts an entry under a key, in place of the one it had, if any.
    pub fn insert_entry(&mut self, key: String, entry: PublicNameEntry)
        ensures
            final(self)@ == (NrsMapV {
                entries: old(self)@.entries.insert(key@, entry@),
                default: old(self)@.default,
            }),
            keys_unique(old(self).entries@) ==> keys_unique(final(self).entries@),
    {
        let ghost old_map = *self;
        let mut i = self.entries.len();
        while i > 0
            invariant
                *self == old_map,
                old_map == *old(self),
                i <= self.entries@.len(),
                forall|j: int| i <= j < self.entries@.len() ==> self.entries@[j].0@ != key@,
            decreases i,
        {
            if str_equals(self.entries[i - 1].0.as_str(), key.as_str()) {
                let ghost k = key@;
                let ghost v = entry@;
                self.entries.set(i - 1, (key, entry));
                proof {
                    lemma_entries_view_update(old_map, *self, (i - 1) as int, self.entries@.len());
                    assert(old_map.entries@[i - 1].0@ == k);
                    assert(nrs_view(*self).entries == old_map@.entries.insert(k, v));
                    assert(self.default == old_map.default);
                    assert(nrs_view(*self) == (NrsMapV {
                        entries: old_map@.entries.insert(k, v),
                        default: old_map@.default,
                    }));
                    if keys_unique(old_map.entries@) {
                        assert forall|a: int, b: int| 0 <= a < b < self.entries@.len() implies #[trigger] self.entries@[a].0@
                            != #[trigger] self.entries@[b].0@ by {
                            assert(old_map.entries@[a].0@ != old_map.entries@[b].0@);
                            assert(self.entries@[a].0@ == old_map.entries@[a].0@);
                            assert(self.entries@[b].0@ == old_map.entries@[b].0@);
                        }
                    }
                }
                return;
            }
            i = i - 1;
        }
        let ghost k = key@;
        let ghost v = entry@;
        self.entries.push((key, entry));
        proof {
            lemma_entries_view_congruent(old_map, *self, old_map.entries@.len());
            assert(nrs_view(*self).entries =~= old_map@.entries.insert(k, v));
            if keys_unique(old_map.entries@) {
                assert forall|a: int, b: int| 0 <= a < b < self.entries@.len() implies #[trigger] self.entries@[a].0@
                    != #[trigger] self.entries@[b].0@ by {
                    if b == old_map.entries@.len() {
                        assert(self.entries@[a] == old_map.entries@[a]);
                    } else {
                        assert(old_map.entries@[a].0@ != old_map.entries@[b].0@);
                    }
                }
            }
        }
    }
}

proof fn lemma_description_link(destination: Seq<char>, now: Seq<char>)
    ensures
        description_v(destination, now).contains_key("link"@),
        description_v(destination, now)["link"@] == destination,
{
    reveal_strlit("link");
    reveal_strlit("modified");
    reveal_strlit("created");
    assert("link"@.len() != "modified"@.len());
    assert("link"@.len() != "created"@.len());
}

/// The fields of a fresh definition: its link, and its modification and creation
/// times, both `now`.
pub open spec fn description_v(destination: Seq<char>, now: Seq<char>) -> Map<Seq<char>, Seq<char>> {
    Map::empty().insert("link"@, destination).insert("modified"@, now).insert("created"@, now)
}

/// A definition that links to `destination`, created and modified at `now`.
pub fn public_name_description(destination: &str, now: &str) -> (res: PublicNameEntry)
    ensures
        res@ == EntryV::Definition(description_v(destination@, now@)),
{
    let mut fields: Vec<(String, String)> = Vec::new();
    fields.push((owned(FAKE_RDF_PREDICATE_LINK), owned(destination)));
    fields.push((owned(FAKE_RDF_PREDICATE_MODIFIED), owned(now)));
    fields.push((owned(FAKE_RDF_PREDICATE_CREATED), owned(now)));
    let res = PublicNameEntry::Definition(fields);
    proof {
        reveal_with_fuel(pairs_view, 4);
        assert(fields@.drop_last().drop_last().drop_last() =~= Seq::<(String, String)>::empty());
        assert(fields@.drop_last().drop_last().last() == fields@[0]);
        assert(fields@.drop_last().last() == fields@[1]);
    }
    res
}

/// The current time, in seconds, as an RFC 3339 text in UTC
/// (`chrono::Utc::now().to_rfc3339_opts(SecondsFormat::Secs, true)`). Nothing is
/// stated of it: it is read from the clock.
#[verifier::external_body]
pub fn gen_timestamp_secs() -> String {
    chrono::Utc::now().to_rfc3339_opts(chrono::SecondsFormat::Secs, true)
}

/// A definition that links to `destination`, created and modified now.
pub fn create_public_name_description(destination: &str) -> (res: Result<PublicNameEntry>)
    ensures
        res matches Ok(e) && (e@ matches EntryV::Definition(d) && d == description_v(
            destination@,
            d["modified"@],
        )),
{
    let now = gen_timestamp_secs();
    let e = public_name_description(destination, now.as_str());
    proof {
        reveal_strlit("link");
        reveal_strlit("modified");
        reveal_strlit("created");
        let d = description_v(destination@, now@);
        assert(d["modified"@] == now@);
    }
    Ok(e)
}

/// The SHA3-256 digest of some bytes (`tiny_keccak::sha3_256`).
pub uninterp spec fn sha3_256_digest(data: Seq<u8>) -> Seq<u8>;

/// Computes the SHA3-256 digest of some bytes with `tiny_keccak::sha3_256`; the
/// contract claims only that the result is the digest of the bytes given.
#[verifier::external_body]
pub(crate) fn sha3_256(data: &[u8]) -> (res: [u8; 32])
    ensures
        res@ == sha3_256_digest(data@),
{
    tiny_keccak::sha3_256(data)
}

/// The XoR name of a top level public name: the SHA3-256 digest of its UTF-8 bytes.
pub fn xorname_from_nrs_string(name: &str) -> (res: Result<XorName>)
    ensures
        res matches Ok(x) && x.0@ == sha3_256_digest(vstd::utf8::encode_utf8(name@)),
{
    let bytes = name.as_bytes();
    let digest = sha3_256(bytes);
    Ok(XorName(digest))
}

/// The maps already stored under the sub names of a name, by the sub name's
/// position: the names are walked from the last to the first, starting at `m`;
/// a name present in the current map records its entry (a nested map, or an empty
/// map for a definition) and moves the walk into it; an absent name is passed over.
pub open spec fn existing_tree(m: NrsMapV, names: Seq<Seq<char>>) -> Map<int, NrsMapV>
    decreases names.len(),
{
    if names.len() == 0 {
        Map::empty()
    } else {
        let n = names.last();
        if m.entries.contains_key(n) {
            let t = match m.entries[n] {
                EntryV::SubName(s) => s,
                EntryV::Definition(_) => empty_map_v(),
            };
            existing_tree(t, names.drop_last()).insert(names.len() - 1, t)
        } else {
            existing_tree(m, names.drop_last())
        }
    }
}

proof fn lemma_existing_tree_keys(m: NrsMapV, names: Seq<Seq<char>>)
    ensures
        forall|j: int| existing_tree(m, names).contains_key(j) ==> 0 <= j < names.len(),
    decreases names.len(),
{
    if names.len() > 0 {
        let n = names.last();
        let t = match m.entries[n] {
            EntryV::SubName(s) => s,
            EntryV::Definition(_) => empty_map_v(),
        };
        lemma_existing_tree_keys(t, names.drop_last());
        lemma_existing_tree_keys(m, names.drop_last());
        if m.entries.contains_key(n) {
            assert(existing_tree(m, names) == existing_tree(t, names.drop_last()).insert(
                names.len() - 1,
                t,
            ));
        } else {
            assert(existing_tree(m, names) == existing_tree(m, names.drop_last()));
        }
    }
}

/// The entry stored under the last sub name of a name with `i + 1` sub names: level
/// 0 is the definition itself; each level above is the map found at that position
/// (or an empty map) with the level below put under the first sub name, which also
/// becomes its default when `set_default` holds.
pub open spec fn subname_entry(
    leaf: EntryV,
    tree: Map<int, NrsMapV>,
    first: Seq<char>,
    set_default: bool,
    i: nat,
) -> EntryV
    decreases i,
{
    if i == 0 {
        leaf
    } else {
        let below = subname_entry(leaf, tree, first, set_default, (i - 1) as nat);
        let base = if tree.contains_key(i as int) {
            tree[i as int]
        } else {
            empty_map_v()
        };
        EntryV::SubName(
            NrsMapV {
                entries: base.entries.insert(first, below),
                default: if set_default {
                    first
                } else {
                    base.default
                },
            },
        )
    }
}

/// The map that results from putting `leaf` under a name whose sub names (all the
/// dot-separated labels but the last) are `subs`, into the map `m`.
pub open spec fn updated_map(m: NrsMapV, subs: Seq<Seq<char>>, leaf: EntryV, set_default: bool) -> NrsMapV {
    if subs.len() == 0 {
        NrsMapV {
            entries: m.entries.insert("_default"@, leaf),
            default: if set_default {
                "_default"@
            } else {
                m.default
            },
        }
    } else {
        NrsMapV {
            entries: m.entries.insert(
                subs.last(),
                subname_entry(leaf, existing_tree(m, subs), subs[0], set_default, (subs.len() - 1) as nat),
            ),
            default: m.default,
        }
    }
}

/// The labels of a public name: the name without its `safe://` scheme, split at dots.
pub open spec fn name_labels(name: Seq<char>) -> Seq<Seq<char>> {
    split_on(replace_all(name, "safe://"@, Seq::empty()), '.')
}

/// Public names processed by an update, each with its sign and its destination.
pub type ProcessedEntries = Vec<(String, (String, String))>;

/// The view of the processed entries of an update of `name` to `destination`.
pub open spec fn processed_v(name: Seq<char>, destination: Seq<char>) -> Seq<(Seq<char>, (Seq<char>, Seq<char>))> {
    seq![(name, ("+"@, destination))]
}

/// The view of a list of processed entries.
pub open spec fn processed_view(p: Seq<(String, (String, String))>) -> Seq<(Seq<char>, (Seq<char>, Seq<char>))> {
    p.map_values(|e: (String, (String, String))| (e.0@, (e.1.0@, e.1.1@)))
}

impl NrsMap {
    /// Makes `d` the name of the default entry.
    fn set_default_name(&mut self, d: String)
        ensures
            final(self)@ == (NrsMapV { entries: old(self)@.entries, default: d@ }),
    {
        let ghost old_map = *self;
        self.default = d;
        proof {
            lemma_entries_view_congruent(old_map, *self, old_map.entries@.len());
        }
    }
}

/// The destination given, or the empty text.
pub open spec fn destination_v(destination: Option<&str>) -> Seq<char> {
    match destination {
        Some(d) => d@,
        None => Seq::empty(),
    }
}

/// The contents of the map given, or those of an empty map.
pub open spec fn base_map_v(existing_map: Option<NrsMap>) -> NrsMapV {
    match existing_map {
        Some(m) => m@,
        None => empty_map_v(),
    }
}

/// The maps found along the sub names of a name, by the sub name's position (see
/// `existing_tree`).
fn collect_existing_tree(m: &NrsMap, labels: &Vec<String>, n: usize) -> (tree: Vec<Option<NrsMap>>)
    requires
        n < labels@.len(),
    ensures
        tree@.len() == n,
        forall|q: int|
            0 <= q < n ==> (tree@[q] is Some <==> existing_tree(m@, views(labels@).take(n as int)).contains_key(q))
                && (tree@[q] matches Some(t) ==> t@ == existing_tree(m@, views(labels@).take(n as int))[q]),
{
    let ghost subs = views(labels@).take(n as int);
    let ghost full = existing_tree(m@, subs);
    let mut tree: Vec<Option<NrsMap>> = Vec::new();
    let mut j: usize = 0;
    while j < n
        invariant
            j <= n,
            tree@.len() == j,
            forall|q: int| 0 <= q < j ==> tree@[q] is None,
        decreases n - j,
    {
        tree.push(None);
        j = j + 1;
    }
    let mut cur = m.deep_clone();
    let mut k: usize = 0;
    assert(subs.take(n as int) =~= subs);
    while k < n
        invariant
            k <= n,
            n < labels@.len(),
            tree@.len() == n,
            subs == views(labels@).take(n as int),
            full == existing_tree(m@, subs),
            forall|q: int| 0 <= q < n - k ==> tree@[q] is None,
            forall|q: int|
                #![trigger full.contains_key(q)]
                0 <= q < n - k ==> (full.contains_key(q) <==> existing_tree(
                    cur@,
                    subs.take(n - k),
                ).contains_key(q)) && (full.contains_key(q) ==> full[q] == existing_tree(
                    cur@,
                    subs.take(n - k),
                )[q]),
            forall|q: int|
                #![trigger tree@[q]]
                n - k <= q < n ==> (tree@[q] is Some <==> full.contains_key(q)) && (
                tree@[q] matches Some(t) ==> t@ == full[q]),
        decreases n - k,
    {
        let idx = n - 1 - k;
        let ghost pre = subs.take(n - k);
        proof {
            assert(pre.last() == labels@[idx as int]@);
            assert(pre.drop_last() =~= subs.take(idx as int));
            lemma_existing_tree_keys(cur@, subs.take(idx as int));
        }
        let ghost old_cur = cur@;
        let ghost old_tree = tree@;
        let ghost pre_tree = existing_tree(old_cur, pre);
        assert forall|q: int| 0 <= q <= idx implies (full.contains_key(q) <==> pre_tree.contains_key(q))
            && (full.contains_key(q) ==> full[q] == pre_tree[q]) by {}
        let found = match cur.get_entry(labels[idx].as_str()) {
            Some(PublicNameEntry::SubName(sub)) => Some(sub.deep_clone()),
            Some(PublicNameEntry::Definition(_)) => Some(NrsMap::new()),
            None => None,
        };
        match found {
            Some(t) => {
                let ghost tv = t@;
                proof {
                    lemma_existing_tree_keys(tv, subs.take(idx as int));
                    assert(pre_tree == existing_tree(tv, subs.take(idx as int)).insert(idx as int, tv));
                }
                tree.set(idx, Some(t.deep_clone()));
                cur = t;
                proof {
                    assert forall|q: int| 0 <= q < idx implies (full.contains_key(q) <==> existing_tree(
                        cur@,
                        subs.take(idx as int),
                    ).contains_key(q)) && (full.contains_key(q) ==> full[q] == existing_tree(
                        cur@,
                        subs.take(idx as int),
                    )[q]) by {
                        assert(full.contains_key(q) <==> pre_tree.contains_key(q));
                    }
                    assert forall|q: int| idx <= q < n implies (tree@[q] is Some <==> full.contains_key(q))
                        && (tree@[q] matches Some(t) ==> t@ == full[q]) by {
                        if q == idx {
                            assert(full.contains_key(q) <==> pre_tree.contains_key(q));
                        } else {
                            assert(tree@[q] == old_tree[q]);
                        }
                    }
                }
            },
            None => {
                proof {
                    assert(pre_tree == existing_tree(cur@, subs.take(idx as int)));
                    assert forall|q: int| idx <= q < n implies (tree@[q] is Some <==> full.contains_key(q))
                        && (tree@[q] matches Some(t) ==> t@ == full[q]) by {
                        if q == idx {
                            assert(full.contains_key(q) <==> pre_tree.contains_key(q));
                        }
                    }
                }
            },
        }
        k = k + 1;
    }
    tree
}

/// The core of an update of a public name: puts a definition that links to
/// `destination` (or to the empty text), created at `now`, under `name` (without
/// its `safe://` scheme) into `existing_map` (or an empty map), and returns the top
/// level name, the processed entries and the resulting map. The entry of the last
/// sub name nests the maps already found along the sub names (see `updated_map`).
pub fn nrs_map_update(
    name: &str,
    destination: Option<&str>,
    existing_map: Option<NrsMap>,
    default: bool,
    now: &str,
) -> (res: (String, ProcessedEntries, NrsMap))
    ensures
        res.0@ == name_labels(name@).last(),
        processed_view(res.1@) == processed_v(name@, destination_v(destination)),
        res.2@ == updated_map(
            base_map_v(existing_map),
            name_labels(name@).drop_last(),
            EntryV::Definition(description_v(destination_v(destination), now@)),
            default,
        ),
{
    let sanitized = replace_str(name, "safe://", "");
    let labels = split_chars(sanitized.as_str(), '.');
    let n = labels.len() - 1;
    proof {
        reveal_strlit("");
        assert(""@ =~= Seq::<char>::empty());
        assert(views(labels@) == name_labels(name@));
        assert(views(labels@).drop_last() =~= views(labels@).take(n as int));
    }
    let ghost subs = views(labels@).take(n as int);
    let mut nrs_map = match existing_map {
        Some(m) => m,
        None => NrsMap::new(),
    };
    let ghost m0 = nrs_map@;
    let final_destination: &str = match destination {
        Some(d) => d,
        None => "",
    };
    let leaf = public_name_description(final_destination, now);
    let ghost leaf_v = leaf@;
    let mut entry = leaf;
    if n > 0 {
        let tree = collect_existing_tree(&nrs_map, &labels, n);
        let ghost full = existing_tree(m0, subs);
        let first = &labels[0];
        let mut i: usize = 1;
        while i < n
            invariant
                1 <= i <= n,
                n < labels@.len(),
                tree@.len() == n,
                subs == views(labels@).take(n as int),
                full == existing_tree(m0, subs),
                *first == labels@[0],
                forall|q: int|
                    0 <= q < n ==> (tree@[q] is Some <==> full.contains_key(q)) && (
                    tree@[q] matches Some(t) ==> t@ == full[q]),
                entry@ == subname_entry(leaf_v, full, subs[0], default, (i - 1) as nat),
            decreases n - i,
        {
            let mut our = match &tree[i] {
                Some(t) => t.deep_clone(),
                None => NrsMap::new(),
            };
            our.insert_entry(first.clone(), entry);
            if default {
                our.set_default_name(first.clone());
            }
            entry = PublicNameEntry::SubName(our);
            i = i + 1;
        }
        nrs_map.insert_entry(labels[n - 1].clone(), entry);
    } else {
        nrs_map.insert_entry(owned(FAKE_RDF_PREDICATE_DEFAULT), entry);
        if default {
            nrs_map.set_default_name(owned(FAKE_RDF_PREDICATE_DEFAULT));
        }
    }
    let mut processed: ProcessedEntries = Vec::new();
    processed.push((owned(name), (owned(CONTENT_ADDED_SIGN), owned(final_destination))));
    proof {
        reveal_strlit("+");
        reveal_strlit("");
        assert(""@ =~= Seq::<char>::empty());
        assert(final_destination@ == destination_v(destination));
        assert(processed_view(processed@) =~= processed_v(name@, destination_v(destination)));
    }
    let top = labels[n].clone();
    (top, processed, nrs_map)
}

/// Creates or updates the NRS map of a public name: puts under `name` a definition
/// that links to `destination` (or to the empty text), created now, into
/// `existing_map` (or an empty map). Returns the XoR name of the top level name,
/// the time used as the definition's creation time (and as the key of the
/// container entry that stores the map), the processed entries and the map.
pub fn nrs_map_update_or_create_data(
    name: &str,
    destination: Option<&str>,
    existing_map: Option<NrsMap>,
    default: bool,
    _dry_run: bool,
) -> (res: Result<(XorName, String, ProcessedEntries, NrsMap)>)
    ensures
        res matches Ok((xorname, now, processed, nrs_map)) && {
            &&& xorname.0@ == sha3_256_digest(vstd::utf8::encode_utf8(name_labels(name@).last()))
            &&& processed_view(processed@) == processed_v(name@, destination_v(destination))
            &&& nrs_map@ == updated_map(
                base_map_v(existing_map),
                name_labels(name@).drop_last(),
                EntryV::Definition(description_v(destination_v(destination), now@)),
                default,
            )
        },
{
    let now = gen_timestamp_secs();
    let (top_level_name, processed, nrs_map) = nrs_map_update(
        name,
        destination,
        existing_map,
        default,
        now.as_str(),
    );
    let xorname = match xorname_from_nrs_string(top_level_name.as_str()) {
        Ok(x) => x,
        Err(e) => {
            return Err(e);
        },
    };
    Ok((xorname, now, processed, nrs_map))
}

/// The link that resolving a list of sub names reaches (see `resolve_walk`), over
/// the contents of the maps.
pub open spec fn resolve_walk_v(m: NrsMapV, names: Seq<Seq<char>>, link: Option<Seq<char>>) -> Option<
    Seq<char>,
>
    decreases names.len(),
{
    if names.len() == 0 {
        link
    } else {
        let rest = names.drop_last();
        if !m.entries.contains_key(names.last()) {
            resolve_walk_v(m, rest, link)
        } else {
            match m.entries[names.last()] {
                EntryV::SubName(sub) => resolve_walk_v(sub, rest, link),
                EntryV::Definition(d) => resolve_walk_v(
                    m,
                    rest,
                    if d.contains_key("link"@) {
                        Some(d["link"@])
                    } else {
                        None
                    },
                ),
            }
        }
    }
}

/// Resolving sub names depends only on the contents of the maps.
pub proof fn lemma_resolve_walk_contents(m: NrsMap, names: Seq<String>, link: Option<Seq<char>>)
    ensures
        resolve_walk(m, names, link) == resolve_walk_v(m@, views(names), link),
    decreases names.len(),
{
    if names.len() > 0 {
        lemma_entry_index(m, names.last()@);
        assert(views(names).drop_last() =~= views(names.drop_last()));
        assert(views(names).last() == names.last()@);
        match entry_index(m, names.last()@) {
            None => {
                lemma_resolve_walk_contents(m, names.drop_last(), link);
            },
            Some(i) => {
                match m.entries@[i].1 {
                    PublicNameEntry::SubName(sub) => {
                        lemma_resolve_walk_contents(sub, names.drop_last(), link);
                    },
                    PublicNameEntry::Definition(d) => {
                        lemma_resolve_walk_contents(
                            m,
                            names.drop_last(),
                            if pairs_view(d@).contains_key("link"@) {
                                Some(pairs_view(d@)["link"@])
                            } else {
                                None
                            },
                        );
                    },
                }
            },
        }
    }
}

/// After putting a definition that links to `destination` under a name of the top
/// level name only, with `default` set, the map's default is `_default` and its
/// default link is `destination`, whatever the map held before.
pub proof fn lemma_update_top_level_default_link(
    r: NrsMap,
    base: NrsMapV,
    destination: Seq<char>,
    now: Seq<char>,
)
    requires
        r@ == updated_map(base, Seq::empty(), EntryV::Definition(description_v(destination, now)), true),
    ensures
        r@.default == FAKE_RDF_PREDICATE_DEFAULT@,
        default_link_outcome(r) == Ok::<Seq<char>, Seq<char>>(destination),
{
    reveal_strlit("_default");
    reveal_strlit("link");
    reveal_strlit("modified");
    reveal_strlit("created");
    lemma_entry_index(r, r.default@);
    let i = entry_index(r, r.default@)->0;
    match r.entries@[i].1 {
        PublicNameEntry::Definition(d) => {
            assert(pairs_view(d@) == description_v(destination, now));
            lemma_description_link(destination, now);
        },
        PublicNameEntry::SubName(_) => {},
    }
}

/// After putting a definition that links to `destination` under a name with one or
/// two sub names, resolving those sub names in the resulting map gives
/// `destination`, whatever the map held before.
pub proof fn lemma_update_resolves_subnames(
    r: NrsMap,
    base: NrsMapV,
    subs: Seq<String>,
    destination: Seq<char>,
    now: Seq<char>,
    set_default: bool,
)
    requires
        1 <= subs.len() <= 2,
        r@ == updated_map(
            base,
            views(subs),
            EntryV::Definition(description_v(destination, now)),
            set_default,
        ),
    ensures
        resolve_walk(r, subs, None) == Some(destination),
{
    reveal_strlit("link");
    reveal_strlit("modified");
    reveal_strlit("created");
    lemma_resolve_walk_contents(r, subs, None);
    reveal_with_fuel(resolve_walk_v, 3);
    let names = views(subs);
    let leaf = EntryV::Definition(description_v(destination, now));
    lemma_description_link(destination, now);
    if subs.len() == 1 {
        assert(names.drop_last() =~= Seq::<Seq<char>>::empty());
    } else {
        let tree = existing_tree(base, names);
        let lower = subname_entry(leaf, tree, names[0], set_default, 1);
        reveal_with_fuel(subname_entry, 2);
        assert(names.drop_last() =~= seq![names[0]]);
        assert(names.drop_last().drop_last() =~= Seq::<Seq<char>>::empty());
        assert(lower matches EntryV::SubName(sub) && sub.entries.contains_key(names[0]) && sub.entries[names[0]] == leaf);
    }
}
/// Whether `safe://` occurs in a text at a position.
pub open spec fn scheme_at(n: Seq<char>, i: int) -> bool {
    n.subrange(i, i + 7) == "safe://"@
}

/// Whether a text holds no occurrence of `safe://`.
pub open spec fn without_scheme(n: Seq<char>) -> bool {
    forall|i: int| 0 <= i && i + 7 <= n.len() ==> !#[trigger] scheme_at(n, i)
}

proof fn lemma_replace_absent(n: Seq<char>)
    requires
        without_scheme(n),
    ensures
        replace_all(n, "safe://"@, Seq::empty()) == n,
    decreases n.len(),
{
    reveal_strlit("safe://");
    if n.len() >= 7 {
        assert(!scheme_at(n, 0));
        assert(n.take(7) =~= n.subrange(0, 7));
        let r = n.skip(1);
        assert(without_scheme(r)) by {
            assert forall|i: int| 0 <= i && i + 7 <= r.len() implies !#[trigger] scheme_at(r, i) by {
                assert(r.subrange(i, i + 7) =~= n.subrange(i + 1, i + 8));
                assert(!scheme_at(n, i + 1));
            }
        }
        lemma_replace_absent(r);
        assert(seq![n[0]] + r =~= n);
    }
}

proof fn lemma_split_last_piece(a: Seq<char>, b: Seq<char>, c: char)
    requires
        !b.contains(c),
    ensures
        split_on(a + seq![c] + b, c).len() > 0,
        split_on(a + seq![c] + b, c).last() == b,
    decreases a.len(),
{
    let s = a + seq![c] + b;
    lemma_first_index_bound(s, c);
    let i = first_index_of(s, c);
    assert(s[a.len() as int] == c);
    assert(i <= a.len()) by {
        if i > a.len() {
            assert(s[a.len() as int] != c);
        }
    }
    let rest = s.skip(i + 1 as int);
    if i == a.len() {
        assert(rest =~= b);
        lemma_first_index_bound(b, c);
        if first_index_of(b, c) < b.len() {
            assert(b[first_index_of(b, c) as int] == c);
        }
        assert(split_on(b, c) == seq![b]);
    } else {
        let a2 = a.skip(i + 1 as int);
        assert(rest =~= a2 + seq![c] + b);
        lemma_split_last_piece(a2, b, c);
    }
    assert(split_on(s, c) == seq![s.take(i as int)] + split_on(rest, c));
}

/// A public name made of sub names, each followed by a dot, and a top level name
/// (just the top level name when there is no sub name).
pub open spec fn dotted_name(subs: Seq<char>, tld: Seq<char>) -> Seq<char> {
    if subs.len() == 0 {
        tld
    } else {
        subs + "."@ + tld
    }
}

/// The XoR name of a public name is that of its top level name, its last label:
/// the name may start with `safe://` or not, and its sub names come before the top
/// level name. So `mysite`, `safe://mysite` and `blog.mysite` all have the XoR name
/// of `mysite`.
pub proof fn lemma_top_name_is_last_label(with_scheme: bool, subs: Seq<char>, tld: Seq<char>)
    requires
        !tld.contains('.'),
        without_scheme(dotted_name(subs, tld)),
    ensures
        name_labels(if with_scheme {
            "safe://"@ + dotted_name(subs, tld)
        } else {
            dotted_name(subs, tld)
        }).last() == tld,
{
    reveal_strlit("safe://");
    reveal_strlit(".");
    let n = dotted_name(subs, tld);
    lemma_replace_absent(n);
    let s1 = "safe://"@ + n;
    assert(s1.take(7) =~= "safe://"@);
    assert(s1.skip(7) =~= n);
    assert(replace_all(s1, "safe://"@, Seq::empty()) == Seq::<char>::empty() + replace_all(
        n,
        "safe://"@,
        Seq::empty(),
    ));
    assert(Seq::<char>::empty() + n =~= n);
    if subs.len() == 0 {
        lemma_first_index_bound(tld, '.');
        if first_index_of(tld, '.') < tld.len() {
            assert(tld[first_index_of(tld, '.') as int] == '.');
        }
        assert(split_on(tld, '.') == seq![tld]);
    } else {
        assert(n =~= subs + seq!['.'] + tld);
        lemma_split_last_piece(subs, tld, '.');
    }
}


proof fn lemma_last_index_of_key_at<V>(items: Seq<(String, V)>, k: Seq<char>, j: int)
    requires
        0 <= j < items.len(),
        items[j].0@ == k,
        forall|q: int| j < q < items.len() ==> items[q].0@ != k,
    ensures
        last_index_of_key(items, k) == Some(j),
    decreases items.len(),
{
    if j < items.len() - 1 {
        assert(items.last().0@ != k);
        lemma_last_index_of_key_at(items.drop_last(), k, j);
    }
}

/// When a map's default names an entry (its last occurrence) that is a nested
/// map, the map's default link is that of the nested map: it is followed to its
/// own default.
pub proof fn lemma_default_link_follows_nested(m: NrsMap, j: int, sub: NrsMap)
    requires
        0 <= j < m.entries@.len(),
        m.entries@[j].0@ == m.default@,
        forall|q: int| j < q < m.entries@.len() ==> m.entries@[q].0@ != m.default@,
        m.entries@[j].1 == PublicNameEntry::SubName(sub),
    ensures
        default_link_outcome(m) == default_link_outcome(sub),
{
    lemma_last_index_of_key_at(m.entries@, m.default@, j);
}

/// When a map's default names an entry (its last occurrence) that is a
/// definition with a link, the map's default link is that link.
pub proof fn lemma_default_link_of_definition(m: NrsMap, j: int, d: Vec<(String, String)>)
    requires
        0 <= j < m.entries@.len(),
        m.entries@[j].0@ == m.default@,
        forall|q: int| j < q < m.entries@.len() ==> m.entries@[q].0@ != m.default@,
        m.entries@[j].1 == PublicNameEntry::Definition(d),
        pairs_view(d@).contains_key("link"@),
    ensures
        default_link_outcome(m) == Ok::<Seq<char>, Seq<char>>(pairs_view(d@)["link"@]),
{
    lemma_last_index_of_key_at(m.entries@, m.default@, j);
}

/// A sub name that the current map does not hold is passed over: it leaves the
/// link found so far as it was, and the walk goes on in the same map.
pub proof fn lemma_absent_subname_keeps_link(m: NrsMap, names: Seq<String>, link: Option<Seq<char>>)
    requires
        names.len() > 0,
        forall|q: int| 0 <= q < m.entries@.len() ==> m.entries@[q].0@ != names.last()@,
    ensures
        resolve_walk(m, names, link) == resolve_walk(m, names.drop_last(), link),
{
    lemma_last_index_in_range(m.entries@, names.last()@);
}

/// A sub name that names a definition with a link makes that link the walk's
/// link, whatever was found before, and the walk goes on in the same map.
pub proof fn lemma_defined_subname_sets_link(
    m: NrsMap,
    names: Seq<String>,
    link: Option<Seq<char>>,
    j: int,
    d: Vec<(String, String)>,
)
    requires
        names.len() > 0,
        0 <= j < m.entries@.len(),
        m.entries@[j].0@ == names.last()@,
        forall|q: int| j < q < m.entries@.len() ==> m.entries@[q].0@ != names.last()@,
        m.entries@[j].1 == PublicNameEntry::Definition(d),
        pairs_view(d@).contains_key("link"@),
    ensures
        resolve_walk(m, names, link) == resolve_walk(m, names.drop_last(), Some(pairs_view(d@)["link"@])),
{
    lemma_last_index_of_key_at(m.entries@, names.last()@, j);
}

/// Resolving no sub name gives no link.
pub proof fn lemma_resolve_nothing(m: NrsMap)
    ensures
        resolve_walk(m, Seq::empty(), None) is None,
{
}


/// A map whose default names no entry has no default link: the error says so.
pub proof fn lemma_default_link_missing(m: NrsMap)
    requires
        forall|q: int| 0 <= q < m.entries@.len() ==> m.entries@[q].0@ != m.default@,
    ensures
        default_link_outcome(m) == Err::<Seq<char>, Seq<char>>("No default found for resolvable map."@),
{
    lemma_last_index_in_range(m.entries@, m.default@);
}

/// A map whose default names a definition without a link has no default link:
/// the error names the default entry.
pub proof fn lemma_default_link_without_link(m: NrsMap, j: int, d: Vec<(String, String)>)
    requires
        0 <= j < m.entries@.len(),
        m.entries@[j].0@ == m.default@,
        forall|q: int| j < q < m.entries@.len() ==> m.entries@[q].0@ != m.default@,
        m.entries@[j].1 == PublicNameEntry::Definition(d),
        !pairs_view(d@).contains_key("link"@),
    ensures
        default_link_outcome(m) == Err::<Seq<char>, Seq<char>>(
            "No link found for default entry: "@ + m.default@ + "."@,
        ),
{
    lemma_last_index_of_key_at(m.entries@, m.default@, j);
}

/// A sub name that names a nested map moves the walk into that map, keeping the
/// link found so far.
pub proof fn lemma_nested_subname_enters_map(
    m: NrsMap,
    names: Seq<String>,
    link: Option<Seq<char>>,
    j: int,
    sub: NrsMap,
)
    requires
        names.len() > 0,
        0 <= j < m.entries@.len(),
        m.entries@[j].0@ == names.last()@,
        forall|q: int| j < q < m.entries@.len() ==> m.entries@[q].0@ != names.last()@,
        m.entries@[j].1 == PublicNameEntry::SubName(sub),
    ensures
        resolve_walk(m, names, link) == resolve_walk(sub, names.drop_last(), link),
{
    lemma_last_index_of_key_at(m.entries@, names.last()@, j);
}

/// With no sub name left, the walk gives the link found so far.
pub proof fn lemma_resolve_done(m: NrsMap, link: Option<Seq<char>>)
    ensures
        resolve_walk(m, Seq::empty(), link) == link,
{
}

} // verus!
