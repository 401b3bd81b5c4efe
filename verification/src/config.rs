//! The catalog: named groups of named commands, kept in the order given.
//!
//! Groups and commands are held as vectors of pairs, so that the order in
//! which they are listed is part of the catalog and the same for every
//! reader. A catalog is well formed when no name is used twice
//! ([`Config::wf`], tested by [`Config::is_valid`]); a lookup by name takes
//! the first pair of that name, so every function is defined on every
//! catalog.

use vstd::prelude::*;

verus! {

/// A string as the sequence of its characters.
pub type Text = Seq<char>;

/// The commands of one group: pairs of command name and command line.
pub type GroupModel = Seq<(Text, Text)>;

/// The whole catalog: pairs of group name and the group's commands.
pub type Catalog = Seq<(Text, GroupModel)>;

/// The keys of a sequence of key-value pairs, in order.
pub open spec fn keys_of<V>(entries: Seq<(Text, V)>) -> Seq<Text> {
    entries.map_values(|e: (Text, V)| e.0)
}

/// The value stored under `key`: that of the first pair with this key.
pub open spec fn lookup<V>(entries: Seq<(Text, V)>, key: Text) -> Option<V> {
    match keys_of(entries).index_of_first(key) {
        Some(i) => Some(entries[i].1),
        None => None,
    }
}

/// Every group name is used once, and within each group every command name.
pub open spec fn catalog_wf(catalog: Catalog) -> bool {
    &&& keys_of(catalog).no_duplicates()
    &&& forall|g: int| 0 <= g < catalog.len() ==> (#[trigger] keys_of(catalog[g].1)).no_duplicates()
}

/// A named collection of commands.
pub struct Group {
    /// Command name and the shell command line it stands for, in the order
    /// in which the commands are listed.
    pub connections: Vec<(String, String)>,
}

/// The catalog of all groups.
pub struct Config {
    /// Group name and group, in the order in which the groups are listed.
    pub groups: Vec<(String, Group)>,
}

impl View for Group {
    type V = GroupModel;

    open spec fn view(&self) -> GroupModel {
        self.connections.deep_view()
    }
}

impl View for Config {
    type V = Catalog;

    open spec fn view(&self) -> Catalog {
        Seq::new(self.groups@.len(), |i: int| (self.groups@[i].0@, self.groups@[i].1@))
    }
}

/// Finds the first pair of `entries` whose key is `key`.
fn position_of<V>(entries: &Vec<(String, V)>, key: &String) -> (r: Option<usize>)
    ensures
        match r {
            Some(i) => {
                &&& i < entries@.len()
                &&& entries@[i as int].0@ == key@
                &&& forall|j: int| 0 <= j < i ==> entries@[j].0@ != key@
            },
            None => forall|j: int| 0 <= j < entries@.len() ==> entries@[j].0@ != key@,
        },
{
    let mut i: usize = 0;
    while i < entries.len()
        invariant
            i <= entries@.len(),
            forall|j: int| 0 <= j < i ==> entries@[j].0@ != key@,
        decreases entries@.len() - i,
    {
        if entries[i].0 == *key {
            return Some(i);
        }
        i += 1;
    }
    None
}

/// The keys of a vector of pairs keyed by strings.
pub open spec fn key_texts<V>(entries: Seq<(String, V)>) -> Seq<Text> {
    Seq::new(entries.len(), |i: int| entries[i].0@)
}

/// Tells whether no two pairs of `entries` have the same key.
fn keys_are_distinct<V>(entries: &Vec<(String, V)>) -> (r: bool)
    ensures
        r == key_texts(entries@).no_duplicates(),
{
    let ghost keys = key_texts(entries@);
    let mut i: usize = 0;
    while i < entries.len()
        invariant
            i <= entries@.len(),
            keys == key_texts(entries@),
            forall|a: int, b: int| 0 <= a < b < i ==> keys[a] != keys[b],
        decreases entries@.len() - i,
    {
        let mut j: usize = 0;
        while j < i
            invariant
                j <= i < entries@.len(),
                keys == key_texts(entries@),
                forall|a: int| 0 <= a < j ==> keys[a] != keys[i as int],
            decreases i - j,
        {
            if entries[j].0 == entries[i].0 {
                assert(keys[j as int] == keys[i as int]);
                return false;
            }
            j += 1;
        }
        i += 1;
    }
    true
}

/// An index that holds the key and has no equal key before it is the one
/// `index_of_first` names; a sequence without the key has none.
pub proof fn lemma_first_index(keys: Seq<Text>, key: Text, found: Option<int>)
    requires
        match found {
            Some(i) => {
                &&& 0 <= i < keys.len()
                &&& keys[i] == key
                &&& forall|j: int| 0 <= j < i ==> keys[j] != key
            },
            None => forall|j: int| 0 <= j < keys.len() ==> keys[j] != key,
        },
    ensures
        keys.index_of_first(key) == found,
{
    keys.index_of_first_ensures(key);
}

impl Group {
    /// The command line stored under `name`, if the group has that command.
    pub fn command(&self, name: &String) -> (r: Option<&String>)
        ensures
            match r {
                Some(line) => lookup(self@, name@) == Some(line@),
                None => lookup(self@, name@).is_none(),
            },
    {
        let found = position_of(&self.connections, name);
        proof {
            let keys = keys_of(self@);
            assert(keys.len() == self.connections@.len());
            assert(forall|j: int| 0 <= j < keys.len() ==> keys[j] == self.connections@[j].0@);
            lemma_first_index(
                keys,
                name@,
                match found {
                    Some(i) => Some(i as int),
                    None => None,
                },
            );
        }
        match found {
            Some(i) => Some(&self.connections[i].1),
            None => None,
        }
    }
}

impl Config {
    /// The catalog is well formed: no name is used twice.
    pub open spec fn wf(&self) -> bool {
        catalog_wf(self@)
    }

    /// Tells whether the catalog is well formed.
    pub fn is_valid(&self) -> (r: bool)
        ensures
            r == self.wf(),
    {
        assert(key_texts(self.groups@) =~= keys_of(self@));
        if !keys_are_distinct(&self.groups) {
            return false;
        }
        let mut g: usize = 0;
        while g < self.groups.len()
            invariant
                g <= self.groups@.len(),
                forall|k: int| 0 <= k < g ==> (#[trigger] keys_of(self@[k].1)).no_duplicates(),
            decreases self.groups@.len() - g,
        {
            let group = &self.groups[g].1;
            assert(key_texts(group.connections@) =~= keys_of(self@[g as int].1));
            if !keys_are_distinct(&group.connections) {
                return false;
            }
            g += 1;
        }
        true
    }

    /// The index of the group called `name`, if there is one.
    pub fn group_index(&self, name: &String) -> (r: Option<usize>)
        ensures
            match r {
                Some(i) => keys_of(self@).index_of_first(name@) == Some(i as int) && i
                    < self.groups@.len(),
                None => keys_of(self@).index_of_first(name@).is_none(),
            },
    {
        let found = position_of(&self.groups, name);
        proof {
            let keys = keys_of(self@);
            assert(keys.len() == self.groups@.len());
            assert(forall|j: int| 0 <= j < keys.len() ==> keys[j] == self.groups@[j].0@);
            lemma_first_index(
                keys,
                name@,
                match found {
                    Some(i) => Some(i as int),
                    None => None,
                },
            );
        }
        found
    }

    /// The group called `name`, if there is one.
    pub fn group(&self, name: &String) -> (r: Option<&Group>)
        ensures
            match r {
                Some(g) => lookup(self@, name@) == Some(g@),
                None => lookup(self@, name@).is_none(),
            },
    {
        match self.group_index(name) {
            Some(i) => Some(&self.groups[i].1),
            None => None,
        }
    }

    /// The names of all groups, in catalog order.
    pub fn group_names(&self) -> (r: Vec<String>)
        ensures
            r.deep_view() == keys_of(self@),
    {
        let mut names: Vec<String> = Vec::new();
        let mut i: usize = 0;
        while i < self.groups.len()
            invariant
                i <= self.groups@.len(),
                names@.len() == i,
                forall|j: int| 0 <= j < i ==> names@[j]@ == self.groups@[j].0@,
            decreases self.groups@.len() - i,
        {
            names.push(self.groups[i].0.clone());
            i += 1;
        }
        assert(names.deep_view() =~= keys_of(self@));
        names
    }
}

} // verus!
