//! The generic value tree that the versioned decoder produces, and its
//! accessors.

use vstd::prelude::*;

verus! {

/// A decoded value. A `Dict` holds its entries in the order in which their
/// keys first came, each key once.
#[derive(Debug, PartialEq, Eq)]
pub enum Value {
    I64(i64),
    U64(u64),
    Bytes(Vec<u8>),
    String(String),
    Array(Vec<Value>),
    Dict(Vec<(String, Value)>),
    Optional(Box<Value>),
    Boolean(bool),
    Null,
}

/// A value as contracts speak of it: the same tree over sequences.
pub enum Tree {
    I64(i64),
    U64(u64),
    Bytes(Seq<u8>),
    String(Seq<char>),
    Array(Seq<Tree>),
    Dict(Seq<(Seq<char>, Tree)>),
    Optional(Box<Tree>),
    Boolean(bool),
    Null,
}

/// The trees of a sequence of values, in order.
pub open spec fn trees_of(values: Seq<Value>) -> Seq<Tree>
    decreases values,
{
    Seq::new(
        values.len(),
        |i: int|
            if 0 <= i < values.len() {
                tree_of(values[i])
            } else {
                Tree::Null
            },
    )
}

/// The entries of a dictionary as trees, in order.
pub open spec fn entries_of(entries: Seq<(String, Value)>) -> Seq<(Seq<char>, Tree)>
    decreases entries,
{
    Seq::new(
        entries.len(),
        |i: int|
            if 0 <= i < entries.len() {
                (entries[i].0@, tree_of(entries[i].1))
            } else {
                (Seq::empty(), Tree::Null)
            },
    )
}

/// The tree of a value.
pub open spec fn tree_of(value: Value) -> Tree
    decreases value,
{
    match value {
        Value::I64(n) => Tree::I64(n),
        Value::U64(n) => Tree::U64(n),
        Value::Bytes(bytes) => Tree::Bytes(bytes@),
        Value::String(text) => Tree::String(text@),
        Value::Array(items) => Tree::Array(trees_of(items@)),
        Value::Dict(entries) => Tree::Dict(entries_of(entries@)),
        Value::Optional(inner) => Tree::Optional(Box::new(tree_of(*inner))),
        Value::Boolean(b) => Tree::Boolean(b),
        Value::Null => Tree::Null,
    }
}

impl View for Value {
    type V = Tree;

    open spec fn view(&self) -> Tree {
        tree_of(*self)
    }
}

/// The items of an array, seen through any number of optional wrappers;
/// nothing for a tree of another kind.
pub open spec fn array_items(tree: Tree) -> Option<Seq<Tree>>
    decreases tree,
{
    match tree {
        Tree::Array(items) => Some(items),
        Tree::Optional(inner) => array_items(*inner),
        _ => None,
    }
}

/// Index of the first entry with the key `key`, if there is one.
pub open spec fn key_index(entries: Seq<(Seq<char>, Tree)>, key: Seq<char>) -> Option<int>
    decreases entries.len(),
{
    if entries.len() == 0 {
        None
    } else {
        match key_index(entries.drop_last(), key) {
            Some(i) => Some(i),
            None => if entries.last().0 == key {
                Some(entries.len() - 1)
            } else {
                None
            },
        }
    }
}

/// The entries with `value` under `key`: in the place of the first entry
/// with that key, or at the end where no entry has it.
pub open spec fn dict_put(entries: Seq<(Seq<char>, Tree)>, key: Seq<char>, value: Tree) -> Seq<
    (Seq<char>, Tree),
> {
    match key_index(entries, key) {
        Some(i) => entries.update(i, (key, value)),
        None => entries.push((key, value)),
    }
}

/// Whether no two entries have the same key.
pub open spec fn distinct_keys(entries: Seq<(Seq<char>, Tree)>) -> bool {
    forall|i: int, j: int|
        0 <= i < j < entries.len() ==> (#[trigger] entries[i]).0 != (#[trigger] entries[j]).0
}

/// Whether every dictionary in `tree` holds each key once.
pub open spec fn well_formed(tree: Tree) -> bool
    decreases tree,
{
    match tree {
        Tree::Array(items) => forall|i: int|
            0 <= i < items.len() ==> well_formed(#[trigger] items[i]),
        Tree::Dict(entries) => distinct_keys(entries) && forall|i: int|
            0 <= i < entries.len() ==> well_formed((#[trigger] entries[i]).1),
        Tree::Optional(inner) => well_formed(*inner),
        _ => true,
    }
}

/// What `key_index` finds: the least index of an entry with the key, or
/// that no entry has it.
pub proof fn lemma_key_index(entries: Seq<(Seq<char>, Tree)>, key: Seq<char>)
    ensures
        match key_index(entries, key) {
            Some(i) => 0 <= i < entries.len() && entries[i].0 == key && forall|j: int|
                0 <= j < i ==> (#[trigger] entries[j]).0 != key,
            None => forall|j: int| 0 <= j < entries.len() ==> (#[trigger] entries[j]).0 != key,
        },
    decreases entries.len(),
{
    if entries.len() > 0 {
        let front = entries.drop_last();
        lemma_key_index(front, key);
        assert forall|j: int| 0 <= j < front.len() implies front[j] == entries[j] by {}
        match key_index(front, key) {
            Some(i) => {
                assert(front[i] == entries[i]);
                assert forall|j: int| 0 <= j < i implies (#[trigger] entries[j]).0 != key by {
                    assert(front[j] == entries[j]);
                }
            },
            None => {
                assert forall|j: int| 0 <= j < front.len() implies (#[trigger] entries[j]).0
                    != key by {
                    assert(front[j] == entries[j]);
                }
            },
        }
    }
}

/// Putting a well-formed value into a dictionary that holds each key once
/// and only well-formed values gives such a dictionary.
pub proof fn lemma_dict_put_well_formed(
    entries: Seq<(Seq<char>, Tree)>,
    key: Seq<char>,
    value: Tree,
)
    requires
        well_formed(Tree::Dict(entries)),
        well_formed(value),
    ensures
        well_formed(Tree::Dict(dict_put(entries, key, value))),
{
    lemma_key_index(entries, key);
    let after = dict_put(entries, key, value);
    match key_index(entries, key) {
        Some(at) => {
            assert forall|i: int, j: int| 0 <= i < j < after.len() implies (#[trigger] after[i]).0
                != (#[trigger] after[j]).0 by {
                assert(after[i].0 == entries[i].0);
                assert(after[j].0 == entries[j].0);
            }
            assert forall|i: int| 0 <= i < after.len() implies well_formed(
                (#[trigger] after[i]).1,
            ) by {
                if i != at {
                    assert(after[i] == entries[i]);
                }
            }
        },
        None => {
            assert forall|i: int, j: int| 0 <= i < j < after.len() implies (#[trigger] after[i]).0
                != (#[trigger] after[j]).0 by {
                assert(after[i] == entries[i]);
                if j < entries.len() {
                    assert(after[j] == entries[j]);
                }
            }
            assert forall|i: int| 0 <= i < after.len() implies well_formed(
                (#[trigger] after[i]).1,
            ) by {
                if i < entries.len() {
                    assert(after[i] == entries[i]);
                }
            }
        },
    }
}

/// The tree reached from `tree` by looking up the keys of `path` in turn,
/// each in the dictionary reached so far; nothing where a key is missing or
/// the tree reached is no dictionary. The empty path reaches `tree` itself.
pub open spec fn tree_at(tree: Tree, path: Seq<Seq<char>>) -> Option<Tree>
    decreases path.len(),
{
    if path.len() == 0 {
        Some(tree)
    } else {
        match tree {
            Tree::Dict(entries) => match key_index(entries, path[0]) {
                Some(i) => tree_at(entries[i].1, path.skip(1)),
                None => None,
            },
            _ => None,
        }
    }
}

/// The keys of a path, each as its sequence of characters.
pub open spec fn path_keys(path: Seq<&str>) -> Seq<Seq<char>> {
    Seq::new(path.len(), |i: int| path[i]@)
}

/// Equality of `str`, which holds exactly where both have the same
/// characters.
#[verifier::external_body]
pub(crate) fn str_eq(a: &str, b: &str) -> (same: bool)
    ensures
        same == (a@ == b@),
{
    a == b
}

/// Index of the first entry of `entries` with the key `key`.
pub fn find_key(entries: &Vec<(String, Value)>, key: &str) -> (out: Option<usize>)
    ensures
        match out {
            Some(i) => i < entries@.len() && key_index(entries_of(entries@), key@) == Some(
                i as int,
            ),
            None => key_index(entries_of(entries@), key@) is None,
        },
{
    let mut i: usize = 0;
    while i < entries.len()
        invariant
            i <= entries@.len(),
            forall|j: int| 0 <= j < i ==> (#[trigger] entries_of(entries@)[j]).0 != key@,
        decreases entries@.len() - i,
    {
        if str_eq(entries[i].0.as_str(), key) {
            proof {
                assert(entries_of(entries@)[i as int].0 == key@);
                lemma_key_index(entries_of(entries@), key@);
            }
            return Some(i);
        }
        i = i + 1;
    }
    proof {
        lemma_key_index(entries_of(entries@), key@);
    }
    None
}

/// Puts `value` under `key`: in the place of the first entry with that
/// key, or at the end where no entry has it.
pub fn dict_insert(entries: &mut Vec<(String, Value)>, key: String, value: Value)
    ensures
        entries_of(final(entries)@) == dict_put(entries_of(old(entries)@), key@, value@),
{
    match find_key(entries, key.as_str()) {
        Some(at) => {
            let ghost before = entries@;
            entries.set(at, (key, value));
            proof {
                assert(entries_of(entries@) =~= entries_of(before).update(
                    at as int,
                    (key@, value@),
                ));
            }
        },
        None => {
            let ghost before = entries@;
            entries.push((key, value));
            proof {
                assert(entries_of(entries@) =~= entries_of(before).push((key@, value@)));
            }
        },
    }
}

impl Value {
    /// The text of a string; a failure for a value of any other kind.
    pub fn as_str(&self) -> (out: Result<&str, ()>)
        ensures
            match self@ {
                Tree::String(text) => out matches Ok(got) && got@ == text,
                _ => out is Err,
            },
    {
        match self {
            Value::String(val) => Ok(val.as_str()),
            _ => Err(()),
        }
    }

    /// The items of an array, seen through any number of optional
    /// wrappers; a failure for a value of any other kind.
    pub fn as_array(&self) -> (out: Result<&[Value], ()>)
        ensures
            match array_items(self@) {
                Some(items) => out matches Ok(got) && trees_of(got@) == items,
                None => out is Err,
            },
        decreases self,
    {
        match self {
            Value::Array(val) => Ok(val.as_slice()),
            Value::Optional(val) => val.as_array(),
            _ => Err(()),
        }
    }

    /// The number of an unsigned integer; a failure for a value of any
    /// other kind.
    pub fn as_u64(&self) -> (out: Result<u64, ()>)
        ensures
            match self@ {
                Tree::U64(n) => out == Ok::<u64, ()>(n),
                _ => out is Err,
            },
    {
        match self {
            Value::U64(val) => Ok(*val),
            _ => Err(()),
        }
    }

    /// The number of a signed integer; a failure for a value of any other
    /// kind.
    pub fn as_i64(&self) -> (out: Result<i64, ()>)
        ensures
            match self@ {
                Tree::I64(n) => out == Ok::<i64, ()>(n),
                _ => out is Err,
            },
    {
        match self {
            Value::I64(val) => Ok(*val),
            _ => Err(()),
        }
    }

    /// The value reached by looking up the keys of `path` in turn, each in
    /// the dictionary reached so far; a failure where a key is missing or
    /// the value reached is no dictionary.
    pub fn get_path(&self, path: &[&str]) -> (out: Result<&Value, ()>)
        ensures
            match tree_at(self@, path_keys(path@)) {
                Some(tree) => out matches Ok(got) && got@ == tree,
                None => out is Err,
            },
    {
        let mut root: &Value = self;
        let mut i: usize = 0;
        proof {
            assert(path_keys(path@).skip(0) =~= path_keys(path@));
        }
        while i < path.len()
            invariant
                i <= path@.len(),
                tree_at(self@, path_keys(path@)) == tree_at(root@, path_keys(path@).skip(i as int)),
            decreases path@.len() - i,
        {
            let part: &str = path[i];
            proof {
                let keys = path_keys(path@).skip(i as int);
                assert(keys[0] == part@);
                assert(keys.skip(1) =~= path_keys(path@).skip(i + 1));
            }
            match root {
                Value::Dict(map) => {
                    match find_key(map, part) {
                        Some(at) => {
                            proof {
                                let keys = path_keys(path@).skip(i as int);
                                assert(keys.len() > 0);
                                assert(root@ == Tree::Dict(entries_of(map@)));
                                assert(entries_of(map@)[at as int].1 == map@[at as int].1@);
                                assert(key_index(entries_of(map@), keys[0]) == Some(at as int));
                                assert(tree_at(root@, keys) == tree_at(
                                    map@[at as int].1@,
                                    keys.skip(1),
                                ));
                            }
                            root = &map[at].1;
                        },
                        None => {
                            return Err(());
                        },
                    }
                },
                _ => {
                    return Err(());
                },
            }
            i = i + 1;
        }
        Ok(root)
    }
}

} // verus!
