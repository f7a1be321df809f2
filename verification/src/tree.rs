//! What a TOML tree says at each path, and what an edit of the tree changes of it.

use vstd::prelude::*;
use crate::toml::{no_entries, steps_there, walk, with_node, with_tables, without_node, Found, TomlNode};

verus! {

/// What stands at a path: nothing, a table, or a value.
pub enum Kind {
    Absent,
    Table,
    Value(TomlNode),
}

/// What stands at a path. At the empty path stands the root table.
pub open spec fn kind_at(entries: Map<Seq<char>, TomlNode>, path: Seq<Seq<char>>) -> Kind
    decreases path.len(),
{
    if path.len() == 0 {
        Kind::Table
    } else if !entries.contains_key(path[0]) {
        Kind::Absent
    } else {
        match entries[path[0]] {
            TomlNode::Entries(inner) => kind_at(inner, path.skip(1)),
            node => if path.len() == 1 {
                Kind::Value(node)
            } else {
                Kind::Absent
            },
        }
    }
}

/// What an entry of a table is.
pub open spec fn kind_of(node: Option<TomlNode>) -> Kind {
    match node {
        None => Kind::Absent,
        Some(TomlNode::Entries(_)) => Kind::Table,
        Some(node) => Kind::Value(node),
    }
}

pub open spec fn entry_of(entries: Map<Seq<char>, TomlNode>, key: Seq<char>) -> Option<TomlNode> {
    if entries.contains_key(key) {
        Some(entries[key])
    } else {
        None
    }
}

pub proof fn lemma_kind_of_key(entries: Map<Seq<char>, TomlNode>, key: Seq<char>)
    ensures
        kind_at(entries, seq![key]) == kind_of(entry_of(entries, key)),
{
    assert(seq![key][0] == key);
    if entries.contains_key(key) && entries[key] is Entries {
        assert(seq![key].skip(1).len() == 0);
        assert(kind_at(entries[key]->Entries_0, seq![key].skip(1)) is Table);
    }
}

/// A path below a table is a path of that table.
pub proof fn lemma_walk_kind(
    entries: Map<Seq<char>, TomlNode>,
    path: Seq<Seq<char>>,
    rest: Seq<Seq<char>>,
)
    ensures
        walk(entries, path) is Entries <==> kind_at(entries, path) is Table,
        walk(entries, path) matches Found::Entries(inner) ==> kind_at(entries, path + rest)
            == kind_at(inner, rest),
        !(walk(entries, path) is Entries) && rest.len() > 0 ==> kind_at(entries, path + rest)
            is Absent,
    decreases path.len(),
{
    if path.len() == 0 {
        assert(path + rest == rest);
    } else {
        let whole = path + rest;
        assert(whole[0] == path[0]);
        assert(whole.skip(1) == path.skip(1) + rest);
        if entries.contains_key(path[0]) {
            match entries[path[0]] {
                TomlNode::Entries(inner) => {
                    lemma_walk_kind(inner, path.skip(1), rest);
                },
                _ => {},
            }
        }
    }
}

/// What a table has at a key is what stands at the key's path.
pub proof fn lemma_entry_kind(
    entries: Map<Seq<char>, TomlNode>,
    path: Seq<Seq<char>>,
    key: Seq<char>,
)
    ensures
        walk(entries, path) is Entries <==> kind_at(entries, path) is Table,
        walk(entries, path) matches Found::Entries(inner) ==> kind_at(entries, path.push(key))
            == kind_of(entry_of(inner, key)),
        !(walk(entries, path) is Entries) ==> kind_at(entries, path.push(key)) is Absent,
{
    lemma_walk_kind(entries, path, seq![key]);
    assert(path + seq![key] == path.push(key));
    if let Found::Entries(inner) = walk(entries, path) {
        lemma_kind_of_key(inner, key);
    }
}

/// Setting a value changes what stands at its path and nothing else.
pub proof fn lemma_with_node(
    entries: Map<Seq<char>, TomlNode>,
    path: Seq<Seq<char>>,
    key: Seq<char>,
    node: TomlNode,
    at: Seq<Seq<char>>,
)
    requires
        walk(entries, path) is Entries,
        !(kind_at(entries, path.push(key)) is Table),
        !(node is Entries),
    ensures
        kind_at(with_node(entries, path, key, node), at) == (if at == path.push(key) {
            Kind::Value(node)
        } else {
            kind_at(entries, at)
        }),
    decreases path.len(),
{
    let after = with_node(entries, path, key, node);
    let target = path.push(key);
    if at.len() == 0 {
    } else if path.len() == 0 {
        lemma_kind_of_key(entries, key);
        assert(target == seq![key]);
        if at.len() == 1 {
            assert(at == seq![at[0]]);
        }
    } else {
        assert(target[0] == path[0]);
        assert(target.skip(1) == path.skip(1).push(key));
        if at[0] == path[0] {
            let inner = entries[path[0]]->Entries_0;
            lemma_with_node(inner, path.skip(1), key, node, at.skip(1));
            if at.skip(1) == path.skip(1).push(key) {
                assert(at == target) by {
                    assert(at.len() == target.len());
                    assert forall|i: int| 0 <= i < at.len() implies at[i] == target[i] by {
                        if i > 0 {
                            assert(at.skip(1)[i - 1] == target.skip(1)[i - 1]);
                        }
                    }
                }
            }
        }
    }
}

/// Whether what stands at a path has nothing below it.
pub open spec fn has_nothing_below(entries: Map<Seq<char>, TomlNode>, path: Seq<Seq<char>>) -> bool {
    walk(entries, path) matches Found::Entries(inner) ==> inner == no_entries()
}

/// Taking out a value or an empty table changes what stands at its path and nothing else.
pub proof fn lemma_without_node(
    entries: Map<Seq<char>, TomlNode>,
    path: Seq<Seq<char>>,
    key: Seq<char>,
    at: Seq<Seq<char>>,
)
    requires
        walk(entries, path) is Entries,
        has_nothing_below(entries, path.push(key)),
    ensures
        kind_at(without_node(entries, path, key), at) == (if at == path.push(key) {
            Kind::Absent
        } else {
            kind_at(entries, at)
        }),
    decreases path.len(),
{
    let target = path.push(key);
    if at.len() == 0 {
    } else if path.len() == 0 {
        assert(target == seq![key]);
        assert(target[0] == key);
        if at.len() == 1 {
            assert(at == seq![at[0]]);
        } else if at[0] == key && entries.contains_key(key) && entries[key] is Entries {
            let inner = entries[key]->Entries_0;
            assert(target.skip(1).len() == 0);
            assert(walk(inner, target.skip(1)) == Found::Entries(inner));
            assert(walk(entries, target) == Found::Entries(inner));
            assert(kind_at(inner, at.skip(1)) is Absent);
        }
    } else {
        assert(target[0] == path[0]);
        assert(target.skip(1) == path.skip(1).push(key));
        let inner = entries[path[0]]->Entries_0;
        assert(walk(entries, target) == walk(inner, target.skip(1)));
        if at[0] == path[0] {
            lemma_without_node(inner, path.skip(1), key, at.skip(1));
            if at.skip(1) == path.skip(1).push(key) {
                assert(at == target) by {
                    assert(at.len() == target.len());
                    assert forall|i: int| 0 <= i < at.len() implies at[i] == target[i] by {
                        if i > 0 {
                            assert(at.skip(1)[i - 1] == target.skip(1)[i - 1]);
                        }
                    }
                }
            }
        }
    }
}

/// Whether a path is one of the steps of another.
pub open spec fn is_step(path: Seq<Seq<char>>, of: Seq<Seq<char>>) -> bool {
    path.len() <= of.len() && path == of.take(path.len() as int)
}

/// Making the tables of a path puts a table at each of its steps and changes nothing else.
pub proof fn lemma_with_tables(
    entries: Map<Seq<char>, TomlNode>,
    path: Seq<Seq<char>>,
    at: Seq<Seq<char>>,
)
    requires
        !(walk(entries, path) is Blocked),
    ensures
        kind_at(with_tables(entries, path), at) == (if is_step(at, path) {
            Kind::Table
        } else {
            kind_at(entries, at)
        }),
    decreases path.len(),
{
    if at.len() == 0 {
        assert(path.take(0) == at);
    } else if path.len() > 0 {
        let inner = if entries.contains_key(path[0]) {
            entries[path[0]]->Entries_0
        } else {
            Map::empty()
        };
        if at[0] == path[0] {
            lemma_with_tables(inner, path.skip(1), at.skip(1));
            if at.len() == 1 {
                assert(at.skip(1) == path.skip(1).take(0));
            } else if !entries.contains_key(path[0]) {
                assert(kind_at(inner, at.skip(1)) is Absent);
            }
            if is_step(at.skip(1), path.skip(1)) {
                assert(at == path.take(at.len() as int)) by {
                    assert forall|i: int| 0 <= i < at.len() implies at[i] == path[i] by {
                        if i > 0 {
                            assert(at.skip(1)[i - 1] == path.skip(1).take(at.len() - 1)[i - 1]);
                        }
                    }
                }
            } else if is_step(at, path) {
                assert(at.skip(1) == path.skip(1).take(at.len() - 1));
            }
        } else if is_step(at, path) {
            assert(at[0] == path.take(at.len() as int)[0]);
        }
    }
}

/// The steps of a path that are there are its first tables, and the next is not there.
pub proof fn lemma_steps(entries: Map<Seq<char>, TomlNode>, path: Seq<Seq<char>>)
    requires
        !(walk(entries, path) is Blocked),
    ensures
        steps_there(entries, path) <= path.len(),
        forall|n: int|
            0 <= n <= path.len() ==> #[trigger] kind_at(entries, path.take(n)) == (if n
                <= steps_there(entries, path) {
                Kind::Table
            } else {
                Kind::Absent
            }),
    decreases path.len(),
{
    if path.len() == 0 {
        assert forall|n: int| 0 <= n <= path.len() implies #[trigger] kind_at(entries, path.take(n))
            == Kind::Table by {}
    } else if !entries.contains_key(path[0]) {
        assert forall|n: int| 0 <= n <= path.len() implies #[trigger] kind_at(entries, path.take(n))
            == (if n <= 0 {
            Kind::Table
        } else {
            Kind::Absent
        }) by {
            if n > 0 {
                assert(path.take(n)[0] == path[0]);
            }
        }
    } else {
        let inner = entries[path[0]]->Entries_0;
        lemma_steps(inner, path.skip(1));
        assert forall|n: int| 0 <= n <= path.len() implies #[trigger] kind_at(entries, path.take(n))
            == (if n <= steps_there(entries, path) {
            Kind::Table
        } else {
            Kind::Absent
        }) by {
            if n > 0 {
                assert(path.take(n)[0] == path[0]);
                assert(path.take(n).skip(1) == path.skip(1).take(n - 1));
                assert(kind_at(inner, path.skip(1).take(n - 1)) == (if n - 1 <= steps_there(
                    inner,
                    path.skip(1),
                ) {
                    Kind::Table
                } else {
                    Kind::Absent
                }));
            }
        }
    }
}

/// A table stands at each step of a path that ends at a table.
pub proof fn lemma_table_steps(
    entries: Map<Seq<char>, TomlNode>,
    path: Seq<Seq<char>>,
    step: Seq<Seq<char>>,
)
    requires
        kind_at(entries, path) is Table,
        is_step(step, path),
    ensures
        kind_at(entries, step) is Table,
{
    lemma_walk_kind(entries, path, Seq::empty());
    lemma_steps(entries, path);
    assert(path.take(path.len() as int) == path);
    assert(kind_at(entries, path.take(path.len() as int)) is Table);
    assert(kind_at(entries, path.take(step.len() as int)) is Table);
}

/// A walk is blocked exactly where a value stands at one of its steps.
pub proof fn lemma_blocked(entries: Map<Seq<char>, TomlNode>, path: Seq<Seq<char>>)
    ensures
        walk(entries, path) is Blocked <==> exists|n: int|
            0 <= n <= path.len() && #[trigger] kind_at(entries, path.take(n)) is Value,
    decreases path.len(),
{
    if path.len() == 0 {
        assert forall|n: int| 0 <= n <= path.len() implies !(#[trigger] kind_at(
            entries,
            path.take(n),
        ) is Value) by {}
    } else if !entries.contains_key(path[0]) {
        assert forall|n: int| 0 <= n <= path.len() implies !(#[trigger] kind_at(
            entries,
            path.take(n),
        ) is Value) by {
            if n > 0 {
                assert(path.take(n)[0] == path[0]);
            }
        }
    } else if entries[path[0]] is Entries {
        let inner = entries[path[0]]->Entries_0;
        let rest = path.skip(1);
        lemma_blocked(inner, rest);
        assert forall|n: int| 0 < n <= path.len() implies #[trigger] kind_at(entries, path.take(n))
            == kind_at(inner, rest.take(n - 1)) by {
            assert(path.take(n)[0] == path[0]);
            assert(path.take(n).skip(1) == rest.take(n - 1));
        }
        if walk(inner, rest) is Blocked {
            let n = choose|n: int|
                0 <= n <= rest.len() && #[trigger] kind_at(inner, rest.take(n)) is Value;
            assert(kind_at(entries, path.take(n + 1)) is Value);
        } else {
            assert forall|n: int| 0 <= n <= path.len() implies !(#[trigger] kind_at(
                entries,
                path.take(n),
            ) is Value) by {
                if n > 0 {
                    assert(!(kind_at(inner, rest.take(n - 1)) is Value));
                }
            }
        }
    } else {
        assert(path.take(1)[0] == path[0]);
        assert(kind_at(entries, path.take(1)) is Value);
    }
}

/// Two trees that say the same at every path are the same tree.
pub proof fn lemma_same_tree(a: Map<Seq<char>, TomlNode>, b: Map<Seq<char>, TomlNode>)
    requires
        forall|path: Seq<Seq<char>>| #[trigger] kind_at(a, path) == kind_at(b, path),
    ensures
        a == b,
{
    lemma_same_node(TomlNode::Entries(a), TomlNode::Entries(b));
}

proof fn lemma_same_node(a: TomlNode, b: TomlNode)
    requires
        a is Entries,
        b is Entries,
        forall|path: Seq<Seq<char>>| #[trigger]
            kind_at(a->Entries_0, path) == kind_at(b->Entries_0, path),
    ensures
        a == b,
    decreases a,
{
    let first = a->Entries_0;
    let second = b->Entries_0;
    assert forall|key: Seq<char>| #[trigger]
        first.contains_key(key) == second.contains_key(key) by {
        lemma_kind_of_key(first, key);
        lemma_kind_of_key(second, key);
        assert(kind_at(first, seq![key]) == kind_at(second, seq![key]));
    }
    assert forall|key: Seq<char>| first.contains_key(key) implies #[trigger] first[key]
        == second[key] by {
        lemma_kind_of_key(first, key);
        lemma_kind_of_key(second, key);
        assert(kind_at(first, seq![key]) == kind_at(second, seq![key]));
        assert(second.contains_key(key));
        if first[key] is Entries {
            assert forall|path: Seq<Seq<char>>| #[trigger]
                kind_at(first[key]->Entries_0, path) == kind_at(second[key]->Entries_0, path) by {
                let whole = seq![key] + path;
                assert(whole[0] == key);
                assert(whole.skip(1) == path);
                assert(kind_at(first, whole) == kind_at(second, whole));
            }
            lemma_same_node(a->Entries_0[key], second[key]);
        }
    }
    assert(first =~= second);
}

/// A path that leads to a table leads through one.
pub proof fn lemma_walk_parent(entries: Map<Seq<char>, TomlNode>, path: Seq<Seq<char>>)
    requires
        path.len() > 0,
        walk(entries, path) is Entries,
    ensures
        walk(entries, path.drop_last()) is Entries,
    decreases path.len(),
{
    if path.len() > 1 {
        let inner = entries[path[0]]->Entries_0;
        lemma_walk_parent(inner, path.skip(1));
        assert(path.drop_last()[0] == path[0]);
        assert(path.drop_last().skip(1) =~= path.skip(1).drop_last());
    }
}

} // verus!
