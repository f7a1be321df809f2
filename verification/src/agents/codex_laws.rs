//! What holds of an edit of a Codex configuration and its restoration together.

use vstd::prelude::*;
use crate::agents::codex_config::{
    all_given_back, cleaned, configured, edited, first_pointer, headers_path,
    is_pending, mark_of, pending, provider_path, restored, selection_path, CodexNativeError,
    CodexSelectionTarget, EditView, FieldView, Mark, RestoreView,
};
use crate::agents::codex_config::record::is_made_path;
use crate::text::utf8_text;
use crate::toml::{
    no_entries, node_at, steps_there, walk, without_node, Found, TomlNode, TomlPage,
};
use crate::tree::{
    is_step, kind_at, kind_of, lemma_blocked, lemma_entry_kind, lemma_same_tree, lemma_steps,
    lemma_table_steps, lemma_walk_kind, lemma_with_node, lemma_with_tables, lemma_without_node,
    Kind,
};

verus! {

/// The value that a field had before an edit.
pub open spec fn kind_before(field: FieldView) -> Kind {
    kind_of(field.before)
}

/// Whether a path is that of one of the fields.
pub open spec fn has_field(fields: Seq<FieldView>, path: Seq<Seq<char>>) -> bool {
    exists|i: int| 0 <= i < fields.len() && (#[trigger] fields[i]).path == path
}

/// Whether fields have a place each, no two the same, and were strings or absent.
pub open spec fn fields_are_apart(fields: Seq<FieldView>) -> bool {
    &&& forall|i: int|
        0 <= i < fields.len() ==> (#[trigger] fields[i]).path.len() > 0 && (
        fields[i].before is None || fields[i].before->0 is Str)
    &&& forall|i: int, j: int|
        0 <= i < j < fields.len() ==> (#[trigger] fields[i]).path != (#[trigger] fields[j]).path
}

/// Whether the made tables stand outermost first.
pub open spec fn outermost_first(created: Seq<Seq<Seq<char>>>) -> bool {
    &&& forall|i: int| 0 <= i < created.len() ==> (#[trigger] created[i]).len() > 0
    &&& forall|i: int, j: int|
        0 <= i < created.len() && 0 <= j < created.len() && is_step(
            #[trigger] created[i],
            #[trigger] created[j],
        ) ==> i <= j
}

/// Whether an edit in progress is what its record says it is: away from the fields that were set
/// and the tables that were made, the document reads as it did before; each field's record holds
/// what stood there, and the fingerprint of what stands there now.
#[verifier::opaque]
pub open spec fn is_recorded(before: Map<Seq<char>, TomlNode>, edit: EditView) -> bool {
    &&& fields_are_apart(edit.fields)
    &&& outermost_first(edit.created)
    &&& forall|i: int|
        0 <= i < edit.created.len() ==> kind_at(before, #[trigger] edit.created[i]) is Absent
            && kind_at(edit.entries, edit.created[i]) is Table && !has_field(
            edit.fields,
            edit.created[i],
        )
    &&& forall|i: int|
        0 <= i < edit.fields.len() ==> {
            let field = #[trigger] edit.fields[i];
            &&& kind_at(before, field.path) == kind_before(field)
            &&& kind_at(edit.entries, field.path.drop_last()) is Table
            &&& if field.passive {
                kind_at(edit.entries, field.path) == kind_before(field)
            } else {
                &&& kind_at(edit.entries, field.path) is Value
                &&& mark_of(Some(kind_at(edit.entries, field.path)->Value_0)) == Mark::Digest(
                    field.after,
                )
            }
        }
    &&& forall|path: Seq<Seq<char>>|
        !has_field(edit.fields, path) && !edit.created.contains(path) ==> #[trigger] kind_at(
            edit.entries,
            path,
        ) == kind_at(before, path)
}

proof fn lemma_recorded_set(
    before: Map<Seq<char>, TomlNode>,
    edit: EditView,
    parent: Seq<Seq<char>>,
    key: Seq<char>,
    node: TomlNode,
)
    requires
        is_recorded(before, edit),
        edit.set(parent, key, node) is Some,
        node is Str || node is Bool,
        !has_field(edit.fields, parent.push(key)),
    ensures
        is_recorded(before, edit.set(parent, key, node)->0),
{
    reveal(is_recorded);
    let after = edit.set(parent, key, node)->0;
    let path = parent.push(key);
    let inner = walk(edit.entries, parent)->Entries_0;
    lemma_entry_kind(edit.entries, parent, key);
    assert(!(kind_at(edit.entries, path) is Table));
    assert(!edit.created.contains(path));
    assert forall|at: Seq<Seq<char>>| #[trigger]
        kind_at(after.entries, at) == (if at == path {
            Kind::Value(node)
        } else {
            kind_at(edit.entries, at)
        }) by {
        lemma_with_node(edit.entries, parent, key, node, at);
    }
    let last = after.fields[edit.fields.len() as int];
    assert(path.drop_last() == parent);
    assert(kind_at(before, path) == kind_before(last)) by {
        assert(kind_at(edit.entries, path) == kind_at(before, path));
    }
    assert forall|i: int, j: int| 0 <= i < j < after.fields.len() implies (
    #[trigger] after.fields[i]).path != (#[trigger] after.fields[j]).path by {
        assert(after.fields[i] == edit.fields[i]);
        if j < edit.fields.len() {
            assert(after.fields[j] == edit.fields[j]);
        }
    }
    assert forall|at: Seq<Seq<char>>| has_field(edit.fields, at) implies has_field(
        after.fields,
        at,
    ) by {
        let i = choose|i: int| 0 <= i < edit.fields.len() && edit.fields[i].path == at;
        assert(after.fields[i] == edit.fields[i]);
    }
    assert(has_field(after.fields, path)) by {
        assert(last.path == path);
    }
    assert forall|at: Seq<Seq<char>>| has_field(after.fields, at) && at != path implies has_field(
        edit.fields,
        at,
    ) by {
        let i = choose|i: int| 0 <= i < after.fields.len() && after.fields[i].path == at;
        assert(after.fields[i] == edit.fields[i]);
    }
    assert forall|i: int| 0 <= i < after.fields.len() implies {
        let field = #[trigger] after.fields[i];
        &&& kind_at(before, field.path) == kind_before(field)
        &&& kind_at(after.entries, field.path.drop_last()) is Table
        &&& if field.passive {
            kind_at(after.entries, field.path) == kind_before(field)
        } else {
            &&& kind_at(after.entries, field.path) is Value
            &&& mark_of(Some(kind_at(after.entries, field.path)->Value_0)) == Mark::Digest(
                field.after,
            )
        }
    } by {
        if i < edit.fields.len() {
            assert(after.fields[i] == edit.fields[i]);
            assert(edit.fields[i].path != path);
        }
    }
}

proof fn lemma_recorded_observe(
    before: Map<Seq<char>, TomlNode>,
    edit: EditView,
    parent: Seq<Seq<char>>,
)
    requires
        is_recorded(before, edit),
        edit.observe(parent) is Some,
        !has_field(edit.fields, parent.push("model"@)),
    ensures
        is_recorded(before, edit.observe(parent)->0),
{
    reveal(is_recorded);
    let after = edit.observe(parent)->0;
    let path = parent.push("model"@);
    let inner = walk(edit.entries, parent)->Entries_0;
    lemma_entry_kind(edit.entries, parent, "model"@);
    assert(!edit.created.contains(path));
    let last = after.fields[edit.fields.len() as int];
    assert(path.drop_last() == parent);
    assert(kind_at(edit.entries, path) == kind_at(before, path));
    assert forall|i: int, j: int| 0 <= i < j < after.fields.len() implies (
    #[trigger] after.fields[i]).path != (#[trigger] after.fields[j]).path by {
        assert(after.fields[i] == edit.fields[i]);
        if j < edit.fields.len() {
            assert(after.fields[j] == edit.fields[j]);
        }
    }
    assert forall|at: Seq<Seq<char>>| has_field(edit.fields, at) implies has_field(
        after.fields,
        at,
    ) by {
        let i = choose|i: int| 0 <= i < edit.fields.len() && edit.fields[i].path == at;
        assert(after.fields[i] == edit.fields[i]);
    }
    assert forall|at: Seq<Seq<char>>| has_field(after.fields, at) && at != path implies has_field(
        edit.fields,
        at,
    ) by {
        let i = choose|i: int| 0 <= i < after.fields.len() && after.fields[i].path == at;
        assert(after.fields[i] == edit.fields[i]);
    }
    assert forall|i: int| 0 <= i < after.fields.len() implies {
        let field = #[trigger] after.fields[i];
        &&& kind_at(before, field.path) == kind_before(field)
        &&& kind_at(after.entries, field.path.drop_last()) is Table
        &&& if field.passive {
            kind_at(after.entries, field.path) == kind_before(field)
        } else {
            &&& kind_at(after.entries, field.path) is Value
            &&& mark_of(Some(kind_at(after.entries, field.path)->Value_0)) == Mark::Digest(
                field.after,
            )
        }
    } by {
        if i < edit.fields.len() {
            assert(after.fields[i] == edit.fields[i]);
        }
    }
}

proof fn lemma_recorded_tables(
    before: Map<Seq<char>, TomlNode>,
    edit: EditView,
    path: Seq<Seq<char>>,
)
    requires
        is_recorded(before, edit),
        edit.tables(path) is Some,
        forall|n: int| 0 <= n <= path.len() ==> !has_field(edit.fields, #[trigger] path.take(n)),
    ensures
        is_recorded(before, edit.tables(path)->0),
{
    reveal(is_recorded);
    let after = edit.tables(path)->0;
    let there = steps_there(edit.entries, path) as int;
    let old_len = edit.created.len() as int;
    lemma_steps(edit.entries, path);
    assert forall|at: Seq<Seq<char>>| #[trigger]
        kind_at(after.entries, at) == (if is_step(at, path) {
            Kind::Table
        } else {
            kind_at(edit.entries, at)
        }) by {
        lemma_with_tables(edit.entries, path, at);
    }
    assert(after.created.len() == old_len + path.len() - there);
    assert forall|i: int| old_len <= i < after.created.len() implies #[trigger] after.created[i]
        == path.take(there + i - old_len + 1) && kind_at(edit.entries, after.created[i]) is Absent by {
        assert(kind_at(edit.entries, path.take(there + i - old_len + 1)) is Absent);
    }
    assert forall|i: int| 0 <= i < old_len implies #[trigger] after.created[i]
        == edit.created[i] by {}
    assert forall|i: int| old_len <= i < after.created.len() implies !edit.created.contains(
        #[trigger] after.created[i],
    ) by {
        if edit.created.contains(after.created[i]) {
            let j = choose|j: int| 0 <= j < old_len && edit.created[j] == after.created[i];
            assert(kind_at(edit.entries, edit.created[j]) is Table);
        }
    }
    assert forall|i: int| 0 <= i < after.created.len() implies kind_at(
        before,
        #[trigger] after.created[i],
    ) is Absent && kind_at(after.entries, after.created[i]) is Table && !has_field(
        after.fields,
        after.created[i],
    ) && after.created[i].len() > 0 by {
        if i < old_len {
            assert(after.created[i] == edit.created[i]);
        } else {
            let made = after.created[i];
            let n = there + i - old_len + 1;
            assert(made == path.take(n));
            assert(is_step(made, path));
            assert(!has_field(edit.fields, path.take(n)));
            assert(!edit.created.contains(made));
            assert(kind_at(edit.entries, made) == kind_at(before, made));
        }
    }
    assert forall|i: int, j: int|
        0 <= i < after.created.len() && 0 <= j < after.created.len() && is_step(
            #[trigger] after.created[i],
            #[trigger] after.created[j],
        ) implies i <= j by {
        let outer = after.created[i];
        let inner = after.created[j];
        if i < old_len && j < old_len {
            assert(outer == edit.created[i] && inner == edit.created[j]);
        } else if i >= old_len && j < old_len {
            assert(inner == edit.created[j]);
            lemma_table_steps(edit.entries, inner, outer);
        } else if i >= old_len && j >= old_len {
            assert(outer.len() == there + i - old_len + 1);
            assert(inner.len() == there + j - old_len + 1);
        }
    }
    assert forall|at: Seq<Seq<char>>|
        !has_field(after.fields, at) && !after.created.contains(at) implies #[trigger] kind_at(
        after.entries,
        at,
    ) == kind_at(before, at) by {
        assert(!edit.created.contains(at)) by {
            if edit.created.contains(at) {
                let j = choose|j: int| 0 <= j < old_len && edit.created[j] == at;
                assert(after.created[j] == at);
            }
        }
        assert(kind_at(edit.entries, at) == kind_at(before, at));
        if is_step(at, path) {
            let n = at.len() as int;
            assert(at == path.take(n));
            if n > there {
                assert(after.created[old_len + n - there - 1] == at);
            }
        }
    }
    assert forall|i: int| 0 <= i < after.fields.len() implies {
        let field = #[trigger] after.fields[i];
        &&& kind_at(before, field.path) == kind_before(field)
        &&& kind_at(after.entries, field.path.drop_last()) is Table
        &&& if field.passive {
            kind_at(after.entries, field.path) == kind_before(field)
        } else {
            &&& kind_at(after.entries, field.path) is Value
            &&& mark_of(Some(kind_at(after.entries, field.path)->Value_0)) == Mark::Digest(
                field.after,
            )
        }
    } by {
        let field = edit.fields[i];
        assert(after.fields[i] == field);
        if is_step(field.path, path) {
            assert(field.path == path.take(field.path.len() as int));
            assert(has_field(edit.fields, path.take(field.path.len() as int)));
        }
    }
}

/// What stands at a path, as an item of its table.
proof fn lemma_node_kind(entries: Map<Seq<char>, TomlNode>, path: Seq<Seq<char>>)
    requires
        path.len() > 0,
    ensures
        kind_at(entries, path) == kind_of(node_at(entries, path)),
        kind_at(entries, path) is Value ==> node_at(entries, path) == Some(
            kind_at(entries, path)->Value_0,
        ) && walk(entries, path.drop_last()) is Entries,
        kind_at(entries, path) is Absent ==> node_at(entries, path) is None,
{
    lemma_entry_kind(entries, path.drop_last(), path.last());
    assert(path.drop_last().push(path.last()) == path);
}

/// A pending field now holds a value.
proof fn lemma_pending_is_value(
    entries: Map<Seq<char>, TomlNode>,
    field: FieldView,
    aliases: Seq<Seq<char>>,
)
    requires
        field.path.len() > 0,
        is_pending(entries, field, aliases) == Ok::<bool, CodexNativeError>(true),
    ensures
        kind_at(entries, field.path) is Value,
{
    lemma_node_kind(entries, field.path);
}

/// What a list of pending fields is, where there is one: every field was looked at, and those are
/// in it that are to be given back.
proof fn lemma_pending(
    entries: Map<Seq<char>, TomlNode>,
    fields: Seq<FieldView>,
    aliases: Seq<Seq<char>>,
)
    requires
        fields_are_apart(fields),
        pending(entries, fields, aliases) is Ok,
    ensures
        forall|i: int|
            0 <= i < fields.len() ==> is_pending(entries, #[trigger] fields[i], aliases) is Ok,
        forall|i: int|
            0 <= i < fields.len() ==> (has_field(
                pending(entries, fields, aliases)->Ok_0,
                (#[trigger] fields[i]).path,
            ) <==> is_pending(entries, fields[i], aliases) == Ok::<bool, CodexNativeError>(true)),
        forall|k: int|
            0 <= k < pending(entries, fields, aliases)->Ok_0.len() ==> fields.contains(
                #[trigger] pending(entries, fields, aliases)->Ok_0[k],
            ) && is_pending(entries, pending(entries, fields, aliases)->Ok_0[k], aliases)
                == Ok::<bool, CodexNativeError>(true),
        fields_are_apart(pending(entries, fields, aliases)->Ok_0),
    decreases fields.len(),
{
    if fields.len() > 0 {
        let init = fields.drop_last();
        let last = fields.last();
        let list = pending(entries, init, aliases)->Ok_0;
        let whole = pending(entries, fields, aliases)->Ok_0;
        assert(fields_are_apart(init));
        lemma_pending(entries, init, aliases);
        assert forall|k: int| 0 <= k < list.len() implies (#[trigger] list[k]).path != last.path
            && fields.contains(list[k]) by {
            let i = choose|i: int| 0 <= i < init.len() && init[i] == list[k];
            assert(fields[i] == list[k]);
            assert(fields[fields.len() - 1] == last);
        }
        assert forall|i: int| 0 <= i < fields.len() implies is_pending(
            entries,
            #[trigger] fields[i],
            aliases,
        ) is Ok && (has_field(whole, fields[i].path) <==> is_pending(entries, fields[i], aliases)
            == Ok::<bool, CodexNativeError>(true)) by {
            if i < init.len() {
                assert(init[i] == fields[i]);
                assert(fields[i].path != fields[fields.len() - 1].path);
                if has_field(list, fields[i].path) {
                    let k = choose|k: int| 0 <= k < list.len() && list[k].path == fields[i].path;
                    assert(whole[k] == list[k]);
                }
                if has_field(whole, fields[i].path) {
                    let k = choose|k: int|
                        0 <= k < whole.len() && whole[k].path == fields[i].path;
                    assert(k < list.len());
                    assert(whole[k] == list[k]);
                }
            } else {
                if is_pending(entries, last, aliases) == Ok::<bool, CodexNativeError>(true) {
                    assert(whole[whole.len() - 1] == last);
                }
            }
        }
        assert forall|k: int| 0 <= k < whole.len() implies fields.contains(#[trigger] whole[k])
            && is_pending(entries, whole[k], aliases) == Ok::<bool, CodexNativeError>(true) by {
            if k < list.len() {
                assert(whole[k] == list[k]);
            } else {
                assert(whole[k] == fields[fields.len() - 1]);
            }
        }
        assert(fields_are_apart(whole)) by {
            assert forall|k: int| 0 <= k < whole.len() implies (#[trigger] whole[k]).path.len() > 0
                && (whole[k].before is None || whole[k].before->0 is Str) by {
                let i = choose|i: int| 0 <= i < fields.len() && fields[i] == whole[k];
                assert(fields[i].path.len() > 0);
            }
            assert forall|i: int, j: int| 0 <= i < j < whole.len() implies (
            #[trigger] whole[i]).path != (#[trigger] whole[j]).path by {
                assert(whole[i] == list[i]);
                if j < list.len() {
                    assert(whole[j] == list[j]);
                } else {
                    assert(whole[j] == last);
                }
            }
        }
    }
}

/// Giving fields back puts at each what stood there before, and changes nothing else.
proof fn lemma_given_back(entries: Map<Seq<char>, TomlNode>, list: Seq<FieldView>)
    requires
        fields_are_apart(list),
        forall|i: int|
            0 <= i < list.len() ==> kind_at(entries, (#[trigger] list[i]).path) is Value,
    ensures
        all_given_back(entries, list) is Ok,
        forall|i: int|
            0 <= i < list.len() ==> kind_at(
                all_given_back(entries, list)->Ok_0,
                (#[trigger] list[i]).path,
            ) == kind_before(list[i]),
        forall|path: Seq<Seq<char>>|
            !has_field(list, path) ==> #[trigger] kind_at(all_given_back(entries, list)->Ok_0, path)
                == kind_at(entries, path),
    decreases list.len(),
{
    if list.len() > 0 {
        let init = list.drop_last();
        let field = list.last();
        let parent = field.path.drop_last();
        let key = field.path.last();
        assert(forall|i: int| 0 <= i < init.len() ==> init[i] == list[i]);
        assert(fields_are_apart(init));
        lemma_given_back(entries, init);
        let so_far = all_given_back(entries, init)->Ok_0;
        assert(parent.push(key) == field.path);
        assert(list[list.len() - 1] == field);
        lemma_node_kind(entries, field.path);
        lemma_entry_kind(entries, parent, key);
        assert(!has_field(init, field.path)) by {
            if has_field(init, field.path) {
                let i = choose|i: int| 0 <= i < init.len() && init[i].path == field.path;
                assert(list[i].path == list[list.len() - 1].path);
            }
        }
        assert(!has_field(init, parent)) by {
            if has_field(init, parent) {
                let i = choose|i: int| 0 <= i < init.len() && init[i].path == parent;
                assert(kind_at(entries, list[i].path) is Value);
            }
        }
        assert(kind_at(so_far, field.path) == kind_at(entries, field.path));
        assert(kind_at(so_far, parent) == kind_at(entries, parent));
        lemma_entry_kind(so_far, parent, key);
        let done = all_given_back(entries, list)->Ok_0;
        lemma_walk_kind(so_far, field.path, Seq::empty());
        assert forall|path: Seq<Seq<char>>| #[trigger]
            kind_at(done, path) == (if path == field.path {
                kind_before(field)
            } else {
                kind_at(so_far, path)
            }) by {
            match field.before {
                Some(node) => lemma_with_node(so_far, parent, key, node, path),
                None => lemma_without_node(so_far, parent, key, path),
            }
        }
        assert forall|path: Seq<Seq<char>>| !has_field(list, path) implies #[trigger] kind_at(
            done,
            path,
        ) == kind_at(entries, path) by {
            if has_field(init, path) {
                let i = choose|i: int| 0 <= i < init.len() && init[i].path == path;
                assert(list[i].path == path);
            }
        }
        assert forall|i: int| 0 <= i < list.len() implies kind_at(done, (#[trigger] list[i]).path)
            == kind_before(list[i]) by {
            if i < init.len() {
                assert(init[i] == list[i]);
                assert(list[i].path != list[list.len() - 1].path);
            }
        }
    }
}

/// Cleaning takes out some of the made tables and changes nothing else.
proof fn lemma_cleaned(entries: Map<Seq<char>, TomlNode>, created: Seq<Seq<Seq<char>>>)
    requires
        forall|i: int| 0 <= i < created.len() ==> (#[trigger] created[i]).len() > 0,
        cleaned(entries, created) is Ok,
    ensures
        forall|path: Seq<Seq<char>>|
            #![trigger kind_at(cleaned(entries, created)->Ok_0, path)]
            {
                let after = cleaned(entries, created)->Ok_0;
                ||| kind_at(after, path) == kind_at(entries, path)
                ||| created.contains(path) && kind_at(entries, path) is Table && kind_at(
                    after,
                    path,
                ) is Absent
            },
    decreases created.len(),
{
    if created.len() > 0 {
        let path = created.last();
        assert(created[created.len() - 1] == path);
        let init = created.drop_last();
        assert(forall|i: int| 0 <= i < init.len() ==> init[i] == created[i]);
        assert(path.drop_last().push(path.last()) == path);
        let next = match walk(entries, path) {
            Found::Entries(inner) => if inner == no_entries() {
                without_node(entries, path.drop_last(), path.last())
            } else {
                entries
            },
            _ => entries,
        };
        lemma_cleaned(next, init);
        let after = cleaned(entries, created)->Ok_0;
        assert(after == cleaned(next, init)->Ok_0);
        lemma_entry_kind(entries, path.drop_last(), path.last());
        lemma_walk_kind(entries, path, Seq::empty());
        assert forall|at: Seq<Seq<char>>| init.contains(at) implies created.contains(at) by {
            let i = choose|i: int| 0 <= i < init.len() && init[i] == at;
            assert(created[i] == at);
        }
        assert forall|at: Seq<Seq<char>>| #[trigger] kind_at(after, at) == kind_at(entries, at) || (
        created.contains(at) && kind_at(entries, at) is Table && kind_at(after, at) is Absent) by {
            if next != entries {
                lemma_without_node(entries, path.drop_last(), path.last(), at);
            }
        }
    }
}

/// Cleaning tables that stand outermost first leaves none of them empty.
proof fn lemma_cleaned_is_clean(entries: Map<Seq<char>, TomlNode>, created: Seq<Seq<Seq<char>>>)
    requires
        outermost_first(created),
        cleaned(entries, created) is Ok,
    ensures
        forall|i: int|
            0 <= i < created.len() ==> {
                let inner = walk(cleaned(entries, created)->Ok_0, #[trigger] created[i]);
                !(inner is Blocked) && inner != Found::Entries(no_entries())
            },
    decreases created.len(),
{
    if created.len() > 0 {
        let path = created.last();
        let init = created.drop_last();
        assert(forall|i: int| 0 <= i < init.len() ==> init[i] == created[i]);
        assert(created[created.len() - 1] == path);
        assert(path.drop_last().push(path.last()) == path);
        let next = match walk(entries, path) {
            Found::Entries(inner) => if inner == no_entries() {
                without_node(entries, path.drop_last(), path.last())
            } else {
                entries
            },
            _ => entries,
        };
        lemma_cleaned_is_clean(next, init);
        lemma_cleaned(next, init);
        let after = cleaned(entries, created)->Ok_0;
        assert(after == cleaned(next, init)->Ok_0);
        lemma_entry_kind(entries, path.drop_last(), path.last());
        lemma_walk_kind(entries, path, Seq::empty());
        lemma_walk_kind(next, path, Seq::empty());
        lemma_walk_kind(after, path, Seq::empty());
        lemma_blocked(next, path);
        lemma_blocked(after, path);
        lemma_blocked(entries, path);
        if walk(entries, path) == Found::Entries(no_entries()) {
            lemma_without_node(entries, path.drop_last(), path.last(), path);
        }
        if walk(after, path) is Blocked {
            let n = choose|n: int|
                0 <= n <= path.len() && #[trigger] kind_at(after, path.take(n)) is Value;
            assert(kind_at(next, path.take(n)) is Value);
            if next != entries {
                lemma_without_node(entries, path.drop_last(), path.last(), path.take(n));
            }
            assert(kind_at(entries, path.take(n)) is Value);
        }
        if walk(after, path) == Found::Entries(no_entries()) {
            assert(kind_at(after, path) is Table);
            assert(kind_at(next, path) is Table);
            assert(next == entries);
            let inner = walk(entries, path)->Entries_0;
            assert(exists|key: Seq<char>| inner.contains_key(key)) by {
                if !(exists|key: Seq<char>| inner.contains_key(key)) {
                    assert(inner =~= no_entries());
                }
            }
            let key = choose|key: Seq<char>| inner.contains_key(key);
            let child = path.push(key);
            lemma_entry_kind(entries, path, key);
            lemma_entry_kind(after, path, key);
            assert(kind_at(after, child) is Absent);
            assert(!(kind_at(next, child) is Absent));
            assert(init.contains(child));
            let i = choose|i: int| 0 <= i < init.len() && init[i] == child;
            assert(created[i] == child);
            assert(child.take(path.len() as int) == path);
            assert(is_step(created[created.len() - 1], created[i]));
        }
    }
}

/// Away from its own fields and the tables that the edit made, a restoration leaves everything as
/// it stands: what the user has changed or added meanwhile is kept.
pub proof fn restoration_touches_only_its_own_fields(
    entries: Map<Seq<char>, TomlNode>,
    restore: RestoreView,
    path: Seq<Seq<char>>,
)
    requires
        restore.wf(),
        fields_are_apart(restore.fields),
        restored(entries, restore, None) is Ok,
        !has_field(restore.fields, path),
        !restore.created.contains(path),
    ensures
        kind_at(restored(entries, restore, None)->Ok_0, path) == kind_at(entries, path),
{
    let list = pending(entries, restore.fields, restore.aliases)->Ok_0;
    lemma_restored_parts(entries, restore);
    let given = all_given_back(entries, list)->Ok_0;
    if has_field(list, path) {
        let k = choose|k: int| 0 <= k < list.len() && list[k].path == path;
        assert(restore.fields.contains(list[k]));
        let i = choose|i: int| 0 <= i < restore.fields.len() && restore.fields[i] == list[k];
        assert(restore.fields[i].path == path);
    }
    assert(kind_at(given, path) == kind_at(entries, path));
    lemma_cleaned(given, restore.created);
}

/// The parts of a restoration that succeeds.
proof fn lemma_restored_parts(entries: Map<Seq<char>, TomlNode>, restore: RestoreView)
    requires
        restore.wf(),
        fields_are_apart(restore.fields),
        restored(entries, restore, None) is Ok,
    ensures
        ({
            let list = pending(entries, restore.fields, restore.aliases)->Ok_0;
            let given = all_given_back(entries, list)->Ok_0;
            &&& pending(entries, restore.fields, restore.aliases) is Ok
            &&& all_given_back(entries, list) is Ok
            &&& cleaned(given, restore.created) is Ok
            &&& restored(entries, restore, None)->Ok_0 == cleaned(given, restore.created)->Ok_0
            &&& fields_are_apart(list)
            &&& forall|i: int|
                0 <= i < restore.fields.len() ==> is_pending(
                    entries,
                    #[trigger] restore.fields[i],
                    restore.aliases,
                ) is Ok
            &&& forall|i: int|
                0 <= i < restore.fields.len() ==> (has_field(
                    list,
                    (#[trigger] restore.fields[i]).path,
                ) <==> is_pending(entries, restore.fields[i], restore.aliases) == Ok::<
                    bool,
                    CodexNativeError,
                >(true))
            &&& forall|k: int|
                0 <= k < list.len() ==> restore.fields.contains(#[trigger] list[k]) && kind_at(
                    entries,
                    list[k].path,
                ) is Value
            &&& forall|i: int|
                0 <= i < restore.fields.len() ==> kind_at(
                    given,
                    (#[trigger] restore.fields[i]).path,
                ) == (if has_field(list, restore.fields[i].path) {
                    kind_before(restore.fields[i])
                } else {
                    kind_at(entries, restore.fields[i].path)
                })
            &&& forall|path: Seq<Seq<char>>|
                !has_field(list, path) ==> #[trigger] kind_at(given, path) == kind_at(entries, path)
        }),
{
    let fields = restore.fields;
    lemma_pending(entries, fields, restore.aliases);
    let list = pending(entries, fields, restore.aliases)->Ok_0;
    assert forall|k: int| 0 <= k < list.len() implies fields.contains(#[trigger] list[k])
        && kind_at(entries, list[k].path) is Value by {
        lemma_pending_is_value(entries, list[k], restore.aliases);
    }
    lemma_given_back(entries, list);
    let given = all_given_back(entries, list)->Ok_0;
    assert forall|i: int| 0 <= i < fields.len() implies kind_at(given, (#[trigger] fields[i]).path)
        == (if has_field(list, fields[i].path) {
        kind_before(fields[i])
    } else {
        kind_at(entries, fields[i].path)
    }) by {
        if has_field(list, fields[i].path) {
            let k = choose|k: int| 0 <= k < list.len() && list[k].path == fields[i].path;
            assert(fields.contains(list[k]));
            let j = choose|j: int| 0 <= j < fields.len() && fields[j] == list[k];
            if i < j {
                assert(fields[i].path != fields[j].path);
            } else if j < i {
                assert(fields[j].path != fields[i].path);
            }
        }
    }
}

/// After a restoration each field that was set reads as it did before the edit.
pub proof fn restoration_gives_each_field_back(
    entries: Map<Seq<char>, TomlNode>,
    restore: RestoreView,
    i: int,
)
    requires
        restore.wf(),
        fields_are_apart(restore.fields),
        restored(entries, restore, None) is Ok,
        0 <= i < restore.fields.len(),
        !restore.fields[i].passive,
        !restore.created.contains(restore.fields[i].path),
    ensures
        mark_of(node_at(restored(entries, restore, None)->Ok_0, restore.fields[i].path)) == mark_of(
            restore.fields[i].before,
        ),
{
    lemma_restored_parts(entries, restore);
    let field = restore.fields[i];
    let list = pending(entries, restore.fields, restore.aliases)->Ok_0;
    let given = all_given_back(entries, list)->Ok_0;
    let after = restored(entries, restore, None)->Ok_0;
    lemma_cleaned(given, restore.created);
    assert(kind_at(after, field.path) == kind_at(given, field.path));
    lemma_node_kind(after, field.path);
    lemma_node_kind(entries, field.path);
    assert(is_pending(entries, field, restore.aliases) is Ok);
}

/// A field that was set and that the user has changed since is never overwritten: the whole
/// restoration is refused.
pub proof fn changed_fields_are_never_overwritten(
    entries: Map<Seq<char>, TomlNode>,
    restore: RestoreView,
    native_model: Option<Seq<char>>,
    i: int,
)
    requires
        restore.wf(),
        fields_are_apart(restore.fields),
        0 <= i < restore.fields.len(),
        !restore.fields[i].passive,
        mark_of(node_at(entries, restore.fields[i].path)) != mark_of(restore.fields[i].before),
        mark_of(node_at(entries, restore.fields[i].path)) != Mark::Digest(restore.fields[i].after),
    ensures
        restored(entries, restore, native_model) is Err,
{
    if pending(entries, restore.fields, restore.aliases) is Ok {
        lemma_pending(entries, restore.fields, restore.aliases);
        assert(is_pending(entries, restore.fields[i], restore.aliases) is Ok);
    }
}

/// A table that the edit made stays where the user has put something into it.
pub proof fn tables_in_use_are_kept(
    entries: Map<Seq<char>, TomlNode>,
    restore: RestoreView,
    table: Seq<Seq<char>>,
    rest: Seq<Seq<char>>,
)
    requires
        restore.wf(),
        fields_are_apart(restore.fields),
        restored(entries, restore, None) is Ok,
        rest.len() > 0,
        !has_field(restore.fields, table + rest),
        !restore.created.contains(table + rest),
        !(kind_at(entries, table + rest) is Absent),
    ensures
        kind_at(restored(entries, restore, None)->Ok_0, table) is Table,
{
    let after = restored(entries, restore, None)->Ok_0;
    restoration_touches_only_its_own_fields(entries, restore, table + rest);
    lemma_walk_kind(after, table, rest);
}

/// Restoring twice is restoring once.
pub proof fn restoration_is_idempotent(entries: Map<Seq<char>, TomlNode>, restore: RestoreView)
    requires
        restore.wf(),
        fields_are_apart(restore.fields),
        outermost_first(restore.created),
        forall|i: int|
            0 <= i < restore.created.len() ==> !has_field(
                restore.fields,
                #[trigger] restore.created[i],
            ),
        restored(entries, restore, None) is Ok,
    ensures
        restored(restored(entries, restore, None)->Ok_0, restore, None) == restored(
            entries,
            restore,
            None,
        ),
{
    let fields = restore.fields;
    let aliases = restore.aliases;
    let created = restore.created;
    let after = restored(entries, restore, None)->Ok_0;
    lemma_restored_parts(entries, restore);
    let list = pending(entries, fields, aliases)->Ok_0;
    let given = all_given_back(entries, list)->Ok_0;
    lemma_cleaned(given, created);
    lemma_cleaned_is_clean(given, created);
    assert forall|path: Seq<Seq<char>>| kind_at(after, path) is Value implies #[trigger] kind_at(
        entries,
        path,
    ) is Value by {
        assert(kind_at(given, path) is Value);
        if has_field(list, path) {
            let k = choose|k: int| 0 <= k < list.len() && list[k].path == path;
            assert(kind_at(entries, list[k].path) is Value);
        }
    }
    assert forall|i: int| 0 <= i < fields.len() implies is_pending(
        after,
        #[trigger] fields[i],
        aliases,
    ) == Ok::<bool, CodexNativeError>(false) by {
        let field = fields[i];
        let parent = field.path.drop_last();
        assert(is_pending(entries, field, aliases) is Ok);
        assert(!created.contains(field.path)) by {
            if created.contains(field.path) {
                let j = choose|j: int| 0 <= j < created.len() && created[j] == field.path;
                assert(has_field(fields, created[j]));
            }
        }
        assert(kind_at(after, field.path) == kind_at(given, field.path));
        lemma_node_kind(after, field.path);
        lemma_node_kind(entries, field.path);
        lemma_blocked(entries, parent);
        lemma_blocked(after, parent);
        if walk(after, parent) is Blocked {
            let n = choose|n: int|
                0 <= n <= parent.len() && #[trigger] kind_at(after, parent.take(n)) is Value;
            assert(kind_at(entries, parent.take(n)) is Value);
        }
    }
    lemma_nothing_pending(after, fields, aliases);
    lemma_nothing_to_clean(after, created);
}

proof fn lemma_nothing_pending(
    entries: Map<Seq<char>, TomlNode>,
    fields: Seq<FieldView>,
    aliases: Seq<Seq<char>>,
)
    requires
        forall|i: int|
            0 <= i < fields.len() ==> is_pending(entries, #[trigger] fields[i], aliases) == Ok::<
                bool,
                CodexNativeError,
            >(false),
    ensures
        pending(entries, fields, aliases) == Ok::<_, CodexNativeError>(Seq::<FieldView>::empty()),
    decreases fields.len(),
{
    if fields.len() > 0 {
        assert(forall|i: int| 0 <= i < fields.len() - 1 ==> fields.drop_last()[i] == fields[i]);
        assert(fields.last() == fields[fields.len() - 1]);
        lemma_nothing_pending(entries, fields.drop_last(), aliases);
    }
}

proof fn lemma_nothing_to_clean(entries: Map<Seq<char>, TomlNode>, created: Seq<Seq<Seq<char>>>)
    requires
        forall|i: int|
            0 <= i < created.len() ==> {
                let inner = walk(entries, #[trigger] created[i]);
                !(inner is Blocked) && inner != Found::Entries(no_entries())
            },
    ensures
        cleaned(entries, created) == Ok::<_, CodexNativeError>(entries),
    decreases created.len(),
{
    if created.len() > 0 {
        assert(forall|i: int| 0 <= i < created.len() - 1 ==> created.drop_last()[i] == created[i]);
        assert(created.last() == created[created.len() - 1]);
        lemma_nothing_to_clean(entries, created.drop_last());
    }
}

/// Whether fingerprints tell what each field was from what an edit made of it.
pub open spec fn fingerprints_tell(edit: EditView) -> bool {
    forall|i: int|
        0 <= i < edit.fields.len() && !(#[trigger] edit.fields[i]).passive && mark_of(
            edit.fields[i].before,
        ) == Mark::Digest(edit.fields[i].after) ==> kind_at(edit.entries, edit.fields[i].path)
            == kind_before(edit.fields[i])
}

pub open spec fn record_of(edit: EditView, aliases: Seq<Seq<char>>) -> RestoreView {
    RestoreView { fields: edit.fields, created: edit.created, aliases }
}

/// The fields of a recorded edit that are to be given back: those that it changed.
pub(crate) proof fn lemma_edit_pending(
    before: Map<Seq<char>, TomlNode>,
    edit: EditView,
    aliases: Seq<Seq<char>>,
)
    requires
        is_recorded(before, edit),
    ensures
        forall|i: int|
            0 <= i < edit.fields.len() ==> is_pending(
                edit.entries,
                #[trigger] edit.fields[i],
                aliases,
            ) == Ok::<bool, CodexNativeError>(
                !edit.fields[i].passive && mark_of(edit.fields[i].before) != Mark::Digest(
                    edit.fields[i].after,
                ),
            ),
{
    reveal(is_recorded);
    let entries = edit.entries;
    let fields = edit.fields;
    assert forall|i: int| 0 <= i < fields.len() implies is_pending(
        entries,
        #[trigger] fields[i],
        aliases,
    ) == Ok::<bool, CodexNativeError>(
        !fields[i].passive && mark_of(fields[i].before) != Mark::Digest(fields[i].after),
    ) by {
        let field = fields[i];
        lemma_node_kind(entries, field.path);
        lemma_walk_kind(entries, field.path.drop_last(), Seq::empty());
        if field.passive {
            assert(kind_of(node_at(entries, field.path)) == kind_of(field.before));
            assert(node_at(entries, field.path) == field.before);
        }
    }
}

/// Restoring a recorded edit leaves what stood before it.
pub proof fn restoration_undoes_a_recorded_edit(
    before: Map<Seq<char>, TomlNode>,
    edit: EditView,
    aliases: Seq<Seq<char>>,
)
    requires
        is_recorded(before, edit),
        fingerprints_tell(edit),
    ensures
        restored(edit.entries, record_of(edit, aliases), None) == Ok::<_, CodexNativeError>(before),
{
    reveal(is_recorded);
    let entries = edit.entries;
    let fields = edit.fields;
    lemma_edit_pending(before, edit, aliases);
    lemma_all_looked_at(entries, fields, aliases);
    lemma_pending(entries, fields, aliases);
    let list = pending(entries, fields, aliases)->Ok_0;
    assert forall|k: int| 0 <= k < list.len() implies kind_at(
        entries,
        (#[trigger] list[k]).path,
    ) is Value by {
        lemma_pending_is_value(entries, list[k], aliases);
    }
    lemma_given_back(entries, list);
    let given = all_given_back(entries, list)->Ok_0;
    assert forall|path: Seq<Seq<char>>| #[trigger]
        kind_at(given, path) == (if edit.created.contains(path) {
            Kind::Table
        } else {
            kind_at(before, path)
        }) by {
        if has_field(list, path) {
            let k = choose|k: int| 0 <= k < list.len() && list[k].path == path;
            assert(fields.contains(list[k]));
            let i = choose|i: int| 0 <= i < fields.len() && fields[i] == list[k];
            assert(kind_at(before, fields[i].path) == kind_before(fields[i]));
            if edit.created.contains(path) {
                let j = choose|j: int| 0 <= j < edit.created.len() && edit.created[j] == path;
                assert(has_field(fields, edit.created[j]));
            }
        } else if has_field(fields, path) {
            let i = choose|i: int| 0 <= i < fields.len() && fields[i].path == path;
            assert(kind_at(before, fields[i].path) == kind_before(fields[i]));
            assert(has_field(list, fields[i].path) <==> is_pending(entries, fields[i], aliases)
                == Ok::<bool, CodexNativeError>(true));
            if edit.created.contains(path) {
                let j = choose|j: int| 0 <= j < edit.created.len() && edit.created[j] == path;
                assert(has_field(fields, edit.created[j]));
            }
        } else if edit.created.contains(path) {
            let j = choose|j: int| 0 <= j < edit.created.len() && edit.created[j] == path;
            assert(kind_at(entries, edit.created[j]) is Table);
        }
    }
    lemma_clean_all(before, given, edit.created);
    lemma_same_tree(cleaned(given, edit.created)->Ok_0, before);
}

proof fn lemma_all_looked_at(
    entries: Map<Seq<char>, TomlNode>,
    fields: Seq<FieldView>,
    aliases: Seq<Seq<char>>,
)
    requires
        forall|i: int|
            0 <= i < fields.len() ==> is_pending(entries, #[trigger] fields[i], aliases) is Ok,
    ensures
        pending(entries, fields, aliases) is Ok,
    decreases fields.len(),
{
    if fields.len() > 0 {
        assert(forall|i: int| 0 <= i < fields.len() - 1 ==> fields.drop_last()[i] == fields[i]);
        assert(fields.last() == fields[fields.len() - 1]);
        lemma_all_looked_at(entries, fields.drop_last(), aliases);
    }
}

/// Where nothing but the made tables is left of an edit, cleaning takes them all out.
proof fn lemma_clean_all(
    before: Map<Seq<char>, TomlNode>,
    entries: Map<Seq<char>, TomlNode>,
    created: Seq<Seq<Seq<char>>>,
)
    requires
        outermost_first(created),
        forall|i: int| 0 <= i < created.len() ==> kind_at(before, #[trigger] created[i]) is Absent,
        forall|path: Seq<Seq<char>>| #[trigger]
            kind_at(entries, path) == (if created.contains(path) {
                Kind::Table
            } else {
                kind_at(before, path)
            }),
    ensures
        cleaned(entries, created) is Ok,
        forall|path: Seq<Seq<char>>| #[trigger]
            kind_at(cleaned(entries, created)->Ok_0, path) == kind_at(before, path),
    decreases created.len(),
{
    if created.len() == 0 {
        assert forall|path: Seq<Seq<char>>| #[trigger]
            kind_at(cleaned(entries, created)->Ok_0, path) == kind_at(before, path) by {
            assert(!created.contains(path));
        }
    } else {
        let path = created.last();
        let init = created.drop_last();
        let at = created.len() - 1;
        assert(created[at] == path);
        assert(forall|i: int| 0 <= i < init.len() ==> init[i] == created[i]);
        assert(path.drop_last().push(path.last()) == path);
        assert(created.contains(path));
        assert(kind_at(entries, path) is Table);
        lemma_walk_kind(entries, path, Seq::empty());
        lemma_walk_kind(before, path, Seq::empty());
        let inner = walk(entries, path)->Entries_0;
        assert forall|key: Seq<char>| !inner.contains_key(key) by {
            let child = path.push(key);
            lemma_entry_kind(entries, path, key);
            lemma_entry_kind(before, path, key);
            if created.contains(child) {
                let j = choose|j: int| 0 <= j < created.len() && created[j] == child;
                assert(child.take(path.len() as int) == path);
                assert(is_step(created[at], created[j]));
                assert(child.len() != path.len());
            }
            assert(kind_at(entries, child) is Absent);
        }
        assert(inner =~= no_entries());
        let next = without_node(entries, path.drop_last(), path.last());
        assert(path.take(path.len() - 1) == path.drop_last());
        lemma_table_steps(entries, path, path.drop_last());
        lemma_walk_kind(entries, path.drop_last(), Seq::empty());
        assert forall|place: Seq<Seq<char>>| #[trigger]
            kind_at(next, place) == (if init.contains(place) {
                Kind::Table
            } else {
                kind_at(before, place)
            }) by {
            lemma_without_node(entries, path.drop_last(), path.last(), place);
            assert(kind_at(entries, place) == (if created.contains(place) {
                Kind::Table
            } else {
                kind_at(before, place)
            }));
            if init.contains(place) {
                let i = choose|i: int| 0 <= i < init.len() && init[i] == place;
                assert(created[i] == place);
                if place == path {
                    assert(path.take(path.len() as int) == path);
                    assert(is_step(created[at], created[i]));
                }
            } else if created.contains(place) {
                let i = choose|i: int| 0 <= i < created.len() && created[i] == place;
                assert(i == at) by {
                    if i < at {
                        assert(init[i] == place);
                    }
                }
            }
        }
        lemma_clean_all(before, next, init);
    }
}

proof fn lemma_keys_differ()
    ensures
        "model"@ != "model_provider"@,
        "model"@ != "model_providers"@,
        "model_provider"@ != "model_providers"@,
        "profiles"@ != "model_providers"@,
        "name"@ != "base_url"@,
        "name"@ != "wire_api"@,
        "name"@ != "requires_openai_auth"@,
        "name"@ != "supports_websockets"@,
        "base_url"@ != "wire_api"@,
        "base_url"@ != "requires_openai_auth"@,
        "base_url"@ != "supports_websockets"@,
        "wire_api"@ != "requires_openai_auth"@,
        "wire_api"@ != "supports_websockets"@,
        "requires_openai_auth"@ != "supports_websockets"@,
        "http_headers"@ != "name"@,
        "http_headers"@ != "base_url"@,
        "http_headers"@ != "wire_api"@,
        "http_headers"@ != "requires_openai_auth"@,
        "http_headers"@ != "supports_websockets"@,
{
    reveal_strlit("model");
    reveal_strlit("model_provider");
    reveal_strlit("model_providers");
    reveal_strlit("profiles");
    reveal_strlit("name");
    reveal_strlit("base_url");
    reveal_strlit("wire_api");
    reveal_strlit("requires_openai_auth");
    reveal_strlit("supports_websockets");
    reveal_strlit("http_headers");
    assert("model"@.len() == 5);
    assert("model_provider"@.len() == 14);
    assert("model_providers"@.len() == 15);
    assert("profiles"@.len() == 8);
    assert("name"@.len() == 4);
    assert("base_url"@.len() == 8);
    assert("wire_api"@.len() == 8);
    assert("requires_openai_auth"@.len() == 20);
    assert("supports_websockets"@.len() == 19);
    assert("http_headers"@.len() == 12);
    assert("base_url"@[0] == 'b');
    assert("wire_api"@[0] == 'w');
}

/// Whether every recorded field is one of the selected table's two fields, of the provider's own
/// fields before the `upto`th, or the header.
spec fn fields_so_far(fields: Seq<FieldView>, selection: Seq<Seq<char>>, upto: int) -> bool {
    forall|i: int|
        0 <= i < fields.len() ==> {
            let path = (#[trigger] fields[i]).path;
            ||| upto >= 1 && path == selection.push("model"@)
            ||| upto >= 2 && path == selection.push("model_provider"@)
            ||| upto >= 3 && path == provider_path().push("name"@)
            ||| upto >= 4 && path == provider_path().push("base_url"@)
            ||| upto >= 5 && path == provider_path().push("wire_api"@)
            ||| upto >= 6 && path == provider_path().push("requires_openai_auth"@)
            ||| upto >= 7 && path == provider_path().push("supports_websockets"@)
        }
}

/// Whether a path is where an edit puts its selection: the root or a profile.
spec fn is_selection(selection: Seq<Seq<char>>) -> bool {
    selection.len() == 0 || (selection.len() == 2 && selection[0] == "profiles"@)
}

/// A path that is none of those so far.
proof fn lemma_not_yet(
    fields: Seq<FieldView>,
    selection: Seq<Seq<char>>,
    upto: int,
    path: Seq<Seq<char>>,
)
    requires
        fields_so_far(fields, selection, upto),
        upto >= 1 ==> path != selection.push("model"@),
        upto >= 2 ==> path != selection.push("model_provider"@),
        upto >= 3 ==> path != provider_path().push("name"@),
        upto >= 4 ==> path != provider_path().push("base_url"@),
        upto >= 5 ==> path != provider_path().push("wire_api"@),
        upto >= 6 ==> path != provider_path().push("requires_openai_auth"@),
        upto >= 7 ==> path != provider_path().push("supports_websockets"@),
    ensures
        !has_field(fields, path),
{
}

/// A key of the provider's table is no field of the selected table.
proof fn lemma_provider_is_apart(selection: Seq<Seq<char>>, key: Seq<char>)
    requires
        is_selection(selection),
    ensures
        provider_path().push(key) != selection.push("model"@),
        provider_path().push(key) != selection.push("model_provider"@),
{
    lemma_keys_differ();
    assert(provider_path().push(key)[0] == "model_providers"@);
    if selection.len() == 2 {
        assert(selection.push("model"@)[0] == "profiles"@);
        assert(selection.push("model_provider"@)[0] == "profiles"@);
    }
}

proof fn lemma_push_differs(path: Seq<Seq<char>>, a: Seq<char>, b: Seq<char>)
    requires
        a != b,
    ensures
        path.push(a) != path.push(b),
{
    assert(path.push(a).last() == a);
    assert(path.push(b).last() == b);
}

proof fn lemma_fields_so_far_push(
    fields: Seq<FieldView>,
    selection: Seq<Seq<char>>,
    upto: int,
    field: FieldView,
)
    requires
        fields_so_far(fields, selection, upto),
        fields_so_far(seq![field], selection, upto + 1),
    ensures
        fields_so_far(fields.push(field), selection, upto + 1),
{
    assert(seq![field][0] == field);
    assert forall|i: int| 0 <= i < fields.push(field).len() implies {
        let path = (#[trigger] fields.push(field)[i]).path;
        ||| upto + 1 >= 1 && path == selection.push("model"@)
        ||| upto + 1 >= 2 && path == selection.push("model_provider"@)
        ||| upto + 1 >= 3 && path == provider_path().push("name"@)
        ||| upto + 1 >= 4 && path == provider_path().push("base_url"@)
        ||| upto + 1 >= 5 && path == provider_path().push("wire_api"@)
        ||| upto + 1 >= 6 && path == provider_path().push("requires_openai_auth"@)
        ||| upto + 1 >= 7 && path == provider_path().push("supports_websockets"@)
    } by {
        if i < fields.len() {
            assert(fields.push(field)[i] == fields[i]);
        }
    }
}

/// No step of the header table's path is a field.
proof fn lemma_steps_are_free(
    fields: Seq<FieldView>,
    selection: Seq<Seq<char>>,
    upto: int,
    path: Seq<Seq<char>>,
)
    requires
        is_selection(selection),
        0 <= upto <= 7,
        fields_so_far(fields, selection, upto),
        path == provider_path() || path == headers_path(),
    ensures
        forall|n: int| 0 <= n <= path.len() ==> !has_field(fields, #[trigger] path.take(n)),
{
    lemma_keys_differ();
    assert forall|n: int| 0 <= n <= path.len() implies !has_field(
        fields,
        #[trigger] path.take(n),
    ) by {
        let step = path.take(n);
        if has_field(fields, step) {
            let i = choose|i: int| 0 <= i < fields.len() && fields[i].path == step;
            assert(path[0] == "model_providers"@);
            assert(step.len() == n);
            assert(selection.push("model"@).len() > 0);
            assert(selection.push("model_provider"@).len() > 0);
            if n > 0 {
                assert(step[0] == "model_providers"@);
            }
            assert(provider_path().push("name"@).len() == 3);
            assert(provider_path().push("base_url"@).len() == 3);
            assert(provider_path().push("wire_api"@).len() == 3);
            assert(provider_path().push("requires_openai_auth"@).len() == 3);
            assert(provider_path().push("supports_websockets"@).len() == 3);
            if selection.len() == 2 {
                assert(selection.push("model"@)[0] == "profiles"@);
                assert(selection.push("model_provider"@)[0] == "profiles"@);
            } else {
                assert(selection.push("model"@)[0] == "model"@);
                assert(selection.push("model_provider"@)[0] == "model_provider"@);
            }
            if n == 3 {
                assert(path == headers_path());
                assert(path[2] == "http_headers"@);
                assert(step.last() == "http_headers"@);
                assert(provider_path().push("name"@).last() == "name"@);
                assert(provider_path().push("base_url"@).last() == "base_url"@);
                assert(provider_path().push("wire_api"@).last() == "wire_api"@);
                assert(provider_path().push("requires_openai_auth"@).last()
                    == "requires_openai_auth"@);
                assert(provider_path().push("supports_websockets"@).last()
                    == "supports_websockets"@);
            }
        }
    }
}

/// One field of the provider.
proof fn lemma_provider_field(
    before: Map<Seq<char>, TomlNode>,
    edit: EditView,
    selection: Seq<Seq<char>>,
    upto: int,
    key: Seq<char>,
    node: TomlNode,
)
    requires
        is_selection(selection),
        2 <= upto < 7,
        is_recorded(before, edit),
        fields_so_far(edit.fields, selection, upto),
        edit.set(provider_path(), key, node) is Some,
        node is Str || node is Bool,
        upto == 2 ==> key == "name"@,
        upto == 3 ==> key == "base_url"@,
        upto == 4 ==> key == "wire_api"@,
        upto == 5 ==> key == "requires_openai_auth"@,
        upto == 6 ==> key == "supports_websockets"@,
    ensures
        is_recorded(before, edit.set(provider_path(), key, node)->0),
        fields_so_far(edit.set(provider_path(), key, node)->0.fields, selection, upto + 1),
{
    let provider = provider_path();
    lemma_keys_differ();
    lemma_provider_is_apart(selection, key);
    if upto >= 3 {
        lemma_push_differs(provider, key, "name"@);
    }
    if upto >= 4 {
        lemma_push_differs(provider, key, "base_url"@);
    }
    if upto >= 5 {
        lemma_push_differs(provider, key, "wire_api"@);
    }
    if upto >= 6 {
        lemma_push_differs(provider, key, "requires_openai_auth"@);
    }
    lemma_not_yet(edit.fields, selection, upto, provider.push(key));
    lemma_recorded_set(before, edit, provider, key, node);
    let field = edit.set(provider, key, node)->0.fields.last();
    assert(seq![field][0].path == provider.push(key));
    lemma_fields_so_far_push(edit.fields, selection, upto, field);
}

/// What an edit records of itself is so.
#[verifier::rlimit(60)]
proof fn lemma_edited_is_recorded(
    entries: Map<Seq<char>, TomlNode>,
    page: TomlPage,
    selection: Seq<Seq<char>>,
    endpoint: Seq<char>,
    model: Option<Seq<char>>,
    token: Seq<char>,
)
    requires
        is_selection(selection),
        edited(entries, page, selection, endpoint, model, token) is Some,
    ensures
        is_recorded(entries, edited(entries, page, selection, endpoint, model, token)->0),
{
    lemma_keys_differ();
    let provider = provider_path();
    let start = EditView { entries, page, fields: Seq::empty(), created: Seq::empty() };
    assert(is_recorded(entries, start)) by {
        reveal(is_recorded);
    }
    let e1 = match model {
        Some(name) => start.set(selection, "model"@, TomlNode::Str(name)),
        None => start.observe(selection),
    }->0;
    match model {
        Some(name) => lemma_recorded_set(
            entries,
            start,
            selection,
            "model"@,
            TomlNode::Str(name),
        ),
        None => lemma_recorded_observe(entries, start, selection),
    }
    assert(fields_so_far(e1.fields, selection, 1));
    lemma_push_differs(selection, "model"@, "model_provider"@);
    lemma_not_yet(e1.fields, selection, 1, selection.push("model_provider"@));
    lemma_recorded_set(entries, e1, selection, "model_provider"@, TomlNode::Str("hiroute"@));
    let e2 = e1.set(selection, "model_provider"@, TomlNode::Str("hiroute"@))->0;
    assert(seq![e2.fields.last()][0].path == selection.push("model_provider"@));
    lemma_fields_so_far_push(e1.fields, selection, 1, e2.fields.last());
    lemma_steps_are_free(e2.fields, selection, 2, provider);
    lemma_recorded_tables(entries, e2, provider);
    let e3 = e2.tables(provider)->0;
    lemma_provider_field(entries, e3, selection, 2, "name"@, TomlNode::Str("HiRoute"@));
    let e4 = e3.set(provider, "name"@, TomlNode::Str("HiRoute"@))->0;
    lemma_provider_field(entries, e4, selection, 3, "base_url"@, TomlNode::Str(endpoint));
    let e5 = e4.set(provider, "base_url"@, TomlNode::Str(endpoint))->0;
    lemma_provider_field(entries, e5, selection, 4, "wire_api"@, TomlNode::Str("responses"@));
    let e6 = e5.set(provider, "wire_api"@, TomlNode::Str("responses"@))->0;
    lemma_provider_field(
        entries,
        e6,
        selection,
        5,
        "requires_openai_auth"@,
        TomlNode::Bool(true),
    );
    let e7 = e6.set(provider, "requires_openai_auth"@, TomlNode::Bool(true))->0;
    lemma_provider_field(entries, e7, selection, 6, "supports_websockets"@, TomlNode::Bool(false));
    let e8 = e7.set(provider, "supports_websockets"@, TomlNode::Bool(false))->0;
    lemma_steps_are_free(e8.fields, selection, 7, headers_path());
    lemma_recorded_tables(entries, e8, headers_path());
    let e9 = e8.tables(headers_path())->0;
    let header = headers_path().push("X-HiRoute-Token"@);
    assert(header.len() == 4);
    assert(selection.push("model"@).len() <= 3);
    assert(provider.push("name"@).len() == 3);
    lemma_not_yet(e9.fields, selection, 7, header);
    lemma_recorded_set(entries, e9, headers_path(), "X-HiRoute-Token"@, TomlNode::Str(token));
}

/// An edit records what it changes: each field's former value and the fingerprint of the new one,
/// each table that it makes, and nothing is changed beside them.
pub proof fn edits_record_what_they_change(
    entries: Map<Seq<char>, TomlNode>,
    page: TomlPage,
    target: CodexSelectionTarget,
    endpoint: Seq<char>,
    model: Option<Seq<char>>,
    grant: Seq<u8>,
    owned_provider: bool,
)
    requires
        configured(entries, page, target, endpoint, model, grant, owned_provider) is Ok,
    ensures
        is_recorded(
            entries,
            configured(entries, page, target, endpoint, model, grant, owned_provider)->Ok_0,
        ),
{
    let selection = selection_path(target)->0;
    let token = utf8_text(grant)->0;
    lemma_edited_is_recorded(entries, page, selection, endpoint, model, token);
}

/// Restoring an edited configuration that nobody changed leaves the configuration from before the
/// edit, whatever aliases were managed.
pub proof fn restoration_undoes_an_edit(
    entries: Map<Seq<char>, TomlNode>,
    page: TomlPage,
    target: CodexSelectionTarget,
    endpoint: Seq<char>,
    model: Option<Seq<char>>,
    grant: Seq<u8>,
    owned_provider: bool,
    aliases: Seq<Seq<char>>,
)
    requires
        configured(entries, page, target, endpoint, model, grant, owned_provider) is Ok,
        fingerprints_tell(
            configured(entries, page, target, endpoint, model, grant, owned_provider)->Ok_0,
        ),
    ensures
        ({
            let edit = configured(entries, page, target, endpoint, model, grant, owned_provider)->Ok_0;
            restored(edit.entries, record_of(edit, aliases), None) == Ok::<_, CodexNativeError>(
                entries,
            )
        }),
{
    edits_record_what_they_change(entries, page, target, endpoint, model, grant, owned_provider);
    restoration_undoes_a_recorded_edit(
        entries,
        configured(entries, page, target, endpoint, model, grant, owned_provider)->Ok_0,
        aliases,
    );
}

/// Pointing an edit at a catalog is recorded as the edit itself is, so that a restoration gives
/// the user's own pointer back too.
pub proof fn catalog_pointers_are_recorded(
    entries: Map<Seq<char>, TomlNode>,
    edit: EditView,
    table: Seq<Seq<char>>,
    catalog: Seq<char>,
    aliases: Seq<Seq<char>>,
)
    requires
        is_recorded(entries, edit),
        record_of(edit, aliases).pointer_before() is None,
        edit.set(table, "model_catalog_json"@, TomlNode::Str(catalog)) is Some,
    ensures
        is_recorded(
            entries,
            edit.set(table, "model_catalog_json"@, TomlNode::Str(catalog))->0,
        ),
{
    lemma_no_pointer(edit.fields, table.push("model_catalog_json"@));
    lemma_recorded_set(entries, edit, table, "model_catalog_json"@, TomlNode::Str(catalog));
}

proof fn lemma_no_pointer(fields: Seq<FieldView>, path: Seq<Seq<char>>)
    requires
        first_pointer(fields) is None,
        path.len() > 0,
        path.last() == "model_catalog_json"@,
    ensures
        !has_field(fields, path),
    decreases fields.len(),
{
    if fields.len() > 0 {
        lemma_no_pointer(fields.skip(1), path);
        if has_field(fields, path) {
            let i = choose|i: int| 0 <= i < fields.len() && fields[i].path == path;
            if i > 0 {
                assert(fields.skip(1)[i - 1] == fields[i]);
            }
        }
    }
}

/// Reconfiguring keeps the first restore point: an edit made on what the restoration of an earlier
/// one leaves is undone to the configuration from before both.
pub proof fn reconfiguration_keeps_the_first_restore_point(
    entries: Map<Seq<char>, TomlNode>,
    first: EditView,
    first_aliases: Seq<Seq<char>>,
    base_page: TomlPage,
    target: CodexSelectionTarget,
    endpoint: Seq<char>,
    model: Option<Seq<char>>,
    grant: Seq<u8>,
    owned_provider: bool,
    aliases: Seq<Seq<char>>,
)
    requires
        is_recorded(entries, first),
        fingerprints_tell(first),
        ({
            let base = restored(first.entries, record_of(first, first_aliases), None)->Ok_0;
            let second = configured(base, base_page, target, endpoint, model, grant, owned_provider);
            second is Ok && fingerprints_tell(second->Ok_0)
        }),
    ensures
        ({
            let base = restored(first.entries, record_of(first, first_aliases), None)->Ok_0;
            let second = configured(base, base_page, target, endpoint, model, grant, owned_provider)->Ok_0;
            restored(second.entries, record_of(second, aliases), None) == Ok::<_, CodexNativeError>(
                entries,
            )
        }),
{
    restoration_undoes_a_recorded_edit(entries, first, first_aliases);
    restoration_undoes_an_edit(
        entries,
        base_page,
        target,
        endpoint,
        model,
        grant,
        owned_provider,
        aliases,
    );
}

/// An edit of one profile leaves the root's own settings and every other profile as they were: it
/// changes nothing outside the selected table and the provider's.
pub proof fn edits_are_scoped_to_the_selection(
    entries: Map<Seq<char>, TomlNode>,
    page: TomlPage,
    target: CodexSelectionTarget,
    endpoint: Seq<char>,
    model: Option<Seq<char>>,
    grant: Seq<u8>,
    owned_provider: bool,
    path: Seq<Seq<char>>,
)
    requires
        configured(entries, page, target, endpoint, model, grant, owned_provider) is Ok,
        path.len() > 0,
        path[0] != "model_providers"@,
        path.drop_last() != selection_path(target)->0,
    ensures
        kind_at(
            configured(entries, page, target, endpoint, model, grant, owned_provider)->Ok_0.entries,
            path,
        ) == kind_at(entries, path),
{
    edits_record_what_they_change(entries, page, target, endpoint, model, grant, owned_provider);
    let selection = selection_path(target)->0;
    let token = utf8_text(grant)->0;
    lemma_edited_paths(entries, page, selection, endpoint, model, token);
    lemma_scoped(
        entries,
        configured(entries, page, target, endpoint, model, grant, owned_provider)->Ok_0,
        selection,
        path,
    );
}

/// Whether an edit has set and made nothing but what it is meant to.
spec fn is_edit_at(edit: EditView, selection: Seq<Seq<char>>) -> bool {
    &&& forall|i: int|
        0 <= i < edit.fields.len() ==> is_edit_path((#[trigger] edit.fields[i]).path, selection)
    &&& forall|i: int| 0 <= i < edit.created.len() ==> is_made_path(#[trigger] edit.created[i])
}

proof fn lemma_scoped(
    entries: Map<Seq<char>, TomlNode>,
    edit: EditView,
    selection: Seq<Seq<char>>,
    path: Seq<Seq<char>>,
)
    requires
        is_recorded(entries, edit),
        is_edit_at(edit, selection),
        path.len() > 0,
        path[0] != "model_providers"@,
        path.drop_last() != selection,
    ensures
        kind_at(edit.entries, path) == kind_at(entries, path),
{
    assert(!has_field(edit.fields, path)) by {
        if has_field(edit.fields, path) {
            let i = choose|i: int| 0 <= i < edit.fields.len() && edit.fields[i].path == path;
            assert(is_edit_path(edit.fields[i].path, selection));
            lemma_edit_paths_start(path, selection);
        }
    }
    assert(!edit.created.contains(path)) by {
        if edit.created.contains(path) {
            let i = choose|i: int| 0 <= i < edit.created.len() && edit.created[i] == path;
            assert(is_made_path(edit.created[i]));
        }
    }
    lemma_elsewhere(entries, edit, path);
}

proof fn lemma_edit_paths_start(path: Seq<Seq<char>>, selection: Seq<Seq<char>>)
    requires
        is_edit_path(path, selection),
    ensures
        path[0] == "model_providers"@ || path.drop_last() == selection,
{
    assert(selection.push("model"@).drop_last() == selection);
    assert(selection.push("model_provider"@).drop_last() == selection);
}

proof fn lemma_elsewhere(
    entries: Map<Seq<char>, TomlNode>,
    edit: EditView,
    path: Seq<Seq<char>>,
)
    requires
        is_recorded(entries, edit),
        !has_field(edit.fields, path),
        !edit.created.contains(path),
    ensures
        kind_at(edit.entries, path) == kind_at(entries, path),
{
    reveal(is_recorded);
}

proof fn lemma_all_managed(
    entries: Map<Seq<char>, TomlNode>,
    edit: EditView,
    target: CodexSelectionTarget,
    aliases: Seq<Seq<char>>,
)
    requires
        is_recorded(entries, edit),
        selection_path(target) is Some,
        is_edit_at(edit, selection_path(target)->0),
    ensures
        record_of(edit, aliases).is_managed(),
{
    reveal(is_recorded);
    let selection = selection_path(target)->0;
    assert forall|i: int| 0 <= i < edit.fields.len() implies (
    #[trigger] edit.fields[i]).is_managed() by {
        assert(is_edit_path(edit.fields[i].path, selection));
        assert(edit.fields[i].before is None || edit.fields[i].before->0 is Str);
    }
}

/// Where an edit sets its fields and makes its tables.
spec fn is_edit_path(path: Seq<Seq<char>>, selection: Seq<Seq<char>>) -> bool {
    ||| path == selection.push("model"@)
    ||| path == selection.push("model_provider"@)
    ||| path == provider_path().push("name"@)
    ||| path == provider_path().push("base_url"@)
    ||| path == provider_path().push("wire_api"@)
    ||| path == provider_path().push("requires_openai_auth"@)
    ||| path == provider_path().push("supports_websockets"@)
    ||| path == headers_path().push("X-HiRoute-Token"@)
}

#[verifier::rlimit(40)]
proof fn lemma_edited_paths(
    entries: Map<Seq<char>, TomlNode>,
    page: TomlPage,
    selection: Seq<Seq<char>>,
    endpoint: Seq<char>,
    model: Option<Seq<char>>,
    token: Seq<char>,
)
    requires
        edited(entries, page, selection, endpoint, model, token) is Some,
    ensures
        ({
            let edit = edited(entries, page, selection, endpoint, model, token)->0;
            is_edit_at(edit, selection)
        }),
{
    let provider = provider_path();
    let start = EditView { entries, page, fields: Seq::empty(), created: Seq::empty() };
    let e1 = match model {
        Some(name) => start.set(selection, "model"@, TomlNode::Str(name)),
        None => start.observe(selection),
    }->0;
    let e2 = e1.set(selection, "model_provider"@, TomlNode::Str("hiroute"@))->0;
    let e3 = e2.tables(provider)->0;
    let e8 = e3.set(provider, "name"@, TomlNode::Str("HiRoute"@))->0.set(
        provider,
        "base_url"@,
        TomlNode::Str(endpoint),
    )->0.set(provider, "wire_api"@, TomlNode::Str("responses"@))->0.set(
        provider,
        "requires_openai_auth"@,
        TomlNode::Bool(true),
    )->0.set(provider, "supports_websockets"@, TomlNode::Bool(false))->0;
    let e9 = e8.tables(headers_path())->0;
    let last = e9.set(headers_path(), "X-HiRoute-Token"@, TomlNode::Str(token))->0;
    assert(edited(entries, page, selection, endpoint, model, token) == Some(last));
    lemma_steps_bounded(e2.entries, provider);
    lemma_steps_bounded(e8.entries, headers_path());
    assert forall|i: int| 0 <= i < last.fields.len() implies is_edit_path(
        (#[trigger] last.fields[i]).path,
        selection,
    ) by {
        assert(last.fields.len() == 8);
    }
    assert forall|i: int| 0 <= i < last.created.len() implies is_made_path(
        #[trigger] last.created[i],
    ) by {}
}

proof fn lemma_steps_bounded(entries: Map<Seq<char>, TomlNode>, path: Seq<Seq<char>>)
    ensures
        steps_there(entries, path) <= path.len(),
    decreases path.len(),
{
    if path.len() > 0 && entries.contains_key(path[0]) {
        lemma_steps_bounded(entries[path[0]]->Entries_0, path.skip(1));
    }
}

/// Every edit can be recorded in protected storage: its fields and tables are managed ones.
pub proof fn edits_can_be_recorded(
    entries: Map<Seq<char>, TomlNode>,
    page: TomlPage,
    target: CodexSelectionTarget,
    endpoint: Seq<char>,
    model: Option<Seq<char>>,
    grant: Seq<u8>,
    owned_provider: bool,
    aliases: Seq<Seq<char>>,
)
    requires
        configured(entries, page, target, endpoint, model, grant, owned_provider) is Ok,
    ensures
        record_of(
            configured(entries, page, target, endpoint, model, grant, owned_provider)->Ok_0,
            aliases,
        ).is_managed(),
{
    edits_record_what_they_change(entries, page, target, endpoint, model, grant, owned_provider);
    let selection = selection_path(target)->0;
    let token = utf8_text(grant)->0;
    lemma_edited_paths(entries, page, selection, endpoint, model, token);
    lemma_all_managed(
        entries,
        configured(entries, page, target, endpoint, model, grant, owned_provider)->Ok_0,
        target,
        aliases,
    );
}

} // verus!
