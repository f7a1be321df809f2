//! What a table says, and how it is written: the two go together under every edit.

use vstd::prelude::*;
use crate::toml::{
    body_at, body_in, decorated, empty_sheet, entries_of, inserted, line_of, node_of, put_in,
    tables_in, taken_from, walk, with_body, with_node, with_tables, without_line, without_node,
    TomlBody, TomlLine, TomlNode, TomlSheet,
};

verus! {

/// Whether an item is written as items are: it is there, a value is no table, and tables are in
/// order.
pub open spec fn body_wf(body: TomlBody) -> bool
    decreases body,
{
    match body {
        TomlBody::Value { node, .. } => !(node is Entries) && !(node is Nothing),
        TomlBody::Table(sheet) => sheet_wf(sheet),
        TomlBody::Tables { .. } => true,
        TomlBody::Nothing => false,
    }
}

/// Whether a table is in order: no two lines have one key, and every item is in order.
pub open spec fn sheet_wf(sheet: TomlSheet) -> bool
    decreases sheet,
{
    &&& forall|i: int, j: int|
        0 <= i < j < sheet.lines.len() ==> (#[trigger] sheet.lines[i]).key != (
        #[trigger] sheet.lines[j]).key
    &&& forall|i: int| 0 <= i < sheet.lines.len() ==> body_wf((#[trigger] sheet.lines[i]).body)
}

pub open spec fn keys_apart(lines: Seq<TomlLine>) -> bool {
    forall|i: int, j: int|
        0 <= i < j < lines.len() ==> (#[trigger] lines[i]).key != (#[trigger] lines[j]).key
}

/// The line of a key, where keys are apart.
proof fn lemma_line(lines: Seq<TomlLine>, key: Seq<char>)
    ensures
        match line_of(lines, key) {
            Some(i) => 0 <= i < lines.len() && lines[i].key == key,
            None => forall|i: int| 0 <= i < lines.len() ==> (#[trigger] lines[i]).key != key,
        },
    decreases lines.len(),
{
    if lines.len() > 0 && lines.last().key != key {
        let init = lines.drop_last();
        lemma_line(init, key);
        assert(forall|i: int| 0 <= i < init.len() ==> init[i] == lines[i]);
    }
}

/// The key's own line is the only one that has it.
proof fn lemma_line_is(lines: Seq<TomlLine>, i: int)
    requires
        keys_apart(lines),
        0 <= i < lines.len(),
    ensures
        line_of(lines, lines[i].key) == Some(i),
{
    lemma_line(lines, lines[i].key);
    let j = line_of(lines, lines[i].key)->0;
    if j < i {
        assert(lines[j].key != lines[i].key);
    } else if i < j {
        assert(lines[i].key != lines[j].key);
    }
}

/// What lines say at a key is what the key's line says.
proof fn lemma_entries(lines: Seq<TomlLine>, key: Seq<char>)
    requires
        keys_apart(lines),
    ensures
        entries_of(lines).contains_key(key) == (line_of(lines, key) matches Some(i) && !(
        lines[i].body is Nothing)),
        entries_of(lines).contains_key(key) ==> entries_of(lines)[key] == node_of(
            lines[line_of(lines, key)->0].body,
        ),
    decreases lines.len(),
{
    if lines.len() > 0 {
        let init = lines.drop_last();
        assert(forall|i: int| 0 <= i < init.len() ==> init[i] == lines[i]);
        assert(keys_apart(init));
        lemma_entries(init, key);
        lemma_line(init, key);
        if lines.last().key == key {
            if line_of(init, key) is Some {
                let i = line_of(init, key)->0;
                assert(lines[i].key != lines[lines.len() - 1].key);
            }
        }
    }
}

/// What a table says at a key is what the item at the key says.
pub(crate) proof fn lemma_said(sheet: TomlSheet, key: Seq<char>)
    requires
        sheet_wf(sheet),
    ensures
        entries_of(sheet.lines).contains_key(key) == (body_at(sheet, key) is Some),
        body_at(sheet, key) matches Some(body) ==> entries_of(sheet.lines)[key] == node_of(body)
            && body_wf(body) && !(body is Nothing),
{
    assert(keys_apart(sheet.lines));
    lemma_entries(sheet.lines, key);
    lemma_line(sheet.lines, key);
}

/// Another item on a key's line.
proof fn lemma_with_body(sheet: TomlSheet, key: Seq<char>, body: TomlBody)
    requires
        sheet_wf(sheet),
        body_wf(body),
        !(body is Nothing),
        body_at(sheet, key) is Some,
    ensures
        sheet_wf(with_body(sheet, key, body)),
        entries_of(with_body(sheet, key, body).lines) == entries_of(sheet.lines).insert(
            key,
            node_of(body),
        ),
        body_at(with_body(sheet, key, body), key) == Some(body),
{
    lemma_line(sheet.lines, key);
    let at = line_of(sheet.lines, key)->0;
    lemma_replaced(sheet, at, TomlLine { body, ..sheet.lines[at] });
}

/// Another line for a key in the place of the key's line.
proof fn lemma_replaced(sheet: TomlSheet, at: int, line: TomlLine)
    requires
        sheet_wf(sheet),
        body_wf(line.body),
        !(line.body is Nothing),
        0 <= at < sheet.lines.len(),
        sheet.lines[at].key == line.key,
    ensures
        ({
            let done = TomlSheet { lines: sheet.lines.update(at, line), ..sheet };
            &&& sheet_wf(done)
            &&& entries_of(done.lines) == entries_of(sheet.lines).insert(
                line.key,
                node_of(line.body),
            )
            &&& body_at(done, line.key) == Some(line.body)
        }),
{
    let lines = sheet.lines;
    let done = TomlSheet { lines: lines.update(at, line), ..sheet };
    assert forall|i: int| 0 <= i < lines.len() implies (#[trigger] done.lines[i]).key
        == lines[i].key by {}
    assert forall|i: int, j: int| 0 <= i < j < done.lines.len() implies (
    #[trigger] done.lines[i]).key != (#[trigger] done.lines[j]).key by {
        assert(lines[i].key != lines[j].key);
    }
    assert(sheet_wf(done));
    let before = entries_of(lines);
    let after = entries_of(done.lines);
    assert forall|key: Seq<char>| #[trigger]
        after.contains_key(key) == before.insert(line.key, node_of(line.body)).contains_key(key)
            && (after.contains_key(key) ==> after[key] == before.insert(
            line.key,
            node_of(line.body),
        )[key]) by {
        lemma_entries(lines, key);
        lemma_entries(done.lines, key);
        lemma_line(lines, key);
        lemma_line(done.lines, key);
        if let Some(i) = line_of(lines, key) {
            lemma_line_is(done.lines, i);
        } else if let Some(i) = line_of(done.lines, key) {
            assert(lines[i].key == key);
        }
    }
    assert(after =~= before.insert(line.key, node_of(line.body)));
    lemma_line_is(done.lines, at);
}

/// A line for a key that has no item.
proof fn lemma_inserted(sheet: TomlSheet, key: Seq<char>, body: TomlBody)
    requires
        sheet_wf(sheet),
        body_wf(body),
        !(body is Nothing),
    ensures
        sheet_wf(inserted(sheet, key, body)),
        entries_of(inserted(sheet, key, body).lines) == entries_of(sheet.lines).insert(
            key,
            node_of(body),
        ),
{
    let line = crate::toml::plain_line(key, body);
    lemma_line(sheet.lines, key);
    match line_of(sheet.lines, key) {
        Some(at) => {
            lemma_replaced(sheet, at, line);
        },
        None => {
            let done = inserted(sheet, key, body);
            assert(done.lines.drop_last() =~= sheet.lines);
            assert forall|i: int, j: int| 0 <= i < j < done.lines.len() implies (
            #[trigger] done.lines[i]).key != (#[trigger] done.lines[j]).key by {
                assert(done.lines[i] == sheet.lines[i]);
                if j < sheet.lines.len() {
                    assert(done.lines[j] == sheet.lines[j]);
                }
            }
            assert forall|i: int| 0 <= i < done.lines.len() implies body_wf(
                (#[trigger] done.lines[i]).body,
            ) by {
                if i < sheet.lines.len() {
                    assert(done.lines[i] == sheet.lines[i]);
                }
            }
        },
    }
}

/// A table without a key's line.
proof fn lemma_without_line(sheet: TomlSheet, key: Seq<char>)
    requires
        sheet_wf(sheet),
    ensures
        sheet_wf(without_line(sheet, key)),
        entries_of(without_line(sheet, key).lines) == entries_of(sheet.lines).remove(key),
{
    let lines = sheet.lines;
    let done = without_line(sheet, key);
    lemma_line(lines, key);
    match line_of(lines, key) {
        None => {
            lemma_entries(lines, key);
            assert(entries_of(lines).remove(key) =~= entries_of(lines));
        },
        Some(at) => {
            assert forall|i: int| 0 <= i < done.lines.len() implies #[trigger] done.lines[i]
                == lines[if i < at {
                i
            } else {
                i + 1
            }] by {}
            assert forall|i: int, j: int| 0 <= i < j < done.lines.len() implies (
            #[trigger] done.lines[i]).key != (#[trigger] done.lines[j]).key by {
                let x = if i < at {
                    i
                } else {
                    i + 1
                };
                let y = if j < at {
                    j
                } else {
                    j + 1
                };
                assert(lines[x].key != lines[y].key);
            }
            assert(sheet_wf(done));
            let before = entries_of(lines);
            let after = entries_of(done.lines);
            assert forall|name: Seq<char>| #[trigger]
                after.contains_key(name) == before.remove(key).contains_key(name) && (
                after.contains_key(name) ==> after[name] == before.remove(key)[name]) by {
                lemma_entries(lines, name);
                lemma_entries(done.lines, name);
                lemma_line(lines, name);
                lemma_line(done.lines, name);
                if let Some(i) = line_of(done.lines, name) {
                    let x = if i < at {
                        i
                    } else {
                        i + 1
                    };
                    assert(lines[x] == done.lines[i]);
                    lemma_line_is(lines, x);
                    lemma_line_is(lines, at);
                } else if let Some(i) = line_of(lines, name) {
                    if i != at {
                        let x = if i < at {
                            i
                        } else {
                            i - 1
                        };
                        assert(done.lines[x] == lines[i]);
                    }
                }
            }
            assert(after =~= before.remove(key));
        },
    }
}

/// The table that a path leads to.
pub(crate) proof fn lemma_inner_table(sheet: TomlSheet, key: Seq<char>)
    requires
        sheet_wf(sheet),
        entries_of(sheet.lines).contains_key(key),
        entries_of(sheet.lines)[key] is Entries,
    ensures
        body_at(sheet, key) matches Some(TomlBody::Table(inner)) && sheet_wf(inner)
            && entries_of(sheet.lines)[key] == TomlNode::Entries(entries_of(inner.lines)),
{
    lemma_said(sheet, key);
}

/// An item that is put at a path is said there, and what is written says it.
pub proof fn lemma_put_in(
    sheet: TomlSheet,
    path: Seq<Seq<char>>,
    key: Seq<char>,
    body: TomlBody,
)
    requires
        sheet_wf(sheet),
        body_wf(body),
        !(body is Nothing),
        walk(entries_of(sheet.lines), path) is Entries,
    ensures
        sheet_wf(put_in(sheet, path, key, body)),
        entries_of(put_in(sheet, path, key, body).lines) == with_node(
            entries_of(sheet.lines),
            path,
            key,
            node_of(body),
        ),
    decreases path.len(),
{
    if path.len() == 0 {
        lemma_said(sheet, key);
        match body_at(sheet, key) {
            Some(previous) => {
                let placed = decorated(body, previous);
                assert(body_wf(placed) && node_of(placed) == node_of(body));
                lemma_with_body(sheet, key, placed);
            },
            None => {
                lemma_inserted(sheet, key, body);
            },
        }
    } else {
        lemma_inner_table(sheet, path[0]);
        let inner = body_at(sheet, path[0])->0->Table_0;
        lemma_put_in(inner, path.skip(1), key, body);
        lemma_with_body(
            sheet,
            path[0],
            TomlBody::Table(put_in(inner, path.skip(1), key, body)),
        );
    }
}

/// An item that is taken from a path is no longer said.
pub proof fn lemma_taken_from(sheet: TomlSheet, path: Seq<Seq<char>>, key: Seq<char>)
    requires
        sheet_wf(sheet),
        walk(entries_of(sheet.lines), path) is Entries,
    ensures
        sheet_wf(taken_from(sheet, path, key)),
        entries_of(taken_from(sheet, path, key).lines) == without_node(
            entries_of(sheet.lines),
            path,
            key,
        ),
    decreases path.len(),
{
    if path.len() == 0 {
        lemma_without_line(sheet, key);
    } else {
        lemma_inner_table(sheet, path[0]);
        let inner = body_at(sheet, path[0])->0->Table_0;
        lemma_taken_from(inner, path.skip(1), key);
        lemma_with_body(sheet, path[0], TomlBody::Table(taken_from(inner, path.skip(1), key)));
    }
}

/// Tables that are made at a path are said there.
pub proof fn lemma_tables_in(sheet: TomlSheet, path: Seq<Seq<char>>)
    requires
        sheet_wf(sheet),
        !(walk(entries_of(sheet.lines), path) is Blocked),
    ensures
        sheet_wf(tables_in(sheet, path)),
        entries_of(tables_in(sheet, path).lines) == with_tables(entries_of(sheet.lines), path),
    decreases path.len(),
{
    if path.len() > 0 {
        lemma_said(sheet, path[0]);
        match body_at(sheet, path[0]) {
            Some(body) => {
                lemma_inner_table(sheet, path[0]);
                let inner = body->Table_0;
                lemma_tables_in(inner, path.skip(1));
                lemma_with_body(sheet, path[0], TomlBody::Table(tables_in(inner, path.skip(1))));
            },
            None => {
                let fresh = empty_sheet(true);
                assert(entries_of(fresh.lines) =~= Map::<Seq<char>, TomlNode>::empty());
                assert(!(walk(entries_of(fresh.lines), path.skip(1)) is Blocked));
                lemma_tables_in(fresh, path.skip(1));
                lemma_inserted(sheet, path[0], TomlBody::Table(tables_in(fresh, path.skip(1))));
            },
        }
    }
}

/// What is written at a key of the table at a path says what is said there.
pub proof fn lemma_body_in(sheet: TomlSheet, path: Seq<Seq<char>>, key: Seq<char>)
    requires
        sheet_wf(sheet),
        walk(entries_of(sheet.lines), path) is Entries,
    ensures
        ({
            let inner = walk(entries_of(sheet.lines), path)->Entries_0;
            match body_in(sheet, path, key) {
                Some(body) => inner.contains_key(key) && inner[key] == node_of(body) && body_wf(
                    body,
                ) && !(body is Nothing),
                None => !inner.contains_key(key),
            }
        }),
    decreases path.len(),
{
    if path.len() == 0 {
        lemma_said(sheet, key);
    } else {
        lemma_inner_table(sheet, path[0]);
        lemma_body_in(body_at(sheet, path[0])->0->Table_0, path.skip(1), key);
    }
}

/// Whether an item is still there as it was written. A value that was touched has what surrounded
/// it.
pub open spec fn body_kept(
    old_body: TomlBody,
    new_body: TomlBody,
    path: Seq<Seq<char>>,
    touched: Set<Seq<Seq<char>>>,
) -> bool
    decreases old_body,
{
    match old_body {
        TomlBody::Table(before) => new_body matches TomlBody::Table(after) && kept(
            before,
            after,
            path,
            touched,
        ),
        TomlBody::Value { decor: around, .. } => new_body == old_body || (touched.contains(path) && (
        new_body matches TomlBody::Value { decor, .. } && decor == around)),
        _ => new_body == old_body,
    }
}

/// Whether the lines of a table are still there, first and in their order, each as it was written
/// but for the values that were touched; `path` leads to the table.
pub open spec fn kept(
    before: TomlSheet,
    after: TomlSheet,
    path: Seq<Seq<char>>,
    touched: Set<Seq<Seq<char>>>,
) -> bool
    decreases before,
{
    &&& after.form == before.form
    &&& before.lines.len() <= after.lines.len()
    &&& forall|i: int|
        0 <= i < before.lines.len() ==> {
            &&& (#[trigger] before.lines[i]).key == after.lines[i].key
            &&& before.lines[i].form == after.lines[i].form
            &&& body_kept(
                before.lines[i].body,
                after.lines[i].body,
                path.push(before.lines[i].key),
                touched,
            )
        }
}

proof fn lemma_body_kept_self(body: TomlBody, path: Seq<Seq<char>>, touched: Set<Seq<Seq<char>>>)
    ensures
        body_kept(body, body, path, touched),
    decreases body,
{
    if let TomlBody::Table(sheet) = body {
        lemma_kept_self(sheet, path, touched);
    }
}

pub proof fn lemma_kept_self(sheet: TomlSheet, path: Seq<Seq<char>>, touched: Set<Seq<Seq<char>>>)
    ensures
        kept(sheet, sheet, path, touched),
    decreases sheet,
{
    assert forall|i: int| 0 <= i < sheet.lines.len() implies body_kept(
        (#[trigger] sheet.lines[i]).body,
        sheet.lines[i].body,
        path.push(sheet.lines[i].key),
        touched,
    ) by {
        lemma_body_kept_self(sheet.lines[i].body, path.push(sheet.lines[i].key), touched);
    }
}

/// Whether a path leads to another or through it.
pub open spec fn leads_to(path: Seq<Seq<char>>, other: Seq<Seq<char>>) -> bool {
    path.len() <= other.len() && other.take(path.len() as int) == path
}

/// What is kept where some paths were touched is kept where others were that agree on all paths
/// that the place leads to.
proof fn lemma_body_kept_for(
    old_body: TomlBody,
    new_body: TomlBody,
    path: Seq<Seq<char>>,
    touched: Set<Seq<Seq<char>>>,
    other: Set<Seq<Seq<char>>>,
)
    requires
        body_kept(old_body, new_body, path, touched),
        forall|p: Seq<Seq<char>>|
            leads_to(path, p) && #[trigger] touched.contains(p) ==> other.contains(p),
    ensures
        body_kept(old_body, new_body, path, other),
    decreases old_body,
{
    match old_body {
        TomlBody::Table(before) => {
            lemma_kept_for(before, new_body->Table_0, path, touched, other);
        },
        TomlBody::Value { .. } => {
            assert(path.take(path.len() as int) =~= path);
            assert(leads_to(path, path));
        },
        _ => {},
    }
}

pub proof fn lemma_kept_for(
    before: TomlSheet,
    after: TomlSheet,
    path: Seq<Seq<char>>,
    touched: Set<Seq<Seq<char>>>,
    other: Set<Seq<Seq<char>>>,
)
    requires
        kept(before, after, path, touched),
        forall|p: Seq<Seq<char>>|
            leads_to(path, p) && #[trigger] touched.contains(p) ==> other.contains(p),
    ensures
        kept(before, after, path, other),
    decreases before,
{
    assert forall|i: int| 0 <= i < before.lines.len() implies body_kept(
        (#[trigger] before.lines[i]).body,
        after.lines[i].body,
        path.push(before.lines[i].key),
        other,
    ) by {
        let step = path.push(before.lines[i].key);
        assert forall|p: Seq<Seq<char>>|
            leads_to(step, p) && #[trigger] touched.contains(p) implies other.contains(p) by {
            assert(p.take(path.len() as int) =~= step.take(path.len() as int));
            assert(step.take(path.len() as int) =~= path);
            assert(leads_to(path, p));
        }
        lemma_body_kept_for(
            before.lines[i].body,
            after.lines[i].body,
            step,
            touched,
            other,
        );
    }
}

/// Another item on a line keeps the lines, where it is kept itself; the other lines are kept for
/// other touched paths that agree but on those through this line.
proof fn lemma_kept_with_body(
    before: TomlSheet,
    after: TomlSheet,
    path: Seq<Seq<char>>,
    touched: Set<Seq<Seq<char>>>,
    other: Set<Seq<Seq<char>>>,
    key: Seq<char>,
    body: TomlBody,
)
    requires
        kept(before, after, path, touched),
        sheet_wf(before),
        sheet_wf(after),
        body_at(after, key) is Some,
        forall|p: Seq<Seq<char>>|
            #[trigger] touched.contains(p) && !leads_to(path.push(key), p) ==> other.contains(p),
        body_at(before, key) matches Some(first) ==> body_kept(
            first,
            body,
            path.push(key),
            other,
        ),
    ensures
        kept(before, with_body(after, key, body), path, other),
{
    let done = with_body(after, key, body);
    lemma_line(after.lines, key);
    let at = line_of(after.lines, key)->0;
    assert forall|i: int| 0 <= i < before.lines.len() implies {
        &&& (#[trigger] before.lines[i]).key == done.lines[i].key
        &&& before.lines[i].form == done.lines[i].form
        &&& body_kept(
            before.lines[i].body,
            done.lines[i].body,
            path.push(before.lines[i].key),
            other,
        )
    } by {
        assert(before.lines[i].key == after.lines[i].key);
        if i == at {
            assert(keys_apart(before.lines));
            lemma_line_is(before.lines, i);
            assert(body_wf(before.lines[i].body));
            assert(body_at(before, key) == Some(before.lines[i].body));
        } else {
            let step = path.push(before.lines[i].key);
            assert(before.lines[i].key != key) by {
                assert(keys_apart(after.lines));
                lemma_line_is(after.lines, i);
            }
            assert forall|p: Seq<Seq<char>>|
                leads_to(step, p) && #[trigger] touched.contains(p) implies other.contains(p) by {
                if leads_to(path.push(key), p) {
                    assert(p.take(step.len() as int)[path.len() as int]
                        == before.lines[i].key);
                    assert(p.take(step.len() as int)[path.len() as int] == key);
                }
            }
            lemma_body_kept_for(
                before.lines[i].body,
                after.lines[i].body,
                step,
                touched,
                other,
            );
        }
    }
}

/// The item that a kept table has at a key where it had one is that item, kept.
pub(crate) proof fn lemma_kept_at(
    before: TomlSheet,
    after: TomlSheet,
    path: Seq<Seq<char>>,
    touched: Set<Seq<Seq<char>>>,
    key: Seq<char>,
)
    requires
        kept(before, after, path, touched),
        sheet_wf(before),
        sheet_wf(after),
    ensures
        body_at(before, key) matches Some(first) ==> (body_at(after, key) matches Some(body)
            && body_kept(first, body, path.push(key), touched)),
{
    if body_at(before, key) is Some {
        lemma_line(before.lines, key);
        let i = line_of(before.lines, key)->0;
        assert(before.lines[i].key == after.lines[i].key);
        assert(keys_apart(after.lines));
        lemma_line_is(after.lines, i);
        assert(body_wf(after.lines[i].body));
    }
}

/// A value that is put at a path keeps the lines, where its path counts as touched.
pub proof fn lemma_kept_put(
    before: TomlSheet,
    after: TomlSheet,
    path: Seq<Seq<char>>,
    touched: Set<Seq<Seq<char>>>,
    inner: Seq<Seq<char>>,
    key: Seq<char>,
    body: TomlBody,
)
    requires
        kept(before, after, path, touched),
        sheet_wf(before),
        sheet_wf(after),
        walk(entries_of(after.lines), inner) is Entries,
        body is Value,
        body_in(after, inner, key) matches Some(previous) ==> previous is Value
            && touched.contains(path + inner.push(key)),
    ensures
        kept(before, put_in(after, inner, key, body), path, touched),
    decreases inner.len(),
{
    if inner.len() == 0 {
        assert(path + inner.push(key) =~= path.push(key));
        lemma_kept_at(before, after, path, touched, key);
        match body_at(after, key) {
            Some(previous) => {
                lemma_kept_with_body(
                    before,
                    after,
                    path,
                    touched,
                    touched,
                    key,
                    decorated(body, previous),
                );
            },
            None => {
                lemma_said(after, key);
                lemma_line(after.lines, key);
                if line_of(after.lines, key) is Some {
                    assert(body_wf(after.lines[line_of(after.lines, key)->0].body));
                }
                assert(line_of(after.lines, key) is None);
                let done = inserted(after, key, body);
                assert forall|i: int| 0 <= i < before.lines.len() implies #[trigger] done.lines[i]
                    == after.lines[i] by {}
                lemma_kept_prefix(before, after, done, path, touched);
            },
        }
    } else {
        lemma_inner_table(after, inner[0]);
        lemma_kept_at(before, after, path, touched, inner[0]);
        let sheet = body_at(after, inner[0])->0->Table_0;
        let step = path.push(inner[0]);
        if let Some(first) = body_at(before, inner[0]) {
            lemma_said(before, inner[0]);
            assert(step + inner.skip(1).push(key) =~= path + inner.push(key));
            lemma_kept_put(first->Table_0, sheet, step, touched, inner.skip(1), key, body);
        }
        lemma_kept_with_body(
            before,
            after,
            path,
            touched,
            touched,
            inner[0],
            TomlBody::Table(put_in(sheet, inner.skip(1), key, body)),
        );
    }
}

/// Lines that agree on the first ones keep what those keep.
proof fn lemma_kept_prefix(
    before: TomlSheet,
    after: TomlSheet,
    done: TomlSheet,
    path: Seq<Seq<char>>,
    touched: Set<Seq<Seq<char>>>,
)
    requires
        kept(before, after, path, touched),
        done.form == after.form,
        before.lines.len() <= done.lines.len(),
        forall|i: int| 0 <= i < before.lines.len() ==> #[trigger] done.lines[i] == after.lines[i],
    ensures
        kept(before, done, path, touched),
{
    assert forall|i: int| 0 <= i < before.lines.len() implies {
        &&& (#[trigger] before.lines[i]).key == done.lines[i].key
        &&& before.lines[i].form == done.lines[i].form
        &&& body_kept(
            before.lines[i].body,
            done.lines[i].body,
            path.push(before.lines[i].key),
            touched,
        )
    } by {
        assert(done.lines[i] == after.lines[i]);
    }
}

/// A value that is given back as it was written no longer counts as touched.
pub proof fn lemma_kept_back(
    before: TomlSheet,
    after: TomlSheet,
    path: Seq<Seq<char>>,
    touched: Set<Seq<Seq<char>>>,
    inner: Seq<Seq<char>>,
    key: Seq<char>,
    body: TomlBody,
)
    requires
        kept(before, after, path, touched),
        sheet_wf(before),
        sheet_wf(after),
        body is Value,
        body_in(before, inner, key) == Some(body),
    ensures
        kept(
            before,
            put_in(after, inner, key, body),
            path,
            touched.remove(path + inner.push(key)),
        ),
    decreases inner.len(),
{
    let other = touched.remove(path + inner.push(key));
    if inner.len() == 0 {
        assert(path + inner.push(key) =~= path.push(key));
        lemma_kept_at(before, after, path, touched, key);
        let previous = body_at(after, key)->0;
        assert(decorated(body, previous) == body);
        lemma_body_kept_self(body, path.push(key), other);
        assert forall|p: Seq<Seq<char>>| #[trigger] touched.contains(p) && !leads_to(
            path.push(key),
            p,
        ) implies other.contains(p) by {
            assert(path.push(key).take(path.push(key).len() as int) =~= path.push(key));
        }
        lemma_kept_with_body(before, after, path, touched, other, key, body);
    } else {
        lemma_kept_at(before, after, path, touched, inner[0]);
        let first = body_at(before, inner[0])->0->Table_0;
        let sheet = body_at(after, inner[0])->0->Table_0;
        let step = path.push(inner[0]);
        lemma_said(before, inner[0]);
        lemma_said(after, inner[0]);
        assert(step + inner.skip(1).push(key) =~= path + inner.push(key));
        lemma_kept_back(first, sheet, step, touched, inner.skip(1), key, body);
        assert forall|p: Seq<Seq<char>>| #[trigger] touched.contains(p) && !leads_to(
            step,
            p,
        ) implies other.contains(p) by {
            let whole = path + inner.push(key);
            assert(whole.take(step.len() as int) =~= step);
        }
        lemma_kept_with_body(
            before,
            after,
            path,
            touched,
            other,
            inner[0],
            TomlBody::Table(put_in(sheet, inner.skip(1), key, body)),
        );
    }
}

/// Taking a line that was not there before keeps the others.
pub proof fn lemma_kept_take(
    before: TomlSheet,
    after: TomlSheet,
    path: Seq<Seq<char>>,
    touched: Set<Seq<Seq<char>>>,
    inner: Seq<Seq<char>>,
    key: Seq<char>,
)
    requires
        kept(before, after, path, touched),
        sheet_wf(before),
        sheet_wf(after),
        walk(entries_of(after.lines), inner) is Entries,
        body_in(before, inner, key) is None,
    ensures
        kept(before, taken_from(after, inner, key), path, touched),
    decreases inner.len(),
{
    if inner.len() == 0 {
        lemma_line(after.lines, key);
        if let Some(at) = line_of(after.lines, key) {
            let done = without_line(after, key);
            if at < before.lines.len() {
                assert(before.lines[at].key == after.lines[at].key);
                assert(keys_apart(before.lines));
                lemma_line_is(before.lines, at);
                assert(body_wf(before.lines[at].body));
            }
            assert forall|i: int| 0 <= i < before.lines.len() implies #[trigger] done.lines[i]
                == after.lines[i] by {}
            lemma_kept_prefix(before, after, done, path, touched);
        }
    } else {
        lemma_inner_table(after, inner[0]);
        lemma_kept_at(before, after, path, touched, inner[0]);
        let sheet = body_at(after, inner[0])->0->Table_0;
        let step = path.push(inner[0]);
        if let Some(first) = body_at(before, inner[0]) {
            lemma_said(before, inner[0]);
            lemma_kept_take(first->Table_0, sheet, step, touched, inner.skip(1), key);
        }
        lemma_kept_with_body(
            before,
            after,
            path,
            touched,
            touched,
            inner[0],
            TomlBody::Table(taken_from(sheet, inner.skip(1), key)),
        );
    }
}

/// Making tables keeps the lines.
pub proof fn lemma_kept_tables(
    before: TomlSheet,
    after: TomlSheet,
    path: Seq<Seq<char>>,
    touched: Set<Seq<Seq<char>>>,
    inner: Seq<Seq<char>>,
)
    requires
        kept(before, after, path, touched),
        sheet_wf(before),
        sheet_wf(after),
        !(walk(entries_of(after.lines), inner) is Blocked),
    ensures
        kept(before, tables_in(after, inner), path, touched),
    decreases inner.len(),
{
    if inner.len() > 0 {
        lemma_said(after, inner[0]);
        lemma_kept_at(before, after, path, touched, inner[0]);
        match body_at(after, inner[0]) {
            Some(body) => {
                lemma_inner_table(after, inner[0]);
                let sheet = body->Table_0;
                let step = path.push(inner[0]);
                if let Some(first) = body_at(before, inner[0]) {
                    lemma_said(before, inner[0]);
                    lemma_kept_tables(first->Table_0, sheet, step, touched, inner.skip(1));
                }
                lemma_kept_with_body(
                    before,
                    after,
                    path,
                    touched,
                    touched,
                    inner[0],
                    TomlBody::Table(tables_in(sheet, inner.skip(1))),
                );
            },
            None => {
                lemma_line(after.lines, inner[0]);
                if line_of(after.lines, inner[0]) is Some {
                    assert(body_wf(after.lines[line_of(after.lines, inner[0])->0].body));
                }
                let done = tables_in(after, inner);
                assert forall|i: int| 0 <= i < before.lines.len() implies #[trigger] done.lines[i]
                    == after.lines[i] by {}
                lemma_kept_prefix(before, after, done, path, touched);
            },
        }
    }
}

/// A table that kept all its lines as they were written, and says what it said, is the same.
pub proof fn lemma_kept_same(before: TomlSheet, after: TomlSheet, path: Seq<Seq<char>>)
    requires
        kept(before, after, path, Set::empty()),
        sheet_wf(before),
        sheet_wf(after),
        entries_of(before.lines) == entries_of(after.lines),
    ensures
        before == after,
    decreases before,
{
    if before.lines.len() < after.lines.len() {
        let line = after.lines[before.lines.len() as int];
        assert(keys_apart(after.lines));
        lemma_line_is(after.lines, before.lines.len() as int);
        lemma_said(after, line.key);
        lemma_said(before, line.key);
        assert(body_wf(line.body));
        lemma_line(before.lines, line.key);
        let i = line_of(before.lines, line.key)->0;
        assert(before.lines[i].key == after.lines[i].key);
        lemma_line_is(after.lines, i);
    }
    assert forall|i: int| 0 <= i < before.lines.len() implies before.lines[i] == #[trigger]
        after.lines[i] by {
        let first = before.lines[i];
        let second = after.lines[i];
        assert(first.key == second.key);
        if let TomlBody::Table(sheet) = first.body {
            assert(keys_apart(before.lines) && keys_apart(after.lines));
            lemma_line_is(before.lines, i);
            lemma_line_is(after.lines, i);
            lemma_said(before, first.key);
            lemma_said(after, first.key);
            assert(body_wf(first.body) && body_wf(second.body));
            lemma_kept_same(sheet, second.body->Table_0, path.push(first.key));
        }
    }
    assert(before.lines =~= after.lines);
}

} // verus!
