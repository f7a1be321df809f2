//! TOML documents of the `toml_edit` crate and what they say.
//!
//! A document keeps comments, order and spelling. What it says is the tree of its tables and the
//! values in them; edits are stated on that tree.

use vstd::prelude::*;
use crate::sheets::sheet_wf;
use crate::text::{chars_of, is_alphanumeric};

verus! {

/// What an item says: a table's entries, a string, a boolean, a whole number with its spelling,
/// the spelling of anything else, or nothing at all.
pub enum TomlNode {
    Entries(Map<Seq<char>, TomlNode>),
    Str(Seq<char>),
    Bool(bool),
    Int(i64, Seq<char>),
    Other(Seq<char>),
    Nothing,
}

#[verifier::external_type_specification]
#[verifier::external_body]
pub struct ExDocumentMut(toml_edit::DocumentMut);

#[verifier::external_type_specification]
#[verifier::external_body]
pub struct ExTable(toml_edit::Table);

#[verifier::external_type_specification]
#[verifier::external_body]
pub struct ExItem(toml_edit::Item);

/// White space and comments before and behind something, where they are set.
pub struct Decor {
    pub before: Option<Seq<char>>,
    pub after: Option<Seq<char>>,
}

/// How a key is written: its own spelling, where it has one, and what surrounds it on a line of its
/// own and between dots.
pub struct KeyForm {
    pub spelling: Option<Seq<char>>,
    pub leaf: Decor,
    pub dotted: Decor,
}

/// How a table is written: what surrounds its header, whether the header is hidden while the table
/// has no values, whether it stands for dotted keys, and its place in the document.
pub struct TableForm {
    pub decor: Decor,
    pub implicit: bool,
    pub dotted: bool,
    pub position: Option<nat>,
}

/// An item as it is written. A value has its own spelling or is spelled by its kind; of an array or
/// an inline table the spelling is that of all that it holds, where that can be printed. An array
/// of tables has the text that it prints as an item.
pub enum TomlBody {
    Value { node: TomlNode, spelling: Option<Seq<char>>, decor: Decor },
    Table(TomlSheet),
    Tables { text: Seq<char>, sheets: Seq<TomlSheet> },
    Nothing,
}

pub struct TomlLine {
    pub key: Seq<char>,
    pub form: KeyForm,
    pub body: TomlBody,
}

/// A table as it is written: its form, and its lines in their order.
pub struct TomlSheet {
    pub form: TableForm,
    pub lines: Seq<TomlLine>,
}

/// A document as it is written: its root table, and the white space and comments at its end.
pub struct TomlPage {
    pub root: TomlSheet,
    pub tail: Option<Seq<char>>,
}

/// A table as it is written.
pub uninterp spec fn table_sheet(table: toml_edit::Table) -> TomlSheet;

/// An item as it is written.
pub uninterp spec fn item_body(item: toml_edit::Item) -> TomlBody;

/// A document as it is written.
pub uninterp spec fn document_page(document: toml_edit::DocumentMut) -> TomlPage;

/// What a text parses to, where it is TOML.
pub uninterp spec fn parsed_page(text: Seq<char>) -> Option<TomlPage>;

/// What a text parses to as a single value, where it is one.
pub uninterp spec fn parsed_body(text: Seq<char>) -> Option<TomlBody>;

/// The text of a document as it is written.
pub uninterp spec fn printed(page: TomlPage) -> Seq<char>;

/// What an item that is written says.
pub open spec fn node_of(body: TomlBody) -> TomlNode
    decreases body,
{
    match body {
        TomlBody::Value { node, .. } => node,
        TomlBody::Table(sheet) => TomlNode::Entries(entries_of(sheet.lines)),
        TomlBody::Tables { text, .. } => TomlNode::Other(text),
        TomlBody::Nothing => TomlNode::Nothing,
    }
}

/// What lines say. A line that holds nothing says nothing.
pub open spec fn entries_of(lines: Seq<TomlLine>) -> Map<Seq<char>, TomlNode>
    decreases lines,
{
    if lines.len() == 0 {
        Map::empty()
    } else if lines.last().body is Nothing {
        entries_of(lines.drop_last())
    } else {
        entries_of(lines.drop_last()).insert(lines.last().key, node_of(lines.last().body))
    }
}

/// The entries of a table. An entry that holds nothing is none.
#[verifier::opaque]
pub open spec fn table_entries(table: toml_edit::Table) -> Map<Seq<char>, TomlNode> {
    entries_of(table_sheet(table).lines)
}

/// What an item says.
#[verifier::opaque]
pub open spec fn item_node(item: toml_edit::Item) -> TomlNode {
    node_of(item_body(item))
}

/// The entries of a document's root table.
#[verifier::opaque]
pub open spec fn document_entries(document: toml_edit::DocumentMut) -> Map<Seq<char>, TomlNode> {
    entries_of(document_page(document).root.lines)
}

/// The entries that a text parses to, where it is TOML.
#[verifier::opaque]
pub open spec fn parsed_entries(text: Seq<char>) -> Option<Map<Seq<char>, TomlNode>> {
    match parsed_page(text) {
        Some(page) => Some(entries_of(page.root.lines)),
        None => None,
    }
}

/// What a text parses to as a single value, where it is one.
#[verifier::opaque]
pub open spec fn parsed_node(text: Seq<char>) -> Option<TomlNode> {
    match parsed_body(text) {
        Some(body) => Some(node_of(body)),
        None => None,
    }
}

/// The place of a key's line.
pub open spec fn line_of(lines: Seq<TomlLine>, key: Seq<char>) -> Option<int>
    decreases lines.len(),
{
    if lines.len() == 0 {
        None
    } else if lines.last().key == key {
        Some(lines.len() - 1)
    } else {
        line_of(lines.drop_last(), key)
    }
}

/// The item at a key, as it is written.
pub open spec fn body_at(sheet: TomlSheet, key: Seq<char>) -> Option<TomlBody> {
    match line_of(sheet.lines, key) {
        Some(i) => if sheet.lines[i].body is Nothing {
            None
        } else {
            Some(sheet.lines[i].body)
        },
        None => None,
    }
}

/// A sheet with another item on a key's line; the line stays where it is and keeps its key as it is
/// written.
pub open spec fn with_body(sheet: TomlSheet, key: Seq<char>, body: TomlBody) -> TomlSheet {
    match line_of(sheet.lines, key) {
        Some(i) => TomlSheet {
            lines: sheet.lines.update(i, TomlLine { body, ..sheet.lines[i] }),
            ..sheet
        },
        None => sheet,
    }
}

pub open spec fn no_decor() -> Decor {
    Decor { before: None, after: None }
}

/// A line whose key is written in no way of its own.
pub open spec fn plain_line(key: Seq<char>, body: TomlBody) -> TomlLine {
    TomlLine {
        key,
        form: KeyForm { spelling: None, leaf: no_decor(), dotted: no_decor() },
        body,
    }
}

/// A sheet with a line for a key: in place of the key's line, or behind all others.
pub open spec fn inserted(sheet: TomlSheet, key: Seq<char>, body: TomlBody) -> TomlSheet {
    match line_of(sheet.lines, key) {
        Some(i) => TomlSheet { lines: sheet.lines.update(i, plain_line(key, body)), ..sheet },
        None => TomlSheet { lines: sheet.lines.push(plain_line(key, body)), ..sheet },
    }
}

/// A sheet without a key's line.
pub open spec fn without_line(sheet: TomlSheet, key: Seq<char>) -> TomlSheet {
    match line_of(sheet.lines, key) {
        Some(i) => TomlSheet { lines: sheet.lines.remove(i), ..sheet },
        None => sheet,
    }
}

/// A new table's sheet.
pub open spec fn empty_sheet(implicit: bool) -> TomlSheet {
    TomlSheet {
        form: TableForm { decor: no_decor(), implicit, dotted: false, position: None },
        lines: Seq::empty(),
    }
}

/// A value that is written in no way of its own.
pub open spec fn plain_body(node: TomlNode) -> TomlBody {
    TomlBody::Value { node, spelling: None, decor: no_decor() }
}

/// A value with what surrounds another.
pub open spec fn decorated(body: TomlBody, from: TomlBody) -> TomlBody {
    match (body, from) {
        (TomlBody::Value { node, spelling, decor: _ }, TomlBody::Value { decor, .. }) => {
            TomlBody::Value { node, spelling, decor }
        },
        _ => body,
    }
}

/// Whether two hundred and fifty-six of one character stand in a row.
pub open spec fn is_run(text: Seq<char>, start: int, c: char) -> bool {
    0 <= start && start + 256 <= text.len() && forall|i: int|
        start <= i < start + 256 ==> #[trigger] text[i] == c
}

/// Whether no quote mark stands more often in a row than the printer can count. It counts them in a
/// text that has no spelling of its own.
pub open spec fn has_short_runs(text: Seq<char>) -> bool {
    forall|start: int, c: char| c == '\'' || c == '"' ==> !#[trigger] is_run(text, start, c)
}

/// Whether an item can be printed.
pub open spec fn body_prints(body: TomlBody) -> bool
    decreases body,
{
    match body {
        TomlBody::Value { node, spelling, .. } => spelling is Some || node is Bool || node is Int
            || (node matches TomlNode::Str(text) && has_short_runs(text)),
        TomlBody::Table(sheet) => sheet_prints(sheet),
        TomlBody::Tables { sheets, .. } => forall|i: int|
            0 <= i < sheets.len() ==> sheet_prints(#[trigger] sheets[i]),
        TomlBody::Nothing => true,
    }
}

/// Whether a table can be printed.
pub open spec fn sheet_prints(sheet: TomlSheet) -> bool
    decreases sheet,
{
    forall|i: int|
        0 <= i < sheet.lines.len() ==> {
            &&& (#[trigger] sheet.lines[i]).form.spelling is Some || has_short_runs(
                sheet.lines[i].key,
            )
            &&& body_prints(sheet.lines[i].body)
        }
}

/// The entries of a table that has none.
pub open spec fn no_entries() -> Map<Seq<char>, TomlNode> {
    Map::empty()
}

/// `Table::get` finds the item of a key.
pub assume_specification<'a>[ toml_edit::Table::get ](
    table: &'a toml_edit::Table,
    key: &str,
) -> (r: Option<&'a toml_edit::Item>)
    ensures
        match r {
            Some(item) => table_entries(*table).contains_key(key@) && item_node(*item)
                == table_entries(*table)[key@] && !(item_node(*item) is Nothing) && body_at(
                table_sheet(*table),
                key@,
            ) == Some(item_body(*item)),
            None => !table_entries(*table).contains_key(key@) && body_at(
                table_sheet(*table),
                key@,
            ) is None,
        },
;

/// `Table::get_mut` finds the item of a key for change; the key's line stays where and as it is,
/// and no other line changes with it.
pub assume_specification<'a>[ toml_edit::Table::get_mut ](
    table: &'a mut toml_edit::Table,
    key: &str,
) -> (r: Option<&'a mut toml_edit::Item>)
    ensures
        match r {
            Some(item) => {
                &&& table_entries(*old(table)).contains_key(key@)
                &&& item_node(*item) == table_entries(*old(table))[key@]
                &&& !(item_node(*final(item)) is Nothing) ==> table_entries(*final(table))
                    == table_entries(*old(table)).insert(key@, item_node(*final(item)))
                &&& body_at(table_sheet(*old(table)), key@) == Some(item_body(*item))
                &&& table_sheet(*final(table)) == with_body(
                    table_sheet(*old(table)),
                    key@,
                    item_body(*final(item)),
                )
            },
            None => {
                &&& !table_entries(*old(table)).contains_key(key@)
                &&& body_at(table_sheet(*old(table)), key@) is None
                &&& *final(table) == *old(table)
            },
        },
;

/// `Table::contains_key` says whether a key has an item.
pub assume_specification[ toml_edit::Table::contains_key ](
    table: &toml_edit::Table,
    key: &str,
) -> (r: bool)
    ensures
        r == table_entries(*table).contains_key(key@),
        r == body_at(table_sheet(*table), key@) is Some,
;

/// `Table::insert` sets the item of a key: on a line behind all others, or on the key's line, which
/// is then written plainly.
pub assume_specification[ toml_edit::Table::insert ](
    table: &mut toml_edit::Table,
    key: &str,
    item: toml_edit::Item,
) -> (r: Option<toml_edit::Item>)
    ensures
        !(item_node(item) is Nothing) ==> table_entries(*final(table)) == table_entries(
            *old(table),
        ).insert(key@, item_node(item)),
        table_sheet(*final(table)) == inserted(table_sheet(*old(table)), key@, item_body(item)),
;

/// `Table::remove` takes the line of a key out; the others keep their order.
pub assume_specification[ toml_edit::Table::remove ](
    table: &mut toml_edit::Table,
    key: &str,
) -> (r: Option<toml_edit::Item>)
    ensures
        table_entries(*final(table)) == table_entries(*old(table)).remove(key@),
        table_sheet(*final(table)) == without_line(table_sheet(*old(table)), key@),
;

/// `Table::is_empty` says whether a table has no entry.
pub assume_specification[ toml_edit::Table::is_empty ](table: &toml_edit::Table) -> (r: bool)
    ensures
        r == (table_entries(*table) == no_entries()),
;

/// `Table::new` is a table without entries.
pub assume_specification[ toml_edit::Table::new ]() -> (r: toml_edit::Table)
    ensures
        table_entries(r) == no_entries(),
        table_sheet(r) == empty_sheet(false),
;

/// `Table::set_implicit` decides whether the header of a table without values is shown. The
/// entries stay.
pub assume_specification[ toml_edit::Table::set_implicit ](
    table: &mut toml_edit::Table,
    implicit: bool,
)
    ensures
        table_entries(*final(table)) == table_entries(*old(table)),
        table_sheet(*final(table)).lines == table_sheet(*old(table)).lines,
        table_sheet(*final(table)).form == (TableForm {
            implicit,
            ..table_sheet(*old(table)).form
        }),
;

/// `Item::as_table` gives the table that an item is.
pub assume_specification[ toml_edit::Item::as_table ](item: &toml_edit::Item) -> (r: Option<
    &toml_edit::Table,
>)
    ensures
        match r {
            Some(table) => item_node(*item) == TomlNode::Entries(table_entries(*table))
                && item_body(*item) == TomlBody::Table(table_sheet(*table)),
            None => !(item_node(*item) is Entries) && !(item_body(*item) is Table),
        },
;

/// `Item::as_table_mut` gives the table that an item is, for change.
pub assume_specification[ toml_edit::Item::as_table_mut ](item: &mut toml_edit::Item) -> (r: Option<
    &mut toml_edit::Table,
>)
    ensures
        match r {
            Some(table) => {
                &&& item_node(*old(item)) == TomlNode::Entries(table_entries(*table))
                &&& item_node(*final(item)) == TomlNode::Entries(table_entries(*final(table)))
                &&& item_body(*old(item)) == TomlBody::Table(table_sheet(*table))
                &&& item_body(*final(item)) == TomlBody::Table(table_sheet(*final(table)))
            },
            None => {
                &&& !(item_node(*old(item)) is Entries)
                &&& !(item_body(*old(item)) is Table)
                &&& *final(item) == *old(item)
            },
        },
;

/// `Item::as_str` gives the string that an item is.
pub assume_specification[ toml_edit::Item::as_str ](item: &toml_edit::Item) -> (r: Option<&str>)
    ensures
        match r {
            Some(text) => item_node(*item) == TomlNode::Str(text@),
            None => !(item_node(*item) is Str),
        },
;

/// `Item::as_bool` gives the boolean that an item is.
pub assume_specification[ toml_edit::Item::as_bool ](item: &toml_edit::Item) -> (r: Option<bool>)
    ensures
        match r {
            Some(value) => item_node(*item) == TomlNode::Bool(value),
            None => !(item_node(*item) is Bool),
        },
;

/// `Item::as_integer` gives the whole number that an item is.
pub assume_specification[ toml_edit::Item::as_integer ](item: &toml_edit::Item) -> (r: Option<i64>)
    ensures
        match r {
            Some(value) => item_node(*item) is Int && item_node(*item)->Int_0 == value,
            None => !(item_node(*item) is Int),
        },
;

/// `Item::clone` is an item that says the same and is written the same.
pub assume_specification[ <toml_edit::Item as Clone>::clone ](item: &toml_edit::Item) -> (r:
    toml_edit::Item)
    ensures
        item_node(r) == item_node(*item),
        item_body(r) == item_body(*item),
;

/// `Table::clone` is a table that says the same and is written the same.
pub assume_specification[ <toml_edit::Table as Clone>::clone ](table: &toml_edit::Table) -> (r:
    toml_edit::Table)
    ensures
        table_entries(r) == table_entries(*table),
        table_sheet(r) == table_sheet(*table),
;

/// `DocumentMut::new` is a document without entries.
pub assume_specification[ toml_edit::DocumentMut::new ]() -> (r: toml_edit::DocumentMut)
    ensures
        document_entries(r) == no_entries(),
;

/// `DocumentMut::as_table` is the root table.
pub assume_specification[ toml_edit::DocumentMut::as_table ](
    document: &toml_edit::DocumentMut,
) -> (r: &toml_edit::Table)
    ensures
        table_entries(*r) == document_entries(*document),
        table_sheet(*r) == document_page(*document).root,
;

/// `DocumentMut::as_table_mut` is the root table, for change.
pub assume_specification[ toml_edit::DocumentMut::as_table_mut ](
    document: &mut toml_edit::DocumentMut,
) -> (r: &mut toml_edit::Table)
    ensures
        table_entries(*r) == document_entries(*old(document)),
        document_entries(*final(document)) == table_entries(*final(r)),
        table_sheet(*r) == document_page(*old(document)).root,
        document_page(*final(document)) == (TomlPage {
            root: table_sheet(*final(r)),
            ..document_page(*old(document))
        }),
;

/// Whether a text says something, but has none of the marks with which a line of TOML says it: an
/// equals sign, the bracket of a header, or the mark of a comment.
pub open spec fn is_bare(text: Seq<char>) -> bool {
    &&& !text.contains('=') && !text.contains('[') && !text.contains('#')
    &&& exists|i: int| 0 <= i < text.len() && is_alphanumeric(#[trigger] text[i])
}

/// `DocumentMut::from_str` parses a text; what it parses to is a function of the text. All that is
/// in a parsed document has the spelling that the text gave it, and so can be printed. No table of
/// it has a key twice or holds a key without an item, and no value of it is a table. A text without
/// any mark of TOML that is not blank does not parse.
#[verifier::external_body]
pub(crate) fn read_document(text: &str) -> (r: Option<toml_edit::DocumentMut>)
    ensures
        match r {
            Some(document) => parsed_entries(text@) == Some(document_entries(document))
                && parsed_page(text@) == Some(document_page(document)) && sheet_prints(
                document_page(document).root,
            ) && sheet_wf(document_page(document).root),
            None => parsed_entries(text@) is None && parsed_page(text@) is None,
        },
        is_bare(text@) ==> r is None,
{
    text.parse::<toml_edit::DocumentMut>().ok()
}

/// Prints a `DocumentMut`. The text is a function of how the document is written: its lines in
/// their order with all that surrounds them. Nothing is claimed of what the text parses to.
#[verifier::external_body]
pub(crate) fn print_document(document: &toml_edit::DocumentMut) -> (r: String)
    requires
        sheet_prints(document_page(*document).root),
    ensures
        r@ == printed(document_page(*document)),
{
    document.to_string()
}

/// `Value::from_str` parses a single value; what it parses to is a function of the text. It has the
/// spelling that the text gave it.
#[verifier::external_body]
pub(crate) fn read_value_item(text: &str) -> (r: Option<toml_edit::Item>)
    ensures
        match r {
            Some(item) => parsed_node(text@) == Some(item_node(item)) && !(item_node(
                item,
            ) is Nothing) && !(item_node(item) is Entries) && parsed_body(text@) == Some(
                item_body(item),
            ) && item_body(item) is Value && body_prints(item_body(item)),
            None => parsed_node(text@) is None && parsed_body(text@) is None,
        },
{
    text.parse::<toml_edit::Value>().ok().map(toml_edit::Item::Value)
}

/// Prints an `Item` that is a value other than a string or a boolean.
#[verifier::external_body]
pub(crate) fn print_item(item: &toml_edit::Item) -> (r: String)
    requires
        body_prints(item_body(*item)),
    ensures
        item_node(*item) matches TomlNode::Int(_, text) ==> r@ == text,
        item_node(*item) matches TomlNode::Other(text) ==> r@ == text,
{
    item.to_string()
}

/// Prints the value that an item is without the white space and comments around it. `Value`
/// prints a string as it was spelled, or else quotes and escapes it, so that the text parses as
/// the same string, and with the same spelling where it had one.
#[verifier::external_body]
pub(crate) fn print_value(item: &toml_edit::Item) -> (r: String)
    requires
        body_prints(item_body(*item)),
    ensures
        item_node(*item) is Str ==> parsed_node(r@) == Some(item_node(*item)),
        item_node(*item) is Str ==> (item_body(*item) matches TomlBody::Value {
            node,
            spelling: Some(text),
            ..
        } ==> parsed_body(r@) == Some(
            TomlBody::Value { node, spelling: Some(text), decor: no_decor() },
        )),
{
    match item.as_value() {
        Some(value) => {
            let mut value = value.clone();
            value.decor_mut().clear();
            value.to_string()
        },
        None => String::new(),
    }
}

/// `toml_edit::value` makes an item of a string.
#[verifier::external_body]
pub(crate) fn str_item(text: &str) -> (r: toml_edit::Item)
    ensures
        item_node(r) == TomlNode::Str(text@),
        item_body(r) == plain_body(TomlNode::Str(text@)),
{
    toml_edit::value(text)
}

/// `toml_edit::value` makes an item of a boolean.
#[verifier::external_body]
pub(crate) fn bool_item(value: bool) -> (r: toml_edit::Item)
    ensures
        item_node(r) == TomlNode::Bool(value),
        item_body(r) == plain_body(TomlNode::Bool(value)),
{
    toml_edit::value(value)
}

/// `Item::Table` makes an item of a table.
#[verifier::external_body]
pub(crate) fn table_item(table: toml_edit::Table) -> (r: toml_edit::Item)
    ensures
        item_node(r) == TomlNode::Entries(table_entries(table)),
        item_body(r) == TomlBody::Table(table_sheet(table)),
{
    toml_edit::Item::Table(table)
}

/// Gives a value the white space and comments around another, through `Value::decor_mut`. A
/// string or a boolean says the same with them and keeps its spelling.
#[verifier::external_body]
pub(crate) fn take_decor(to: &mut toml_edit::Item, from: &toml_edit::Item)
    ensures
        item_node(*old(to)) is Str || item_node(*old(to)) is Bool ==> item_node(*final(to))
            == item_node(*old(to)) && item_body(*final(to)) == decorated(
            item_body(*old(to)),
            item_body(*from),
        ),
{
    if let (Some(to), Some(from)) = (to.as_value_mut(), from.as_value()) {
        *to.decor_mut() = from.decor().clone();
    }
}

/// Lists the keys of a table through `Table::iter`: each key that has an item, once.
#[verifier::external_body]
pub(crate) fn list_keys(table: &toml_edit::Table) -> (r: Vec<String>)
    ensures
        forall|key: Seq<char>| #[trigger]
            table_entries(*table).contains_key(key) <==> exists|i: int|
                0 <= i < r@.len() && (#[trigger] r@[i])@ == key,
        forall|i: int, j: int| 0 <= i < j < r@.len() ==> (#[trigger] r@[i])@ != (#[trigger] r@[j])@,
{
    table.iter().map(|(key, _)| key.to_owned()).collect()
}

/// The characters of the keys of a path.
pub open spec fn path_view(path: Seq<String>) -> Seq<Seq<char>> {
    path.map_values(|key: String| key@)
}

/// What is found when a path of tables is walked.
pub enum Found {
    Entries(Map<Seq<char>, TomlNode>),
    Absent,
    Blocked,
}

/// Walks a path of tables: a missing key ends it, an item that is no table blocks it.
pub open spec fn walk(entries: Map<Seq<char>, TomlNode>, path: Seq<Seq<char>>) -> Found
    decreases path.len(),
{
    if path.len() == 0 {
        Found::Entries(entries)
    } else if !entries.contains_key(path[0]) {
        Found::Absent
    } else {
        match entries[path[0]] {
            TomlNode::Entries(inner) => walk(inner, path.skip(1)),
            _ => Found::Blocked,
        }
    }
}

/// The item that a document has at a path.
pub open spec fn node_at(entries: Map<Seq<char>, TomlNode>, path: Seq<Seq<char>>) -> Option<
    TomlNode,
> {
    if path.len() == 0 {
        None
    } else {
        match walk(entries, path.drop_last()) {
            Found::Entries(inner) => if inner.contains_key(path.last()) {
                Some(inner[path.last()])
            } else {
                None
            },
            _ => None,
        }
    }
}

/// The entries with another item at a key of the table at a path.
pub open spec fn with_node(
    entries: Map<Seq<char>, TomlNode>,
    path: Seq<Seq<char>>,
    key: Seq<char>,
    node: TomlNode,
) -> Map<Seq<char>, TomlNode>
    decreases path.len(),
{
    if path.len() == 0 {
        entries.insert(key, node)
    } else {
        entries.insert(
            path[0],
            TomlNode::Entries(with_node(entries[path[0]]->Entries_0, path.skip(1), key, node)),
        )
    }
}

/// The entries without the item at a key of the table at a path.
pub open spec fn without_node(
    entries: Map<Seq<char>, TomlNode>,
    path: Seq<Seq<char>>,
    key: Seq<char>,
) -> Map<Seq<char>, TomlNode>
    decreases path.len(),
{
    if path.len() == 0 {
        entries.remove(key)
    } else {
        entries.insert(
            path[0],
            TomlNode::Entries(without_node(entries[path[0]]->Entries_0, path.skip(1), key)),
        )
    }
}

/// The entries with a table at every step of a path.
pub open spec fn with_tables(entries: Map<Seq<char>, TomlNode>, path: Seq<Seq<char>>) -> Map<
    Seq<char>,
    TomlNode,
>
    decreases path.len(),
{
    if path.len() == 0 {
        entries
    } else {
        let inner = if entries.contains_key(path[0]) {
            entries[path[0]]->Entries_0
        } else {
            Map::empty()
        };
        entries.insert(path[0], TomlNode::Entries(with_tables(inner, path.skip(1))))
    }
}

/// A sheet with an item at a key of the table at a path: on the key's line, with what surrounds the
/// value there, or on a line behind all others.
pub open spec fn put_in(
    sheet: TomlSheet,
    path: Seq<Seq<char>>,
    key: Seq<char>,
    body: TomlBody,
) -> TomlSheet
    decreases path.len(),
{
    if path.len() == 0 {
        match body_at(sheet, key) {
            Some(previous) => with_body(sheet, key, decorated(body, previous)),
            None => inserted(sheet, key, body),
        }
    } else {
        with_body(
            sheet,
            path[0],
            TomlBody::Table(
                put_in(body_at(sheet, path[0])->0->Table_0, path.skip(1), key, body),
            ),
        )
    }
}

/// A sheet without the line at a key of the table at a path.
pub open spec fn taken_from(sheet: TomlSheet, path: Seq<Seq<char>>, key: Seq<char>) -> TomlSheet
    decreases path.len(),
{
    if path.len() == 0 {
        without_line(sheet, key)
    } else {
        with_body(
            sheet,
            path[0],
            TomlBody::Table(taken_from(body_at(sheet, path[0])->0->Table_0, path.skip(1), key)),
        )
    }
}

/// A sheet with a table at every step of a path. A table that is made has no header until it has
/// values.
pub open spec fn tables_in(sheet: TomlSheet, path: Seq<Seq<char>>) -> TomlSheet
    decreases path.len(),
{
    if path.len() == 0 {
        sheet
    } else {
        match body_at(sheet, path[0]) {
            Some(body) => with_body(
                sheet,
                path[0],
                TomlBody::Table(tables_in(body->Table_0, path.skip(1))),
            ),
            None => inserted(
                sheet,
                path[0],
                TomlBody::Table(tables_in(empty_sheet(true), path.skip(1))),
            ),
        }
    }
}

/// The item at a key of the table at a path, as it is written.
pub open spec fn body_in(sheet: TomlSheet, path: Seq<Seq<char>>, key: Seq<char>) -> Option<TomlBody>
    decreases path.len(),
{
    if path.len() == 0 {
        body_at(sheet, key)
    } else {
        match body_at(sheet, path[0]) {
            Some(TomlBody::Table(inner)) => body_in(inner, path.skip(1), key),
            _ => None,
        }
    }
}

proof fn lemma_line_of(lines: Seq<TomlLine>, key: Seq<char>)
    ensures
        line_of(lines, key) matches Some(i) ==> 0 <= i < lines.len() && lines[i].key == key,
    decreases lines.len(),
{
    if lines.len() > 0 && lines.last().key != key {
        lemma_line_of(lines.drop_last(), key);
    }
}

/// A text without quote marks has no long runs of them; neither has a short one.
pub proof fn lemma_short_runs(text: Seq<char>)
    requires
        text.len() < 256 || !(text.contains('\'') || text.contains('"')),
    ensures
        has_short_runs(text),
{
    assert forall|start: int, c: char| c == '\'' || c == '"' implies !#[trigger] is_run(
        text,
        start,
        c,
    ) by {
        if is_run(text, start, c) {
            assert(text[start] == c);
            assert(text.contains(c));
        }
    }
}

/// Whether the printer can count the quote marks of a text.
pub fn short_runs(text: &str) -> (r: bool)
    ensures
        r == has_short_runs(text@),
{
    let chars = chars_of(text);
    let mut run: usize = 0;
    let mut i: usize = 0;
    while i < chars.len()
        invariant
            chars@ == text@,
            i <= chars.len(),
            run <= i,
            run < 256 || !(chars@[i - 1] == '\'' || chars@[i - 1] == '"'),
            i > 0 ==> run > 0,
            forall|j: int| i - run <= j < i ==> #[trigger] chars@[j] == chars@[i - 1],
            run < i ==> chars@[i - run - 1] != chars@[i - 1],
            forall|start: int, c: char|
                (c == '\'' || c == '"') && start + 256 <= i ==> !#[trigger] is_run(text@, start, c),
        decreases chars.len() - i,
    {
        if i > 0 && chars[i] == chars[i - 1] {
            run += 1;
        } else {
            run = 1;
        }
        i += 1;
        let quote = chars[i - 1] == '\'' || chars[i - 1] == '"';
        if quote && run >= 256 {
            proof {
                let c = chars@[i - 1];
                assert(is_run(text@, i - 256, c));
            }
            return false;
        }
        proof {
            assert forall|start: int, c: char|
                (c == '\'' || c == '"') && start + 256 <= i implies !#[trigger] is_run(
                text@,
                start,
                c,
            ) by {
                if is_run(text@, start, c) && start + 256 == i {
                    assert(text@[i - 1] == c);
                    assert(text@[i - run - 1] == c);
                }
            }
        }
    }
    true
}

/// An item of a table that can be printed can be printed.
pub proof fn lemma_body_prints(sheet: TomlSheet, key: Seq<char>)
    requires
        sheet_prints(sheet),
    ensures
        body_at(sheet, key) matches Some(body) ==> body_prints(body),
{
    lemma_line_of(sheet.lines, key);
}

proof fn lemma_with_body_prints(sheet: TomlSheet, key: Seq<char>, body: TomlBody)
    requires
        sheet_prints(sheet),
        body_prints(body),
    ensures
        sheet_prints(with_body(sheet, key, body)),
{
    lemma_line_of(sheet.lines, key);
    let after = with_body(sheet, key, body);
    assert forall|i: int| 0 <= i < after.lines.len() implies {
        &&& (#[trigger] after.lines[i]).form.spelling is Some || has_short_runs(after.lines[i].key)
        &&& body_prints(after.lines[i].body)
    } by {
        assert(sheet.lines[i].form.spelling is Some || has_short_runs(sheet.lines[i].key));
    }
}

proof fn lemma_inserted_prints(sheet: TomlSheet, key: Seq<char>, body: TomlBody)
    requires
        sheet_prints(sheet),
        body_prints(body),
        has_short_runs(key),
    ensures
        sheet_prints(inserted(sheet, key, body)),
{
    lemma_line_of(sheet.lines, key);
    let after = inserted(sheet, key, body);
    assert forall|i: int| 0 <= i < after.lines.len() implies {
        &&& (#[trigger] after.lines[i]).form.spelling is Some || has_short_runs(after.lines[i].key)
        &&& body_prints(after.lines[i].body)
    } by {
        if i < sheet.lines.len() {
            assert(sheet.lines[i].form.spelling is Some || has_short_runs(sheet.lines[i].key));
        }
    }
}

proof fn lemma_without_line_prints(sheet: TomlSheet, key: Seq<char>)
    requires
        sheet_prints(sheet),
    ensures
        sheet_prints(without_line(sheet, key)),
{
    lemma_line_of(sheet.lines, key);
    let after = without_line(sheet, key);
    assert forall|i: int| 0 <= i < after.lines.len() implies {
        &&& (#[trigger] after.lines[i]).form.spelling is Some || has_short_runs(after.lines[i].key)
        &&& body_prints(after.lines[i].body)
    } by {
        match line_of(sheet.lines, key) {
            Some(at) => {
                let from = if i < at {
                    i
                } else {
                    i + 1
                };
                assert(after.lines[i] == sheet.lines[from]);
            },
            None => {},
        }
    }
}

/// A table that can be printed still can after an item that can be printed was put in.
pub proof fn lemma_put_in_prints(
    sheet: TomlSheet,
    path: Seq<Seq<char>>,
    key: Seq<char>,
    body: TomlBody,
)
    requires
        sheet_prints(sheet),
        body_prints(body),
        has_short_runs(key) || body_in(sheet, path, key) is Some,
        is_table_path(sheet, path),
    ensures
        sheet_prints(put_in(sheet, path, key, body)),
    decreases path.len(),
{
    if path.len() == 0 {
        match body_at(sheet, key) {
            Some(previous) => {
                lemma_with_body_prints(sheet, key, decorated(body, previous));
            },
            None => {
                lemma_inserted_prints(sheet, key, body);
            },
        }
    } else {
        lemma_body_prints(sheet, path[0]);
        let inner = body_at(sheet, path[0])->0->Table_0;
        lemma_put_in_prints(inner, path.skip(1), key, body);
        lemma_with_body_prints(
            sheet,
            path[0],
            TomlBody::Table(put_in(inner, path.skip(1), key, body)),
        );
    }
}

pub proof fn lemma_taken_from_prints(sheet: TomlSheet, path: Seq<Seq<char>>, key: Seq<char>)
    requires
        sheet_prints(sheet),
        is_table_path(sheet, path),
    ensures
        sheet_prints(taken_from(sheet, path, key)),
    decreases path.len(),
{
    if path.len() == 0 {
        lemma_without_line_prints(sheet, key);
    } else {
        lemma_body_prints(sheet, path[0]);
        let inner = body_at(sheet, path[0])->0->Table_0;
        lemma_taken_from_prints(inner, path.skip(1), key);
        lemma_with_body_prints(
            sheet,
            path[0],
            TomlBody::Table(taken_from(inner, path.skip(1), key)),
        );
    }
}

pub proof fn lemma_tables_in_prints(sheet: TomlSheet, path: Seq<Seq<char>>)
    requires
        sheet_prints(sheet),
        forall|i: int| 0 <= i < path.len() ==> has_short_runs(#[trigger] path[i]),
        may_be_table_path(sheet, path),
    ensures
        sheet_prints(tables_in(sheet, path)),
    decreases path.len(),
{
    if path.len() > 0 {
        lemma_body_prints(sheet, path[0]);
        assert forall|i: int| 0 <= i < path.skip(1).len() implies has_short_runs(
            #[trigger] path.skip(1)[i],
        ) by {
            assert(path.skip(1)[i] == path[i + 1]);
        }
        match body_at(sheet, path[0]) {
            Some(body) => {
                lemma_tables_in_prints(body->Table_0, path.skip(1));
                lemma_with_body_prints(
                    sheet,
                    path[0],
                    TomlBody::Table(tables_in(body->Table_0, path.skip(1))),
                );
            },
            None => {
                let fresh = empty_sheet(true);
                assert(sheet_prints(fresh));
                lemma_fresh_path(path.skip(1));
                lemma_tables_in_prints(fresh, path.skip(1));
                lemma_inserted_prints(
                    sheet,
                    path[0],
                    TomlBody::Table(tables_in(fresh, path.skip(1))),
                );
            },
        }
    }
}

proof fn lemma_fresh_path(path: Seq<Seq<char>>)
    ensures
        may_be_table_path(empty_sheet(true), path),
{
    assert(empty_sheet(true).lines.len() == 0);
}

/// Whether every step of a path is a table.
pub open spec fn is_table_path(sheet: TomlSheet, path: Seq<Seq<char>>) -> bool
    decreases path.len(),
{
    path.len() > 0 ==> (body_at(sheet, path[0]) matches Some(TomlBody::Table(inner))
        && is_table_path(inner, path.skip(1)))
}

/// Whether every step of a path that is there is a table.
pub open spec fn may_be_table_path(sheet: TomlSheet, path: Seq<Seq<char>>) -> bool
    decreases path.len(),
{
    path.len() > 0 ==> match body_at(sheet, path[0]) {
        Some(TomlBody::Table(inner)) => may_be_table_path(inner, path.skip(1)),
        Some(_) => false,
        None => true,
    }
}

/// A table at the end of a path, where every step is one.
pub(crate) fn table_at<'a>(
    table: &'a toml_edit::Table,
    path: &Vec<String>,
    depth: usize,
) -> (r: Result<Option<&'a toml_edit::Table>, ()>)
    requires
        depth <= path.len(),
    ensures
        match walk(table_entries(*table), path_view(path@).skip(depth as int)) {
            Found::Entries(inner) => r matches Ok(Some(found)) && table_entries(*found) == inner,
            Found::Absent => r matches Ok(None),
            Found::Blocked => r is Err,
        },
        r matches Ok(Some(found)) ==> {
            let rest = path_view(path@).skip(depth as int);
            &&& is_table_path(table_sheet(*table), rest)
            &&& sheet_prints(table_sheet(*table)) ==> sheet_prints(table_sheet(*found))
            &&& forall|key: Seq<char>| #[trigger]
                body_in(table_sheet(*table), rest, key) == body_at(table_sheet(*found), key)
        },
    decreases path.len() - depth,
{
    let ghost rest = path_view(path@).skip(depth as int);
    if depth == path.len() {
        return Ok(Some(table));
    }
    proof {
        assert(rest[0] == path@[depth as int]@);
        assert(rest.skip(1) == path_view(path@).skip(depth + 1));
    }
    match table.get(path[depth].as_str()) {
        Some(item) => match item.as_table() {
            Some(inner) => {
                proof {
                    if sheet_prints(table_sheet(*table)) {
                        lemma_body_prints(table_sheet(*table), rest[0]);
                    }
                    assert forall|key: Seq<char>| #[trigger]
                        body_in(table_sheet(*table), rest, key) == body_in(
                        table_sheet(*inner),
                        rest.skip(1),
                        key,
                    ) by {}
                }
                table_at(inner, path, depth + 1)
            },
            None => Err(()),
        },
        None => Ok(None),
    }
}

/// Sets the item at a key of the table at a path, with the decoration of the one it replaces.
/// `None` is a path that is not all tables.
pub(crate) fn put_item(
    table: &mut toml_edit::Table,
    path: &Vec<String>,
    depth: usize,
    key: &str,
    item: toml_edit::Item,
) -> (r: Option<()>)
    requires
        depth <= path.len(),
        item_node(item) is Str || item_node(item) is Bool,
    ensures
        ({
            let rest = path_view(path@).skip(depth as int);
            match walk(table_entries(*old(table)), rest) {
                Found::Entries(_) => r is Some && table_entries(*final(table)) == with_node(
                    table_entries(*old(table)),
                    rest,
                    key@,
                    item_node(item),
                ) && table_sheet(*final(table)) == put_in(
                    table_sheet(*old(table)),
                    rest,
                    key@,
                    item_body(item),
                ),
                _ => r is None,
            }
        }),
    decreases path.len() - depth,
{
    let ghost rest = path_view(path@).skip(depth as int);
    if depth == path.len() {
        let mut item = item;
        match table.get(key) {
            Some(previous) => take_decor(&mut item, previous),
            None => {},
        }
        match table.get_mut(key) {
            Some(slot) => {
                *slot = item;
                return Some(());
            },
            None => {},
        }
        table.insert(key, item);
        return Some(());
    }
    proof {
        assert(rest[0] == path@[depth as int]@);
        assert(rest.skip(1) == path_view(path@).skip(depth + 1));
    }
    match table.get_mut(path[depth].as_str()) {
        Some(child) => match child.as_table_mut() {
            Some(inner) => put_item(inner, path, depth + 1, key, item),
            None => None,
        },
        None => None,
    }
}

/// Takes the item at a key of the table at a path out. `None` is a path that is not all tables.
pub(crate) fn take_item(
    table: &mut toml_edit::Table,
    path: &Vec<String>,
    depth: usize,
    key: &str,
) -> (r: Option<()>)
    requires
        depth <= path.len(),
    ensures
        ({
            let rest = path_view(path@).skip(depth as int);
            match walk(table_entries(*old(table)), rest) {
                Found::Entries(_) => r is Some && table_entries(*final(table)) == without_node(
                    table_entries(*old(table)),
                    rest,
                    key@,
                ) && table_sheet(*final(table)) == taken_from(
                    table_sheet(*old(table)),
                    rest,
                    key@,
                ),
                _ => r is None,
            }
        }),
    decreases path.len() - depth,
{
    let ghost rest = path_view(path@).skip(depth as int);
    if depth == path.len() {
        table.remove(key);
        return Some(());
    }
    proof {
        assert(rest[0] == path@[depth as int]@);
        assert(rest.skip(1) == path_view(path@).skip(depth + 1));
    }
    match table.get_mut(path[depth].as_str()) {
        Some(child) => match child.as_table_mut() {
            Some(inner) => take_item(inner, path, depth + 1, key),
            None => None,
        },
        None => None,
    }
}

/// Makes sure that every step of a path is a table, and counts the steps that were there. `None`
/// is a step that is no table.
pub(crate) fn make_tables(table: &mut toml_edit::Table, path: &Vec<String>, depth: usize) -> (r:
    Option<usize>)
    requires
        depth <= path.len(),
    ensures
        ({
            let rest = path_view(path@).skip(depth as int);
            let before = table_entries(*old(table));
            match walk(before, rest) {
                Found::Blocked => r is None,
                _ => r matches Some(there) && there == depth + steps_there(before, rest)
                    && table_entries(*final(table)) == with_tables(before, rest) && table_sheet(
                    *final(table),
                ) == tables_in(table_sheet(*old(table)), rest) && may_be_table_path(
                    table_sheet(*old(table)),
                    rest,
                ),
            }
        }),
    decreases path.len() - depth,
{
    let ghost rest = path_view(path@).skip(depth as int);
    let ghost before = table_entries(*table);
    if depth == path.len() {
        return Some(depth);
    }
    proof {
        assert(rest[0] == path@[depth as int]@);
        assert(rest.skip(1) == path_view(path@).skip(depth + 1));
    }
    let key = path[depth].as_str();
    if !table.contains_key(key) {
        let mut made = toml_edit::Table::new();
        made.set_implicit(true);
        proof {
            lemma_walk_empty(rest.skip(1));
        }
        match make_tables(&mut made, path, depth + 1) {
            Some(_) => {},
            None => return None,
        }
        table.insert(key, table_item(made));
        return Some(depth);
    }
    match table.get_mut(key) {
        Some(child) => match child.as_table_mut() {
            Some(inner) => make_tables(inner, path, depth + 1),
            None => None,
        },
        None => None,
    }
}

/// How many steps of a path are tables already, from its start.
pub open spec fn steps_there(entries: Map<Seq<char>, TomlNode>, path: Seq<Seq<char>>) -> nat
    decreases path.len(),
{
    if path.len() == 0 || !entries.contains_key(path[0]) {
        0
    } else {
        1 + steps_there(entries[path[0]]->Entries_0, path.skip(1))
    }
}

proof fn lemma_walk_empty(path: Seq<Seq<char>>)
    ensures
        !(walk(Map::empty(), path) is Blocked),
{
}

} // verus!
