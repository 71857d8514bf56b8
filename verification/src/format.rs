//! Formatting of YAML documents: the document is read into a tree, the
//! tree is normalised where that is asked for, the tree is written out
//! again, and the quoting of what was written is corrected against the
//! document.
//!
//! Normalising a tree looks into every string that the tree holds, outside
//! of mapping keys. A string that is itself the text of a YAML sequence or
//! mapping is replaced by the text that is written for the normalised tree
//! of that text.

use vstd::prelude::*;
use crate::requote::{requote, requoted};
use crate::value::{entry_trees, lemma_mapping_tree, lemma_sequence_tree, trees, Tree, YamlValue};
use crate::yaml::{parse, serialize, yaml_parse, yaml_text};

verus! {

/// How many times normalisation steps into a string that holds YAML which
/// itself holds strings with YAML. A document nested more deeply is
/// refused.
pub const MAX_EMBEDDING_DEPTH: usize = 64;

/// Why a document was not formatted.
#[derive(Debug)]
pub enum FormatError {
    /// The document is not YAML that can be read. The error is the one
    /// that the reader reported.
    Parse(serde_yaml::Error),
    /// A tree could not be written out as text. The error is the one that
    /// the writer reported.
    Serialize(serde_yaml::Error),
    /// Strings holding YAML are nested more than `MAX_EMBEDDING_DEPTH`
    /// deep.
    TooDeep,
}

/// The kinds of `FormatError`.
#[derive(Clone, Copy, Debug, PartialEq, Eq, Structural)]
pub enum ErrorKind {
    Parse,
    Serialize,
    TooDeep,
}

impl FormatError {
    /// The kind of this error.
    pub open spec fn kind_of(&self) -> ErrorKind {
        match self {
            FormatError::Parse(_) => ErrorKind::Parse,
            FormatError::Serialize(_) => ErrorKind::Serialize,
            FormatError::TooDeep => ErrorKind::TooDeep,
        }
    }

    /// The kind of this error.
    #[verifier::when_used_as_spec(kind_of)]
    pub fn kind(&self) -> (kind: ErrorKind)
        ensures
            kind == self.kind_of(),
    {
        match self {
            FormatError::Parse(_) => ErrorKind::Parse,
            FormatError::Serialize(_) => ErrorKind::Serialize,
            FormatError::TooDeep => ErrorKind::TooDeep,
        }
    }
}

/// The normalised form of `tree`, where strings that hold YAML may be
/// nested `depth` deep.
///
/// A sequence keeps its length and order, and each element is normalised. A
/// mapping keeps its keys and their order, and each value is normalised. A
/// string becomes what `text_normalized` makes of it and of what it reads
/// as. Every other tree stays as it is.
pub open spec fn normalized(tree: Tree, depth: nat) -> Result<Tree, FormatError>
    decreases depth, 1int, tree,
{
    match tree {
        Tree::Text(text) => text_normalized(text, yaml_parse(text), depth),
        Tree::Sequence(items) => match normalized_items(items, depth) {
            Err(error) => Err(error),
            Ok(formatted) => Ok(Tree::Sequence(formatted)),
        },
        Tree::Mapping(entries) => match normalized_entries(entries, depth) {
            Err(error) => Err(error),
            Ok(formatted) => Ok(Tree::Mapping(formatted)),
        },
        _ => Ok(tree),
    }
}

/// The normalised form of the string `text`, given what the string reads
/// as.
///
/// A string that cannot be read as YAML stays as it is. A string that reads
/// as a sequence or mapping becomes the text written for the normalised
/// form of what was read; that fails with the writer's error where the
/// form cannot be written, and as too deep where `depth` is used up. A
/// string that reads as anything else becomes what was read.
pub open spec fn text_normalized(
    text: Seq<char>,
    read: Result<Tree, serde_yaml::Error>,
    depth: nat,
) -> Result<Tree, FormatError>
    decreases depth, 0int, read,
{
    match read {
        Err(_) => Ok(Tree::Text(text)),
        Ok(inner) => if !inner.is_container() {
            Ok(inner)
        } else if depth == 0 {
            Err(FormatError::TooDeep)
        } else {
            match normalized(inner, (depth - 1) as nat) {
                Err(error) => Err(error),
                Ok(formatted) => match yaml_text(formatted) {
                    Err(error) => Err(FormatError::Serialize(error)),
                    Ok(written) => Ok(Tree::Text(written)),
                },
            }
        },
    }
}

/// The normalised forms of `items`, or the error of the first item that has
/// none.
pub open spec fn normalized_items(items: Seq<Tree>, depth: nat) -> Result<Seq<Tree>, FormatError>
    decreases depth, 1int, items,
{
    if items.len() == 0 {
        Ok(Seq::empty())
    } else {
        match normalized_items(items.drop_last(), depth) {
            Err(error) => Err(error),
            Ok(earlier) => match normalized(items.last(), depth) {
                Err(error) => Err(error),
                Ok(formatted) => Ok(earlier.push(formatted)),
            },
        }
    }
}

/// `entries` with each value normalised and each key as it was, or the
/// error of the first value that has no normalised form.
pub open spec fn normalized_entries(entries: Seq<(Tree, Tree)>, depth: nat) -> Result<
    Seq<(Tree, Tree)>,
    FormatError,
>
    decreases depth, 1int, entries,
{
    if entries.len() == 0 {
        Ok(Seq::empty())
    } else {
        match normalized_entries(entries.drop_last(), depth) {
            Err(error) => Err(error),
            Ok(earlier) => match normalized(entries.last().1, depth) {
                Err(error) => Err(error),
                Ok(formatted) => Ok(earlier.push((entries.last().0, formatted))),
            },
        }
    }
}

/// The tree that is written out for `document`: its normalised form if
/// `recursive` is set, else `document` itself.
pub open spec fn arranged(document: Tree, recursive: bool) -> Result<Tree, FormatError> {
    if recursive {
        normalized(document, MAX_EMBEDDING_DEPTH as nat)
    } else {
        Ok(document)
    }
}

/// The formatted text of `document`, the tree read from the text
/// `original`: what is written for the arranged tree, with its quoting
/// corrected against `original`.
pub open spec fn document_formatted(original: Seq<char>, document: Tree, recursive: bool) -> Result<
    Seq<char>,
    FormatError,
> {
    match arranged(document, recursive) {
        Err(error) => Err(error),
        Ok(tree) => match yaml_text(tree) {
            Err(error) => Err(FormatError::Serialize(error)),
            Ok(written) => Ok(requoted(original, written)),
        },
    }
}

/// The formatted text of the document `text`, or the reader's error where
/// `text` cannot be read.
pub open spec fn formatted(text: Seq<char>, recursive: bool) -> Result<Seq<char>, FormatError> {
    match yaml_parse(text) {
        Err(error) => Err(FormatError::Parse(error)),
        Ok(document) => document_formatted(text, document, recursive),
    }
}

/// Whether normalisation finds nothing to do in `tree`: every string that
/// it would look at, those in sequences and in the values of mappings,
/// either cannot be read as YAML or reads as the very same string.
pub open spec fn is_plain(tree: Tree) -> bool
    decreases tree,
{
    match tree {
        Tree::Text(text) => yaml_parse(text) is Err || yaml_parse(text) == Ok::<
            Tree,
            serde_yaml::Error,
        >(tree),
        Tree::Sequence(items) => forall|i: int| 0 <= i < items.len() ==> is_plain(#[trigger] items[i]),
        Tree::Mapping(entries) => forall|i: int|
            0 <= i < entries.len() ==> is_plain(#[trigger] entries[i].1),
        _ => true,
    }
}

/// Whether the text written for `tree` reads back as `tree`.
pub open spec fn reads_back(tree: Tree) -> bool {
    yaml_text(tree) matches Ok(written) ==> yaml_parse(written) == Ok::<Tree, serde_yaml::Error>(
        tree,
    )
}

/// Whether normalising `tree` a second time can find nothing new: every
/// text that the first normalisation writes reads back as the tree that it
/// was written for, and every string that only reads as a scalar reads as
/// a plain one.
pub open spec fn is_steady(tree: Tree, depth: nat) -> bool
    decreases depth, tree,
{
    match tree {
        Tree::Text(text) => match yaml_parse(text) {
            Err(_) => true,
            Ok(inner) => if !inner.is_container() {
                is_plain(inner)
            } else if depth == 0 {
                true
            } else {
                &&& is_steady(inner, (depth - 1) as nat)
                &&& normalized(inner, (depth - 1) as nat) matches Ok(formatted) ==> reads_back(
                    formatted,
                )
            },
        },
        Tree::Sequence(items) => forall|i: int|
            0 <= i < items.len() ==> is_steady(#[trigger] items[i], depth),
        Tree::Mapping(entries) => forall|i: int|
            0 <= i < entries.len() ==> is_steady(#[trigger] entries[i].1, depth),
        _ => true,
    }
}

/// What was read, as a tree.
pub open spec fn read_tree(read: Result<YamlValue, serde_yaml::Error>) -> Result<
    Tree,
    serde_yaml::Error,
> {
    match read {
        Ok(value) => Ok(value@),
        Err(error) => Err(error),
    }
}

/// Whether a text came out as the model says: as the text returned, or
/// with the error returned.
pub open spec fn agrees_on_text(
    result: Result<String, FormatError>,
    model: Result<Seq<char>, FormatError>,
) -> bool {
    match result {
        Ok(text) => model == Ok::<Seq<char>, FormatError>(text@),
        Err(error) => model == Err::<Seq<char>, FormatError>(error),
    }
}

/// Whether a normalisation came out as the model says: with the tree of the
/// value returned, or with the error returned.
pub open spec fn agrees(result: Result<YamlValue, FormatError>, model: Result<Tree, FormatError>) -> bool {
    match result {
        Ok(value) => model == Ok::<Tree, FormatError>(value@),
        Err(error) => model == Err::<Tree, FormatError>(error),
    }
}

/// An error among the first `n` items is the error of the whole sequence.
proof fn lemma_items_error_stays(items: Seq<Tree>, depth: nat, n: int, error: FormatError)
    requires
        0 <= n <= items.len(),
        normalized_items(items.take(n), depth) == Err::<Seq<Tree>, FormatError>(error),
    ensures
        normalized_items(items, depth) == Err::<Seq<Tree>, FormatError>(error),
    decreases items.len() - n,
{
    if n < items.len() {
        assert(items.take(n + 1).drop_last() == items.take(n));
        lemma_items_error_stays(items, depth, n + 1, error);
    } else {
        assert(items.take(n) == items);
    }
}

/// An error among the first `n` entries is the error of the whole mapping.
proof fn lemma_entries_error_stays(
    entries: Seq<(Tree, Tree)>,
    depth: nat,
    n: int,
    error: FormatError,
)
    requires
        0 <= n <= entries.len(),
        normalized_entries(entries.take(n), depth) == Err::<Seq<(Tree, Tree)>, FormatError>(error),
    ensures
        normalized_entries(entries, depth) == Err::<Seq<(Tree, Tree)>, FormatError>(error),
    decreases entries.len() - n,
{
    if n < entries.len() {
        assert(entries.take(n + 1).drop_last() == entries.take(n));
        lemma_entries_error_stays(entries, depth, n + 1, error);
    } else {
        assert(entries.take(n) == entries);
    }
}

/// Normalises the string `text`, given what it was read as, stepping at
/// most `depth` deep into strings that hold YAML.
///
/// Where `read` is an error the string is kept. Where it is a sequence or
/// mapping, the string becomes the text written for the normalised form of
/// that value. Where it is any other value, that value is returned.
pub fn format_text_as_read(
    text: String,
    read: Result<YamlValue, serde_yaml::Error>,
    depth: usize,
) -> (r: Result<YamlValue, FormatError>)
    ensures
        agrees(r, text_normalized(text@, read_tree(read), depth as nat)),
        (read matches Ok(inner) ==> inner@.has_distinct_keys()) ==> (r matches Ok(formatted)
            ==> formatted@.has_distinct_keys()),
    decreases depth, 0int, read,
{
    match read {
        Err(_) => Ok(YamlValue::String(text)),
        Ok(inner) => {
            if !inner.is_container() {
                Ok(inner)
            } else if depth == 0 {
                Err(FormatError::TooDeep)
            } else {
                match format_value_within(inner, depth - 1) {
                    Err(error) => Err(error),
                    Ok(formatted) => match serialize(&formatted) {
                        Err(error) => Err(FormatError::Serialize(error)),
                        Ok(written) => Ok(YamlValue::String(written)),
                    },
                }
            }
        },
    }
}

/// Normalises `value`, stepping at most `depth` deep into strings that hold
/// YAML.
fn format_value_within(value: YamlValue, depth: usize) -> (r: Result<YamlValue, FormatError>)
    ensures
        agrees(r, normalized(value@, depth as nat)),
        value@.has_distinct_keys() ==> (r matches Ok(formatted) ==> formatted@.has_distinct_keys()),
    decreases depth, 1int, value,
{
    match value {
        YamlValue::String(text) => {
            let read = parse(text.as_str());
            format_text_as_read(text, read, depth)
        },
        YamlValue::Sequence(items) => {
            let ghost all = items;
            let ghost models = trees(items@);
            let mut formatted: Vec<YamlValue> = Vec::new();
            proof {
                lemma_sequence_tree(all);
                assert(models.take(0) == Seq::<Tree>::empty());
                assert(trees(formatted@) == Seq::<Tree>::empty());
            }
            for item in it: items
                invariant
                    it.seq() == all@,
                    value == YamlValue::Sequence(all),
                    models == trees(all@),
                    normalized_items(models.take(it.index()), depth as nat) == Ok::<
                        Seq<Tree>,
                        FormatError,
                    >(trees(formatted@)),
                    value@.has_distinct_keys() ==> forall|j: int|
                        0 <= j < formatted.len() ==> (#[trigger] formatted[j])@.has_distinct_keys(),
            {
                let ghost i = it.index();
                let ghost earlier = trees(formatted@);
                proof {
                    lemma_sequence_tree(all);
                    assert(models.take(i + 1).drop_last() == models.take(i));
                    assert(models.take(i + 1).last() == item@);
                }
                match format_value_within(item, depth) {
                    Err(error) => {
                        proof {
                            lemma_items_error_stays(models, depth as nat, i + 1, error);
                        }
                        return Err(error);
                    },
                    Ok(done) => {
                        formatted.push(done);
                        assert(trees(formatted@) == earlier.push(done@));
                    },
                }
            }
            proof {
                assert(models.take(models.len() as int) == models);
                lemma_sequence_tree(formatted);
                if value@.has_distinct_keys() {
                    assert forall|j: int| 0 <= j < trees(formatted@).len() implies (
                    #[trigger] trees(formatted@)[j]).has_distinct_keys() by {
                        assert(formatted[j]@.has_distinct_keys());
                    }
                }
            }
            Ok(YamlValue::Sequence(formatted))
        },
        YamlValue::Mapping(entries) => {
            let ghost all = entries;
            let ghost models = entry_trees(entries@);
            let mut formatted: Vec<(YamlValue, YamlValue)> = Vec::new();
            proof {
                lemma_mapping_tree(all);
                assert(models.take(0) == Seq::<(Tree, Tree)>::empty());
                assert(entry_trees(formatted@) == Seq::<(Tree, Tree)>::empty());
            }
            for entry in it: entries
                invariant
                    it.seq() == all@,
                    value == YamlValue::Mapping(all),
                    models == entry_trees(all@),
                    normalized_entries(models.take(it.index()), depth as nat) == Ok::<
                        Seq<(Tree, Tree)>,
                        FormatError,
                    >(entry_trees(formatted@)),
                    formatted.len() == it.index(),
                    forall|j: int|
                        0 <= j < formatted.len() ==> (#[trigger] formatted[j]).0@ == models[j].0,
                    value@.has_distinct_keys() ==> forall|j: int|
                        0 <= j < formatted.len() ==> (#[trigger] formatted[j]).1@.has_distinct_keys(),
            {
                let ghost i = it.index();
                let ghost earlier = entry_trees(formatted@);
                proof {
                    lemma_mapping_tree(all);
                    assert(models.take(i + 1).drop_last() == models.take(i));
                    assert(models.take(i + 1).last() == (entry.0@, entry.1@));
                }
                let (key, item) = entry;
                match format_value_within(item, depth) {
                    Err(error) => {
                        proof {
                            lemma_entries_error_stays(models, depth as nat, i + 1, error);
                        }
                        return Err(error);
                    },
                    Ok(done) => {
                        formatted.push((key, done));
                        assert(entry_trees(formatted@) == earlier.push((key@, done@)));
                    },
                }
            }
            proof {
                assert(models.take(models.len() as int) == models);
                lemma_mapping_tree(formatted);
                lemma_mapping_tree(all);
                if value@.has_distinct_keys() {
                    let written = entry_trees(formatted@);
                    assert forall|j: int| 0 <= j < written.len() implies (#[trigger] written[j]).0
                        == models[j].0 && written[j].1.has_distinct_keys() by {
                        assert(formatted[j].0@ == models[j].0);
                        assert(formatted[j].1@.has_distinct_keys());
                    }
                }
            }
            Ok(YamlValue::Mapping(formatted))
        },
        other => Ok(other),
    }
}

/// Recursively formats the strings found within a YAML value.
///
/// Sequences and mappings keep their shape, and mappings their keys. A
/// string that holds the text of a YAML sequence or mapping is replaced by
/// the text of that sequence or mapping, formatted in the same way. A
/// string that reads as any other YAML value is replaced by the value it
/// reads as. All other values are returned as they are.
///
/// Fails where a formatted value cannot be written out, and where strings
/// holding YAML are nested more than `MAX_EMBEDDING_DEPTH` deep.
pub fn format_value(value: YamlValue) -> (r: Result<YamlValue, FormatError>)
    ensures
        agrees(r, normalized(value@, MAX_EMBEDDING_DEPTH as nat)),
        value@.has_distinct_keys() ==> (r matches Ok(formatted) ==> formatted@.has_distinct_keys()),
{
    format_value_within(value, MAX_EMBEDDING_DEPTH)
}

/// Formats `document`, the value read from the text `original`: the value
/// is normalised if `recursive` is set and written out, and the quoting of
/// what was written is corrected against `original`.
pub fn format_document(original: &str, document: YamlValue, recursive: bool) -> (r: Result<
    String,
    FormatError,
>)
    ensures
        agrees_on_text(r, document_formatted(original@, document@, recursive)),
{
    let value = if recursive {
        match format_value(document) {
            Err(error) => {
                return Err(error);
            },
            Ok(value) => value,
        }
    } else {
        document
    };
    match serialize(&value) {
        Err(error) => Err(FormatError::Serialize(error)),
        Ok(written) => Ok(requote(original, written.as_str())),
    }
}

/// Formats a YAML-formatted string, recursively if `recursive` is set: the
/// document is laid out anew and keeps the quotes that it has around its
/// scalars.
///
/// Fails with the reader's error where `yaml` cannot be read, and where
/// `format_document` fails on what was read.
pub fn format_with(yaml: &str, recursive: bool) -> (r: Result<String, FormatError>)
    ensures
        agrees_on_text(r, formatted(yaml@, recursive)),
{
    match parse(yaml) {
        Err(error) => Err(FormatError::Parse(error)),
        Ok(parsed) => format_document(yaml, parsed, recursive),
    }
}

/// Recursively formats a YAML-formatted string: the document is laid out
/// anew, and so is every string in it that holds YAML.
pub fn format_recursive(yaml: &str) -> (r: Result<String, FormatError>)
    ensures
        agrees_on_text(r, formatted(yaml@, true)),
{
    format_with(yaml, true)
}

/// Formats a YAML-formatted string: the document is laid out anew, and the
/// strings in it are left as they are.
pub fn format(yaml: &str) -> (r: Result<String, FormatError>)
    ensures
        agrees_on_text(r, formatted(yaml@, false)),
{
    format_with(yaml, false)
}

/// Normalisation keeps the length of a sequence: item `i` of the result is
/// the normalised form of item `i`.
pub proof fn lemma_normalized_items_in_place(items: Seq<Tree>, depth: nat)
    requires
        normalized_items(items, depth) is Ok,
    ensures
        normalized_items(items, depth)->Ok_0.len() == items.len(),
        forall|i: int|
            0 <= i < items.len() ==> normalized(#[trigger] items[i], depth) == Ok::<
                Tree,
                FormatError,
            >(normalized_items(items, depth)->Ok_0[i]),
    decreases items.len(),
{
    if items.len() > 0 {
        let earlier = items.drop_last();
        lemma_normalized_items_in_place(earlier, depth);
        assert forall|i: int| 0 <= i < items.len() implies normalized(
            #[trigger] items[i],
            depth,
        ) == Ok::<Tree, FormatError>(normalized_items(items, depth)->Ok_0[i]) by {
            if i < earlier.len() {
                assert(earlier[i] == items[i]);
            }
        }
    }
}

/// Normalisation keeps the keys of a mapping and their order: entry `i` of
/// the result has the key of entry `i` and the normalised form of its
/// value.
pub proof fn lemma_normalized_entries_keep_keys(entries: Seq<(Tree, Tree)>, depth: nat)
    requires
        normalized_entries(entries, depth) is Ok,
    ensures
        normalized_entries(entries, depth)->Ok_0.len() == entries.len(),
        forall|i: int|
            0 <= i < entries.len() ==> {
                &&& normalized_entries(entries, depth)->Ok_0[i].0 == (#[trigger] entries[i]).0
                &&& normalized(entries[i].1, depth) == Ok::<Tree, FormatError>(
                    normalized_entries(entries, depth)->Ok_0[i].1,
                )
            },
    decreases entries.len(),
{
    if entries.len() > 0 {
        let earlier = entries.drop_last();
        lemma_normalized_entries_keep_keys(earlier, depth);
        let written = normalized_entries(entries, depth)->Ok_0;
        assert forall|i: int| 0 <= i < entries.len() implies {
            &&& written[i].0 == (#[trigger] entries[i]).0
            &&& normalized(entries[i].1, depth) == Ok::<Tree, FormatError>(written[i].1)
        } by {
            if i < earlier.len() {
                assert(earlier[i] == entries[i]);
            }
        }
    }
}

/// Normalisation leaves a plain tree as it is, whatever the depth allowed.
pub proof fn lemma_plain_tree_is_normal(tree: Tree, depth: nat)
    requires
        is_plain(tree),
    ensures
        normalized(tree, depth) == Ok::<Tree, FormatError>(tree),
    decreases tree,
{
    match tree {
        Tree::Sequence(items) => lemma_plain_items_are_normal(items, depth),
        Tree::Mapping(entries) => lemma_plain_entries_are_normal(entries, depth),
        _ => {},
    }
}

/// Normalisation leaves a sequence of plain trees as it is.
pub proof fn lemma_plain_items_are_normal(items: Seq<Tree>, depth: nat)
    requires
        forall|i: int| 0 <= i < items.len() ==> is_plain(#[trigger] items[i]),
    ensures
        normalized_items(items, depth) == Ok::<Seq<Tree>, FormatError>(items),
    decreases items,
{
    if items.len() > 0 {
        lemma_plain_items_are_normal(items.drop_last(), depth);
        lemma_plain_tree_is_normal(items.last(), depth);
        assert(items.drop_last().push(items.last()) == items);
    } else {
        assert(items == Seq::<Tree>::empty());
    }
}

/// Normalisation leaves entries with plain values as they are.
pub proof fn lemma_plain_entries_are_normal(entries: Seq<(Tree, Tree)>, depth: nat)
    requires
        forall|i: int| 0 <= i < entries.len() ==> is_plain(#[trigger] entries[i].1),
    ensures
        normalized_entries(entries, depth) == Ok::<Seq<(Tree, Tree)>, FormatError>(entries),
    decreases entries,
{
    if entries.len() > 0 {
        lemma_plain_entries_are_normal(entries.drop_last(), depth);
        lemma_plain_tree_is_normal(entries.last().1, depth);
        assert(entries.drop_last().push(entries.last()) == entries);
    } else {
        assert(entries == Seq::<(Tree, Tree)>::empty());
    }
}

/// The two modes agree on a document without YAML in its strings: where the
/// tree read from `text` is plain, formatting it recursively gives what
/// formatting it without recursion gives, be it a text or an error.
pub proof fn lemma_modes_agree_on_plain_documents(text: Seq<char>)
    requires
        yaml_parse(text) matches Ok(document) ==> is_plain(document),
    ensures
        formatted(text, true) == formatted(text, false),
{
    if let Ok(document) = yaml_parse(text) {
        lemma_plain_tree_is_normal(document, MAX_EMBEDDING_DEPTH as nat);
    }
}

/// The normalised form of a sequence or mapping is a sequence or mapping.
pub proof fn lemma_normalized_keeps_containers(tree: Tree, depth: nat)
    requires
        tree.is_container(),
        normalized(tree, depth) is Ok,
    ensures
        normalized(tree, depth)->Ok_0.is_container(),
{
}

/// Normalisation is idempotent on a steady tree: the normalised form of
/// its normalised form is that form again.
pub proof fn lemma_normalized_twice(tree: Tree, depth: nat)
    requires
        is_steady(tree, depth),
        normalized(tree, depth) is Ok,
    ensures
        normalized(normalized(tree, depth)->Ok_0, depth) == normalized(tree, depth),
    decreases depth, tree,
{
    match tree {
        Tree::Text(text) => {
            if let Ok(inner) = yaml_parse(text) {
                if !inner.is_container() {
                    lemma_plain_tree_is_normal(inner, depth);
                } else {
                    let below = (depth - 1) as nat;
                    lemma_normalized_twice(inner, below);
                    lemma_normalized_keeps_containers(inner, below);
                }
            }
        },
        Tree::Sequence(items) => lemma_normalized_items_twice(items, depth),
        Tree::Mapping(entries) => lemma_normalized_entries_twice(entries, depth),
        _ => {},
    }
}

/// Normalisation is idempotent on a sequence of steady trees.
pub proof fn lemma_normalized_items_twice(items: Seq<Tree>, depth: nat)
    requires
        forall|i: int| 0 <= i < items.len() ==> is_steady(#[trigger] items[i], depth),
        normalized_items(items, depth) is Ok,
    ensures
        normalized_items(normalized_items(items, depth)->Ok_0, depth) == normalized_items(
            items,
            depth,
        ),
    decreases depth, items,
{
    if items.len() > 0 {
        let written = normalized_items(items, depth)->Ok_0;
        let earlier = normalized_items(items.drop_last(), depth)->Ok_0;
        lemma_normalized_items_twice(items.drop_last(), depth);
        lemma_normalized_twice(items.last(), depth);
        assert(written.drop_last() == earlier);
    }
}

/// Normalisation is idempotent on entries with steady values.
pub proof fn lemma_normalized_entries_twice(entries: Seq<(Tree, Tree)>, depth: nat)
    requires
        forall|i: int| 0 <= i < entries.len() ==> is_steady(#[trigger] entries[i].1, depth),
        normalized_entries(entries, depth) is Ok,
    ensures
        normalized_entries(normalized_entries(entries, depth)->Ok_0, depth) == normalized_entries(
            entries,
            depth,
        ),
    decreases depth, entries,
{
    if entries.len() > 0 {
        let written = normalized_entries(entries, depth)->Ok_0;
        let earlier = normalized_entries(entries.drop_last(), depth)->Ok_0;
        lemma_normalized_entries_twice(entries.drop_last(), depth);
        lemma_normalized_twice(entries.last().1, depth);
        assert(written.drop_last() == earlier);
    }
}

/// Formatting a second time changes nothing, where what the first
/// formatting made reads back as what it was made from: the result reads
/// as the tree that was written out, every text that normalisation wrote
/// reads as the tree that it stands for, and correcting the quotes of what
/// was written against the result gives the result again.
pub proof fn lemma_format_twice_where_output_reads_back(
    text: Seq<char>,
    recursive: bool,
    document: Tree,
    tree: Tree,
    written: Seq<char>,
)
    requires
        yaml_parse(text) == Ok::<Tree, serde_yaml::Error>(document),
        arranged(document, recursive) == Ok::<Tree, FormatError>(tree),
        yaml_text(tree) == Ok::<Seq<char>, serde_yaml::Error>(written),
        yaml_parse(requoted(text, written)) == Ok::<Tree, serde_yaml::Error>(tree),
        requoted(requoted(text, written), written) == requoted(text, written),
        recursive ==> is_steady(document, MAX_EMBEDDING_DEPTH as nat),
    ensures
        formatted(text, recursive) == Ok::<Seq<char>, FormatError>(requoted(text, written)),
        formatted(requoted(text, written), recursive) == formatted(text, recursive),
{
    if recursive {
        lemma_normalized_twice(document, MAX_EMBEDDING_DEPTH as nat);
    }
}

} // verus!
