//! YAML values and their mathematical model.

use vstd::prelude::*;

verus! {

/// `serde_yaml::Number`: a YAML number, carried through unread.
#[verifier::external_type_specification]
#[verifier::external_body]
pub struct ExNumber(serde_yaml::Number);

/// `serde_yaml::value::Tag`: the tag of a tagged value, carried through
/// unread.
#[verifier::external_type_specification]
#[verifier::external_body]
pub struct ExTag(serde_yaml::value::Tag);

/// A YAML value. The entries of a mapping are kept in the order in which
/// they were written.
#[derive(Debug, PartialEq)]
pub enum YamlValue {
    Null,
    Bool(bool),
    Number(serde_yaml::Number),
    String(String),
    Sequence(Vec<YamlValue>),
    Mapping(Vec<(YamlValue, YamlValue)>),
    Tagged(serde_yaml::value::Tag, Box<YamlValue>),
}

/// The model of a `YamlValue`: the same tree, over sequences.
pub ghost enum Tree {
    Null,
    Bool(bool),
    Number(serde_yaml::Number),
    Text(Seq<char>),
    Sequence(Seq<Tree>),
    Mapping(Seq<(Tree, Tree)>),
    Tagged(serde_yaml::value::Tag, Box<Tree>),
}

impl Tree {
    /// Whether the tree is a sequence or a mapping, with or without tags
    /// around it.
    pub open spec fn is_container(self) -> bool
        decreases self,
    {
        match self {
            Tree::Sequence(_) => true,
            Tree::Mapping(_) => true,
            Tree::Tagged(_, inner) => inner.is_container(),
            _ => false,
        }
    }

    /// Whether no mapping in the tree has the same key twice.
    pub open spec fn has_distinct_keys(self) -> bool
        decreases self,
    {
        match self {
            Tree::Sequence(items) => forall|i: int|
                0 <= i < items.len() ==> (#[trigger] items[i]).has_distinct_keys(),
            Tree::Mapping(entries) => {
                &&& forall|i: int|
                    0 <= i < entries.len() ==> (#[trigger] entries[i]).0.has_distinct_keys()
                        && entries[i].1.has_distinct_keys()
                &&& forall|i: int, j: int|
                    0 <= i < j < entries.len() ==> (#[trigger] entries[i]).0 != (
                    #[trigger] entries[j]).0
            },
            Tree::Tagged(_, inner) => inner.has_distinct_keys(),
            _ => true,
        }
    }
}

impl YamlValue {
    /// The tree that this value stands for.
    pub open spec fn tree(&self) -> Tree
        decreases self,
    {
        match self {
            YamlValue::Null => Tree::Null,
            YamlValue::Bool(b) => Tree::Bool(*b),
            YamlValue::Number(n) => Tree::Number(*n),
            YamlValue::String(s) => Tree::Text(s@),
            YamlValue::Sequence(items) => Tree::Sequence(
                Seq::new(
                    items.len() as nat,
                    |i: int|
                        if 0 <= i < items.len() {
                            items[i].tree()
                        } else {
                            Tree::Null
                        },
                ),
            ),
            YamlValue::Mapping(entries) => Tree::Mapping(
                Seq::new(
                    entries.len() as nat,
                    |i: int|
                        if 0 <= i < entries.len() {
                            (entries[i].0.tree(), entries[i].1.tree())
                        } else {
                            (Tree::Null, Tree::Null)
                        },
                ),
            ),
            YamlValue::Tagged(tag, inner) => Tree::Tagged(*tag, Box::new(inner.tree())),
        }
    }
}

impl YamlValue {
    /// Whether the value is a sequence or a mapping, with or without tags
    /// around it. This is what `is_sequence` and `is_mapping` of
    /// `serde_yaml` test between them: both look through the tags of a
    /// value.
    pub fn is_container(&self) -> (container: bool)
        ensures
            container == self@.is_container(),
        decreases self,
    {
        match self {
            YamlValue::Sequence(_) => true,
            YamlValue::Mapping(_) => true,
            YamlValue::Tagged(_, inner) => inner.is_container(),
            _ => false,
        }
    }
}

impl View for YamlValue {
    type V = Tree;

    open spec fn view(&self) -> Tree {
        self.tree()
    }
}

/// The trees of `items`, in order.
pub open spec fn trees(items: Seq<YamlValue>) -> Seq<Tree> {
    items.map_values(|item: YamlValue| item@)
}

/// The trees of the keys and values of `entries`, in order.
pub open spec fn entry_trees(entries: Seq<(YamlValue, YamlValue)>) -> Seq<(Tree, Tree)> {
    entries.map_values(|entry: (YamlValue, YamlValue)| (entry.0@, entry.1@))
}

/// The tree of a sequence holds the trees of its items.
pub proof fn lemma_sequence_tree(items: Vec<YamlValue>)
    ensures
        YamlValue::Sequence(items)@ == Tree::Sequence(trees(items@)),
{
    assert(YamlValue::Sequence(items)@->Sequence_0 =~= trees(items@));
}

/// The tree of a mapping holds the trees of its entries.
pub proof fn lemma_mapping_tree(entries: Vec<(YamlValue, YamlValue)>)
    ensures
        YamlValue::Mapping(entries)@ == Tree::Mapping(entry_trees(entries@)),
{
    assert(YamlValue::Mapping(entries)@->Mapping_0 =~= entry_trees(entries@));
}

} // verus!
