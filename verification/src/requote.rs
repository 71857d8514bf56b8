//! Restores quotes that a YAML document had around its scalars and that a
//! rewritten copy of the document has lost.
//!
//! The quoted scalars are found in the original text by two patterns, one
//! for mapping entries (`key: "value"`) and one for sequence elements
//! (`- "value"`). Each one found is then put back by text: wherever the
//! rewritten copy holds the same entry without the quotes at the end of a
//! line, the quotes are added. The substitution goes by the text of the
//! entry and not by its place, so an entry that was never quoted gains
//! quotes too when the same entry was quoted elsewhere.
//!
//! Last, every number with a leading zero that ends a line behind a colon
//! or a dash is put in single quotes, whether or not it was quoted before.

use vstd::prelude::*;
use crate::matcher::{
    captures, groups_within, is_part_of, regex_captures, regex_replaced, replace_matches, Groups,
};
use crate::text::{
    ends_line_at_start, from_chars, lemma_replaced_without_occurrence, push_all,
    replace_at_line_ends, replaced_at_line_ends, to_chars,
};

verus! {

/// Pattern for a line that holds a mapping entry with a quoted value. Its
/// groups are the key, the opening quote, the value and the closing quote.
pub const QUOTED_MAP: &'static str = r#"(?m)^\s*(.*):\s*(['"])(.*)(['"])\s*$"#;

/// Pattern for a line that holds a sequence element with a quoted value. Its
/// groups are the opening quote, the value and the closing quote.
pub const QUOTED_SEQ: &'static str = r#"(?m)^\s*-\s*(['"])(.*)(['"])\s*$"#;

/// Pattern for a run of digits that starts with a zero and stands at the
/// end of a line, behind a colon or a dash and any white space. Its groups
/// are the colon or dash, the white space and the digits.
pub const ZERO_PREFIXED_NUMBERS: &'static str = r#"(?m)([:-])(\s*)(0\d+)$"#;

/// What a match of `ZERO_PREFIXED_NUMBERS` is replaced by: the same text
/// with the digits in single quotes.
pub const QUOTED_ZERO_PREFIXED: &'static str = "$1$2'$3'";

/// A mapping entry whose value was quoted.
#[derive(Debug)]
pub struct MapEntry {
    pub key: String,
    pub lquote: String,
    pub value: String,
    pub rquote: String,
}

/// A sequence element whose value was quoted.
#[derive(Debug)]
pub struct SequenceElement {
    pub lquote: String,
    pub value: String,
    pub rquote: String,
}

/// What a `MapEntry` holds, as sequences of characters.
pub ghost struct MapEntryView {
    pub key: Seq<char>,
    pub lquote: Seq<char>,
    pub value: Seq<char>,
    pub rquote: Seq<char>,
}

/// What a `SequenceElement` holds, as sequences of characters.
pub ghost struct SequenceElementView {
    pub lquote: Seq<char>,
    pub value: Seq<char>,
    pub rquote: Seq<char>,
}

impl MapEntryView {
    /// The entry without quotes: `key: value`.
    pub open spec fn plain(self) -> Seq<char> {
        self.key + seq![':', ' '] + self.value
    }

    /// The entry with its quotes: `key: "value"`.
    pub open spec fn quoted(self) -> Seq<char> {
        self.key + seq![':', ' '] + self.lquote + self.value + self.rquote
    }
}

impl SequenceElementView {
    /// The element without quotes: `- value`.
    pub open spec fn plain(self) -> Seq<char> {
        seq!['-', ' '] + self.value
    }

    /// The element with its quotes: `- "value"`.
    pub open spec fn quoted(self) -> Seq<char> {
        seq!['-', ' '] + self.lquote + self.value + self.rquote
    }
}

impl View for MapEntry {
    type V = MapEntryView;

    open spec fn view(&self) -> MapEntryView {
        MapEntryView {
            key: self.key@,
            lquote: self.lquote@,
            value: self.value@,
            rquote: self.rquote@,
        }
    }
}

impl DeepView for MapEntry {
    type V = MapEntryView;

    open spec fn deep_view(&self) -> MapEntryView {
        self@
    }
}

impl View for SequenceElement {
    type V = SequenceElementView;

    open spec fn view(&self) -> SequenceElementView {
        SequenceElementView { lquote: self.lquote@, value: self.value@, rquote: self.rquote@ }
    }
}

impl DeepView for SequenceElement {
    type V = SequenceElementView;

    open spec fn deep_view(&self) -> SequenceElementView {
        self@
    }
}

/// Whether `text` is one quote character, `'` or `"`.
pub open spec fn is_quote(text: Seq<char>) -> bool {
    text.len() == 1 && (text[0] == '\'' || text[0] == '"')
}

/// Whether `text` holds no quote character.
pub open spec fn has_no_quote(text: Seq<char>) -> bool {
    forall|i: int| 0 <= i < text.len() ==> text[i] != '\'' && text[i] != '"'
}

/// The mapping entry that the groups of one match describe: groups 1 to 4
/// are its key, opening quote, value and closing quote. A match in which
/// one of them is missing, or in which a quote is not one quote character,
/// describes no entry.
pub open spec fn map_entry_of(groups: Groups) -> Option<MapEntryView> {
    if groups.len() >= 5 && groups[1] is Some && groups[2] is Some && groups[3] is Some
        && groups[4] is Some && is_quote(groups[2]->0) && is_quote(groups[4]->0) {
        Some(
            MapEntryView {
                key: groups[1]->0,
                lquote: groups[2]->0,
                value: groups[3]->0,
                rquote: groups[4]->0,
            },
        )
    } else {
        None
    }
}

/// The sequence element that the groups of one match describe: groups 1 to
/// 3 are its opening quote, value and closing quote. A match in which one
/// of them is missing, or in which a quote is not one quote character,
/// describes no element.
pub open spec fn sequence_element_of(groups: Groups) -> Option<SequenceElementView> {
    if groups.len() >= 4 && groups[1] is Some && groups[2] is Some && groups[3] is Some
        && is_quote(groups[1]->0) && is_quote(groups[3]->0) {
        Some(SequenceElementView { lquote: groups[1]->0, value: groups[2]->0, rquote: groups[3]->0 })
    } else {
        None
    }
}

/// The mapping entries that a run of matches describes, in the order of the
/// matches.
pub open spec fn map_entries_in(matches: Seq<Groups>) -> Seq<MapEntryView>
    decreases matches.len(),
{
    if matches.len() == 0 {
        Seq::empty()
    } else {
        let earlier = map_entries_in(matches.drop_last());
        match map_entry_of(matches.last()) {
            Some(entry) => earlier.push(entry),
            None => earlier,
        }
    }
}

/// The sequence elements that a run of matches describes, in the order of
/// the matches.
pub open spec fn sequence_elements_in(matches: Seq<Groups>) -> Seq<SequenceElementView>
    decreases matches.len(),
{
    if matches.len() == 0 {
        Seq::empty()
    } else {
        let earlier = sequence_elements_in(matches.drop_last());
        match sequence_element_of(matches.last()) {
            Some(element) => earlier.push(element),
            None => earlier,
        }
    }
}

/// The matches of `pattern` in `text`; none where the pattern is refused.
pub open spec fn matches_of(pattern: Seq<char>, text: Seq<char>) -> Seq<Groups> {
    match regex_captures(pattern, text) {
        Some(found) => found,
        None => Seq::empty(),
    }
}

/// The quoted mapping entries of `text`.
pub open spec fn map_entries_of(text: Seq<char>) -> Seq<MapEntryView> {
    map_entries_in(matches_of(QUOTED_MAP@, text))
}

/// The quoted sequence elements of `text`.
pub open spec fn sequence_elements_of(text: Seq<char>) -> Seq<SequenceElementView> {
    sequence_elements_in(matches_of(QUOTED_SEQ@, text))
}

/// `text` after the quotes of each entry were put back, one entry after the
/// other: wherever the plain entry ends a line, the quoted entry stands in
/// its place.
pub open spec fn map_requoted(entries: Seq<MapEntryView>, text: Seq<char>) -> Seq<char>
    decreases entries.len(),
{
    if entries.len() == 0 {
        text
    } else {
        let entry = entries.last();
        replaced_at_line_ends(
            map_requoted(entries.drop_last(), text),
            entry.plain(),
            entry.quoted(),
        )
    }
}

/// `text` after the quotes of each element were put back, one element after
/// the other: wherever the plain element ends a line, the quoted element
/// stands in its place.
pub open spec fn sequence_requoted(elements: Seq<SequenceElementView>, text: Seq<char>) -> Seq<
    char,
>
    decreases elements.len(),
{
    if elements.len() == 0 {
        text
    } else {
        let element = elements.last();
        replaced_at_line_ends(
            sequence_requoted(elements.drop_last(), text),
            element.plain(),
            element.quoted(),
        )
    }
}

/// `unquoted` with the quotes of `original` put back: first those of its
/// mapping entries, then those of its sequence elements.
pub open spec fn quotes_restored(original: Seq<char>, unquoted: Seq<char>) -> Seq<char> {
    sequence_requoted(
        sequence_elements_of(original),
        map_requoted(map_entries_of(original), unquoted),
    )
}

/// `text` with single quotes around every run of digits that starts with a
/// zero and stands at the end of a line behind a colon or a dash; `text`
/// itself where the pattern is refused.
pub open spec fn zero_prefixed_quoted(text: Seq<char>) -> Seq<char> {
    match regex_replaced(ZERO_PREFIXED_NUMBERS@, text, QUOTED_ZERO_PREFIXED@) {
        Some(quoted) => quoted,
        None => text,
    }
}

/// `unquoted` with its quoting corrected: the quotes of `original` are put
/// back, and then the zero-prefixed numbers are quoted.
pub open spec fn requoted(original: Seq<char>, unquoted: Seq<char>) -> Seq<char> {
    zero_prefixed_quoted(quotes_restored(original, unquoted))
}

/// A part of a text without quote characters is no quote character.
proof fn lemma_no_quote_in_parts(part: Seq<char>, whole: Seq<char>)
    requires
        is_part_of(part, whole),
        has_no_quote(whole),
    ensures
        !is_quote(part),
{
    if is_quote(part) {
        let at = choose|at: int|
            0 <= at && at + part.len() <= whole.len() && #[trigger] whole.subrange(
                at,
                at + part.len(),
            ) == part;
        assert(whole.subrange(at, at + part.len())[0] == whole[at]);
    }
}

/// Matches in a text without quote characters describe no mapping entry.
proof fn lemma_no_quote_no_map_entries(matches: Seq<Groups>, haystack: Seq<char>)
    requires
        groups_within(matches, haystack),
        has_no_quote(haystack),
    ensures
        map_entries_in(matches) == Seq::<MapEntryView>::empty(),
    decreases matches.len(),
{
    if matches.len() > 0 {
        let earlier = matches.drop_last();
        assert forall|i: int, j: int|
            0 <= i < earlier.len() && 0 <= j < earlier[i].len() && (
            #[trigger] earlier[i][j]) is Some implies is_part_of(earlier[i][j]->0, haystack) by {
            assert(earlier[i] == matches[i]);
            assert(matches[i][j] is Some);
        }
        lemma_no_quote_no_map_entries(earlier, haystack);
        let groups = matches.last();
        if groups.len() >= 5 && groups[2] is Some {
            assert(matches[matches.len() - 1][2] is Some);
            lemma_no_quote_in_parts(groups[2]->0, haystack);
        }
    }
}

/// Matches in a text without quote characters describe no sequence
/// element.
proof fn lemma_no_quote_no_sequence_elements(matches: Seq<Groups>, haystack: Seq<char>)
    requires
        groups_within(matches, haystack),
        has_no_quote(haystack),
    ensures
        sequence_elements_in(matches) == Seq::<SequenceElementView>::empty(),
    decreases matches.len(),
{
    if matches.len() > 0 {
        let earlier = matches.drop_last();
        assert forall|i: int, j: int|
            0 <= i < earlier.len() && 0 <= j < earlier[i].len() && (
            #[trigger] earlier[i][j]) is Some implies is_part_of(earlier[i][j]->0, haystack) by {
            assert(earlier[i] == matches[i]);
            assert(matches[i][j] is Some);
        }
        lemma_no_quote_no_sequence_elements(earlier, haystack);
        let groups = matches.last();
        if groups.len() >= 4 && groups[1] is Some {
            assert(matches[matches.len() - 1][1] is Some);
            lemma_no_quote_in_parts(groups[1]->0, haystack);
        }
    }
}

/// Whether `text` is one quote character, `'` or `"`.
pub fn is_quote_mark(text: &str) -> (quote: bool)
    ensures
        quote == is_quote(text@),
{
    let chars = to_chars(text);
    chars.len() == 1 && (chars[0] == '\'' || chars[0] == '"')
}

/// The matches of `pattern` in `text`, each with the text of its groups; no
/// match where the pattern is refused.
fn find_matches(pattern: &str, text: &str) -> (found: Vec<Vec<Option<String>>>)
    ensures
        found.deep_view() == matches_of(pattern@, text@),
        groups_within(found.deep_view(), text@),
{
    match captures(pattern, text) {
        Some(found) => found,
        None => {
            let found: Vec<Vec<Option<String>>> = Vec::new();
            assert(found.deep_view() == Seq::<Groups>::empty());
            found
        },
    }
}

impl MapEntry {
    /// The entry that the groups of one match describe, if they describe
    /// one.
    pub fn from_groups(groups: &Vec<Option<String>>) -> (entry: Option<MapEntry>)
        ensures
            entry.deep_view() == map_entry_of(groups.deep_view()),
    {
        if groups.len() < 5 {
            return None;
        }
        assert(groups.deep_view()[1] == groups[1].deep_view());
        assert(groups.deep_view()[2] == groups[2].deep_view());
        assert(groups.deep_view()[3] == groups[3].deep_view());
        assert(groups.deep_view()[4] == groups[4].deep_view());
        match (&groups[1], &groups[2], &groups[3], &groups[4]) {
            (Some(key), Some(lquote), Some(value), Some(rquote)) => {
                if is_quote_mark(lquote.as_str()) && is_quote_mark(rquote.as_str()) {
                    Some(
                        MapEntry {
                            key: key.clone(),
                            lquote: lquote.clone(),
                            value: value.clone(),
                            rquote: rquote.clone(),
                        },
                    )
                } else {
                    None
                }
            },
            _ => None,
        }
    }

    /// The entry without quotes.
    pub fn plain(&self) -> (line: Vec<char>)
        ensures
            line@ == self@.plain(),
    {
        let mut line = to_chars(self.key.as_str());
        line.push(':');
        line.push(' ');
        push_all(&mut line, &to_chars(self.value.as_str()));
        line
    }

    /// The entry with its quotes.
    pub fn quoted(&self) -> (line: Vec<char>)
        ensures
            line@ == self@.quoted(),
    {
        let mut line = to_chars(self.key.as_str());
        line.push(':');
        line.push(' ');
        push_all(&mut line, &to_chars(self.lquote.as_str()));
        push_all(&mut line, &to_chars(self.value.as_str()));
        push_all(&mut line, &to_chars(self.rquote.as_str()));
        line
    }
}

impl SequenceElement {
    /// The element that the groups of one match describe, if they describe
    /// one.
    pub fn from_groups(groups: &Vec<Option<String>>) -> (element: Option<SequenceElement>)
        ensures
            element.deep_view() == sequence_element_of(groups.deep_view()),
    {
        if groups.len() < 4 {
            return None;
        }
        assert(groups.deep_view()[1] == groups[1].deep_view());
        assert(groups.deep_view()[2] == groups[2].deep_view());
        assert(groups.deep_view()[3] == groups[3].deep_view());
        match (&groups[1], &groups[2], &groups[3]) {
            (Some(lquote), Some(value), Some(rquote)) => {
                if is_quote_mark(lquote.as_str()) && is_quote_mark(rquote.as_str()) {
                    Some(
                        SequenceElement {
                            lquote: lquote.clone(),
                            value: value.clone(),
                            rquote: rquote.clone(),
                        },
                    )
                } else {
                    None
                }
            },
            _ => None,
        }
    }

    /// The element without quotes.
    pub fn plain(&self) -> (line: Vec<char>)
        ensures
            line@ == self@.plain(),
    {
        let mut line: Vec<char> = Vec::new();
        line.push('-');
        line.push(' ');
        push_all(&mut line, &to_chars(self.value.as_str()));
        line
    }

    /// The element with its quotes.
    pub fn quoted(&self) -> (line: Vec<char>)
        ensures
            line@ == self@.quoted(),
    {
        let mut line: Vec<char> = Vec::new();
        line.push('-');
        line.push(' ');
        push_all(&mut line, &to_chars(self.lquote.as_str()));
        push_all(&mut line, &to_chars(self.value.as_str()));
        push_all(&mut line, &to_chars(self.rquote.as_str()));
        line
    }
}

/// The mapping entries that a run of matches describes.
pub fn map_entries_from(matches: &Vec<Vec<Option<String>>>) -> (entries: Vec<MapEntry>)
    ensures
        entries.deep_view() == map_entries_in(matches.deep_view()),
{
    let mut entries: Vec<MapEntry> = Vec::new();
    let mut i: usize = 0;
    assert(entries.deep_view() == Seq::<MapEntryView>::empty());
    while i < matches.len()
        invariant
            i <= matches.len(),
            entries.deep_view() == map_entries_in(matches.deep_view().take(i as int)),
        decreases matches.len() - i,
    {
        let ghost earlier = entries.deep_view();
        let ghost seen = matches.deep_view().take(i + 1);
        assert(seen.drop_last() == matches.deep_view().take(i as int));
        assert(seen.last() == matches[i as int].deep_view());
        match MapEntry::from_groups(&matches[i]) {
            Some(entry) => {
                entries.push(entry);
                assert(entries.deep_view() == earlier.push(entry@));
            },
            None => {},
        }
        i += 1;
    }
    assert(matches.deep_view().take(matches.len() as int) == matches.deep_view());
    entries
}

/// The sequence elements that a run of matches describes.
pub fn sequence_elements_from(matches: &Vec<Vec<Option<String>>>) -> (elements: Vec<
    SequenceElement,
>)
    ensures
        elements.deep_view() == sequence_elements_in(matches.deep_view()),
{
    let mut elements: Vec<SequenceElement> = Vec::new();
    let mut i: usize = 0;
    assert(elements.deep_view() == Seq::<SequenceElementView>::empty());
    while i < matches.len()
        invariant
            i <= matches.len(),
            elements.deep_view() == sequence_elements_in(matches.deep_view().take(i as int)),
        decreases matches.len() - i,
    {
        let ghost earlier = elements.deep_view();
        let ghost seen = matches.deep_view().take(i + 1);
        assert(seen.drop_last() == matches.deep_view().take(i as int));
        assert(seen.last() == matches[i as int].deep_view());
        match SequenceElement::from_groups(&matches[i]) {
            Some(element) => {
                elements.push(element);
                assert(elements.deep_view() == earlier.push(element@));
            },
            None => {},
        }
        i += 1;
    }
    assert(matches.deep_view().take(matches.len() as int) == matches.deep_view());
    elements
}

/// Finds the quoted mapping entries of `input`. A text without quote
/// characters has none.
pub fn map_entries(input: &str) -> (entries: Vec<MapEntry>)
    ensures
        entries.deep_view() == map_entries_of(input@),
        has_no_quote(input@) ==> entries.len() == 0,
{
    let found = find_matches(QUOTED_MAP, input);
    proof {
        if has_no_quote(input@) {
            lemma_no_quote_no_map_entries(found.deep_view(), input@);
        }
    }
    let entries = map_entries_from(&found);
    assert(entries.deep_view().len() == entries.len());
    entries
}

/// Finds the quoted sequence elements of `input`. A text without quote
/// characters has none.
pub fn sequence_elements(input: &str) -> (elements: Vec<SequenceElement>)
    ensures
        elements.deep_view() == sequence_elements_of(input@),
        has_no_quote(input@) ==> elements.len() == 0,
{
    let found = find_matches(QUOTED_SEQ, input);
    proof {
        if has_no_quote(input@) {
            lemma_no_quote_no_sequence_elements(found.deep_view(), input@);
        }
    }
    let elements = sequence_elements_from(&found);
    assert(elements.deep_view().len() == elements.len());
    elements
}

/// Puts the quotes of `entries` back into `unquoted`.
pub fn requote_with_map_entries(entries: &Vec<MapEntry>, unquoted: &str) -> (requoted: String)
    ensures
        requoted@ == map_requoted(entries.deep_view(), unquoted@),
{
    let mut text = to_chars(unquoted);
    let mut i: usize = 0;
    while i < entries.len()
        invariant
            i <= entries.len(),
            text@ == map_requoted(entries.deep_view().take(i as int), unquoted@),
        decreases entries.len() - i,
    {
        let ghost done = entries.deep_view().take(i + 1);
        assert(done.drop_last() == entries.deep_view().take(i as int));
        assert(done.last() == entries[i as int]@);
        let plain = entries[i].plain();
        let quoted = entries[i].quoted();
        text = replace_at_line_ends(&text, &plain, &quoted);
        i += 1;
    }
    assert(entries.deep_view().take(entries.len() as int) == entries.deep_view());
    from_chars(&text)
}

/// Puts the quotes of `elements` back into `unquoted`.
pub fn requote_with_sequence_elements(elements: &Vec<SequenceElement>, unquoted: &str) -> (requoted:
    String)
    ensures
        requoted@ == sequence_requoted(elements.deep_view(), unquoted@),
{
    let mut text = to_chars(unquoted);
    let mut i: usize = 0;
    while i < elements.len()
        invariant
            i <= elements.len(),
            text@ == sequence_requoted(elements.deep_view().take(i as int), unquoted@),
        decreases elements.len() - i,
    {
        let ghost done = elements.deep_view().take(i + 1);
        assert(done.drop_last() == elements.deep_view().take(i as int));
        assert(done.last() == elements[i as int]@);
        let plain = elements[i].plain();
        let quoted = elements[i].quoted();
        text = replace_at_line_ends(&text, &plain, &quoted);
        i += 1;
    }
    assert(elements.deep_view().take(elements.len() as int) == elements.deep_view());
    from_chars(&text)
}

/// Puts the quotes back around the values of the mapping entries that are
/// quoted in `original`.
pub fn requote_map_entries(original: &str, unquoted: &str) -> (requoted: String)
    ensures
        requoted@ == map_requoted(map_entries_of(original@), unquoted@),
        has_no_quote(original@) ==> requoted@ == unquoted@,
{
    let entries = map_entries(original);
    requote_with_map_entries(&entries, unquoted)
}

/// Puts the quotes back around the sequence elements that are quoted in
/// `original`.
pub fn requote_sequence_elements(original: &str, unquoted: &str) -> (requoted: String)
    ensures
        requoted@ == sequence_requoted(sequence_elements_of(original@), unquoted@),
        has_no_quote(original@) ==> requoted@ == unquoted@,
{
    let elements = sequence_elements(original);
    requote_with_sequence_elements(&elements, unquoted)
}

/// Puts the quotes of `original` back into `unquoted`: first those of its
/// mapping entries, then those of its sequence elements.
///
/// Where `original` holds no quote character, nothing gains quotes.
pub fn restore_quotes(original: &str, unquoted: &str) -> (restored: String)
    ensures
        restored@ == quotes_restored(original@, unquoted@),
        has_no_quote(original@) ==> restored@ == unquoted@,
{
    let with_entries = requote_map_entries(original, unquoted);
    requote_sequence_elements(original, with_entries.as_str())
}

/// Corrects the quoting of `unquoted`, a rewritten copy of `original`.
///
/// If a mapping entry `key: value` or a sequence element `- value` stands
/// in `original` with `value` quoted, the same entry is quoted in the
/// result wherever `unquoted` holds it at the end of a line. Every such
/// place is quoted, also one that stands where `original` had the value
/// without quotes. After that every zero-prefixed number is quoted,
/// whether or not `original` had it in quotes.
pub fn requote(original: &str, unquoted: &str) -> (result: String)
    ensures
        result@ == requoted(original@, unquoted@),
        has_no_quote(original@) ==> result@ == zero_prefixed_quoted(unquoted@),
{
    let restored = restore_quotes(original, unquoted);
    quote_zero_prefixed(restored.as_str())
}

/// Entries that end no line of `text` leave it as it is.
pub proof fn lemma_map_requoted_without_occurrence(entries: Seq<MapEntryView>, text: Seq<char>)
    requires
        forall|k: int, i: int|
            0 <= k < entries.len() && 0 <= i < text.len() ==> !ends_line_at_start(
                #[trigger] text.skip(i),
                (#[trigger] entries[k]).plain(),
            ),
    ensures
        map_requoted(entries, text) == text,
    decreases entries.len(),
{
    if entries.len() > 0 {
        let earlier = entries.drop_last();
        assert forall|k: int, i: int|
            0 <= k < earlier.len() && 0 <= i < text.len() implies !ends_line_at_start(
            #[trigger] text.skip(i),
            (#[trigger] earlier[k]).plain(),
        ) by {
            assert(earlier[k] == entries[k]);
        }
        lemma_map_requoted_without_occurrence(earlier, text);
        let entry = entries.last();
        assert(entry == entries[entries.len() - 1]);
        lemma_replaced_without_occurrence(text, entry.plain(), entry.quoted());
    }
}

/// Elements that end no line of `text` leave it as it is.
pub proof fn lemma_sequence_requoted_without_occurrence(
    elements: Seq<SequenceElementView>,
    text: Seq<char>,
)
    requires
        forall|k: int, i: int|
            0 <= k < elements.len() && 0 <= i < text.len() ==> !ends_line_at_start(
                #[trigger] text.skip(i),
                (#[trigger] elements[k]).plain(),
            ),
    ensures
        sequence_requoted(elements, text) == text,
    decreases elements.len(),
{
    if elements.len() > 0 {
        let earlier = elements.drop_last();
        assert forall|k: int, i: int|
            0 <= k < earlier.len() && 0 <= i < text.len() implies !ends_line_at_start(
            #[trigger] text.skip(i),
            (#[trigger] earlier[k]).plain(),
        ) by {
            assert(earlier[k] == elements[k]);
        }
        lemma_sequence_requoted_without_occurrence(earlier, text);
        let element = elements.last();
        assert(element == elements[elements.len() - 1]);
        lemma_replaced_without_occurrence(text, element.plain(), element.quoted());
    }
}

/// Puts single quotes around every run of digits that starts with a zero
/// and stands at the end of a line, behind a colon or a dash. Read without
/// the quotes, such a scalar could be taken for a number.
pub fn quote_zero_prefixed(text: &str) -> (quoted: String)
    ensures
        quoted@ == zero_prefixed_quoted(text@),
{
    match replace_matches(ZERO_PREFIXED_NUMBERS, text, QUOTED_ZERO_PREFIXED) {
        Some(quoted) => quoted,
        None => text.to_owned(),
    }
}

} // verus!
