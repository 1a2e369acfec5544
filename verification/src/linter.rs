//! Validation of structured records: a walk over one record that lists its
//! defects in order.

use vstd::prelude::*;
use vstd::utf8::{decode_utf8, valid_utf8};
use crate::data::{Dataset, record, record_count};
use crate::json::{
    item_trees, json_parse, JsonTree, JsonValue, lemma_array_view, lemma_object_view, member,
    member_trees, member_value,
};
use crate::pattern::{regex_count, regex_new, regex_pattern, think_close, think_open};
use crate::text::{
    chars_of, count_occurrences, decimal, has_space_before_newline, push_decimal, push_str,
    str_equal, string_push, trim, trim_chars,
};

verus! {

/// Kinds of defects.
#[derive(Debug, Clone)]
pub enum LintError {
    /// The record is not valid JSON; the message says why.
    InvalidJson(String),
    /// A required key is missing.
    MissingKey(String),
    /// The reasoning markers do not balance.
    UnbalancedThinkTags { open: usize, close: usize },
    /// Whitespace before a newline or at the end of the text.
    TrailingWhitespace,
    /// A required key holds an empty string.
    EmptyContent,
}

/// A kind of defect, over plain text.
pub enum Defect {
    InvalidJson(Seq<char>),
    MissingKey(Seq<char>),
    UnbalancedThinkTags { open: nat, close: nat },
    TrailingWhitespace,
    EmptyContent,
}

impl View for LintError {
    type V = Defect;

    open spec fn view(&self) -> Defect {
        match self {
            LintError::InvalidJson(message) => Defect::InvalidJson(message@),
            LintError::MissingKey(key) => Defect::MissingKey(key@),
            LintError::UnbalancedThinkTags { open, close } => Defect::UnbalancedThinkTags {
                open: *open as nat,
                close: *close as nat,
            },
            LintError::TrailingWhitespace => Defect::TrailingWhitespace,
            LintError::EmptyContent => Defect::EmptyContent,
        }
    }
}

impl Defect {
    /// The cause as text.
    pub open spec fn message(self) -> Seq<char> {
        match self {
            Defect::InvalidJson(message) => "Invalid JSON: "@ + message,
            Defect::MissingKey(key) => "Missing required key: "@ + key,
            Defect::UnbalancedThinkTags { open, close } => "Unbalanced <think> tags: "@ + decimal(
                open,
            ) + " open, "@ + decimal(close) + " close"@,
            Defect::TrailingWhitespace => "Trailing whitespace detected"@,
            Defect::EmptyContent => "Empty content field"@,
        }
    }

    /// Whether the defect is an error; the others are warnings.
    pub open spec fn is_error(self) -> bool {
        self is InvalidJson || self is UnbalancedThinkTags
    }
}

impl LintError {
    /// The cause as text.
    pub fn message(&self) -> (text: String)
        ensures
            text@ == self@.message(),
    {
        match self {
            LintError::InvalidJson(message) => {
                let mut text = "Invalid JSON: ".to_owned();
                push_str(&mut text, message.as_str());
                text
            },
            LintError::MissingKey(key) => {
                let mut text = "Missing required key: ".to_owned();
                push_str(&mut text, key.as_str());
                text
            },
            LintError::UnbalancedThinkTags { open, close } => {
                let mut text = "Unbalanced <think> tags: ".to_owned();
                push_decimal(&mut text, *open as u128);
                push_str(&mut text, " open, ");
                push_decimal(&mut text, *close as u128);
                push_str(&mut text, " close");
                text
            },
            LintError::TrailingWhitespace => "Trailing whitespace detected".to_owned(),
            LintError::EmptyContent => "Empty content field".to_owned(),
        }
    }

    /// The severity: `ERROR` for a record that cannot be read or whose
    /// markers do not balance, `WARNING` for the rest.
    pub fn severity(&self) -> (level: &'static str)
        ensures
            level@ == if self@.is_error() {
                "ERROR"@
            } else {
                "WARNING"@
            },
    {
        match self {
            LintError::InvalidJson(_) => "ERROR",
            LintError::UnbalancedThinkTags { .. } => "ERROR",
            LintError::MissingKey(_) => "WARNING",
            LintError::TrailingWhitespace => "WARNING",
            LintError::EmptyContent => "WARNING",
        }
    }
}

/// A defect found in a record.
#[derive(Debug, Clone)]
pub struct LintResult {
    /// Index of the record (0-indexed).
    pub line: usize,
    /// The defect.
    pub error: LintError,
}

impl View for LintResult {
    type V = (nat, Defect);

    open spec fn view(&self) -> (nat, Defect) {
        (self.line as nat, self.error@)
    }
}

/// The views of a sequence of results.
pub open spec fn result_views(results: Seq<LintResult>) -> Seq<(nat, Defect)> {
    Seq::new(results.len(), |i: int| results[i]@)
}

// ─── The rules ──────────────────────────────────────────────────────────────

/// All the text of a tree: a string is its own text, the texts of the items
/// of an array or of the values of an object are joined by single spaces,
/// anything else has none.
pub open spec fn text_content(tree: JsonTree) -> Seq<char>
    decreases tree, 0nat,
{
    match tree {
        JsonTree::Text(text) => text,
        JsonTree::Array(items) => joined_items(items, items.len()),
        JsonTree::Object(members) => joined_members(members, members.len()),
        _ => Seq::empty(),
    }
}

/// The texts of the first `n` items, joined by single spaces.
pub open spec fn joined_items(items: Seq<JsonTree>, n: nat) -> Seq<char>
    decreases items, n,
{
    if n == 0 || n > items.len() {
        Seq::empty()
    } else if n == 1 {
        text_content(items[0])
    } else {
        joined_items(items, (n - 1) as nat).push(' ') + text_content(items[n - 1])
    }
}

/// The texts of the values of the first `n` members, joined by single spaces.
pub open spec fn joined_members(members: Seq<(Seq<char>, JsonTree)>, n: nat) -> Seq<char>
    decreases members, n,
{
    if n == 0 || n > members.len() {
        Seq::empty()
    } else if n == 1 {
        text_content(members[0].1)
    } else {
        joined_members(members, (n - 1) as nat).push(' ') + text_content(members[n - 1].1)
    }
}

/// Whether the text has whitespace that should not be there: a space
/// directly before a newline, or a space at its end.
pub open spec fn has_trailing_whitespace(text: Seq<char>) -> bool {
    has_space_before_newline(text) || (text.len() > 0 && text.last() == ' ')
}

/// Whether an object has a member with the key `key`.
pub open spec fn has_key(members: Seq<(Seq<char>, JsonTree)>, key: Seq<char>) -> bool {
    exists|i: int| 0 <= i < members.len() && (#[trigger] members[i]).0 == key
}

/// Whether an object holds the empty string under the key `key`.
pub open spec fn holds_empty(members: Seq<(Seq<char>, JsonTree)>, key: Seq<char>) -> bool {
    member(members, key) == Some(JsonTree::Text(Seq::empty()))
}

/// One defect for each of the first `n` required keys that the object lacks.
pub open spec fn missing_keys(
    members: Seq<(Seq<char>, JsonTree)>,
    required: Seq<Seq<char>>,
    n: nat,
    line: nat,
) -> Seq<(nat, Defect)>
    decreases n,
{
    if n == 0 {
        Seq::empty()
    } else {
        let earlier = missing_keys(members, required, (n - 1) as nat, line);
        if has_key(members, required[n - 1]) {
            earlier
        } else {
            earlier.push((line, Defect::MissingKey(required[n - 1])))
        }
    }
}

/// One defect for each of the first `n` required keys under which the
/// object holds the empty string.
pub open spec fn empty_keys(
    members: Seq<(Seq<char>, JsonTree)>,
    required: Seq<Seq<char>>,
    n: nat,
    line: nat,
) -> Seq<(nat, Defect)>
    decreases n,
{
    if n == 0 {
        Seq::empty()
    } else {
        let earlier = empty_keys(members, required, (n - 1) as nat, line);
        if holds_empty(members, required[n - 1]) {
            earlier.push((line, Defect::EmptyContent))
        } else {
            earlier
        }
    }
}

/// The defects of a record that reads as `tree`: missing required keys,
/// then markers that do not balance, then unwanted whitespace, then empty
/// required content.
pub open spec fn lint_tree(tree: JsonTree, required: Seq<Seq<char>>, line: nat) -> Seq<
    (nat, Defect),
> {
    let text = text_content(tree);
    let opened = count_occurrences(text, think_open());
    let closed = count_occurrences(text, think_close());
    let keys = match tree {
        JsonTree::Object(members) => missing_keys(members, required, required.len(), line),
        _ => Seq::empty(),
    };
    let marks = if opened != closed {
        seq![(line, Defect::UnbalancedThinkTags { open: opened, close: closed })]
    } else {
        Seq::empty()
    };
    let spaces = if has_trailing_whitespace(text) {
        seq![(line, Defect::TrailingWhitespace)]
    } else {
        Seq::empty()
    };
    let empties = match tree {
        JsonTree::Object(members) => empty_keys(members, required, required.len(), line),
        _ => Seq::empty(),
    };
    keys + marks + spaces + empties
}

/// The defects for what the reader made of a record: a record that cannot
/// be read has that one defect and no other.
pub open spec fn lint_parsed(
    parsed: Result<JsonTree, Seq<char>>,
    required: Seq<Seq<char>>,
    line: nat,
) -> Seq<(nat, Defect)> {
    match parsed {
        Ok(tree) => lint_tree(tree, required, line),
        Err(message) => seq![(line, Defect::InvalidJson(message))],
    }
}

/// The defects of one record.
pub open spec fn lint(text: Seq<char>, required: Seq<Seq<char>>, line: nat) -> Seq<(nat, Defect)> {
    lint_parsed(json_parse(text), required, line)
}

/// The defects of the first `n` records of a dataset, in record order. A
/// record that cannot be read as text, or is empty but for whitespace, has none.
pub open spec fn lint_records(bytes: Seq<u8>, required: Seq<Seq<char>>, n: nat) -> Seq<
    (nat, Defect),
>
    decreases n,
{
    if n == 0 {
        Seq::empty()
    } else {
        let earlier = lint_records(bytes, required, (n - 1) as nat);
        let raw = record(bytes, n - 1);
        if valid_utf8(raw) && trim(decode_utf8(raw)).len() > 0 {
            earlier + lint(decode_utf8(raw), required, (n - 1) as nat)
        } else {
            earlier
        }
    }
}

/// The texts of a sequence of strings.
pub open spec fn key_texts(keys: Seq<String>) -> Seq<Seq<char>> {
    Seq::new(keys.len(), |i: int| keys[i]@)
}

// ─── The linter ─────────────────────────────────────────────────────────────

/// All the text of a value, for the checks on markers and whitespace.
pub fn extract_text_content(value: &JsonValue) -> (text: String)
    ensures
        text@ == text_content(value@),
    decreases value,
{
    match value {
        JsonValue::Text(text) => text.clone(),
        JsonValue::Array(items) => {
            proof {
                lemma_array_view(*items);
            }
            let ghost trees = item_trees(items@);
            let mut text = String::new();
            let mut i: usize = 0;
            while i < items.len()
                invariant
                    value is Array && value->Array_0 == *items,
                    i <= items@.len(),
                    trees == item_trees(items@),
                    text@ == joined_items(trees, i as nat),
                decreases items@.len() - i,
            {
                proof {
                    assert(decreases_to!(items => items[i as int]));
                }
                if i > 0 {
                    string_push(&mut text, ' ');
                }
                let part = extract_text_content(&items[i]);
                push_str(&mut text, part.as_str());
                proof {
                    if i == 0 {
                        assert(Seq::<char>::empty() + part@ =~= part@);
                    }
                }
                i = i + 1;
            }
            text
        },
        JsonValue::Object(members) => {
            proof {
                lemma_object_view(*members);
            }
            let ghost trees = member_trees(members@);
            let mut text = String::new();
            let mut i: usize = 0;
            while i < members.len()
                invariant
                    value is Object && value->Object_0 == *members,
                    i <= members@.len(),
                    trees == member_trees(members@),
                    text@ == joined_members(trees, i as nat),
                decreases members@.len() - i,
            {
                proof {
                    assert(decreases_to!(members => members[i as int]));
                    assert(trees[i as int] == (members@[i as int].0@, members@[i as int].1@));
                }
                if i > 0 {
                    string_push(&mut text, ' ');
                }
                let part = extract_text_content(&members[i].1);
                push_str(&mut text, part.as_str());
                proof {
                    if i == 0 {
                        assert(Seq::<char>::empty() + part@ =~= part@);
                    }
                }
                i = i + 1;
            }
            text
        },
        _ => String::new(),
    }
}

/// Whether the text has a space directly before a newline, or a space at its end.
fn text_has_trailing_whitespace(text: &str) -> (found: bool)
    ensures
        found == has_trailing_whitespace(text@),
{
    let chars = chars_of(text);
    let n: usize = chars.len();
    if n > 0 && chars[n - 1] == ' ' {
        return true;
    }
    if n < 2 {
        return false;
    }
    let mut i: usize = 0;
    while i < n - 1
        invariant
            2 <= n == chars@.len(),
            i <= n - 1,
            chars@ == text@,
            forall|k: int|
                0 <= k < i && k + 1 < n ==> !(chars@[k] == ' ' && #[trigger] chars@[k + 1] == '\n'),
        decreases n - i,
    {
        if chars[i] == ' ' && chars[i + 1] == '\n' {
            return true;
        }
        i = i + 1;
    }
    false
}

/// Whether the members have one with the key `key`.
fn members_have_key(members: &Vec<(String, JsonValue)>, key: &str) -> (found: bool)
    ensures
        found == has_key(member_trees(members@), key@),
{
    let ghost trees = member_trees(members@);
    let mut i: usize = 0;
    while i < members.len()
        invariant
            i <= members@.len(),
            trees == member_trees(members@),
            forall|k: int| 0 <= k < i ==> (#[trigger] trees[k]).0 != key@,
        decreases members@.len() - i,
    {
        proof {
            assert(trees[i as int] == (members@[i as int].0@, members@[i as int].1@));
        }
        if str_equal(members[i].0.as_str(), key) {
            return true;
        }
        i = i + 1;
    }
    false
}

/// Linter for reasoning datasets.
pub struct Linter {
    think_open_regex: regex::Regex,
    think_close_regex: regex::Regex,
    required_keys: Vec<String>,
}

impl Default for Linter {
    /// A linter that requires no key.
    fn default() -> (linter: Self)
        ensures
            linter.required() == Seq::<Seq<char>>::empty(),
    {
        Linter::new()
    }
}

impl Linter {
    #[verifier::type_invariant]
    spec fn inv(self) -> bool {
        &&& regex_pattern(self.think_open_regex) == think_open()
        &&& regex_pattern(self.think_close_regex) == think_close()
    }

    /// The keys that every record must have.
    pub closed spec fn required(&self) -> Seq<Seq<char>> {
        key_texts(self.required_keys@)
    }

    /// Create a linter that requires no key.
    pub fn new() -> (linter: Self)
        ensures
            linter.required() == Seq::<Seq<char>>::empty(),
    {
        proof {
            reveal_strlit("<think>");
            reveal_strlit("</think>");
            assert("<think>"@ =~= think_open());
            assert("</think>"@ =~= think_close());
        }
        let think_open_regex = match regex_new("<think>") {
            Ok(re) => re,
            Err(_) => vstd::pervasive::unreached(),
        };
        let think_close_regex = match regex_new("</think>") {
            Ok(re) => re,
            Err(_) => vstd::pervasive::unreached(),
        };
        let linter = Linter { think_open_regex, think_close_regex, required_keys: Vec::new() };
        proof {
            assert(linter.required() =~= Seq::<Seq<char>>::empty());
        }
        linter
    }

    /// The same linter with `keys` as the required keys.
    pub fn with_required_keys(self, keys: Vec<String>) -> (linter: Self)
        ensures
            linter.required() == key_texts(keys@),
    {
        proof {
            use_type_invariant(&self);
        }
        Linter {
            think_open_regex: self.think_open_regex,
            think_close_regex: self.think_close_regex,
            required_keys: keys,
        }
    }

    /// List the defects of one record.
    pub fn lint_line(&self, line: &str, line_num: usize) -> (results: Vec<LintResult>)
        ensures
            result_views(results@) == lint(line@, self.required(), line_num as nat),
    {
        self.lint_parsed(JsonValue::parse(line), line_num)
    }

    /// List the defects of one record from what the reader made of it.
    pub fn lint_parsed(&self, parsed: Result<JsonValue, String>, line_num: usize) -> (results: Vec<
        LintResult,
    >)
        ensures
            result_views(results@) == lint_parsed(
                match parsed {
                    Ok(value) => Ok(value@),
                    Err(message) => Err(message@),
                },
                self.required(),
                line_num as nat,
            ),
    {
        proof {
            use_type_invariant(self);
        }
        let mut results: Vec<LintResult> = Vec::new();
        let ghost line = line_num as nat;
        let ghost required = self.required();
        match parsed {
            Err(message) => {
                results.push(LintResult { line: line_num, error: LintError::InvalidJson(message) });
                proof {
                    assert(result_views(results@) =~= seq![(line, Defect::InvalidJson(message@))]);
                }
                results
            },
            Ok(value) => {
                match &value {
                    JsonValue::Object(members) => {
                        proof {
                            lemma_object_view(*members);
                        }
                        let ghost trees = member_trees(members@);
                        let mut k: usize = 0;
                        while k < self.required_keys.len()
                            invariant
                                k <= self.required_keys@.len(),
                                required == key_texts(self.required_keys@),
                                trees == member_trees(members@),
                                result_views(results@) == missing_keys(
                                    trees,
                                    required,
                                    k as nat,
                                    line,
                                ),
                                line == line_num,
                            decreases self.required_keys@.len() - k,
                        {
                            let key: &String = &self.required_keys[k];
                            let ghost before = results@;
                            proof {
                                assert(required[k as int] == key@);
                            }
                            if !members_have_key(members, key.as_str()) {
                                results.push(
                                    LintResult {
                                        line: line_num,
                                        error: LintError::MissingKey(key.clone()),
                                    },
                                );
                                proof {
                                    assert(result_views(results@) =~= result_views(before).push(
                                        (line, Defect::MissingKey(key@)),
                                    ));
                                }
                            }
                            k = k + 1;
                        }
                    },
                    _ => {
                        proof {
                            assert(result_views(results@) =~= Seq::<(nat, Defect)>::empty());
                        }
                    },
                }
                let ghost keys = result_views(results@);
                let text = extract_text_content(&value);
                let open_count: usize = regex_count(&self.think_open_regex, text.as_str());
                let close_count: usize = regex_count(&self.think_close_regex, text.as_str());
                if open_count != close_count {
                    results.push(
                        LintResult {
                            line: line_num,
                            error: LintError::UnbalancedThinkTags {
                                open: open_count,
                                close: close_count,
                            },
                        },
                    );
                }
                let ghost marks = if open_count != close_count {
                    seq![
                        (
                            line,
                            Defect::UnbalancedThinkTags {
                                open: open_count as nat,
                                close: close_count as nat,
                            },
                        ),
                    ]
                } else {
                    Seq::<(nat, Defect)>::empty()
                };
                proof {
                    assert(result_views(results@) =~= keys + marks);
                }
                let spaced: bool = text_has_trailing_whitespace(text.as_str());
                if spaced {
                    results.push(LintResult { line: line_num, error: LintError::TrailingWhitespace });
                }
                let ghost spaces = if spaced {
                    seq![(line, Defect::TrailingWhitespace)]
                } else {
                    Seq::<(nat, Defect)>::empty()
                };
                proof {
                    assert(result_views(results@) =~= keys + marks + spaces);
                }
                match &value {
                    JsonValue::Object(members) => {
                        proof {
                            lemma_object_view(*members);
                        }
                        let ghost trees = member_trees(members@);
                        let ghost sofar = result_views(results@);
                        let mut k: usize = 0;
                        while k < self.required_keys.len()
                            invariant
                                k <= self.required_keys@.len(),
                                required == key_texts(self.required_keys@),
                                trees == member_trees(members@),
                                result_views(results@) == sofar + empty_keys(
                                    trees,
                                    required,
                                    k as nat,
                                    line,
                                ),
                                line == line_num,
                            decreases self.required_keys@.len() - k,
                        {
                            let key: &String = &self.required_keys[k];
                            let ghost before = results@;
                            let empty: bool = match member_value(members, key.as_str()) {
                                Some(held) => match held.as_str() {
                                    Some(content) => {
                                        proof {
                                            if content@.len() == 0 {
                                                assert(content@ =~= Seq::<char>::empty());
                                            }
                                        }
                                        content.is_empty()
                                    },
                                    None => false,
                                },
                                None => false,
                            };
                            proof {
                                assert(required[k as int] == key@);
                                assert(empty == holds_empty(trees, required[k as int]));
                            }
                            if empty {
                                results.push(
                                    LintResult { line: line_num, error: LintError::EmptyContent },
                                );
                                proof {
                                    assert(result_views(results@) =~= result_views(before).push(
                                        (line, Defect::EmptyContent),
                                    ));
                                }
                            }
                            k = k + 1;
                            proof {
                                assert(result_views(results@) =~= sofar + empty_keys(
                                    trees,
                                    required,
                                    k as nat,
                                    line,
                                ));
                            }
                        }
                    },
                    _ => {
                        proof {
                            assert(result_views(results@) =~= keys + marks + spaces + Seq::<
                                (nat, Defect),
                            >::empty());
                        }
                    },
                }
                results
            },
        }
    }

    /// List the defects of every record of a dataset, in record order;
    /// records that cannot be read as text or are empty but for whitespace
    /// are passed over.
    pub fn lint_dataset(&self, dataset: &Dataset) -> (results: Vec<LintResult>)
        ensures
            result_views(results@) == lint_records(
                dataset.bytes(),
                self.required(),
                record_count(dataset.bytes()),
            ),
    {
        let count: usize = dataset.line_count();
        let mut all_results: Vec<LintResult> = Vec::new();
        let ghost bytes = dataset.bytes();
        let ghost required = self.required();
        proof {
            assert(result_views(all_results@) =~= Seq::<(nat, Defect)>::empty());
        }
        let mut i: usize = 0;
        while i < count
            invariant
                i <= count,
                count == record_count(dataset.bytes()),
                bytes == dataset.bytes(),
                required == self.required(),
                result_views(all_results@) == lint_records(bytes, required, i as nat),
            decreases count - i,
        {
            match dataset.get_line(i) {
                Some(line) => {
                    proof {
                        vstd::utf8::encode_utf8_decode_utf8(line@);
                    }
                    let chars = chars_of(line);
                    if trim_chars(&chars).len() > 0 {
                        let mut results = self.lint_line(line, i);
                        let ghost before = all_results@;
                        let ghost added = results@;
                        all_results.append(&mut results);
                        proof {
                            assert(result_views(all_results@) =~= result_views(before)
                                + result_views(added));
                        }
                    }
                },
                None => {},
            }
            i = i + 1;
        }
        all_results
    }
}

} // verus!
