//! Repair of structured records: trailing whitespace, spaces before
//! newlines, and unbalanced reasoning markers in assistant messages.

use vstd::hash_map::StringHashMap;
use vstd::prelude::*;
use crate::json::{
    item_trees, json_parse, JsonTree, JsonValue, lemma_array_view, lemma_object_view, member,
    member_trees, member_value, written,
};
use crate::pattern::{
    regex_collapse, regex_count, regex_is_match, regex_new, regex_pattern, spaces_newline,
    think_close, think_open,
};
use crate::text::{
    chars_of, collapse_before_newline, count_occurrences, find_chars, find_from,
    has_space_before_newline, lemma_find_from, lemma_rfind_from, lemma_trim_end, rfind_chars_before,
    rfind_from, slice_chars, str_equal, string_of, trim, trim_chars, trim_end, trimmed_end,
};

verus! {

/// Kinds of fixes that can be applied.
#[derive(Debug, Clone, Copy, PartialEq, Eq, Structural)]
pub enum FixType {
    /// A closing reasoning marker was added.
    AddedClosingThinkTag,
    /// An opening reasoning marker was added.
    AddedOpeningThinkTag,
    /// Trailing whitespace was removed.
    RemovedTrailingWhitespace,
    /// Spaces before a newline were removed.
    TrimmedWhitespaceBeforeNewlines,
}

impl FixType {
    /// The label of a kind of fix.
    pub open spec fn label(self) -> Seq<char> {
        match self {
            FixType::AddedClosingThinkTag => "Added missing </think> tag"@,
            FixType::AddedOpeningThinkTag => "Added missing <think> tag"@,
            FixType::RemovedTrailingWhitespace => "Removed trailing whitespace"@,
            FixType::TrimmedWhitespaceBeforeNewlines => "Trimmed whitespace before newlines"@,
        }
    }

    /// The label of this kind of fix.
    pub fn description(&self) -> (text: &'static str)
        ensures
            text@ == self.label(),
    {
        match self {
            FixType::AddedClosingThinkTag => "Added missing </think> tag",
            FixType::AddedOpeningThinkTag => "Added missing <think> tag",
            FixType::RemovedTrailingWhitespace => "Removed trailing whitespace",
            FixType::TrimmedWhitespaceBeforeNewlines => "Trimmed whitespace before newlines",
        }
    }
}

/// Reason why a record was skipped.
#[derive(Debug, Clone)]
pub enum SkipReason {
    /// The record is not valid JSON; the message says why.
    InvalidJson(String),
    /// The record is empty.
    EmptyLine,
}

impl SkipReason {
    /// The cause as text.
    pub open spec fn text(self) -> Seq<char> {
        match self {
            SkipReason::InvalidJson(message) => "Invalid JSON: "@ + message@,
            SkipReason::EmptyLine => "Empty line"@,
        }
    }

    /// The cause as text.
    pub fn description(&self) -> (text: String)
        ensures
            text@ == self.text(),
    {
        match self {
            SkipReason::InvalidJson(message) => {
                let text = "Invalid JSON: ".to_owned();
                text.concat(message.as_str())
            },
            SkipReason::EmptyLine => "Empty line".to_owned(),
        }
    }
}

/// Result of repairing one record.
#[derive(Debug)]
pub enum FixResult {
    /// The record was changed: the new text and the kinds of fixes, each
    /// once, in the order in which they were first applied.
    Fixed { line: String, fixes: Vec<FixType> },
    /// Nothing needed fixing: the record written back as compact JSON.
    Unchanged(String),
    /// The record cannot be repaired.
    Skipped(SkipReason),
}

/// What a repair comes to, over plain text.
pub enum Outcome {
    Fixed { line: Seq<char>, fixes: Seq<FixType> },
    Unchanged(Seq<char>),
    SkippedInvalid(Seq<char>),
    SkippedEmpty,
}

impl View for FixResult {
    type V = Outcome;

    open spec fn view(&self) -> Outcome {
        match self {
            FixResult::Fixed { line, fixes } => Outcome::Fixed { line: line@, fixes: fixes@ },
            FixResult::Unchanged(line) => Outcome::Unchanged(line@),
            FixResult::Skipped(SkipReason::InvalidJson(message)) => Outcome::SkippedInvalid(
                message@,
            ),
            FixResult::Skipped(SkipReason::EmptyLine) => Outcome::SkippedEmpty,
        }
    }
}

// ─── The rules, over plain text ─────────────────────────────────────────────

/// The log with `kind` recorded, once.
pub open spec fn add_fix(log: Seq<FixType>, kind: FixType) -> Seq<FixType> {
    if log.contains(kind) {
        log
    } else {
        log.push(kind)
    }
}

/// The whitespace rules on one string: trailing whitespace is cut, then
/// every run of spaces before a newline is taken out.
pub open spec fn fix_text(text: Seq<char>, log: Seq<FixType>) -> (Seq<char>, Seq<FixType>) {
    let trimmed = trim_end(text);
    let log1 = if trimmed.len() < text.len() {
        add_fix(log, FixType::RemovedTrailingWhitespace)
    } else {
        log
    };
    if has_space_before_newline(trimmed) {
        (
            collapse_before_newline(trimmed),
            add_fix(log1, FixType::TrimmedWhitespaceBeforeNewlines),
        )
    } else {
        (trimmed, log1)
    }
}

/// Two newlines in a row.
pub open spec fn paragraph_break() -> Seq<char> {
    seq!['\n', '\n']
}

/// `text` with `piece` put in at position `p`.
pub open spec fn insert_at(text: Seq<char>, p: int, piece: Seq<char>) -> Seq<char> {
    text.subrange(0, p) + piece + text.subrange(p, text.len() as int)
}

/// Where a closing marker goes for content that starts at `from`: at the
/// first paragraph break from there on, or at the end of the text.
pub open spec fn close_position(text: Seq<char>, from: int) -> int {
    match find_from(text, paragraph_break(), from) {
        Some(q) => q,
        None => text.len() as int,
    }
}

/// `text` with the opening marker at `p` closed: a closing marker is put in
/// at the close position of what follows the opener.
pub open spec fn close_opener(text: Seq<char>, p: int) -> Seq<char> {
    insert_at(text, close_position(text, p + 7), think_close())
}

/// `text` with the last `rounds` opening markers that start before `before`
/// closed, from the last of them back. A round that finds no opening marker
/// ends the closing.
pub open spec fn close_repeat(text: Seq<char>, rounds: nat, before: int) -> Seq<char>
    decreases rounds,
{
    if rounds == 0 {
        text
    } else {
        match rfind_from(text, think_open(), before - 1) {
            Some(p) => close_repeat(close_opener(text, p), (rounds - 1) as nat, p),
            None => text,
        }
    }
}

/// `text` with `copies` opening markers put in front.
pub open spec fn open_repeat(text: Seq<char>, copies: nat) -> Seq<char>
    decreases copies,
{
    if copies == 0 {
        text
    } else {
        open_repeat(think_open() + text, (copies - 1) as nat)
    }
}

/// The marker rule on the content of an assistant message. With `k` more
/// openers than closers, the openers in excess are the last `k` of the
/// text: each of them is closed, from the last one back. With more closers
/// than openers, one opener is put in front for each closer in excess.
pub open spec fn fix_think(text: Seq<char>, log: Seq<FixType>) -> (Seq<char>, Seq<FixType>) {
    let opened = count_occurrences(text, think_open());
    let closed = count_occurrences(text, think_close());
    if opened > closed {
        (
            close_repeat(text, (opened - closed) as nat, text.len() as int),
            add_fix(log, FixType::AddedClosingThinkTag),
        )
    } else if closed > opened {
        (
            open_repeat(text, (closed - opened) as nat),
            add_fix(log, FixType::AddedOpeningThinkTag),
        )
    } else {
        (text, log)
    }
}

// ─── The walk over a tree ───────────────────────────────────────────────────

/// The key `role`.
pub open spec fn role_key() -> Seq<char> {
    seq!['r', 'o', 'l', 'e']
}

/// The key `content`.
pub open spec fn content_key() -> Seq<char> {
    seq!['c', 'o', 'n', 't', 'e', 'n', 't']
}

/// The role `assistant`.
pub open spec fn assistant_role() -> Seq<char> {
    seq!['a', 's', 's', 'i', 's', 't', 'a', 'n', 't']
}

/// Whether the members are those of an assistant message: the value under
/// `role` is the string `assistant`.
pub open spec fn is_assistant(members: Seq<(Seq<char>, JsonTree)>) -> bool {
    member(members, role_key()) == Some(JsonTree::Text(assistant_role()))
}

/// The walk over a tree: every string gets the whitespace rules, the content
/// of an assistant message the marker rule as well; numbers, booleans and
/// null stay. Returns the new tree and the log of the kinds of fixes applied.
pub open spec fn walk(tree: JsonTree, log: Seq<FixType>) -> (JsonTree, Seq<FixType>)
    decreases tree, 0nat,
{
    match tree {
        JsonTree::Text(text) => {
            let fixed = fix_text(text, log);
            (JsonTree::Text(fixed.0), fixed.1)
        },
        JsonTree::Array(items) => {
            let walked = walk_items(items, items.len(), log);
            (JsonTree::Array(walked.0), walked.1)
        },
        JsonTree::Object(members) => {
            let walked = walk_members(members, is_assistant(members), members.len(), log);
            (JsonTree::Object(walked.0), walked.1)
        },
        _ => (tree, log),
    }
}

/// The walk over the first `n` items of an array, in order.
pub open spec fn walk_items(items: Seq<JsonTree>, n: nat, log: Seq<FixType>) -> (
    Seq<JsonTree>,
    Seq<FixType>,
)
    decreases items, n,
{
    if n == 0 || n > items.len() {
        (Seq::empty(), log)
    } else {
        let before = walk_items(items, (n - 1) as nat, log);
        let item = walk(items[n - 1], before.1);
        (before.0.push(item.0), item.1)
    }
}

/// The walk over the first `n` members of an object, in order.
pub open spec fn walk_members(
    members: Seq<(Seq<char>, JsonTree)>,
    assistant: bool,
    n: nat,
    log: Seq<FixType>,
) -> (Seq<(Seq<char>, JsonTree)>, Seq<FixType>)
    decreases members, n,
{
    if n == 0 || n > members.len() {
        (Seq::empty(), log)
    } else {
        let before = walk_members(members, assistant, (n - 1) as nat, log);
        let value = walk_member(members[n - 1].0, members[n - 1].1, assistant, before.1);
        (before.0.push((members[n - 1].0, value.0)), value.1)
    }
}

/// The walk over the value of one member: the content of an assistant
/// message gets both rules when it is a string; every other value is
/// walked as a tree.
pub open spec fn walk_member(
    key: Seq<char>,
    value: JsonTree,
    assistant: bool,
    log: Seq<FixType>,
) -> (JsonTree, Seq<FixType>)
    decreases value, 1nat,
{
    if assistant && key == content_key() {
        match value {
            JsonTree::Text(text) => {
                let spaced = fix_text(text, log);
                let marked = fix_think(spaced.0, spaced.1);
                (JsonTree::Text(marked.0), marked.1)
            },
            _ => walk(value, log),
        }
    } else {
        walk(value, log)
    }
}

/// The outcome for a record that was read as `tree`.
pub open spec fn repair_tree(tree: JsonTree) -> Outcome {
    let walked = walk(tree, Seq::empty());
    if walked.1.len() == 0 {
        Outcome::Unchanged(written(walked.0))
    } else {
        Outcome::Fixed { line: written(walked.0), fixes: walked.1 }
    }
}

/// The outcome for what the reader made of a record.
pub open spec fn repair_parsed(parsed: Result<JsonTree, Seq<char>>) -> Outcome {
    match parsed {
        Ok(tree) => repair_tree(tree),
        Err(message) => Outcome::SkippedInvalid(message),
    }
}

/// The outcome for a record: skipped when it is empty but for whitespace or
/// cannot be read, else the outcome for the tree it is read as.
pub open spec fn repair(line: Seq<char>) -> Outcome {
    if trim(line).len() == 0 {
        Outcome::SkippedEmpty
    } else {
        repair_parsed(json_parse(trim(line)))
    }
}

/// The log never holds a kind twice, so it holds four kinds at most.
pub open spec fn log_is_set(log: Seq<FixType>) -> bool {
    forall|i: int, j: int| 0 <= i < j < log.len() ==> log[i] != log[j]
}

proof fn lemma_add_fix_set(log: Seq<FixType>, kind: FixType)
    requires
        log_is_set(log),
    ensures
        log_is_set(add_fix(log, kind)),
{
    if !log.contains(kind) {
        let added = log.push(kind);
        assert forall|i: int, j: int| 0 <= i < j < added.len() implies added[i] != added[j] by {
            if j == log.len() {
                assert(log[i] != kind);
            }
        }
    }
}

proof fn lemma_fix_text_set(text: Seq<char>, log: Seq<FixType>)
    requires
        log_is_set(log),
    ensures
        log_is_set(fix_text(text, log).1),
{
    lemma_add_fix_set(log, FixType::RemovedTrailingWhitespace);
    let log1 = if trim_end(text).len() < text.len() {
        add_fix(log, FixType::RemovedTrailingWhitespace)
    } else {
        log
    };
    lemma_add_fix_set(log1, FixType::TrimmedWhitespaceBeforeNewlines);
}

proof fn lemma_fix_think_set(text: Seq<char>, log: Seq<FixType>)
    requires
        log_is_set(log),
    ensures
        log_is_set(fix_think(text, log).1),
{
    lemma_add_fix_set(log, FixType::AddedClosingThinkTag);
    lemma_add_fix_set(log, FixType::AddedOpeningThinkTag);
}

proof fn lemma_walk_set(tree: JsonTree, log: Seq<FixType>)
    requires
        log_is_set(log),
    ensures
        log_is_set(walk(tree, log).1),
    decreases tree, 0nat,
{
    match tree {
        JsonTree::Text(text) => {
            lemma_fix_text_set(text, log);
        },
        JsonTree::Array(items) => {
            lemma_walk_items_set(items, items.len(), log);
        },
        JsonTree::Object(members) => {
            lemma_walk_members_set(members, is_assistant(members), members.len(), log);
        },
        _ => {},
    }
}

proof fn lemma_walk_items_set(items: Seq<JsonTree>, n: nat, log: Seq<FixType>)
    requires
        log_is_set(log),
    ensures
        log_is_set(walk_items(items, n, log).1),
    decreases items, n,
{
    if n > 0 && n <= items.len() {
        lemma_walk_items_set(items, (n - 1) as nat, log);
        lemma_walk_set(items[n - 1], walk_items(items, (n - 1) as nat, log).1);
    }
}

proof fn lemma_walk_members_set(
    members: Seq<(Seq<char>, JsonTree)>,
    assistant: bool,
    n: nat,
    log: Seq<FixType>,
)
    requires
        log_is_set(log),
    ensures
        log_is_set(walk_members(members, assistant, n, log).1),
    decreases members, n,
{
    if n > 0 && n <= members.len() {
        lemma_walk_members_set(members, assistant, (n - 1) as nat, log);
        let before = walk_members(members, assistant, (n - 1) as nat, log);
        let key = members[n - 1].0;
        let value = members[n - 1].1;
        if assistant && key == content_key() {
            match value {
                JsonTree::Text(text) => {
                    lemma_fix_text_set(text, before.1);
                    let spaced = fix_text(text, before.1);
                    lemma_fix_think_set(spaced.0, spaced.1);
                },
                _ => {
                    lemma_walk_set(value, before.1);
                },
            }
        } else {
            lemma_walk_set(value, before.1);
        }
        let stepped = walk_member(key, value, assistant, before.1);
        assert(log_is_set(stepped.1));
        assert(walk_members(members, assistant, n, log).1 == stepped.1);
    }
}

/// A log without repeats holds four kinds at most.
proof fn lemma_set_is_small(log: Seq<FixType>)
    requires
        log_is_set(log),
    ensures
        log.len() <= 4,
{
    if log.len() > 4 {
        let k0 = log[0];
        let k1 = log[1];
        let k2 = log[2];
        let k3 = log[3];
        let k4 = log[4];
        assert(k0 != k1 && k0 != k2 && k0 != k3 && k0 != k4 && k1 != k2 && k1 != k3 && k1 != k4
            && k2 != k3 && k2 != k4 && k3 != k4);
    }
}

/// The log of a repair names each kind of fix once at most: it holds four
/// kinds at most.
pub proof fn lemma_repair_log(line: Seq<char>)
    ensures
        repair(line) matches Outcome::Fixed { line: fixed, fixes } ==> log_is_set(fixes)
            && fixes.len() <= 4,
{
    if trim(line).len() > 0 {
        match json_parse(trim(line)) {
            Ok(tree) => {
                lemma_walk_set(tree, Seq::empty());
                lemma_set_is_small(walk(tree, Seq::empty()).1);
            },
            Err(_) => {},
        }
    }
}

// ─── The fixer ──────────────────────────────────────────────────────────────

/// Record `kind` in the log, once.
fn record_fix(fixes: &mut Vec<FixType>, kind: FixType)
    ensures
        final(fixes)@ == add_fix(old(fixes)@, kind),
{
    let mut i: usize = 0;
    while i < fixes.len()
        invariant
            i <= fixes@.len(),
            fixes@ == old(fixes)@,
            forall|k: int| 0 <= k < i ==> fixes@[k] != kind,
        decreases fixes@.len() - i,
    {
        if fixes[i] == kind {
            return ;
        }
        i = i + 1;
    }
    fixes.push(kind);
}

/// The characters of `a`, `b` and `c`, one after the other.
fn concat3(a: &Vec<char>, b: &Vec<char>, c: &Vec<char>) -> (joined: Vec<char>)
    ensures
        joined@ == a@ + b@ + c@,
{
    let mut joined: Vec<char> = Vec::new();
    joined.extend_from_slice(a.as_slice());
    joined.extend_from_slice(b.as_slice());
    joined.extend_from_slice(c.as_slice());
    proof {
        assert(joined@ =~= a@ + b@ + c@);
    }
    joined
}

/// Where to put a closing marker for content that starts at `from`: at the
/// first paragraph break from there on, or at the end.
fn find_think_close_position(chars: &Vec<char>, paragraph: &Vec<char>, from: usize) -> (pos: usize)
    requires
        paragraph@ == paragraph_break(),
        from <= chars@.len(),
    ensures
        pos == close_position(chars@, from as int),
        from <= pos <= chars@.len(),
{
    proof {
        lemma_find_from(chars@, paragraph@, from as int);
    }
    match find_chars(chars, paragraph, from) {
        Some(pos) => pos,
        None => chars.len(),
    }
}

/// Fixer for reasoning datasets.
pub struct Fixer {
    think_open_regex: regex::Regex,
    think_close_regex: regex::Regex,
    whitespace_before_newline: regex::Regex,
}

impl Default for Fixer {
    fn default() -> Self {
        Fixer::new()
    }
}

impl Fixer {
    #[verifier::type_invariant]
    spec fn inv(self) -> bool {
        &&& regex_pattern(self.think_open_regex) == think_open()
        &&& regex_pattern(self.think_close_regex) == think_close()
        &&& regex_pattern(self.whitespace_before_newline) == spaces_newline()
    }

    /// The patterns that the three expressions of the fixer were compiled
    /// from: the one that finds opening markers, the one that finds closing
    /// markers, and the one that finds spaces before a newline.
    pub closed spec fn patterns(&self) -> (Seq<char>, Seq<char>, Seq<char>) {
        (
            regex_pattern(self.think_open_regex),
            regex_pattern(self.think_close_regex),
            regex_pattern(self.whitespace_before_newline),
        )
    }

    /// Create a fixer: its expressions are compiled from the opening marker,
    /// the closing marker, and the pattern of one or more spaces before a
    /// newline.
    pub fn new() -> (fixer: Self)
        ensures
            fixer.patterns() == (think_open(), think_close(), spaces_newline()),
    {
        proof {
            reveal_strlit("<think>");
            reveal_strlit("</think>");
            reveal_strlit(" +\\n");
            assert("<think>"@ =~= think_open());
            assert("</think>"@ =~= think_close());
            assert(" +\\n"@ =~= spaces_newline());
        }
        let think_open_regex = match regex_new("<think>") {
            Ok(re) => re,
            Err(_) => vstd::pervasive::unreached(),
        };
        let think_close_regex = match regex_new("</think>") {
            Ok(re) => re,
            Err(_) => vstd::pervasive::unreached(),
        };
        let whitespace_before_newline = match regex_new(" +\\n") {
            Ok(re) => re,
            Err(_) => vstd::pervasive::unreached(),
        };
        Fixer { think_open_regex, think_close_regex, whitespace_before_newline }
    }

    /// Repair one record.
    pub fn fix_line(&self, line: &str) -> (result: FixResult)
        ensures
            result@ == repair(line@),
    {
        let chars = chars_of(line);
        let trimmed = trim_chars(&chars);
        if trimmed.len() == 0 {
            return FixResult::Skipped(SkipReason::EmptyLine);
        }
        let text = string_of(&trimmed);
        self.fix_parsed(JsonValue::parse(text.as_str()))
    }

    /// Repair a record from what the reader made of it: the tree is walked
    /// and written back, a reading error is a skip with its message.
    pub fn fix_parsed(&self, parsed: Result<JsonValue, String>) -> (result: FixResult)
        ensures
            result@ == repair_parsed(
                match parsed {
                    Ok(value) => Ok(value@),
                    Err(message) => Err(message@),
                },
            ),
    {
        match parsed {
            Err(message) => FixResult::Skipped(SkipReason::InvalidJson(message)),
            Ok(value) => {
                let mut fixes: Vec<FixType> = Vec::new();
                let fixed = self.fix_value(&value, &mut fixes);
                let line = fixed.to_json_string();
                if fixes.len() == 0 {
                    FixResult::Unchanged(line)
                } else {
                    FixResult::Fixed { line, fixes }
                }
            },
        }
    }

    /// Walk a value and return it with the fixes applied.
    pub fn fix_value(&self, value: &JsonValue, fixes: &mut Vec<FixType>) -> (fixed: JsonValue)
        ensures
            fixed@ == walk(value@, old(fixes)@).0,
            final(fixes)@ == walk(value@, old(fixes)@).1,
        decreases value, 0nat,
    {
        match value {
            JsonValue::Null => JsonValue::Null,
            JsonValue::Bool(b) => JsonValue::Bool(*b),
            JsonValue::Number(_) => value.duplicate(),
            JsonValue::Text(text) => JsonValue::Text(self.fix_string(text.as_str(), fixes)),
            JsonValue::Array(items) => {
                let ghost trees = item_trees(items@);
                let ghost start = fixes@;
                proof {
                    lemma_array_view(*items);
                }
                let mut out: Vec<JsonValue> = Vec::with_capacity(items.len());
                let mut i: usize = 0;
                while i < items.len()
                    invariant
                        value is Array && value->Array_0 == *items,
                        i <= items@.len(),
                        trees == item_trees(items@),
                        item_trees(out@) == walk_items(trees, i as nat, start).0,
                        fixes@ == walk_items(trees, i as nat, start).1,
                    decreases items@.len() - i,
                {
                    proof {
                        assert(decreases_to!(items => items[i as int]));
                    }
                    let ghost before = out@;
                    let item = self.fix_value(&items[i], fixes);
                    out.push(item);
                    i = i + 1;
                    proof {
                        assert(item_trees(out@) =~= item_trees(before).push(item@));
                    }
                }
                proof {
                    lemma_array_view(out);
                }
                JsonValue::Array(out)
            },
            JsonValue::Object(members) => {
                proof {
                    lemma_object_view(*members);
                }
                let out = self.fix_object(members, fixes);
                proof {
                    lemma_object_view(out);
                }
                JsonValue::Object(out)
            },
        }
    }

    /// Walk the members of an object; the content of an assistant message
    /// gets the marker rule as well.
    fn fix_object(&self, members: &Vec<(String, JsonValue)>, fixes: &mut Vec<FixType>) -> (out: Vec<
        (String, JsonValue),
    >)
        ensures
            member_trees(out@) == walk_members(
                member_trees(members@),
                is_assistant(member_trees(members@)),
                members@.len(),
                old(fixes)@,
            ).0,
            final(fixes)@ == walk_members(
                member_trees(members@),
                is_assistant(member_trees(members@)),
                members@.len(),
                old(fixes)@,
            ).1,
        decreases members, 0nat,
    {
        proof {
            reveal_strlit("role");
            reveal_strlit("assistant");
            reveal_strlit("content");
            assert("role"@ =~= role_key());
            assert("assistant"@ =~= assistant_role());
            assert("content"@ =~= content_key());
        }
        let assistant: bool = match member_value(members, "role") {
            Some(role) => match role.as_str() {
                Some(text) => str_equal(text, "assistant"),
                None => false,
            },
            None => false,
        };
        let ghost trees = member_trees(members@);
        let ghost start = fixes@;
        let mut out: Vec<(String, JsonValue)> = Vec::with_capacity(members.len());
        let mut i: usize = 0;
        while i < members.len()
            invariant
                i <= members@.len(),
                trees == member_trees(members@),
                assistant == is_assistant(trees),
                "content"@ == content_key(),
                member_trees(out@) == walk_members(trees, assistant, i as nat, start).0,
                fixes@ == walk_members(trees, assistant, i as nat, start).1,
            decreases members@.len() - i,
        {
            proof {
                assert(decreases_to!(members => members[i as int]));
                assert(trees[i as int] == (members@[i as int].0@, members@[i as int].1@));
            }
            let ghost before = out@;
            let ghost log = fixes@;
            let key: &String = &members[i].0;
            let value: &JsonValue = &members[i].1;
            let fixed: JsonValue = if assistant && str_equal(key.as_str(), "content") {
                match value {
                    JsonValue::Text(text) => {
                        let spaced = self.fix_string(text.as_str(), fixes);
                        JsonValue::Text(self.fix_think_tags(spaced, fixes))
                    },
                    _ => self.fix_value(value, fixes),
                }
            } else {
                self.fix_value(value, fixes)
            };
            proof {
                let stepped = walk_member(key@, value@, assistant, log);
                assert(fixed@ == stepped.0);
                assert(fixes@ == stepped.1);
            }
            out.push((key.clone(), fixed));
            i = i + 1;
            proof {
                assert(member_trees(out@) =~= member_trees(before).push((key@, fixed@)));
            }
        }
        out
    }

    /// The whitespace rules on one string.
    fn fix_string(&self, text: &str, fixes: &mut Vec<FixType>) -> (fixed: String)
        ensures
            fixed@ == fix_text(text@, old(fixes)@).0,
            final(fixes)@ == fix_text(text@, old(fixes)@).1,
    {
        proof {
            use_type_invariant(self);
        }
        let chars = chars_of(text);
        let end: usize = trimmed_end(&chars);
        proof {
            lemma_trim_end(chars@);
            assert(chars@.subrange(0, end as int) =~= chars@.take(end as int));
        }
        let trimmed: String = if end < chars.len() {
            record_fix(fixes, FixType::RemovedTrailingWhitespace);
            string_of(&slice_chars(&chars, 0, end))
        } else {
            proof {
                assert(chars@.take(end as int) =~= chars@);
            }
            text.to_owned()
        };
        if regex_is_match(&self.whitespace_before_newline, trimmed.as_str()) {
            record_fix(fixes, FixType::TrimmedWhitespaceBeforeNewlines);
            regex_collapse(&self.whitespace_before_newline, trimmed.as_str())
        } else {
            trimmed
        }
    }

    /// The characters of a string with the opening marker at `p` closed.
    fn close_opener(chars: &Vec<char>, close: &Vec<char>, paragraph: &Vec<char>, p: usize) -> (closed:
        Vec<char>)
        requires
            close@ == think_close(),
            paragraph@ == paragraph_break(),
            p + 7 <= chars@.len(),
        ensures
            closed@ == close_opener(chars@, p as int),
    {
        let len: usize = chars.len();
        let pos: usize = find_think_close_position(chars, paragraph, p + 7);
        let head = slice_chars(chars, 0, pos);
        let tail = slice_chars(chars, pos, len);
        concat3(&head, close, &tail)
    }

    /// The marker rule on the content of an assistant message.
    fn fix_think_tags(&self, text: String, fixes: &mut Vec<FixType>) -> (fixed: String)
        ensures
            fixed@ == fix_think(text@, old(fixes)@).0,
            final(fixes)@ == fix_think(text@, old(fixes)@).1,
    {
        proof {
            use_type_invariant(self);
            reveal_strlit("<think>");
            reveal_strlit("</think>");
            reveal_strlit("\n\n");
            assert("<think>"@ =~= think_open());
            assert("</think>"@ =~= think_close());
            assert("\n\n"@ =~= paragraph_break());
        }
        let open_count: usize = regex_count(&self.think_open_regex, text.as_str());
        let close_count: usize = regex_count(&self.think_close_regex, text.as_str());
        if open_count > close_count {
            let open = chars_of("<think>");
            let close = chars_of("</think>");
            let paragraph = chars_of("\n\n");
            let rounds: usize = open_count - close_count;
            let mut chars = chars_of(text.as_str());
            let mut before: usize = chars.len();
            let mut round: usize = 0;
            while round < rounds
                invariant
                    round <= rounds,
                    open@ == think_open(),
                    close@ == think_close(),
                    paragraph@ == paragraph_break(),
                    close_repeat(text@, rounds as nat, text@.len() as int) == close_repeat(
                        chars@,
                        (rounds - round) as nat,
                        before as int,
                    ),
                decreases rounds - round,
            {
                match rfind_chars_before(&chars, &open, before) {
                    Some(p) => {
                        proof {
                            lemma_rfind_from(chars@, open@, before - 1);
                        }
                        chars = Fixer::close_opener(&chars, &close, &paragraph, p);
                        before = p;
                        round = round + 1;
                    },
                    None => {
                        round = rounds;
                    },
                }
            }
            record_fix(fixes, FixType::AddedClosingThinkTag);
            string_of(&chars)
        } else if close_count > open_count {
            let open = chars_of("<think>");
            let copies: usize = close_count - open_count;
            let mut chars = chars_of(text.as_str());
            let empty: Vec<char> = Vec::new();
            let mut copy: usize = 0;
            while copy < copies
                invariant
                    copy <= copies,
                    open@ == think_open(),
                    empty@ == Seq::<char>::empty(),
                    open_repeat(text@, copies as nat) == open_repeat(
                        chars@,
                        (copies - copy) as nat,
                    ),
                decreases copies - copy,
            {
                let ghost before = chars@;
                chars = concat3(&open, &chars, &empty);
                proof {
                    assert(chars@ =~= think_open() + before);
                }
                copy = copy + 1;
            }
            record_fix(fixes, FixType::AddedOpeningThinkTag);
            string_of(&chars)
        } else {
            text
        }
    }
}

// ─── Summary ────────────────────────────────────────────────────────────────

/// The count recorded under a label; zero when there is none.
pub open spec fn count_for(counts: Map<Seq<char>, usize>, label: Seq<char>) -> nat {
    if counts.contains_key(label) {
        counts[label] as nat
    } else {
        0
    }
}

/// The counts after one more is recorded under the label of each of the
/// first `n` fixes.
pub open spec fn tally(counts: Map<Seq<char>, usize>, fixes: Seq<FixType>, n: nat) -> Map<
    Seq<char>,
    usize,
>
    decreases n,
{
    if n == 0 {
        counts
    } else {
        let earlier = tally(counts, fixes, (n - 1) as nat);
        let label = fixes[n - 1].label();
        earlier.insert(label, (count_for(earlier, label) + 1) as usize)
    }
}

/// Recording `n` fixes raises no count by more than `n`.
pub proof fn lemma_tally_bound(
    counts: Map<Seq<char>, usize>,
    fixes: Seq<FixType>,
    n: nat,
    label: Seq<char>,
)
    requires
        forall|l: Seq<char>| count_for(counts, l) + n <= usize::MAX,
    ensures
        count_for(tally(counts, fixes, n), label) <= count_for(counts, label) + n,
    decreases n,
{
    if n > 0 {
        lemma_tally_bound(counts, fixes, (n - 1) as nat, label);
        lemma_tally_bound(counts, fixes, (n - 1) as nat, fixes[n - 1].label());
    }
}

/// Counters over the records of a repair run.
pub struct FixSummary {
    /// Records processed.
    pub total_lines: usize,
    /// Records that were fixed.
    pub fixed_lines: usize,
    /// Records that needed no fix.
    pub unchanged_lines: usize,
    /// Records that were skipped.
    pub skipped_lines: usize,
    /// For the label of each kind of fix, the number of records it was applied to.
    pub fixes_by_type: StringHashMap<usize>,
}

impl FixSummary {
    /// A summary of no records.
    pub fn new() -> (summary: Self)
        ensures
            summary.total_lines == 0,
            summary.fixed_lines == 0,
            summary.unchanged_lines == 0,
            summary.skipped_lines == 0,
            summary.fixes_by_type@ == Map::<Seq<char>, usize>::empty(),
    {
        FixSummary {
            total_lines: 0,
            fixed_lines: 0,
            unchanged_lines: 0,
            skipped_lines: 0,
            fixes_by_type: StringHashMap::new(),
        }
    }

    /// Count a record that was fixed, and each of its fixes under its label.
    pub fn record_fixed(&mut self, fixes: &[FixType])
        requires
            old(self).total_lines < usize::MAX,
            old(self).fixed_lines < usize::MAX,
            forall|label: Seq<char>|
                count_for(old(self).fixes_by_type@, label) + fixes@.len() <= usize::MAX,
        ensures
            final(self).total_lines == old(self).total_lines + 1,
            final(self).fixed_lines == old(self).fixed_lines + 1,
            final(self).unchanged_lines == old(self).unchanged_lines,
            final(self).skipped_lines == old(self).skipped_lines,
            final(self).fixes_by_type@ == tally(old(self).fixes_by_type@, fixes@, fixes@.len()),
    {
        self.total_lines = self.total_lines + 1;
        self.fixed_lines = self.fixed_lines + 1;
        let ghost start = self.fixes_by_type@;
        let mut i: usize = 0;
        while i < fixes.len()
            invariant
                i <= fixes@.len(),
                start == old(self).fixes_by_type@,
                forall|label: Seq<char>| count_for(start, label) + fixes@.len() <= usize::MAX,
                self.fixes_by_type@ == tally(start, fixes@, i as nat),
                self.total_lines == old(self).total_lines + 1,
                self.fixed_lines == old(self).fixed_lines + 1,
                self.unchanged_lines == old(self).unchanged_lines,
                self.skipped_lines == old(self).skipped_lines,
            decreases fixes@.len() - i,
        {
            let label: &'static str = fixes[i].description();
            proof {
                lemma_tally_bound(start, fixes@, i as nat, label@);
            }
            let count: usize = match self.fixes_by_type.get(label) {
                Some(count) => *count,
                None => 0,
            };
            self.fixes_by_type.insert(label.to_owned(), count + 1);
            i = i + 1;
        }
    }

    /// Count a record that needed no fix.
    pub fn record_unchanged(&mut self)
        requires
            old(self).total_lines < usize::MAX,
            old(self).unchanged_lines < usize::MAX,
        ensures
            final(self).total_lines == old(self).total_lines + 1,
            final(self).unchanged_lines == old(self).unchanged_lines + 1,
            final(self).fixed_lines == old(self).fixed_lines,
            final(self).skipped_lines == old(self).skipped_lines,
            final(self).fixes_by_type@ == old(self).fixes_by_type@,
    {
        self.total_lines = self.total_lines + 1;
        self.unchanged_lines = self.unchanged_lines + 1;
    }

    /// Count a record that was skipped.
    pub fn record_skipped(&mut self)
        requires
            old(self).total_lines < usize::MAX,
            old(self).skipped_lines < usize::MAX,
        ensures
            final(self).total_lines == old(self).total_lines + 1,
            final(self).skipped_lines == old(self).skipped_lines + 1,
            final(self).fixed_lines == old(self).fixed_lines,
            final(self).unchanged_lines == old(self).unchanged_lines,
            final(self).fixes_by_type@ == old(self).fixes_by_type@,
    {
        self.total_lines = self.total_lines + 1;
        self.skipped_lines = self.skipped_lines + 1;
    }

    /// The number of records that a kind of fix was applied to.
    pub fn count_of(&self, kind: FixType) -> (count: usize)
        ensures
            count == count_for(self.fixes_by_type@, kind.label()),
    {
        match self.fixes_by_type.get(kind.description()) {
            Some(count) => *count,
            None => 0,
        }
    }
}

} // verus!
