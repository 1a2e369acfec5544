//! State of the front end: what is shown, where the view stands, and how
//! navigation commands change it.

use vstd::prelude::*;
use vstd::string::StringSliceAdditionalSpecFns;
use vstd::utf8::{decode_utf8, valid_utf8};
use crate::bounds::{minus, smaller};
use crate::commands::{TuiCommand, ViewModeCmd};
use crate::data::{Dataset, record, record_count};
use crate::engine::{
    dataset_fingerprints, DedupEngine, DedupResult, DedupStrategy, fingerprint_values,
};
use crate::json::{json_parse, JsonValue, written_pretty};
use crate::linter::LintResult;

verus! {

/// View of the main display.
#[derive(Debug, Clone, Copy, PartialEq, Eq, Structural)]
pub enum ViewMode {
    /// Plain text.
    Text,
    /// Token boundaries.
    TokenXray,
    /// Tree of a structured record.
    Tree,
}

impl ViewMode {
    /// The view that follows this one in the cycle text, tokens, tree.
    pub open spec fn next(self) -> ViewMode {
        match self {
            ViewMode::Text => ViewMode::TokenXray,
            ViewMode::TokenXray => ViewMode::Tree,
            ViewMode::Tree => ViewMode::Text,
        }
    }

    /// Move to the next view of the cycle.
    pub fn toggle(&mut self)
        ensures
            *final(self) == old(self).next(),
    {
        *self = match self {
            ViewMode::Text => ViewMode::TokenXray,
            ViewMode::TokenXray => ViewMode::Tree,
            ViewMode::Tree => ViewMode::Text,
        };
    }

    /// The name of the view as shown in the status bar.
    pub fn label(&self) -> (name: &'static str)
        ensures
            name@ == match self {
                ViewMode::Text => "TEXT"@,
                ViewMode::TokenXray => "TOKEN X-RAY"@,
                ViewMode::Tree => "TREE"@,
            },
    {
        match self {
            ViewMode::Text => "TEXT",
            ViewMode::TokenXray => "TOKEN X-RAY",
            ViewMode::Tree => "TREE",
        }
    }
}

/// State of the front end.
pub struct App {
    /// The loaded dataset.
    pub dataset: Dataset,
    /// Index of the first record on screen.
    pub scroll: usize,
    /// Number of records that fit on screen.
    pub viewport_height: usize,
    /// Current view.
    pub view_mode: ViewMode,
    /// Defects found in the dataset.
    pub lint_results: Vec<LintResult>,
    /// Results of the last deduplication scan, if one was run.
    pub dedup_result: Option<DedupResult>,
    /// Whether the help is shown.
    pub show_help: bool,
    /// Whether the front end should stop.
    pub should_quit: bool,
    /// The selected record.
    pub selected_line: usize,
    /// Whether the detail pane is shown.
    pub show_detail: bool,
}

impl App {
    /// The number of records of the dataset.
    pub open spec fn lines(&self) -> int {
        record_count(self.dataset.bytes()) as int
    }

    /// The largest scroll position: the last screenful starts there.
    pub open spec fn max_scroll(&self) -> int {
        minus(self.lines(), self.viewport_height as int)
    }

    /// Whether only the scroll position and the selection may differ from `other`.
    pub open spec fn same_but_position(&self, other: &App) -> bool {
        &&& self.dataset == other.dataset
        &&& self.viewport_height == other.viewport_height
        &&& self.view_mode == other.view_mode
        &&& self.lint_results == other.lint_results
        &&& self.dedup_result == other.dedup_result
        &&& self.show_help == other.show_help
        &&& self.should_quit == other.should_quit
        &&& self.show_detail == other.show_detail
    }

    /// The state at start: the first record selected, text view, a screen
    /// of twenty records, nothing else shown.
    pub fn new(dataset: Dataset) -> (app: Self)
        ensures
            app.dataset == dataset,
            app.scroll == 0,
            app.viewport_height == 20,
            app.view_mode == ViewMode::Text,
            app.lint_results@.len() == 0,
            app.dedup_result is None,
            !app.show_help,
            !app.should_quit,
            app.selected_line == 0,
            !app.show_detail,
    {
        App {
            dataset,
            scroll: 0,
            viewport_height: 20,
            view_mode: ViewMode::Text,
            lint_results: Vec::new(),
            dedup_result: None,
            show_help: false,
            should_quit: false,
            selected_line: 0,
            show_detail: false,
        }
    }

    /// Show the detail pane if it is hidden, hide it if it is shown.
    pub fn toggle_detail(&mut self)
        ensures
            final(self).show_detail == !old(self).show_detail,
            final(self).view_mode == old(self).view_mode,
            final(self).dataset == old(self).dataset,
            final(self).viewport_height == old(self).viewport_height,
            final(self).lint_results == old(self).lint_results,
            final(self).dedup_result == old(self).dedup_result,
            final(self).show_help == old(self).show_help,
            final(self).should_quit == old(self).should_quit,
            final(self).scroll == old(self).scroll,
            final(self).selected_line == old(self).selected_line,
    {
        self.show_detail = !self.show_detail;
    }

    /// Move to the next view of the cycle.
    pub fn toggle_view_mode(&mut self)
        ensures
            final(self).view_mode == old(self).view_mode.next(),
            final(self).show_detail == old(self).show_detail,
            final(self).dataset == old(self).dataset,
            final(self).viewport_height == old(self).viewport_height,
            final(self).lint_results == old(self).lint_results,
            final(self).dedup_result == old(self).dedup_result,
            final(self).show_help == old(self).show_help,
            final(self).should_quit == old(self).should_quit,
            final(self).scroll == old(self).scroll,
            final(self).selected_line == old(self).selected_line,
    {
        self.view_mode.toggle();
    }

    /// Drop the results of a scan if there are any; else scan the dataset
    /// for near-duplicates with threshold 3 and keep the results.
    pub fn toggle_dedup(&mut self)
        ensures
            old(self).dedup_result is Some ==> final(self).dedup_result is None,
            old(self).dedup_result is None ==> final(self).dedup_result is Some,
            old(self).dedup_result is None ==> final(self).dedup_result->Some_0.consistent(),
            old(self).dedup_result is None ==> final(self).dedup_result->Some_0.total_lines
                == old(self).lines(),
            old(self).dedup_result is None ==> final(self).dedup_result->Some_0.strategy == (
            DedupStrategy::SimHash { threshold: 3 }),
            old(self).dedup_result is None ==> fingerprint_values(
                final(self).dedup_result->Some_0.fingerprints@,
            ) == dataset_fingerprints(
                DedupStrategy::SimHash { threshold: 3 },
                4,
                old(self).dataset.bytes(),
            ),
            final(self).dataset == old(self).dataset,
            final(self).scroll == old(self).scroll,
            final(self).selected_line == old(self).selected_line,
            final(self).viewport_height == old(self).viewport_height,
            final(self).view_mode == old(self).view_mode,
    {
        if self.dedup_result.is_some() {
            self.dedup_result = None;
        } else {
            let engine = DedupEngine::new(DedupStrategy::SimHash { threshold: 3 });
            let result = engine.scan(&self.dataset);
            self.dedup_result = Some(result);
        }
    }

    /// The selected record as text.
    pub fn current_line_content(&self) -> (line: Option<&str>)
        ensures
            line is Some <==> self.selected_line < self.lines() && valid_utf8(
                record(self.dataset.bytes(), self.selected_line as int),
            ),
            line is Some ==> line->Some_0.spec_bytes() == record(
                self.dataset.bytes(),
                self.selected_line as int,
            ),
    {
        self.dataset.get_line(self.selected_line)
    }

    /// The selected record for the detail pane: indented when it reads as
    /// JSON, as it is when it does not, and empty when it cannot be read as text.
    pub fn current_line_pretty(&self) -> (text: String)
        ensures
            text@ == if self.selected_line < self.lines() && valid_utf8(
                record(self.dataset.bytes(), self.selected_line as int),
            ) {
                let line = decode_utf8(record(self.dataset.bytes(), self.selected_line as int));
                match json_parse(line) {
                    Ok(tree) => written_pretty(tree),
                    Err(_) => line,
                }
            } else {
                Seq::empty()
            },
    {
        match self.current_line_content() {
            Some(line) => {
                proof {
                    vstd::utf8::encode_utf8_decode_utf8(line@);
                }
                match JsonValue::parse(line) {
                    Ok(value) => value.to_pretty_string(),
                    Err(_) => line.to_owned(),
                }
            },
            None => String::new(),
        }
    }

    /// The same state with `results` as the defects of the dataset.
    pub fn with_lint_results(self, results: Vec<LintResult>) -> (app: Self)
        ensures
            app == (App { lint_results: results, ..self }),
    {
        App { lint_results: results, ..self }
    }

    /// Scroll down by `n` records: the view stops at the last screenful,
    /// the selection at the last record.
    pub fn scroll_down(&mut self, n: usize)
        ensures
            final(self).scroll == smaller(old(self).scroll + n, old(self).max_scroll()),
            final(self).selected_line == smaller(
                old(self).selected_line + n,
                old(self).lines() - 1,
            ),
            final(self).same_but_position(old(self)),
    {
        let count: usize = self.dataset.line_count();
        let max_scroll: usize = count.saturating_sub(self.viewport_height);
        let scrolled: usize = self.scroll.saturating_add(n);
        self.scroll = if scrolled < max_scroll {
            scrolled
        } else {
            max_scroll
        };
        let selected: usize = self.selected_line.saturating_add(n);
        self.selected_line = if selected < count - 1 {
            selected
        } else {
            count - 1
        };
    }

    /// Scroll up by `n` records, and not past the first.
    pub fn scroll_up(&mut self, n: usize)
        ensures
            final(self).scroll == minus(old(self).scroll as int, n as int),
            final(self).selected_line == minus(old(self).selected_line as int, n as int),
            final(self).same_but_position(old(self)),
    {
        self.scroll = self.scroll.saturating_sub(n);
        self.selected_line = self.selected_line.saturating_sub(n);
    }

    /// Jump to the first record.
    pub fn goto_top(&mut self)
        ensures
            final(self).scroll == 0,
            final(self).selected_line == 0,
            final(self).same_but_position(old(self)),
    {
        self.scroll = 0;
        self.selected_line = 0;
    }

    /// Jump to the last record: the view shows the last screenful.
    pub fn goto_bottom(&mut self)
        ensures
            final(self).scroll == old(self).max_scroll(),
            final(self).selected_line == old(self).lines() - 1,
            final(self).same_but_position(old(self)),
    {
        let count: usize = self.dataset.line_count();
        self.scroll = count.saturating_sub(self.viewport_height);
        self.selected_line = count - 1;
    }

    /// Jump to record `line`, or to the last record if there is no such
    /// record, and put it in the middle of the screen.
    pub fn jump_to_line(&mut self, line: usize)
        ensures
            final(self).selected_line == smaller(line as int, old(self).lines() - 1),
            final(self).scroll == minus(
                final(self).selected_line as int,
                old(self).viewport_height as int / 2,
            ),
            final(self).same_but_position(old(self)),
    {
        let count: usize = self.dataset.line_count();
        self.selected_line = if line < count - 1 {
            line
        } else {
            count - 1
        };
        self.scroll = self.selected_line.saturating_sub(self.viewport_height / 2);
    }

    /// Set the number of records on screen from the height of the
    /// terminal: four rows go to borders and the status bar.
    pub fn set_viewport_height(&mut self, height: usize)
        ensures
            final(self).viewport_height == minus(height as int, 4),
            final(self).dataset == old(self).dataset,
            final(self).scroll == old(self).scroll,
            final(self).selected_line == old(self).selected_line,
            final(self).view_mode == old(self).view_mode,
            final(self).show_detail == old(self).show_detail,
    {
        self.viewport_height = height.saturating_sub(4);
    }

    /// Whether a defect was found in record `line_index`.
    pub fn line_has_error(&self, line_index: usize) -> (found: bool)
        ensures
            found == exists|i: int|
                0 <= i < self.lint_results@.len() && (#[trigger] self.lint_results@[i]).line
                    == line_index,
    {
        self.get_lint_error(line_index).is_some()
    }

    /// Whether the last scan flagged record `line_index` as a duplicate;
    /// `false` when no scan was run.
    pub fn line_is_duplicate(&self, line_index: usize) -> (duplicate: bool)
        ensures
            duplicate == (self.dedup_result is Some && line_index
                < self.dedup_result->Some_0.duplicates@.len()
                && self.dedup_result->Some_0.duplicates@[line_index as int]),
    {
        match &self.dedup_result {
            Some(result) => result.is_duplicate(line_index),
            None => false,
        }
    }

    /// The first defect found in record `line_index`.
    pub fn get_lint_error(&self, line_index: usize) -> (found: Option<&LintResult>)
        ensures
            match found {
                Some(result) => exists|i: int|
                    0 <= i < self.lint_results@.len() && self.lint_results@[i] == *result
                        && result.line == line_index && forall|k: int|
                        0 <= k < i ==> (#[trigger] self.lint_results@[k]).line != line_index,
                None => forall|k: int|
                    0 <= k < self.lint_results@.len() ==> (#[trigger] self.lint_results@[k]).line
                        != line_index,
            },
    {
        let mut i: usize = 0;
        while i < self.lint_results.len()
            invariant
                i <= self.lint_results@.len(),
                forall|k: int| 0 <= k < i ==> (#[trigger] self.lint_results@[k]).line != line_index,
            decreases self.lint_results@.len() - i,
        {
            if self.lint_results[i].line == line_index {
                return Some(&self.lint_results[i]);
            }
            i = i + 1;
        }
        None
    }

    /// Where a command leaves the view: the first record on screen and the
    /// selected record.
    pub open spec fn position_after(&self, command: TuiCommand) -> (int, int) {
        match command {
            TuiCommand::JumpToLine(line) => {
                let selected = smaller(line as int, self.lines() - 1);
                (minus(selected, self.viewport_height as int / 2), selected)
            },
            TuiCommand::ScrollDown(n) => (
                smaller(self.scroll + n, self.max_scroll()),
                smaller(self.selected_line + n, self.lines() - 1),
            ),
            TuiCommand::ScrollUp(n) => (
                minus(self.scroll as int, n as int),
                minus(self.selected_line as int, n as int),
            ),
            TuiCommand::GotoTop => (0, 0),
            TuiCommand::GotoBottom => (self.max_scroll(), self.lines() - 1),
            _ => (self.scroll as int, self.selected_line as int),
        }
    }

    /// The view that a command leaves.
    pub open spec fn view_after(&self, command: TuiCommand) -> ViewMode {
        match command {
            TuiCommand::ToggleView => self.view_mode.next(),
            TuiCommand::SetViewMode(ViewModeCmd::Text) => ViewMode::Text,
            TuiCommand::SetViewMode(ViewModeCmd::TokenXray) => ViewMode::TokenXray,
            TuiCommand::SetViewMode(ViewModeCmd::Tree) => ViewMode::Tree,
            _ => self.view_mode,
        }
    }

    /// Whether the detail pane is shown after a command.
    pub open spec fn detail_after(&self, command: TuiCommand) -> bool {
        match command {
            TuiCommand::ShowDetail(show) => show,
            _ => self.show_detail,
        }
    }

    /// Apply a navigation command.
    pub fn apply_command(&mut self, command: TuiCommand)
        ensures
            final(self).scroll == old(self).position_after(command).0,
            final(self).selected_line == old(self).position_after(command).1,
            final(self).view_mode == old(self).view_after(command),
            final(self).show_detail == old(self).detail_after(command),
            final(self).dataset == old(self).dataset,
            final(self).viewport_height == old(self).viewport_height,
            final(self).lint_results == old(self).lint_results,
            final(self).dedup_result == old(self).dedup_result,
            final(self).show_help == old(self).show_help,
            final(self).should_quit == old(self).should_quit,
    {
        match command {
            TuiCommand::JumpToLine(line) => {
                self.jump_to_line(line);
            },
            TuiCommand::ToggleView => {
                self.toggle_view_mode();
            },
            TuiCommand::SetViewMode(mode) => {
                self.view_mode = match mode {
                    ViewModeCmd::Text => ViewMode::Text,
                    ViewModeCmd::TokenXray => ViewMode::TokenXray,
                    ViewModeCmd::Tree => ViewMode::Tree,
                };
            },
            TuiCommand::ShowDetail(show) => {
                self.show_detail = show;
            },
            TuiCommand::ScrollDown(n) => {
                self.scroll_down(n);
            },
            TuiCommand::ScrollUp(n) => {
                self.scroll_up(n);
            },
            TuiCommand::GotoTop => {
                self.goto_top();
            },
            TuiCommand::GotoBottom => {
                self.goto_bottom();
            },
        }
    }
}

} // verus!
