//! Records that the repair leaves as they are, and why a repaired record
//! is one of them.

use vstd::prelude::*;
use crate::fixer::{
    add_fix, assistant_role, close_opener, close_position, close_repeat, content_key, fix_text,
    fix_think, FixType, insert_at, is_assistant, open_repeat, Outcome, paragraph_break, repair,
    repair_tree, role_key, walk, walk_items, walk_member, walk_members,
};
use crate::json::{json_parse, JsonTree, member, member_upto, written};
use crate::pattern::{think_close, think_open};
use crate::text::{
    collapse_before_newline, collapse_upto, count_from, count_occurrences, find_from,
    has_space_before_newline, is_whitespace, lemma_find_from, lemma_rfind_from, lemma_trim_end,
    newline_follows, occurs_at, rfind_from, space_before_newline, trim, trim_end,
};

verus! {

// ─── Whitespace ─────────────────────────────────────────────────────────────

/// A text that the whitespace rules leave as it is: it does not end in
/// whitespace and holds no space directly before a newline.
pub open spec fn text_clean(text: Seq<char>) -> bool {
    &&& text.len() > 0 ==> !is_whitespace(text.last())
    &&& !has_space_before_newline(text)
}

/// What is left once the runs of spaces before newlines are taken out of
/// the first `n` characters holds no space directly before a newline; and
/// where it ends in a space, no newline follows the spaces from `n` on.
proof fn lemma_collapse_upto(text: Seq<char>, n: nat)
    requires
        n <= text.len(),
    ensures
        forall|i: int|
            0 <= i && i + 1 < collapse_upto(text, n).len() ==> !(collapse_upto(text, n)[i] == ' '
                && #[trigger] collapse_upto(text, n)[i + 1] == '\n'),
        collapse_upto(text, n).len() > 0 && collapse_upto(text, n).last() == ' '
            ==> !newline_follows(text, n as int),
        n > 0 && !space_before_newline(text, n - 1) ==> collapse_upto(text, n).len() > 0
            && collapse_upto(text, n).last() == text[n - 1],
        collapse_upto(text, n).len() <= n,
    decreases n,
{
    if n > 0 {
        lemma_collapse_upto(text, (n - 1) as nat);
        let before = collapse_upto(text, (n - 1) as nat);
        let now = collapse_upto(text, n);
        if space_before_newline(text, n - 1) {
            assert(newline_follows(text, n - 1));
        } else {
            assert(now == before.push(text[n - 1]));
            assert forall|i: int| 0 <= i && i + 1 < now.len() implies !(now[i] == ' '
                && #[trigger] now[i + 1] == '\n') by {
                if i + 1 < before.len() {
                    assert(before[i + 1] == now[i + 1]);
                } else {
                    if now[i] == ' ' && now[i + 1] == '\n' {
                        assert(before.last() == ' ');
                        assert(text[n - 1] == '\n');
                        assert(newline_follows(text, n - 1));
                    }
                }
            }
        }
    }
}

/// The whitespace rules give a text that they leave as it is.
pub proof fn lemma_fix_text_clean(text: Seq<char>, log: Seq<FixType>)
    ensures
        text_clean(fix_text(text, log).0),
{
    let trimmed = trim_end(text);
    lemma_trim_end(text);
    if has_space_before_newline(trimmed) {
        let n = trimmed.len();
        lemma_collapse_upto(trimmed, n);
        let done = collapse_before_newline(trimmed);
        assert(!has_space_before_newline(done));
        if n > 0 {
            assert(!newline_follows(trimmed, n as int));
            assert(!space_before_newline(trimmed, n - 1));
        }
    }
}

/// The whitespace rules leave a clean text as it is, and log nothing.
pub proof fn lemma_fix_text_identity(text: Seq<char>, log: Seq<FixType>)
    requires
        text_clean(text),
    ensures
        fix_text(text, log) == (text, log),
{
    assert(trim_end(text) == text);
}

// ─── Occurrences ────────────────────────────────────────────────────────────

/// Counting may start later when the pattern does not occur before the later start.
proof fn lemma_count_skip(hay: Seq<char>, pat: Seq<char>, a: int, b: int)
    requires
        0 <= a <= b,
        forall|q: int| a <= q < b ==> !occurs_at(hay, pat, q),
    ensures
        count_from(hay, pat, a) == count_from(hay, pat, b),
    decreases b - a,
{
    if a < b {
        lemma_count_skip(hay, pat, a + 1, b);
        if pat.len() == 0 || a + pat.len() > hay.len() {
            lemma_count_tail(hay, pat, a, b);
        }
    }
}

/// Past the last place where the pattern fits, nothing is counted.
proof fn lemma_count_tail(hay: Seq<char>, pat: Seq<char>, a: int, b: int)
    requires
        0 <= a <= b,
        pat.len() == 0 || a + pat.len() > hay.len(),
    ensures
        count_from(hay, pat, a) == 0,
        count_from(hay, pat, b) == 0,
{
}

// ─── Putting a closing marker in ────────────────────────────────────────────

/// The characters of a text with a closing marker put in at `q`.
proof fn lemma_insert_close(text: Seq<char>, q: int)
    requires
        0 <= q <= text.len(),
    ensures
        insert_at(text, q, think_close()).len() == text.len() + 8,
        forall|i: int| 0 <= i < q ==> insert_at(text, q, think_close())[i] == text[i],
        forall|i: int|
            q <= i < q + 8 ==> insert_at(text, q, think_close())[i] == think_close()[i - q],
        forall|i: int|
            q + 8 <= i < text.len() + 8 ==> insert_at(text, q, think_close())[i] == text[i - 8],
{
}

/// Before the marker that was put in, a pattern occurs where it did.
proof fn lemma_occurs_before(text: Seq<char>, q: int, pat: Seq<char>, r: int)
    requires
        0 <= q <= text.len(),
        0 <= r,
        r + pat.len() <= q,
    ensures
        occurs_at(insert_at(text, q, think_close()), pat, r) == occurs_at(text, pat, r),
{
    lemma_insert_close(text, q);
    let made = insert_at(text, q, think_close());
    assert(made.subrange(r, r + pat.len()) =~= text.subrange(r, r + pat.len()));
}

/// After the marker that was put in, a pattern occurs eight places later
/// than it did.
proof fn lemma_occurs_after(text: Seq<char>, q: int, pat: Seq<char>, r: int)
    requires
        0 <= q <= text.len(),
        q + 8 <= r,
    ensures
        occurs_at(insert_at(text, q, think_close()), pat, r) == occurs_at(text, pat, r - 8),
{
    lemma_insert_close(text, q);
    let made = insert_at(text, q, think_close());
    if r + pat.len() <= made.len() {
        assert(made.subrange(r, r + pat.len()) =~= text.subrange(r - 8, r - 8 + pat.len()));
    }
}

/// Both markers start with `<` and hold no other.
proof fn lemma_marker_shapes()
    ensures
        think_open().len() == 7,
        think_close().len() == 8,
        think_open()[0] == '<',
        think_close()[0] == '<',
        think_open()[1] == 't',
        think_close()[1] == '/',
        think_close()[7] == '>',
        think_open()[6] == '>',
        forall|k: int| 1 <= k < 7 ==> think_open()[k] != '<',
        forall|k: int| 1 <= k < 8 ==> think_close()[k] != '<',
        forall|k: int| 0 <= k < 7 ==> think_open()[k] != ' ' && think_open()[k] != '\n',
        forall|k: int| 0 <= k < 8 ==> think_close()[k] != ' ' && think_close()[k] != '\n',
{
}

/// No opening marker overlaps the closing marker that was put in.
proof fn lemma_no_open_across(text: Seq<char>, q: int, r: int)
    requires
        0 <= q <= text.len(),
        q - 7 < r < q + 8,
    ensures
        !occurs_at(insert_at(text, q, think_close()), think_open(), r),
{
    lemma_insert_close(text, q);
    lemma_marker_shapes();
    let made = insert_at(text, q, think_close());
    if occurs_at(made, think_open(), r) {
        let window = made.subrange(r, r + 7);
        if r < q {
            assert(window[q - r] == made[q]);
        } else if r == q {
            assert(window[1] == made[q + 1]);
        } else {
            assert(window[0] == made[r]);
        }
    }
}

/// The closing marker that was put in is there.
proof fn lemma_close_is_there(text: Seq<char>, q: int)
    requires
        0 <= q <= text.len(),
    ensures
        occurs_at(insert_at(text, q, think_close()), think_close(), q),
{
    lemma_insert_close(text, q);
    let made = insert_at(text, q, think_close());
    assert(made.subrange(q, q + 8) =~= think_close());
}

/// No other closing marker overlaps the one that was put in.
proof fn lemma_no_close_across(text: Seq<char>, q: int, r: int)
    requires
        0 <= q <= text.len(),
        q - 8 < r < q + 8,
        r != q,
    ensures
        !occurs_at(insert_at(text, q, think_close()), think_close(), r),
{
    lemma_insert_close(text, q);
    lemma_marker_shapes();
    let made = insert_at(text, q, think_close());
    if occurs_at(made, think_close(), r) {
        let window = made.subrange(r, r + 8);
        assert(window == think_close());
        if r < q {
            assert(window[q - r] == made[q]);
            assert(made[q] == think_close()[0]);
            assert(think_close()[q - r] != '<');
        } else {
            assert(window[0] == made[r]);
            assert(made[r] == think_close()[r - q]);
            assert(think_close()[r - q] != '<');
        }
        assert(false);
    }
}

/// Counts in two texts differ by `d` from `r` on when the pattern occurs at
/// the same places before `q` and the counts differ by `d` from every
/// place on where the pattern would reach `q` or pass it.
proof fn lemma_count_prefix(a: Seq<char>, b: Seq<char>, pat: Seq<char>, r: int, q: int, d: nat)
    requires
        pat.len() > 0,
        0 <= r <= q,
        q <= a.len(),
        q <= b.len(),
        forall|x: int|
            0 <= x && x + pat.len() <= q ==> occurs_at(a, pat, x) == occurs_at(b, pat, x),
        forall|x: int|
            0 <= x && q - pat.len() < x <= q ==> count_from(b, pat, x) == count_from(a, pat, x)
                + d,
    ensures
        count_from(b, pat, r) == count_from(a, pat, r) + d,
    decreases q - r,
{
    if r + pat.len() <= q {
        if occurs_at(a, pat, r) {
            lemma_count_prefix(a, b, pat, r + pat.len(), q, d);
        } else {
            lemma_count_prefix(a, b, pat, r + 1, q, d);
        }
    }
}

/// A place where a closing marker may be put in: the end of the text, or a
/// newline.
pub open spec fn is_break(text: Seq<char>, q: int) -> bool {
    0 <= q <= text.len() && (q < text.len() ==> text[q] == '\n')
}

/// No marker lies over a break or starts at one.
proof fn lemma_no_marker_over(text: Seq<char>, pat: Seq<char>, q: int, x: int)
    requires
        is_break(text, q),
        pat == think_open() || pat == think_close(),
        x <= q < x + pat.len(),
    ensures
        !occurs_at(text, pat, x),
{
    lemma_marker_shapes();
    if occurs_at(text, pat, x) {
        assert(text.subrange(x, x + pat.len())[q - x] == text[q]);
    }
}

/// An opening marker does not start inside another.
proof fn lemma_open_apart(text: Seq<char>, p: int, k: int)
    requires
        occurs_at(text, think_open(), p),
        1 <= k < 7,
    ensures
        !occurs_at(text, think_open(), p + k),
{
    lemma_marker_shapes();
    if occurs_at(text, think_open(), p + k) {
        assert(text.subrange(p + k, p + k + 7)[0] == text[p + k]);
        assert(text.subrange(p, p + 7)[k] == text[p + k]);
    }
}

/// Counts agree when one text is the other moved `k` places to the right
/// from `lo` on.
proof fn lemma_count_shift(a: Seq<char>, b: Seq<char>, pat: Seq<char>, k: int, lo: int, r: int)
    requires
        0 <= k,
        0 <= lo <= r,
        b.len() == a.len() + k,
        forall|x: int| lo <= x ==> occurs_at(b, pat, x + k) == occurs_at(a, pat, x),
    ensures
        count_from(b, pat, r + k) == count_from(a, pat, r),
    decreases a.len() - r + 1,
{
    if pat.len() > 0 && r + pat.len() <= a.len() {
        if occurs_at(a, pat, r) {
            assert(occurs_at(b, pat, r + k));
            lemma_count_shift(a, b, pat, k, lo, r + pat.len());
        } else {
            assert(!occurs_at(b, pat, r + k));
            lemma_count_shift(a, b, pat, k, lo, r + 1);
        }
    }
}

/// With a closing marker put in at a break there are, from any place up to
/// the break on, as many opening markers as before and one closing marker
/// more.
proof fn lemma_closed(text: Seq<char>, q: int, r: int)
    requires
        is_break(text, q),
        0 <= r <= q,
    ensures
        count_from(insert_at(text, q, think_close()), think_open(), r) == count_from(
            text,
            think_open(),
            r,
        ),
        count_from(insert_at(text, q, think_close()), think_close(), r) == count_from(
            text,
            think_close(),
            r,
        ) + 1,
{
    let made = insert_at(text, q, think_close());
    let open = think_open();
    let close = think_close();
    lemma_insert_close(text, q);
    lemma_marker_shapes();
    // Opening markers.
    assert forall|x: int| q <= x implies occurs_at(made, open, x + 8) == occurs_at(text, open, x) by {
        lemma_occurs_after(text, q, open, x + 8);
    }
    assert forall|x: int| q <= x implies occurs_at(made, close, x + 8) == occurs_at(
        text,
        close,
        x,
    ) by {
        lemma_occurs_after(text, q, close, x + 8);
    }
    lemma_count_shift(text, made, open, 8, q, q);
    lemma_count_shift(text, made, close, 8, q, q);
    assert forall|x: int| 0 <= x && x + open.len() <= q implies occurs_at(text, open, x)
        == occurs_at(made, open, x) by {
        lemma_occurs_before(text, q, open, x);
    }
    assert forall|x: int| 0 <= x && q - open.len() < x <= q implies count_from(made, open, x)
        == count_from(text, open, x) + 0 by {
        assert forall|y: int| x <= y < q implies !occurs_at(text, open, y) by {
            lemma_no_marker_over(text, open, q, y);
        }
        lemma_count_skip(text, open, x, q);
        assert forall|y: int| x <= y < q + 8 implies !occurs_at(made, open, y) by {
            lemma_no_open_across(text, q, y);
        }
        lemma_count_skip(made, open, x, q + 8);
    }
    lemma_count_prefix(text, made, open, r, q, 0);
    // Closing markers.
    assert forall|x: int| 0 <= x && x + close.len() <= q implies occurs_at(text, close, x)
        == occurs_at(made, close, x) by {
        lemma_occurs_before(text, q, close, x);
    }
    lemma_close_is_there(text, q);
    assert(count_from(made, close, q) == 1 + count_from(made, close, q + 8));
    assert forall|x: int| 0 <= x && q - close.len() < x <= q implies count_from(made, close, x)
        == count_from(text, close, x) + 1 by {
        assert forall|y: int| x <= y < q implies !occurs_at(text, close, y) by {
            lemma_no_marker_over(text, close, q, y);
        }
        lemma_count_skip(text, close, x, q);
        assert forall|y: int| x <= y < q implies !occurs_at(made, close, y) by {
            lemma_no_close_across(text, q, y);
        }
        lemma_count_skip(made, close, x, q);
    }
    lemma_count_prefix(text, made, close, r, q, 1);
}

/// Where a closing marker goes for the opening marker at `p`: at a break
/// after the marker.
proof fn lemma_close_position(text: Seq<char>, p: int)
    requires
        occurs_at(text, think_open(), p),
    ensures
        is_break(text, close_position(text, p + 7)),
        p + 7 <= close_position(text, p + 7),
{
    lemma_marker_shapes();
    lemma_find_from(text, paragraph_break(), p + 7);
    match find_from(text, paragraph_break(), p + 7) {
        Some(q) => {
            assert(text.subrange(q, q + 2)[0] == text[q]);
        },
        None => {},
    }
}

/// A clean text stays clean when a closing marker is put in after an
/// opening marker.
proof fn lemma_closed_clean(text: Seq<char>, p: int, q: int)
    requires
        text_clean(text),
        occurs_at(text, think_open(), p),
        p + 7 <= q <= text.len(),
    ensures
        text_clean(insert_at(text, q, think_close())),
{
    let made = insert_at(text, q, think_close());
    lemma_insert_close(text, q);
    lemma_marker_shapes();
    if q == text.len() {
        assert(made.last() == think_close()[7]);
    } else {
        assert(made.last() == text.last());
    }
    assert forall|i: int| 0 <= i && i + 1 < made.len() implies !(made[i] == ' '
        && #[trigger] made[i + 1] == '\n') by {
        if i + 1 < q {
            assert(text[i + 1] == made[i + 1]);
        } else if i >= q + 8 {
            assert(text[(i - 8) + 1] == made[i + 1]);
        }
    }
}

// ─── Putting opening markers in front ───────────────────────────────────────

/// With an opening marker in front there is one opening marker more and as
/// many closing markers as before, and a clean text stays clean.
proof fn lemma_opened(text: Seq<char>)
    ensures
        count_occurrences(think_open() + text, think_open()) == count_occurrences(
            text,
            think_open(),
        ) + 1,
        count_occurrences(think_open() + text, think_close()) == count_occurrences(
            text,
            think_close(),
        ),
        text_clean(text) ==> text_clean(think_open() + text),
{
    let open = think_open();
    let close = think_close();
    let made = open + text;
    lemma_marker_shapes();
    assert forall|x: int| 0 <= x implies occurs_at(made, open, x + 7) == occurs_at(text, open, x) by {
        if x + 7 <= text.len() {
            assert(made.subrange(x + 7, x + 7 + 7) =~= text.subrange(x, x + 7));
        }
    }
    assert forall|x: int| 0 <= x implies occurs_at(made, close, x + 7) == occurs_at(
        text,
        close,
        x,
    ) by {
        if x + 8 <= text.len() {
            assert(made.subrange(x + 7, x + 7 + 8) =~= text.subrange(x, x + 8));
        }
    }
    lemma_count_shift(text, made, open, 7, 0, 0);
    lemma_count_shift(text, made, close, 7, 0, 0);
    assert(made.subrange(0, 7) =~= open);
    assert(occurs_at(made, open, 0));
    assert forall|r: int| 0 <= r < 7 implies !occurs_at(made, close, r) by {
        if occurs_at(made, close, r) {
            let window = made.subrange(r, r + 8);
            if r == 0 {
                assert(window[1] == made[1]);
            } else {
                assert(window[0] == made[r]);
            }
        }
    }
    lemma_count_skip(made, close, 0, 7);
    if text_clean(text) {
        if text.len() > 0 {
            assert(made.last() == text.last());
        } else {
            assert(made.last() == open[6]);
        }
        assert forall|i: int| 0 <= i && i + 1 < made.len() implies !(made[i] == ' '
            && #[trigger] made[i + 1] == '\n') by {
            if i >= 7 {
                assert(text[(i - 7) + 1] == made[i + 1]);
            }
        }
    }
}

/// With `copies` opening markers in front there are that many opening
/// markers more and as many closing markers as before, and a clean text
/// stays clean.
proof fn lemma_open_repeat(text: Seq<char>, copies: nat)
    ensures
        count_occurrences(open_repeat(text, copies), think_open()) == count_occurrences(
            text,
            think_open(),
        ) + copies,
        count_occurrences(open_repeat(text, copies), think_close()) == count_occurrences(
            text,
            think_close(),
        ),
        text_clean(text) ==> text_clean(open_repeat(text, copies)),
    decreases copies,
{
    if copies > 0 {
        lemma_opened(text);
        lemma_open_repeat(think_open() + text, (copies - 1) as nat);
    }
}

// ─── Markers that are settled ───────────────────────────────────────────────

/// A text that the marker rule leaves as it is: it has as many opening as
/// closing markers.
pub open spec fn think_settled(text: Seq<char>) -> bool {
    count_occurrences(text, think_open()) == count_occurrences(text, think_close())
}

/// The marker rule leaves a settled text as it is, and logs nothing.
pub proof fn lemma_fix_think_identity(text: Seq<char>, log: Seq<FixType>)
    requires
        think_settled(text),
    ensures
        fix_think(text, log) == (text, log),
{
}

/// Closing `rounds` opening markers, where that many start before
/// `before`, leaves the opening markers as they are and adds `rounds`
/// closing markers; a clean text stays clean.
proof fn lemma_close_repeat(text: Seq<char>, rounds: nat, before: int)
    requires
        0 <= before,
        count_from(text, think_open(), 0) >= count_from(text, think_open(), before) + rounds,
    ensures
        count_occurrences(close_repeat(text, rounds, before), think_open()) == count_occurrences(
            text,
            think_open(),
        ),
        count_occurrences(close_repeat(text, rounds, before), think_close()) == count_occurrences(
            text,
            think_close(),
        ) + rounds,
        text_clean(text) ==> text_clean(close_repeat(text, rounds, before)),
    decreases rounds,
{
    if rounds > 0 {
        let open = think_open();
        lemma_marker_shapes();
        lemma_rfind_from(text, open, before - 1);
        if rfind_from(text, open, before - 1) is None {
            lemma_count_skip(text, open, 0, before);
        }
        let p = rfind_from(text, open, before - 1)->Some_0;
        let q = close_position(text, p + 7);
        let made = close_opener(text, p);
        lemma_close_position(text, p);
        // As many opening markers start before `p` as before `before`, less one.
        lemma_count_skip(text, open, p + 1, before);
        assert forall|x: int| p + 1 <= x < p + 7 implies !occurs_at(text, open, x) by {
            lemma_open_apart(text, p, x - p);
        }
        lemma_count_skip(text, open, p + 1, p + 7);
        assert(count_from(text, open, p) == 1 + count_from(text, open, p + 7));
        lemma_closed(text, q, 0);
        lemma_closed(text, q, p);
        if text_clean(text) {
            lemma_closed_clean(text, p, q);
        }
        lemma_close_repeat(made, (rounds - 1) as nat, p);
    }
}

/// The marker rule gives a text that it leaves as it is, and a clean one
/// when the text it starts from is clean.
pub proof fn lemma_fix_think_settles(text: Seq<char>, log: Seq<FixType>)
    ensures
        think_settled(fix_think(text, log).0),
        text_clean(text) ==> text_clean(fix_think(text, log).0),
{
    let opened = count_occurrences(text, think_open());
    let closed = count_occurrences(text, think_close());
    lemma_marker_shapes();
    if closed > opened {
        lemma_open_repeat(text, (closed - opened) as nat);
    } else if opened > closed {
        assert(count_from(text, think_open(), text.len() as int) == 0);
        lemma_close_repeat(text, (opened - closed) as nat, text.len() as int);
    }
}

// ─── Trees that are clean ───────────────────────────────────────────────────

/// A tree that the walk leaves as it is: every string it visits is clean,
/// and the content of every assistant message is settled as well.
pub open spec fn clean(tree: JsonTree) -> bool
    decreases tree, 0nat,
{
    match tree {
        JsonTree::Text(text) => text_clean(text),
        JsonTree::Array(items) => clean_items(items, items.len()),
        JsonTree::Object(members) => clean_members(
            members,
            is_assistant(members),
            members.len(),
        ),
        _ => true,
    }
}

/// Whether the first `n` items are clean.
pub open spec fn clean_items(items: Seq<JsonTree>, n: nat) -> bool
    decreases items, n,
{
    if n == 0 || n > items.len() {
        true
    } else {
        clean_items(items, (n - 1) as nat) && clean(items[n - 1])
    }
}

/// Whether the values of the first `n` members are clean.
pub open spec fn clean_members(members: Seq<(Seq<char>, JsonTree)>, assistant: bool, n: nat) -> bool
    decreases members, n,
{
    if n == 0 || n > members.len() {
        true
    } else {
        clean_members(members, assistant, (n - 1) as nat) && clean_member(
            members[n - 1].0,
            members[n - 1].1,
            assistant,
        )
    }
}

/// Whether the value of one member is clean: the content of an assistant
/// message is clean and settled when it is a string; any other value is
/// clean as a tree.
pub open spec fn clean_member(key: Seq<char>, value: JsonTree, assistant: bool) -> bool
    decreases value, 1nat,
{
    if assistant && key == content_key() {
        match value {
            JsonTree::Text(text) => text_clean(text) && think_settled(text),
            _ => clean(value),
        }
    } else {
        clean(value)
    }
}

/// The walk leaves a clean tree as it is, and logs nothing.
pub proof fn lemma_walk_identity(tree: JsonTree, log: Seq<FixType>)
    requires
        clean(tree),
    ensures
        walk(tree, log) == (tree, log),
    decreases tree, 0nat,
{
    match tree {
        JsonTree::Text(text) => {
            lemma_fix_text_identity(text, log);
        },
        JsonTree::Array(items) => {
            lemma_walk_items_identity(items, items.len(), log);
            assert(items.take(items.len() as int) =~= items);
        },
        JsonTree::Object(members) => {
            lemma_walk_members_identity(members, is_assistant(members), members.len(), log);
            assert(members.take(members.len() as int) =~= members);
        },
        _ => {},
    }
}

proof fn lemma_walk_items_identity(items: Seq<JsonTree>, n: nat, log: Seq<FixType>)
    requires
        n <= items.len(),
        clean_items(items, n),
    ensures
        walk_items(items, n, log) == (items.take(n as int), log),
    decreases items, n,
{
    if n > 0 {
        lemma_walk_items_identity(items, (n - 1) as nat, log);
        lemma_walk_identity(items[n - 1], log);
        assert(items.take(n as int) =~= items.take(n - 1).push(items[n - 1]));
    } else {
        assert(items.take(0) =~= Seq::<JsonTree>::empty());
    }
}

proof fn lemma_walk_members_identity(
    members: Seq<(Seq<char>, JsonTree)>,
    assistant: bool,
    n: nat,
    log: Seq<FixType>,
)
    requires
        n <= members.len(),
        clean_members(members, assistant, n),
    ensures
        walk_members(members, assistant, n, log) == (members.take(n as int), log),
    decreases members, n,
{
    if n > 0 {
        lemma_walk_members_identity(members, assistant, (n - 1) as nat, log);
        lemma_walk_member_identity(members[n - 1].0, members[n - 1].1, assistant, log);
        assert(members.take(n as int) =~= members.take(n - 1).push(members[n - 1]));
    } else {
        assert(members.take(0) =~= Seq::<(Seq<char>, JsonTree)>::empty());
    }
}

proof fn lemma_walk_member_identity(
    key: Seq<char>,
    value: JsonTree,
    assistant: bool,
    log: Seq<FixType>,
)
    requires
        clean_member(key, value, assistant),
    ensures
        walk_member(key, value, assistant, log) == (value, log),
    decreases value, 1nat,
{
    if assistant && key == content_key() {
        match value {
            JsonTree::Text(text) => {
                lemma_fix_text_identity(text, log);
                lemma_fix_think_identity(text, log);
            },
            _ => {
                lemma_walk_identity(value, log);
            },
        }
    } else {
        lemma_walk_identity(value, log);
    }
}

// ─── Trees that one repair settles ──────────────────────────────────────────

/// Whether the members are those of an assistant message once the
/// whitespace rules were applied to the role.
pub open spec fn assistant_after(members: Seq<(Seq<char>, JsonTree)>) -> bool {
    match member(members, role_key()) {
        Some(JsonTree::Text(role)) => fix_text(role, Seq::empty()).0 == assistant_role(),
        _ => false,
    }
}

/// A tree that one repair settles. The repair reads the role of a message
/// before it repairs it: a message whose role only becomes `assistant`
/// through the repair has its content walked as any string, without the
/// marker rule. Such a message is settled only if its content, once the
/// whitespace rules were applied, is settled as it stands. Every other
/// tree is settled by one repair.
pub open spec fn settles(tree: JsonTree) -> bool
    decreases tree, 0nat,
{
    match tree {
        JsonTree::Array(items) => settles_items(items, items.len()),
        JsonTree::Object(members) => settles_members(
            members,
            is_assistant(members),
            assistant_after(members),
            members.len(),
        ),
        _ => true,
    }
}

/// Whether one repair settles the first `n` items.
pub open spec fn settles_items(items: Seq<JsonTree>, n: nat) -> bool
    decreases items, n,
{
    if n == 0 || n > items.len() {
        true
    } else {
        settles_items(items, (n - 1) as nat) && settles(items[n - 1])
    }
}

/// Whether one repair settles the values of the first `n` members of a
/// message that is an assistant message `before` the repair, and `after` it.
pub open spec fn settles_members(
    members: Seq<(Seq<char>, JsonTree)>,
    before: bool,
    after: bool,
    n: nat,
) -> bool
    decreases members, n,
{
    if n == 0 || n > members.len() {
        true
    } else {
        settles_members(members, before, after, (n - 1) as nat) && settles_member(
            members[n - 1].0,
            members[n - 1].1,
            before,
            after,
        )
    }
}

/// Whether one repair settles the value of one member: a string that is
/// the content of a message that only becomes an assistant message, when
/// the whitespace rules leave it settled; any other value when it is
/// settled as a tree, which every string is.
pub open spec fn settles_member(key: Seq<char>, value: JsonTree, before: bool, after: bool) -> bool
    decreases value, 1nat,
{
    if key == content_key() && after && !before {
        match value {
            JsonTree::Text(text) => think_settled(fix_text(text, Seq::empty()).0),
            _ => settles(value),
        }
    } else {
        settles(value)
    }
}

/// The walk keeps the members of an object in their order and under
/// their keys: it gives as many members as it was given, with the same
/// keys, and strings where there were strings.
pub proof fn lemma_walked_members(
    members: Seq<(Seq<char>, JsonTree)>,
    assistant: bool,
    n: nat,
    log: Seq<FixType>,
)
    requires
        n <= members.len(),
    ensures
        walk_members(members, assistant, n, log).0.len() == n,
        forall|i: int|
            0 <= i < n ==> (#[trigger] walk_members(members, assistant, n, log).0[i]).0
                == members[i].0,
        forall|i: int|
            0 <= i < n ==> (walk_members(members, assistant, n, log).0[i].1 is Text
                <==> (#[trigger] members[i]).1 is Text),
        forall|i: int|
            0 <= i < n && !(assistant && members[i].0 == content_key()) && (
            #[trigger] members[i]).1 is Text ==> walk_members(
                members,
                assistant,
                n,
                log,
            ).0[i].1->Text_0 == fix_text(members[i].1->Text_0, Seq::empty()).0,
    decreases n,
{
    if n > 0 {
        lemma_walked_members(members, assistant, (n - 1) as nat, log);
        let before = walk_members(members, assistant, (n - 1) as nat, log);
        let key = members[n - 1].0;
        let value = members[n - 1].1;
        let stepped = walk_member(key, value, assistant, before.1);
        let now = walk_members(members, assistant, n, log).0;
        assert(now == before.0.push((key, stepped.0)));
        lemma_walk_member_shape(key, value, assistant, before.1);
        assert forall|i: int| 0 <= i < n implies (now[i].1 is Text <==> (
        #[trigger] members[i]).1 is Text) by {
            if i < n - 1 {
                assert(now[i] == before.0[i]);
            }
        }
        assert forall|i: int|
            0 <= i < n && !(assistant && members[i].0 == content_key()) && (
            #[trigger] members[i]).1 is Text implies now[i].1->Text_0 == fix_text(
            members[i].1->Text_0,
            Seq::empty(),
        ).0 by {
            if i < n - 1 {
                assert(now[i] == before.0[i]);
            }
        }
    }
}

/// The walk over the value of a member gives a string where there was
/// one, and for a string that is not the content of an assistant message
/// the string that the whitespace rules give.
proof fn lemma_walk_member_shape(
    key: Seq<char>,
    value: JsonTree,
    assistant: bool,
    log: Seq<FixType>,
)
    ensures
        walk_member(key, value, assistant, log).0 is Text <==> value is Text,
        !(assistant && key == content_key()) && value is Text ==> walk_member(
            key,
            value,
            assistant,
            log,
        ).0->Text_0 == fix_text(value->Text_0, Seq::empty()).0,
{
    match value {
        JsonTree::Text(text) => {
            assert(walk(value, log).0 == JsonTree::Text(fix_text(text, log).0));
        },
        JsonTree::Array(items) => {
            assert(walk(value, log).0 is Array);
        },
        JsonTree::Object(members) => {
            assert(walk(value, log).0 is Object);
        },
        _ => {
            assert(walk(value, log).0 == value);
        },
    }
}

/// Looking a key up among the first `n` members finds the last of them
/// that has the key.
proof fn lemma_member_upto(members: Seq<(Seq<char>, JsonTree)>, key: Seq<char>, n: nat)
    requires
        n <= members.len(),
    ensures
        match member_upto(members, key, n) {
            Some(value) => exists|i: int|
                0 <= i < n && (#[trigger] members[i]).0 == key && members[i].1 == value && forall|
                    j: int,
                |
                    i < j < n ==> (#[trigger] members[j]).0 != key,
            None => forall|j: int| 0 <= j < n ==> (#[trigger] members[j]).0 != key,
        },
    decreases n,
{
    if n > 0 && members[n - 1].0 != key {
        lemma_member_upto(members, key, (n - 1) as nat);
    }
}

/// The last of the first `n` members with a key is what a lookup finds.
proof fn lemma_member_is(members: Seq<(Seq<char>, JsonTree)>, key: Seq<char>, n: nat, i: int)
    requires
        n <= members.len(),
        0 <= i < n,
        members[i].0 == key,
        forall|j: int| i < j < n ==> (#[trigger] members[j]).0 != key,
    ensures
        member_upto(members, key, n) == Some(members[i].1),
    decreases n,
{
    if i < n - 1 {
        lemma_member_is(members, key, (n - 1) as nat, i);
    }
}

/// The role `assistant` is clean.
proof fn lemma_assistant_role_clean()
    ensures
        text_clean(assistant_role()),
        fix_text(assistant_role(), Seq::empty()).0 == assistant_role(),
{
    let role = assistant_role();
    assert(role.len() == 9);
    assert(role.last() == 't');
    assert forall|k: int| 0 <= k < 9 implies role[k] != ' ' by {}
    lemma_fix_text_identity(role, Seq::empty());
}

/// After the walk a message is an assistant message exactly when its role
/// is `assistant` once the whitespace rules were applied to it; a message
/// that was an assistant message before is one after.
proof fn lemma_role_after_walk(members: Seq<(Seq<char>, JsonTree)>, log: Seq<FixType>)
    ensures
        is_assistant(walk_members(members, is_assistant(members), members.len(), log).0)
            == assistant_after(members),
        is_assistant(members) ==> assistant_after(members),
{
    let assistant = is_assistant(members);
    let n = members.len();
    let walked = walk_members(members, assistant, n, log).0;
    let key = role_key();
    lemma_walked_members(members, assistant, n, log);
    lemma_member_upto(members, key, n);
    lemma_member_upto(walked, key, n);
    lemma_assistant_role_clean();
    assert(key != content_key()) by {
        assert(key.len() == 4);
        assert(content_key().len() == 7);
    }
    match member_upto(members, key, n) {
        Some(value) => {
            let i = choose|i: int|
                0 <= i < n && (#[trigger] members[i]).0 == key && members[i].1 == value && forall|
                    j: int,
                |
                    i < j < n ==> (#[trigger] members[j]).0 != key;
            assert(walked[i].0 == key);
            assert forall|j: int| i < j < n implies (#[trigger] walked[j]).0 != key by {
                assert(members[j].0 != key);
            }
            lemma_member_is(walked, key, n, i);
            if value is Text {
                let role = value->Text_0;
                assert(walked[i].1->Text_0 == fix_text(role, Seq::empty()).0);
            }
        },
        None => {
            assert forall|j: int| 0 <= j < n implies (#[trigger] walked[j]).0 != key by {
                assert(members[j].0 != key);
            }
        },
    }
}

/// The walk gives a clean tree when it settles the tree it is given.
pub proof fn lemma_walk_settles(tree: JsonTree, log: Seq<FixType>)
    requires
        settles(tree),
    ensures
        clean(walk(tree, log).0),
    decreases tree, 0nat,
{
    match tree {
        JsonTree::Text(text) => {
            lemma_fix_text_clean(text, log);
        },
        JsonTree::Array(items) => {
            lemma_walk_items_settle(items, items.len(), log);
        },
        JsonTree::Object(members) => {
            lemma_role_after_walk(members, log);
            lemma_walk_members_settle(
                members,
                is_assistant(members),
                assistant_after(members),
                members.len(),
                log,
            );
        },
        _ => {},
    }
}

proof fn lemma_walk_items_settle(items: Seq<JsonTree>, n: nat, log: Seq<FixType>)
    requires
        n <= items.len(),
        settles_items(items, n),
    ensures
        walk_items(items, n, log).0.len() == n,
        clean_items(walk_items(items, n, log).0, n),
    decreases items, n,
{
    if n > 0 {
        lemma_walk_items_settle(items, (n - 1) as nat, log);
        let before = walk_items(items, (n - 1) as nat, log);
        lemma_walk_settles(items[n - 1], before.1);
        let now = walk_items(items, n, log).0;
        lemma_clean_items_prefix(now, before.0, (n - 1) as nat);
    }
}

/// Whether the first `n` items are clean depends on these items alone.
proof fn lemma_clean_items_prefix(a: Seq<JsonTree>, b: Seq<JsonTree>, n: nat)
    requires
        n <= a.len(),
        n <= b.len(),
        forall|i: int| 0 <= i < n ==> a[i] == b[i],
    ensures
        clean_items(a, n) == clean_items(b, n),
    decreases n,
{
    if n > 0 {
        lemma_clean_items_prefix(a, b, (n - 1) as nat);
    }
}

/// Whether the first `n` members are clean depends on these members alone.
proof fn lemma_clean_members_prefix(
    a: Seq<(Seq<char>, JsonTree)>,
    b: Seq<(Seq<char>, JsonTree)>,
    assistant: bool,
    n: nat,
)
    requires
        n <= a.len(),
        n <= b.len(),
        forall|i: int| 0 <= i < n ==> a[i] == b[i],
    ensures
        clean_members(a, assistant, n) == clean_members(b, assistant, n),
    decreases n,
{
    if n > 0 {
        lemma_clean_members_prefix(a, b, assistant, (n - 1) as nat);
    }
}

proof fn lemma_walk_members_settle(
    members: Seq<(Seq<char>, JsonTree)>,
    before: bool,
    after: bool,
    n: nat,
    log: Seq<FixType>,
)
    requires
        n <= members.len(),
        before ==> after,
        settles_members(members, before, after, n),
    ensures
        walk_members(members, before, n, log).0.len() == n,
        clean_members(walk_members(members, before, n, log).0, after, n),
    decreases members, n,
{
    if n > 0 {
        lemma_walk_members_settle(members, before, after, (n - 1) as nat, log);
        let earlier = walk_members(members, before, (n - 1) as nat, log);
        let key = members[n - 1].0;
        let value = members[n - 1].1;
        let stepped = walk_member(key, value, before, earlier.1);
        lemma_walk_member_shape(key, value, before, earlier.1);
        assert(settles_member(key, value, before, after));
        if key == content_key() && before {
            match value {
                JsonTree::Text(text) => {
                    lemma_fix_text_clean(text, earlier.1);
                    let spaced = fix_text(text, earlier.1);
                    lemma_fix_think_settles(spaced.0, spaced.1);
                },
                _ => {
                    lemma_walk_settles(value, earlier.1);
                },
            }
        } else if key == content_key() && after {
            match value {
                JsonTree::Text(text) => {
                    lemma_fix_text_clean(text, earlier.1);
                    assert(fix_text(text, earlier.1).0 == fix_text(text, Seq::empty()).0);
                    assert(stepped.0 == JsonTree::Text(fix_text(text, earlier.1).0));
                },
                _ => {
                    lemma_walk_settles(value, earlier.1);
                },
            }
        } else {
            lemma_walk_settles(value, earlier.1);
        }
        let now = walk_members(members, before, n, log).0;
        assert(now == earlier.0.push((key, stepped.0)));
        assert(clean_member(key, stepped.0, after));
        assert(now[n - 1] == (key, stepped.0));
        lemma_clean_members_prefix(now, earlier.0, after, (n - 1) as nat);
    }
}

// ─── A repaired record stays as it is ───────────────────────────────────────

/// Repairing the tree of a repaired record changes nothing: the walk gives
/// the same tree and logs no fix, so the outcome is that the record is
/// unchanged. This holds of every tree that one repair settles.
pub proof fn lemma_repair_idempotent(tree: JsonTree)
    requires
        settles(tree),
    ensures
        walk(walk(tree, Seq::empty()).0, Seq::empty()) == (
            walk(tree, Seq::empty()).0,
            Seq::<FixType>::empty(),
        ),
        repair_tree(walk(tree, Seq::empty()).0) == Outcome::Unchanged(
            written(walk(tree, Seq::empty()).0),
        ),
{
    lemma_walk_settles(tree, Seq::empty());
    lemma_walk_identity(walk(tree, Seq::empty()).0, Seq::empty());
}

/// The text that a repair hands back: the record as it was written.
pub open spec fn outcome_text(outcome: Outcome) -> Option<Seq<char>> {
    match outcome {
        Outcome::Fixed { line, fixes } => Some(line),
        Outcome::Unchanged(line) => Some(line),
        _ => None,
    }
}

/// Repairing a repaired record leaves it unchanged, with the same text.
/// This holds of every record that is read as a tree that one repair
/// settles, when the text that the writer gives for the repaired tree is
/// read back as that tree.
pub proof fn lemma_repair_line_idempotent(line: Seq<char>, tree: JsonTree)
    requires
        trim(line).len() > 0,
        json_parse(trim(line)) == Ok::<JsonTree, Seq<char>>(tree),
        settles(tree),
        trim(written(walk(tree, Seq::empty()).0)).len() > 0,
        json_parse(trim(written(walk(tree, Seq::empty()).0))) == Ok::<JsonTree, Seq<char>>(
            walk(tree, Seq::empty()).0,
        ),
    ensures
        outcome_text(repair(line)) is Some,
        repair(outcome_text(repair(line))->Some_0) == Outcome::Unchanged(
            outcome_text(repair(line))->Some_0,
        ),
{
    lemma_repair_idempotent(tree);
}

/// A record that is read as a clean tree is unchanged by the repair.
pub proof fn lemma_clean_record_unchanged(line: Seq<char>, tree: JsonTree)
    requires
        trim(line).len() > 0,
        json_parse(trim(line)) == Ok::<JsonTree, Seq<char>>(tree),
        clean(tree),
    ensures
        repair(line) == Outcome::Unchanged(written(tree)),
{
    lemma_walk_identity(tree, Seq::empty());
}

// ─── Only clean records are unchanged ───────────────────────────────────────

/// Recording a fix never shortens the log.
proof fn lemma_add_fix_grows(log: Seq<FixType>, kind: FixType)
    ensures
        add_fix(log, kind).len() >= log.len(),
        log.len() == 0 ==> add_fix(log, kind).len() > 0,
{
}

/// The whitespace rules never shorten the log, and leave an empty log
/// empty only for a clean text.
proof fn lemma_fix_text_quiet(text: Seq<char>, log: Seq<FixType>)
    ensures
        fix_text(text, log).1.len() >= log.len(),
        fix_text(text, log).1.len() == 0 ==> text_clean(text) && fix_text(text, log).0 == text,
{
    lemma_trim_end(text);
    let trimmed = trim_end(text);
    lemma_add_fix_grows(log, FixType::RemovedTrailingWhitespace);
    let log1 = if trimmed.len() < text.len() {
        add_fix(log, FixType::RemovedTrailingWhitespace)
    } else {
        log
    };
    lemma_add_fix_grows(log1, FixType::TrimmedWhitespaceBeforeNewlines);
    if fix_text(text, log).1.len() == 0 {
        assert(trimmed.len() == text.len());
        assert(text.take(text.len() as int) =~= text);
    }
}

/// The marker rule never shortens the log, and leaves an empty log empty
/// only for a settled text.
proof fn lemma_fix_think_quiet(text: Seq<char>, log: Seq<FixType>)
    ensures
        fix_think(text, log).1.len() >= log.len(),
        fix_think(text, log).1.len() == 0 ==> think_settled(text),
{
    lemma_add_fix_grows(log, FixType::AddedOpeningThinkTag);
    lemma_add_fix_grows(log, FixType::AddedClosingThinkTag);
}

/// The walk never shortens the log, and leaves an empty log empty only
/// for a clean tree.
proof fn lemma_walk_quiet(tree: JsonTree, log: Seq<FixType>)
    ensures
        walk(tree, log).1.len() >= log.len(),
        walk(tree, log).1.len() == 0 ==> clean(tree),
    decreases tree, 0nat,
{
    match tree {
        JsonTree::Text(text) => {
            lemma_fix_text_quiet(text, log);
        },
        JsonTree::Array(items) => {
            lemma_walk_items_quiet(items, items.len(), log);
        },
        JsonTree::Object(members) => {
            lemma_walk_members_quiet(members, is_assistant(members), members.len(), log);
        },
        _ => {},
    }
}

proof fn lemma_walk_items_quiet(items: Seq<JsonTree>, n: nat, log: Seq<FixType>)
    requires
        n <= items.len(),
    ensures
        walk_items(items, n, log).1.len() >= log.len(),
        walk_items(items, n, log).1.len() == 0 ==> clean_items(items, n),
    decreases items, n,
{
    if n > 0 {
        lemma_walk_items_quiet(items, (n - 1) as nat, log);
        lemma_walk_quiet(items[n - 1], walk_items(items, (n - 1) as nat, log).1);
    }
}

proof fn lemma_walk_members_quiet(
    members: Seq<(Seq<char>, JsonTree)>,
    assistant: bool,
    n: nat,
    log: Seq<FixType>,
)
    requires
        n <= members.len(),
    ensures
        walk_members(members, assistant, n, log).1.len() >= log.len(),
        walk_members(members, assistant, n, log).1.len() == 0 ==> clean_members(
            members,
            assistant,
            n,
        ),
    decreases members, n,
{
    if n > 0 {
        lemma_walk_members_quiet(members, assistant, (n - 1) as nat, log);
        let earlier = walk_members(members, assistant, (n - 1) as nat, log);
        let key = members[n - 1].0;
        let value = members[n - 1].1;
        let stepped = walk_member(key, value, assistant, earlier.1);
        if assistant && key == content_key() {
            match value {
                JsonTree::Text(text) => {
                    lemma_fix_text_quiet(text, earlier.1);
                    let spaced = fix_text(text, earlier.1);
                    lemma_fix_think_quiet(spaced.0, spaced.1);
                },
                _ => {
                    lemma_walk_quiet(value, earlier.1);
                },
            }
        } else {
            lemma_walk_quiet(value, earlier.1);
        }
        assert(walk_members(members, assistant, n, log).1 == stepped.1);
        assert(stepped.1.len() >= earlier.1.len());
        assert(stepped.1.len() == 0 ==> clean_member(key, value, assistant));
    }
}

/// A record is unchanged by the repair exactly when the tree it is read as
/// is clean.
pub proof fn lemma_unchanged_iff_clean(tree: JsonTree)
    ensures
        repair_tree(tree) is Unchanged <==> clean(tree),
        clean(tree) ==> repair_tree(tree) == Outcome::Unchanged(written(tree)),
{
    lemma_walk_quiet(tree, Seq::empty());
    if clean(tree) {
        lemma_walk_identity(tree, Seq::empty());
    }
}

// ─── Only settled trees are repaired once and for all ───────────────────────

/// A tree whose walk gives a clean tree is one that the repair settles.
proof fn lemma_clean_walk_settles(tree: JsonTree, log: Seq<FixType>)
    requires
        clean(walk(tree, log).0),
    ensures
        settles(tree),
    decreases tree, 0nat,
{
    match tree {
        JsonTree::Array(items) => {
            lemma_walk_items_len(items, items.len(), log);
            lemma_clean_walk_items(items, items.len(), log);
        },
        JsonTree::Object(members) => {
            lemma_role_after_walk(members, log);
            lemma_walked_members(members, is_assistant(members), members.len(), log);
            lemma_clean_walk_members(
                members,
                is_assistant(members),
                assistant_after(members),
                members.len(),
                log,
            );
        },
        _ => {},
    }
}

proof fn lemma_clean_walk_items(items: Seq<JsonTree>, n: nat, log: Seq<FixType>)
    requires
        n <= items.len(),
        clean_items(walk_items(items, n, log).0, n),
    ensures
        settles_items(items, n),
    decreases items, n,
{
    if n > 0 {
        let earlier = walk_items(items, (n - 1) as nat, log);
        let now = walk_items(items, n, log).0;
        lemma_walk_items_len(items, (n - 1) as nat, log);
        lemma_walk_items_len(items, n, log);
        assert(now == earlier.0.push(walk(items[n - 1], earlier.1).0));
        assert(now[n - 1] == walk(items[n - 1], earlier.1).0);
        lemma_clean_items_prefix(now, earlier.0, (n - 1) as nat);
        lemma_clean_walk_items(items, (n - 1) as nat, log);
        lemma_clean_walk_settles(items[n - 1], earlier.1);
    }
}

/// The walk gives as many items as it was given.
proof fn lemma_walk_items_len(items: Seq<JsonTree>, n: nat, log: Seq<FixType>)
    requires
        n <= items.len(),
    ensures
        walk_items(items, n, log).0.len() == n,
    decreases n,
{
    if n > 0 {
        lemma_walk_items_len(items, (n - 1) as nat, log);
    }
}

proof fn lemma_clean_walk_members(
    members: Seq<(Seq<char>, JsonTree)>,
    before: bool,
    after: bool,
    n: nat,
    log: Seq<FixType>,
)
    requires
        n <= members.len(),
        before ==> after,
        clean_members(walk_members(members, before, n, log).0, after, n),
    ensures
        settles_members(members, before, after, n),
    decreases members, n,
{
    if n > 0 {
        let earlier = walk_members(members, before, (n - 1) as nat, log);
        let key = members[n - 1].0;
        let value = members[n - 1].1;
        let stepped = walk_member(key, value, before, earlier.1);
        let now = walk_members(members, before, n, log).0;
        lemma_walked_members(members, before, (n - 1) as nat, log);
        lemma_walked_members(members, before, n, log);
        lemma_walk_member_shape(key, value, before, earlier.1);
        assert(now == earlier.0.push((key, stepped.0)));
        assert(now[n - 1] == (key, stepped.0));
        lemma_clean_members_prefix(now, earlier.0, after, (n - 1) as nat);
        lemma_clean_walk_members(members, before, after, (n - 1) as nat, log);
        assert(clean_member(key, stepped.0, after));
        if value is Text && key == content_key() && before {
        } else if value is Text && key == content_key() && after {
            let text = value->Text_0;
            assert(fix_text(text, earlier.1).0 == fix_text(text, Seq::empty()).0);
            assert(stepped.0 == JsonTree::Text(fix_text(text, earlier.1).0));
        } else {
            assert(stepped.0 == walk(value, earlier.1).0);
            lemma_clean_walk_settles(value, earlier.1);
        }
        assert(settles_member(key, value, before, after));
    }
}

/// A second repair leaves a repaired tree unchanged exactly when the first
/// repair settles the tree.
pub proof fn lemma_idempotent_iff_settles(tree: JsonTree)
    ensures
        repair_tree(walk(tree, Seq::empty()).0) is Unchanged <==> settles(tree),
{
    let fixed = walk(tree, Seq::empty()).0;
    lemma_unchanged_iff_clean(fixed);
    if settles(tree) {
        lemma_walk_settles(tree, Seq::empty());
    }
    if clean(fixed) {
        lemma_clean_walk_settles(tree, Seq::empty());
    }
}

} // verus!
