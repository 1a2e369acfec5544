//! Text as sequences of characters: conversions between bytes, strings and
//! characters, and the searches the other modules share.

use vstd::prelude::*;
use vstd::string::StringSliceAdditionalSpecFns;
use vstd::utf8::valid_utf8;

verus! {

/// `core::str::from_utf8` of the standard library: the string slice over
/// exactly these bytes when they are valid UTF-8, nothing otherwise.
#[verifier::external_body]
pub(crate) fn str_from_utf8<'a>(bytes: &'a [u8]) -> (text: Option<&'a str>)
    ensures
        text is Some <==> valid_utf8(bytes@),
        text is Some ==> text->Some_0.spec_bytes() == bytes@,
{
    core::str::from_utf8(bytes).ok()
}

/// `String::push` of the standard library: append one character.
#[verifier::external_body]
pub(crate) fn string_push(text: &mut String, c: char)
    ensures
        final(text)@ == old(text)@.push(c),
{
    text.push(c)
}

/// The characters of a string, in order.
pub fn chars_of(text: &str) -> (chars: Vec<char>)
    ensures
        chars@ == text@,
{
    broadcast use vstd::string::group_string_axioms;

    let mut chars: Vec<char> = Vec::new();
    for c in it: text.chars()
        invariant
            it.seq() == text@,
            chars@ == text@.take(it.index() as int),
    {
        proof {
            assert(text@.take(it.index() + 1) =~= text@.take(it.index() as int).push(c));
        }
        chars.push(c);
    }
    proof {
        assert(text@.take(text@.len() as int) =~= text@);
    }
    chars
}

/// The string made of the given characters.
pub fn string_of(chars: &Vec<char>) -> (text: String)
    ensures
        text@ == chars@,
{
    let mut text = String::new();
    let mut i: usize = 0;
    while i < chars.len()
        invariant
            i <= chars@.len(),
            text@ == chars@.take(i as int),
        decreases chars@.len() - i,
    {
        string_push(&mut text, chars[i]);
        i = i + 1;
        proof {
            assert(chars@.take(i as int) =~= chars@.take(i - 1).push(chars@[i - 1]));
        }
    }
    proof {
        assert(chars@.take(chars@.len() as int) =~= chars@);
    }
    text
}

/// Whether two strings hold the same characters.
pub fn str_equal(a: &str, b: &str) -> (same: bool)
    ensures
        same == (a@ == b@),
{
    let x = a.as_bytes();
    let y = b.as_bytes();
    proof {
        vstd::utf8::encode_utf8_decode_utf8(a@);
        vstd::utf8::encode_utf8_decode_utf8(b@);
        assert(x@ == a.spec_bytes());
        assert(y@ == b.spec_bytes());
    }
    if x.len() != y.len() {
        return false;
    }
    let mut i: usize = 0;
    while i < x.len()
        invariant
            i <= x@.len(),
            x@.len() == y@.len(),
            x@ == a.spec_bytes(),
            y@ == b.spec_bytes(),
            forall|k: int| 0 <= k < i ==> x@[k] == y@[k],
        decreases x@.len() - i,
    {
        if x[i] != y[i] {
            proof {
                assert(x@[i as int] != y@[i as int]);
                assert(a.spec_bytes() != b.spec_bytes());
            }
            return false;
        }
        i = i + 1;
    }
    proof {
        assert(x@ =~= y@);
    }
    true
}

// ─── Searching ──────────────────────────────────────────────────────────────

/// Whether `pat` occurs in `hay` at position `p`.
pub open spec fn occurs_at(hay: Seq<char>, pat: Seq<char>, p: int) -> bool {
    0 <= p && p + pat.len() <= hay.len() && hay.subrange(p, p + pat.len()) == pat
}

/// The first position at or after `p` at which `pat` occurs in `hay`.
pub open spec fn find_from(hay: Seq<char>, pat: Seq<char>, p: int) -> Option<int>
    decreases hay.len() - p + 1,
{
    if p < 0 || p + pat.len() > hay.len() {
        None
    } else if occurs_at(hay, pat, p) {
        Some(p)
    } else {
        find_from(hay, pat, p + 1)
    }
}

/// The first position at which `pat` occurs in `hay`.
pub open spec fn find(hay: Seq<char>, pat: Seq<char>) -> Option<int> {
    find_from(hay, pat, 0)
}

/// Whether `pat` occurs somewhere in `hay`.
pub open spec fn contains(hay: Seq<char>, pat: Seq<char>) -> bool {
    find(hay, pat) is Some
}

/// The last position at or before `p` at which `pat` occurs in `hay`.
pub open spec fn rfind_from(hay: Seq<char>, pat: Seq<char>, p: int) -> Option<int>
    decreases p + 1,
{
    if p < 0 {
        None
    } else if occurs_at(hay, pat, p) {
        Some(p)
    } else {
        rfind_from(hay, pat, p - 1)
    }
}

/// Number of occurrences of `pat` met when `hay` is read from `p` on, each
/// search starting where the previous occurrence ended.
pub open spec fn count_from(hay: Seq<char>, pat: Seq<char>, p: int) -> nat
    decreases hay.len() - p + 1,
{
    if p < 0 || pat.len() == 0 || p + pat.len() > hay.len() {
        0
    } else if occurs_at(hay, pat, p) {
        1 + count_from(hay, pat, p + pat.len())
    } else {
        count_from(hay, pat, p + 1)
    }
}

/// Number of non-overlapping occurrences of `pat` in `hay`, read left to right.
pub open spec fn count_occurrences(hay: Seq<char>, pat: Seq<char>) -> nat {
    count_from(hay, pat, 0)
}

/// What a search from `p` finds: the first occurrence from there on.
pub proof fn lemma_find_from(hay: Seq<char>, pat: Seq<char>, p: int)
    requires
        0 <= p,
    ensures
        find_from(hay, pat, p) is Some ==> p <= find_from(hay, pat, p)->Some_0 && occurs_at(
            hay,
            pat,
            find_from(hay, pat, p)->Some_0,
        ),
        forall|q: int|
            p <= q && (find_from(hay, pat, p) is None || q < find_from(hay, pat, p)->Some_0)
                ==> !occurs_at(hay, pat, q),
    decreases hay.len() - p + 1,
{
    if p + pat.len() <= hay.len() && !occurs_at(hay, pat, p) {
        lemma_find_from(hay, pat, p + 1);
    }
}

/// What a backward search from `p` finds: the last occurrence up to there.
pub proof fn lemma_rfind_from(hay: Seq<char>, pat: Seq<char>, p: int)
    ensures
        rfind_from(hay, pat, p) is Some ==> 0 <= rfind_from(hay, pat, p)->Some_0 <= p && occurs_at(
            hay,
            pat,
            rfind_from(hay, pat, p)->Some_0,
        ),
        forall|q: int|
            q <= p && (rfind_from(hay, pat, p) is None || q > rfind_from(hay, pat, p)->Some_0)
                ==> !occurs_at(hay, pat, q),
    decreases p + 1,
{
    if p >= 0 && !occurs_at(hay, pat, p) {
        lemma_rfind_from(hay, pat, p - 1);
    }
}

/// Whether `pat` occurs in `hay` at position `p`.
pub fn matches_at(hay: &Vec<char>, pat: &Vec<char>, p: usize) -> (found: bool)
    ensures
        found == occurs_at(hay@, pat@, p as int),
{
    if pat.len() > hay.len() || p > hay.len() - pat.len() {
        return false;
    }
    let mut k: usize = 0;
    while k < pat.len()
        invariant
            k <= pat@.len(),
            p + pat@.len() <= hay@.len() <= usize::MAX,
            forall|j: int| 0 <= j < k ==> hay@[p + j] == pat@[j],
        decreases pat@.len() - k,
    {
        if hay[p + k] != pat[k] {
            proof {
                assert(hay@.subrange(p as int, p + pat@.len())[k as int] == hay@[p + k]);
            }
            return false;
        }
        k = k + 1;
    }
    proof {
        assert(hay@.subrange(p as int, p + pat@.len()) =~= pat@);
    }
    true
}

/// The first position at or after `from` at which `pat` occurs in `hay`.
pub fn find_chars(hay: &Vec<char>, pat: &Vec<char>, from: usize) -> (found: Option<usize>)
    ensures
        match found {
            Some(q) => find_from(hay@, pat@, from as int) == Some(q as int),
            None => find_from(hay@, pat@, from as int) is None,
        },
{
    if pat.len() > hay.len() {
        return None;
    }
    let last: usize = hay.len() - pat.len();
    if from > last {
        return None;
    }
    let mut p: usize = from;
    loop
        invariant
            from <= p <= last,
            last == hay@.len() - pat@.len(),
            find_from(hay@, pat@, from as int) == find_from(hay@, pat@, p as int),
        decreases last - p,
    {
        if matches_at(hay, pat, p) {
            return Some(p);
        }
        if p == last {
            proof {
                assert(find_from(hay@, pat@, p + 1) is None);
            }
            return None;
        }
        p = p + 1;
    }
}

/// The last position before `before` at which `pat` occurs in `hay`.
pub fn rfind_chars_before(hay: &Vec<char>, pat: &Vec<char>, before: usize) -> (found: Option<
    usize,
>)
    ensures
        match found {
            Some(q) => rfind_from(hay@, pat@, before - 1) == Some(q as int),
            None => rfind_from(hay@, pat@, before - 1) is None,
        },
{
    let mut p: usize = before;
    while p > 0
        invariant
            p <= before,
            rfind_from(hay@, pat@, before - 1) == rfind_from(hay@, pat@, p - 1),
        decreases p,
    {
        p = p - 1;
        if matches_at(hay, pat, p) {
            return Some(p);
        }
    }
    None
}

// ─── Whitespace ─────────────────────────────────────────────────────────────

/// Whether `c` has the Unicode property White_Space.
pub open spec fn is_whitespace(c: char) -> bool {
    let u = c as u32;
    (0x09 <= u <= 0x0d) || u == 0x20 || u == 0x85 || u == 0xa0 || u == 0x1680 || (0x2000 <= u
        <= 0x200a) || u == 0x2028 || u == 0x2029 || u == 0x202f || u == 0x205f || u == 0x3000
}

/// `text` without its trailing whitespace.
pub open spec fn trim_end(text: Seq<char>) -> Seq<char>
    decreases text.len(),
{
    if text.len() > 0 && is_whitespace(text.last()) {
        trim_end(text.drop_last())
    } else {
        text
    }
}

/// `text` without its leading whitespace.
pub open spec fn trim_start(text: Seq<char>) -> Seq<char>
    decreases text.len(),
{
    if text.len() > 0 && is_whitespace(text.first()) {
        trim_start(text.drop_first())
    } else {
        text
    }
}

/// `text` without its leading and trailing whitespace.
pub open spec fn trim(text: Seq<char>) -> Seq<char> {
    trim_end(trim_start(text))
}

/// Trimming at the end leaves a prefix that does not end in whitespace.
pub proof fn lemma_trim_end(text: Seq<char>)
    ensures
        trim_end(text).len() <= text.len(),
        trim_end(text) == text.take(trim_end(text).len() as int),
        trim_end(text).len() > 0 ==> !is_whitespace(trim_end(text).last()),
        forall|i: int| trim_end(text).len() <= i < text.len() ==> is_whitespace(text[i]),
        trim_end(trim_end(text)) == trim_end(text),
    decreases text.len(),
{
    if text.len() > 0 && is_whitespace(text.last()) {
        lemma_trim_end(text.drop_last());
        assert(text.drop_last().take(trim_end(text).len() as int) =~= text.take(
            trim_end(text).len() as int,
        ));
        assert forall|i: int| trim_end(text).len() <= i < text.len() implies is_whitespace(
            text[i],
        ) by {
            if i < text.len() - 1 {
                assert(text.drop_last()[i] == text[i]);
            }
        }
    } else {
        assert(text.take(text.len() as int) =~= text);
    }
}

/// Whether `c` has the Unicode property White_Space.
pub fn char_is_whitespace(c: char) -> (white: bool)
    ensures
        white == is_whitespace(c),
{
    let u: u32 = c as u32;
    (0x09 <= u && u <= 0x0d) || u == 0x20 || u == 0x85 || u == 0xa0 || u == 0x1680 || (0x2000 <= u
        && u <= 0x200a) || u == 0x2028 || u == 0x2029 || u == 0x202f || u == 0x205f || u == 0x3000
}

/// Length of `chars` without its trailing whitespace.
pub fn trimmed_end(chars: &Vec<char>) -> (end: usize)
    ensures
        end == trim_end(chars@).len(),
        end <= chars@.len(),
{
    let mut end: usize = chars.len();
    proof {
        assert(chars@.take(end as int) =~= chars@);
    }
    while end > 0 && char_is_whitespace(chars[end - 1])
        invariant
            end <= chars@.len(),
            trim_end(chars@) == trim_end(chars@.take(end as int)),
        decreases end,
    {
        proof {
            assert(chars@.take(end as int).drop_last() =~= chars@.take(end - 1));
        }
        end = end - 1;
    }
    proof {
        lemma_trim_end(chars@.take(end as int));
    }
    end
}

/// Number of leading whitespace characters among the first `end` of `chars`.
pub fn trimmed_start(chars: &Vec<char>, end: usize) -> (start: usize)
    requires
        end <= chars@.len(),
    ensures
        start <= end,
        chars@.subrange(start as int, end as int) == trim_start(chars@.take(end as int)),
{
    let mut start: usize = 0;
    proof {
        assert(chars@.subrange(0, end as int) =~= chars@.take(end as int));
    }
    while start < end && char_is_whitespace(chars[start])
        invariant
            start <= end <= chars@.len(),
            trim_start(chars@.take(end as int)) == trim_start(
                chars@.subrange(start as int, end as int),
            ),
        decreases end - start,
    {
        proof {
            assert(chars@.subrange(start as int, end as int).drop_first() =~= chars@.subrange(
                start + 1,
                end as int,
            ));
        }
        start = start + 1;
    }
    start
}

/// The characters `from .. to` of `chars`.
pub fn slice_chars(chars: &Vec<char>, from: usize, to: usize) -> (part: Vec<char>)
    requires
        from <= to <= chars@.len(),
    ensures
        part@ == chars@.subrange(from as int, to as int),
{
    let mut part: Vec<char> = Vec::with_capacity(to - from);
    let mut i: usize = from;
    while i < to
        invariant
            from <= i <= to <= chars@.len(),
            part@ == chars@.subrange(from as int, i as int),
        decreases to - i,
    {
        part.push(chars[i]);
        i = i + 1;
        proof {
            assert(chars@.subrange(from as int, i as int) =~= chars@.subrange(from as int, i - 1).push(
                chars@[i - 1],
            ));
        }
    }
    part
}

/// `text` without its leading and trailing whitespace.
pub fn trim_chars(chars: &Vec<char>) -> (trimmed: Vec<char>)
    ensures
        trimmed@ == trim(chars@),
{
    let start: usize = trimmed_start(chars, chars.len());
    proof {
        assert(chars@.take(chars@.len() as int) =~= chars@);
    }
    let rest = slice_chars(chars, start, chars.len());
    let end: usize = trimmed_end(&rest);
    proof {
        lemma_trim_end(rest@);
        assert(rest@.subrange(0, end as int) =~= rest@.take(end as int));
    }
    slice_chars(&rest, 0, end)
}

// ─── Numbers ────────────────────────────────────────────────────────────────

/// The character of a decimal digit.
pub open spec fn digit_char(d: nat) -> char {
    if d == 0 {
        '0'
    } else if d == 1 {
        '1'
    } else if d == 2 {
        '2'
    } else if d == 3 {
        '3'
    } else if d == 4 {
        '4'
    } else if d == 5 {
        '5'
    } else if d == 6 {
        '6'
    } else if d == 7 {
        '7'
    } else if d == 8 {
        '8'
    } else {
        '9'
    }
}

/// The decimal digits of `n`, most significant first, without leading zeros.
pub open spec fn decimal(n: nat) -> Seq<char>
    decreases n,
{
    if n < 10 {
        seq![digit_char(n)]
    } else {
        decimal(n / 10).push(digit_char(n % 10))
    }
}

fn digit(d: u128) -> (c: char)
    requires
        d < 10,
    ensures
        c == digit_char(d as nat),
{
    if d == 0 {
        '0'
    } else if d == 1 {
        '1'
    } else if d == 2 {
        '2'
    } else if d == 3 {
        '3'
    } else if d == 4 {
        '4'
    } else if d == 5 {
        '5'
    } else if d == 6 {
        '6'
    } else if d == 7 {
        '7'
    } else if d == 8 {
        '8'
    } else {
        '9'
    }
}

/// Append the decimal digits of `n` to `text`.
pub fn push_decimal(text: &mut String, n: u128)
    ensures
        final(text)@ == old(text)@ + decimal(n as nat),
    decreases n,
{
    if n < 10 {
        string_push(text, digit(n));
        proof {
            assert(old(text)@.push(digit_char(n as nat)) =~= old(text)@ + decimal(n as nat));
        }
    } else {
        push_decimal(text, n / 10);
        string_push(text, digit(n % 10));
        proof {
            assert((old(text)@ + decimal((n / 10) as nat)).push(digit_char((n % 10) as nat))
                =~= old(text)@ + decimal(n as nat));
        }
    }
}

// ─── Spaces before a newline ────────────────────────────────────────────────

/// Whether `text` holds, from position `j` on, zero or more spaces and then
/// a newline.
pub open spec fn newline_follows(text: Seq<char>, j: int) -> bool
    decreases text.len() - j + 1,
{
    if j < 0 || j >= text.len() {
        false
    } else if text[j] == '\n' {
        true
    } else if text[j] == ' ' {
        newline_follows(text, j + 1)
    } else {
        false
    }
}

/// Whether position `i` holds a space of a run of spaces that ends at a newline.
pub open spec fn space_before_newline(text: Seq<char>, i: int) -> bool {
    0 <= i < text.len() && text[i] == ' ' && newline_follows(text, i + 1)
}

/// The first `n` characters of `text` without the spaces that stand in a run
/// of spaces before a newline.
pub open spec fn collapse_upto(text: Seq<char>, n: nat) -> Seq<char>
    decreases n,
{
    if n == 0 {
        Seq::empty()
    } else if space_before_newline(text, n - 1) {
        collapse_upto(text, (n - 1) as nat)
    } else {
        collapse_upto(text, (n - 1) as nat).push(text[n - 1])
    }
}

/// `text` with every run of spaces before a newline removed.
pub open spec fn collapse_before_newline(text: Seq<char>) -> Seq<char> {
    collapse_upto(text, text.len())
}

/// Whether `text` holds a space directly before a newline.
pub open spec fn has_space_before_newline(text: Seq<char>) -> bool {
    exists|i: int| 0 <= i && i + 1 < text.len() && text[i] == ' ' && #[trigger] text[i + 1] == '\n'
}

// ─── Case and paths ─────────────────────────────────────────────────────────

/// The lowercase form that `str::to_lowercase` gives a text.
pub uninterp spec fn lowercase(text: Seq<char>) -> Seq<char>;

/// `str::to_lowercase` of the standard library.
#[verifier::external_body]
pub(crate) fn to_lowercase(text: &str) -> (lower: String)
    ensures
        lower@ == lowercase(text@),
{
    text.to_lowercase()
}

/// The extension that `Path::extension` finds in a path, when it has one.
pub uninterp spec fn path_extension(path: Seq<char>) -> Option<Seq<char>>;

/// `Path::extension` of the standard library, on a path given as text.
#[verifier::external_body]
pub(crate) fn extension_of(path: &str) -> (extension: Option<&str>)
    ensures
        match extension {
            Some(e) => path_extension(path@) == Some(e@),
            None => path_extension(path@) is None,
        },
{
    std::path::Path::new(path).extension().and_then(|e| e.to_str())
}

/// The stem that `Path::file_stem` finds in a path: the name of the file
/// without its extension.
pub uninterp spec fn path_stem(path: Seq<char>) -> Option<Seq<char>>;

/// `Path::file_stem` of the standard library, on a path given as text.
#[verifier::external_body]
pub(crate) fn stem_of(path: &str) -> (stem: Option<&str>)
    ensures
        match stem {
            Some(s) => path_stem(path@) == Some(s@),
            None => path_stem(path@) is None,
        },
{
    std::path::Path::new(path).file_stem().and_then(|s| s.to_str())
}

/// The parent that `Path::parent` finds for a path: the path without its
/// last component.
pub uninterp spec fn path_parent(path: Seq<char>) -> Option<Seq<char>>;

/// `Path::parent` of the standard library, on a path given as text.
#[verifier::external_body]
pub(crate) fn parent_of(path: &str) -> (parent: Option<&str>)
    ensures
        match parent {
            Some(p) => path_parent(path@) == Some(p@),
            None => path_parent(path@) is None,
        },
{
    std::path::Path::new(path).parent().and_then(|p| p.to_str())
}

/// The path that `Path::join` makes of a directory and a name.
pub uninterp spec fn path_join(directory: Seq<char>, name: Seq<char>) -> Seq<char>;

/// `Path::join` of the standard library, on paths given as text.
#[verifier::external_body]
pub(crate) fn join_path(directory: &str, name: &str) -> (joined: String)
    ensures
        joined@ == path_join(directory@, name@),
{
    std::path::Path::new(directory).join(name).to_string_lossy().into_owned()
}

/// Append the characters of `more` to `text`.
pub fn push_str(text: &mut String, more: &str)
    ensures
        final(text)@ == old(text)@ + more@,
{
    vstd::string::StringExecFns::append(text, more);
}

// ─── Lines ──────────────────────────────────────────────────────────────────

/// `line` without the carriage return at its end, if it has one.
pub open spec fn strip_cr(line: Seq<char>) -> Seq<char> {
    if line.len() > 0 && line.last() == '\r' {
        line.drop_last()
    } else {
        line
    }
}

/// Whether a line holds nothing but whitespace.
pub open spec fn is_blank(line: Seq<char>) -> bool {
    trim(line).len() == 0
}

/// The lines with `line` added, unless it is blank.
pub open spec fn keep_line(lines: Seq<Seq<char>>, line: Seq<char>) -> Seq<Seq<char>> {
    if is_blank(line) {
        lines
    } else {
        lines.push(line)
    }
}

/// The state of reading lines after the first `n` characters: the lines
/// that ended and are not blank, and the characters of the line that is open.
pub open spec fn scan_lines(text: Seq<char>, n: nat) -> (Seq<Seq<char>>, Seq<char>)
    decreases n,
{
    if n == 0 {
        (Seq::empty(), Seq::empty())
    } else {
        let before = scan_lines(text, (n - 1) as nat);
        if text[n - 1] == '\n' {
            (keep_line(before.0, strip_cr(before.1)), Seq::empty())
        } else {
            (before.0, before.1.push(text[n - 1]))
        }
    }
}

/// The lines of a text that are not blank. A line ends at a newline, a
/// carriage return before the newline is not part of it, and what follows
/// the last newline is a line too.
pub open spec fn non_blank_lines(text: Seq<char>) -> Seq<Seq<char>> {
    let scanned = scan_lines(text, text.len());
    keep_line(scanned.0, scanned.1)
}

/// Whether a line can stand alone as a record: it is not blank and holds
/// no newline.
pub open spec fn stands_alone(line: Seq<char>) -> bool {
    !is_blank(line) && forall|k: int| 0 <= k < line.len() ==> line[k] != '\n'
}

/// While lines are read, the lines that were kept stand alone and the line
/// that is open holds no newline.
proof fn lemma_scan_lines_stand_alone(text: Seq<char>, n: nat)
    requires
        n <= text.len(),
    ensures
        forall|i: int|
            0 <= i < scan_lines(text, n).0.len() ==> stands_alone(
                #[trigger] scan_lines(text, n).0[i],
            ),
        forall|k: int|
            0 <= k < scan_lines(text, n).1.len() ==> (#[trigger] scan_lines(text, n).1[k]) != '\n',
    decreases n,
{
    if n > 0 {
        lemma_scan_lines_stand_alone(text, (n - 1) as nat);
        let before = scan_lines(text, (n - 1) as nat);
        if text[n - 1] == '\n' {
            let line = strip_cr(before.1);
            assert forall|k: int| 0 <= k < line.len() implies line[k] != '\n' by {
                assert(line[k] == before.1[k]);
            }
        }
    }
}

/// Every line of a text that is not blank stands alone.
pub proof fn lemma_non_blank_lines_stand_alone(text: Seq<char>)
    ensures
        forall|i: int|
            0 <= i < non_blank_lines(text).len() ==> stands_alone(
                #[trigger] non_blank_lines(text)[i],
            ),
{
    lemma_scan_lines_stand_alone(text, text.len());
}

/// The texts of a sequence of strings.
pub open spec fn texts(lines: Seq<String>) -> Seq<Seq<char>> {
    Seq::new(lines.len(), |i: int| lines[i]@)
}

/// Add `line` to `lines` unless it is blank.
fn keep_line_of(lines: &mut Vec<String>, line: &Vec<char>)
    ensures
        texts(final(lines)@) == keep_line(texts(old(lines)@), line@),
{
    if trim_chars(line).len() > 0 {
        let ghost before = lines@;
        lines.push(string_of(line));
        proof {
            assert(texts(lines@) =~= texts(before).push(line@));
        }
    }
}

/// The lines of a text that are not blank.
pub fn split_non_blank_lines(text: &str) -> (lines: Vec<String>)
    ensures
        texts(lines@) == non_blank_lines(text@),
{
    let chars = chars_of(text);
    let mut lines: Vec<String> = Vec::new();
    let mut current: Vec<char> = Vec::new();
    proof {
        assert(texts(lines@) =~= Seq::<Seq<char>>::empty());
    }
    let mut i: usize = 0;
    while i < chars.len()
        invariant
            i <= chars@.len(),
            chars@ == text@,
            texts(lines@) == scan_lines(text@, i as nat).0,
            current@ == scan_lines(text@, i as nat).1,
        decreases chars@.len() - i,
    {
        let c: char = chars[i];
        if c == '\n' {
            let n: usize = current.len();
            if n > 0 && current[n - 1] == '\r' {
                let stripped = slice_chars(&current, 0, n - 1);
                proof {
                    assert(stripped@ =~= strip_cr(current@));
                }
                keep_line_of(&mut lines, &stripped);
            } else {
                keep_line_of(&mut lines, &current);
            }
            current = Vec::new();
        } else {
            current.push(c);
        }
        i = i + 1;
    }
    keep_line_of(&mut lines, &current);
    lines
}

} // verus!
