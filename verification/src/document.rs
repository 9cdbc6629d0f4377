//! The dependencies that a `package.json` declares.

use vstd::prelude::*;
use vstd::string::*;

use crate::lsp::{LspRange, Position};
use crate::semver::{
    law_order_total, law_order_transitive, parsed_range, parsed_version, precedes,
    sorted_newest_first, valid_range, version_lt, version_text, Range, Version, VersionView,
};
use crate::text::{
    chars_of, contains, in_class, is_letter, law_occurs_in, lemma_run_end, letter, list_has,
    occurs_in, run_end, skip_run, starts_with, trim_start, trimmed_start, CharClass,
};

verus! {

/// One dependency of a document.
#[derive(Debug)]
pub struct DepEntry {
    /// The name of the package.
    pub name: String,
    /// The version string, as it stands between the quotes.
    pub range_str: String,
    /// The range that the version string is, if it is one.
    pub range: Option<Range>,
    /// Where the version string stands.
    pub value_range: LspRange,
}

/// The model of a [`DepEntry`].
#[verifier::ext_equal]
pub struct DepView {
    pub name: Seq<char>,
    pub range_str: Seq<char>,
    pub range: Option<Seq<char>>,
    pub value_range: LspRange,
}

impl DeepView for DepEntry {
    type V = DepView;

    open spec fn deep_view(&self) -> DepView {
        DepView {
            name: self.name@,
            range_str: self.range_str@,
            range: self.range.deep_view(),
            value_range: self.value_range,
        }
    }
}

impl Clone for DepEntry {
    fn clone(&self) -> (r: Self)
        ensures
            r.deep_view() == self.deep_view(),
    {
        DepEntry {
            name: self.name.clone(),
            range_str: self.range_str.clone(),
            range: match &self.range {
                Some(range) => Some(range.clone()),
                None => None,
            },
            value_range: self.value_range,
        }
    }
}

/// What is known of a document.
#[derive(Debug)]
pub struct DocState {
    pub deps: Vec<DepEntry>,
}

impl DeepView for DocState {
    type V = Seq<DepView>;

    open spec fn deep_view(&self) -> Seq<DepView> {
        self.deps.deep_view()
    }
}

/// A copy of a list of dependencies.
pub fn copy_deps(list: &Vec<DepEntry>) -> (r: Vec<DepEntry>)
    ensures
        r.deep_view() == list.deep_view(),
{
    let mut out: Vec<DepEntry> = Vec::new();
    let mut i: usize = 0;
    while i < list.len()
        invariant
            i <= list.len(),
            out.len() == i,
            forall|j: int| 0 <= j < i ==> out@[j].deep_view() == list@[j].deep_view(),
        decreases list.len() - i,
    {
        out.push(list[i].clone());
        i = i + 1;
    }
    assert(out.deep_view() =~= list.deep_view());
    out
}

impl Clone for DocState {
    fn clone(&self) -> (r: Self)
        ensures
            r.deep_view() == self.deep_view(),
    {
        DocState { deps: copy_deps(&self.deps) }
    }
}

impl Default for DocState {
    fn default() -> (r: DocState)
        ensures
            r.deep_view() == Seq::<DepView>::empty(),
    {
        let r = DocState { deps: Vec::new() };
        assert(r.deep_view() =~= Seq::<DepView>::empty());
        r
    }
}

// ---- Places ----

/// The number of UTF-16 code units of a character.
pub open spec fn utf16_len(c: char) -> nat {
    if c as u32 >= 0x10000 {
        2
    } else {
        1
    }
}

/// The line and the column, in UTF-16 code units, of the place before
/// character `k`.
pub open spec fn place(s: Seq<char>, k: int) -> (nat, nat)
    decreases k,
{
    if k <= 0 {
        (0, 0)
    } else {
        let (line, column) = place(s, k - 1);
        if s[k - 1] == '\n' {
            (line + 1, 0)
        } else {
            (line, column + utf16_len(s[k - 1]))
        }
    }
}

/// Every place of the text has a line and a column that the protocol's
/// integers hold.
pub open spec fn positions_fit(s: Seq<char>) -> bool {
    forall|k: int|
        0 <= k <= s.len() ==> (#[trigger] place(s, k)).0 <= u32::MAX && place(s, k).1 <= u32::MAX
}

/// Whether every place of the text has a line and a column that the protocol's
/// integers hold.
pub fn fits_protocol(text: &str) -> (r: bool)
    ensures
        r == positions_fit(text@),
{
    let chars = chars_of(text);
    let mut line: u32 = 0;
    let mut col: u32 = 0;
    let mut i: usize = 0;
    while i < chars.len()
        invariant
            i <= chars@.len(),
            chars@ == text@,
            place(text@, i as int) == (line as nat, col as nat),
            forall|k: int|
                0 <= k <= i ==> (#[trigger] place(text@, k)).0 <= u32::MAX && place(text@, k).1
                    <= u32::MAX,
        decreases chars.len() - i,
    {
        let c: char = chars[i];
        let wide: bool = c as u32 >= 0x10000;
        let ghost next = place(text@, i + 1);
        if c == '\n' {
            if line == u32::MAX {
                assert(next.0 > u32::MAX);
                return false;
            }
            line = line + 1;
            col = 0;
        } else {
            if col == u32::MAX || (wide && col == u32::MAX - 1) {
                assert(next.1 > u32::MAX);
                return false;
            }
            col = if wide {
                col + 2
            } else {
                col + 1
            };
        }
        i = i + 1;
    }
    true
}

/// The place before character `k`, for the protocol.
pub open spec fn position_at(s: Seq<char>, k: int) -> Position {
    Position { line: place(s, k).0 as u32, character: place(s, k).1 as u32 }
}

/// The place before character `offset` of the text, or the end of the text
/// where there is no such character.
pub fn offset_to_position(text: &Vec<char>, offset: usize) -> (r: Position)
    requires
        positions_fit(text@),
    ensures
        r == position_at(
            text@,
            if offset <= text@.len() {
                offset as int
            } else {
                text@.len() as int
            },
        ),
{
    let mut line: u32 = 0;
    let mut col: u32 = 0;
    let mut i: usize = 0;
    while i < text.len() && i < offset
        invariant
            i <= text@.len(),
            i <= offset,
            positions_fit(text@),
            place(text@, i as int) == (line as nat, col as nat),
        decreases text.len() - i,
    {
        let c: char = text[i];
        assert(place(text@, i + 1).0 <= u32::MAX && place(text@, i + 1).1 <= u32::MAX);
        if c == '\n' {
            line = line + 1;
            col = 0;
        } else if c as u32 >= 0x10000 {
            col = col + 2;
        } else {
            col = col + 1;
        }
        i = i + 1;
    }
    Position { line, character: col }
}

/// Whether `p` lies in `r`, both ends included.
pub open spec fn in_range(p: Position, r: LspRange) -> bool {
    &&& p.line > r.start.line || (p.line == r.start.line && p.character >= r.start.character)
    &&& p.line < r.end.line || (p.line == r.end.line && p.character <= r.end.character)
}

/// Whether `p` lies in `r`, both ends included.
pub fn position_in_range(p: Position, r: LspRange) -> (b: bool)
    ensures
        b == in_range(p, r),
{
    (p.line > r.start.line || (p.line == r.start.line && p.character >= r.start.character)) && (
    p.line < r.end.line || (p.line == r.end.line && p.character <= r.end.character))
}

proof fn lemma_place_order(s: Seq<char>, j: int, k: int)
    requires
        0 <= j <= k,
    ensures
        place(s, j).0 < place(s, k).0 || (place(s, j).0 == place(s, k).0 && place(s, j).1 <= place(
            s,
            k,
        ).1),
    decreases k - j,
{
    if j < k {
        lemma_place_order(s, j, k - 1);
    }
}

/// Every place from the beginning of a piece of text to its end lies in the
/// range of the piece: a cursor in a version string, or at one of its ends, is
/// at the version string.
pub proof fn law_cursor_is_in_the_piece(s: Seq<char>, start: int, k: int, end: int)
    requires
        positions_fit(s),
        0 <= start <= k <= end <= s.len(),
    ensures
        in_range(
            position_at(s, k),
            LspRange { start: position_at(s, start), end: position_at(s, end) },
        ),
{
    lemma_place_order(s, start, k);
    lemma_place_order(s, k, end);
    assert(place(s, start).0 <= u32::MAX && place(s, start).1 <= u32::MAX);
    assert(place(s, k).0 <= u32::MAX && place(s, k).1 <= u32::MAX);
    assert(place(s, end).0 <= u32::MAX && place(s, end).1 <= u32::MAX);
}

/// A text begins at the first column of the first line, and behind a line feed
/// the next line begins. Along a line each character takes one column, or two
/// where it lies beyond the basic plane.
pub proof fn law_places_count_lines_and_columns(s: Seq<char>, j: int, k: int)
    requires
        0 <= j <= k <= s.len(),
        forall|m: int| j <= m < k ==> s[m] != '\n',
    ensures
        place(s, 0) == (0nat, 0nat),
        k < s.len() && s[k] == '\n' ==> place(s, k + 1) == (place(s, k).0 + 1, 0nat),
        place(s, k).0 == place(s, j).0,
        (forall|m: int| j <= m < k ==> (#[trigger] s[m]) as u32 <= 0xffff) ==> place(s, k).1
            == place(s, j).1 + (k - j),
        (forall|m: int| j <= m < k ==> (#[trigger] s[m]) as u32 > 0xffff) ==> place(s, k).1
            == place(s, j).1 + 2 * (k - j),
    decreases k - j,
{
    if j < k {
        law_places_count_lines_and_columns(s, j, k - 1);
        assert(place(s, k).1 == place(s, k - 1).1 + utf16_len(s[k - 1]));
    }
}

proof fn lemma_place_strict(s: Seq<char>, j: int, k: int)
    requires
        0 <= j < k,
    ensures
        place(s, j).0 < place(s, k).0 || (place(s, j).0 == place(s, k).0 && place(s, j).1 < place(
            s,
            k,
        ).1),
{
    lemma_place_order(s, j, k - 1);
}

/// No place outside a piece of text lies in the range of the piece.
pub proof fn law_cursor_outside_the_piece(s: Seq<char>, start: int, k: int, end: int)
    requires
        positions_fit(s),
        0 <= start <= end <= s.len(),
        0 <= k < start || end < k <= s.len(),
    ensures
        !in_range(
            position_at(s, k),
            LspRange { start: position_at(s, start), end: position_at(s, end) },
        ),
{
    if k < start {
        lemma_place_strict(s, k, start);
    } else {
        lemma_place_strict(s, end, k);
    }
    assert(place(s, start).0 <= u32::MAX && place(s, start).1 <= u32::MAX);
    assert(place(s, k).0 <= u32::MAX && place(s, k).1 <= u32::MAX);
    assert(place(s, end).0 <= u32::MAX && place(s, end).1 <= u32::MAX);
}

proof fn lemma_place_bound(s: Seq<char>, k: int)
    requires
        0 <= k,
    ensures
        place(s, k).0 <= k,
        place(s, k).1 <= 2 * k,
    decreases k,
{
    if k > 0 {
        lemma_place_bound(s, k - 1);
    }
}

/// The places of every text with fewer than two thousand million characters fit
/// the protocol. Those of a text do not fit exactly where one of its places lies
/// too far down or to the right.
pub proof fn law_ordinary_texts_fit(s: Seq<char>)
    ensures
        s.len() < 2_000_000_000 ==> positions_fit(s),
        !positions_fit(s) <==> exists|k: int|
            0 <= k <= s.len() && ((#[trigger] place(s, k)).0 > 0xffff_ffff || place(s, k).1
                > 0xffff_ffff),
{
    if s.len() < 2_000_000_000 {
        assert forall|k: int| 0 <= k <= s.len() implies (#[trigger] place(s, k)).0 <= u32::MAX
            && place(s, k).1 <= u32::MAX by {
            lemma_place_bound(s, k);
        }
    }
}

// ---- Braces ----

/// Walks over the text from character `i`: the first place where a closing
/// brace takes the nesting depth to zero. Braces inside a string do not count;
/// a backslash inside a string takes the meaning off the character behind it.
pub open spec fn brace_end(
    s: Seq<char>,
    i: int,
    depth: int,
    in_string: bool,
    escape: bool,
) -> Option<int>
    decreases s.len() - i,
{
    if i < 0 || i >= s.len() {
        None
    } else if escape {
        brace_end(s, i + 1, depth, in_string, false)
    } else if s[i] == '\\' && in_string {
        brace_end(s, i + 1, depth, in_string, true)
    } else if s[i] == '"' {
        brace_end(s, i + 1, depth, !in_string, false)
    } else if s[i] == '{' && !in_string {
        brace_end(s, i + 1, depth + 1, in_string, false)
    } else if s[i] == '}' && !in_string {
        if depth == 1 {
            Some(i)
        } else {
            brace_end(s, i + 1, depth - 1, in_string, false)
        }
    } else {
        brace_end(s, i + 1, depth, in_string, false)
    }
}

/// The closing brace that belongs to the opening brace at `open`.
pub open spec fn matching_brace(s: Seq<char>, open: int) -> Option<int> {
    if 0 <= open < s.len() && s[open] == '{' {
        brace_end(s, open, 0, false, false)
    } else {
        None
    }
}

proof fn lemma_brace_end(s: Seq<char>, i: int, depth: int, in_string: bool, escape: bool)
    ensures
        brace_end(s, i, depth, in_string, escape) matches Some(r) ==> i <= r < s.len() && s[r]
            == '}',
    decreases s.len() - i,
{
    if 0 <= i < s.len() {
        if escape {
            lemma_brace_end(s, i + 1, depth, in_string, false);
        } else if s[i] == '\\' && in_string {
            lemma_brace_end(s, i + 1, depth, in_string, true);
        } else if s[i] == '"' {
            lemma_brace_end(s, i + 1, depth, !in_string, false);
        } else if s[i] == '{' && !in_string {
            lemma_brace_end(s, i + 1, depth + 1, in_string, false);
        } else if s[i] == '}' && !in_string {
            if depth != 1 {
                lemma_brace_end(s, i + 1, depth - 1, in_string, false);
            }
        } else {
            lemma_brace_end(s, i + 1, depth, in_string, false);
        }
    }
}

/// The brace that matches an opening brace is a closing brace behind it.
pub proof fn law_matching_brace(s: Seq<char>, open: int)
    ensures
        matching_brace(s, open) matches Some(r) ==> open < r < s.len() && s[open] == '{' && s[r]
            == '}',
{
    lemma_brace_end(s, open, 0, false, false);
}

proof fn lemma_walk_in_string(s: Seq<char>, i: int, j: int, depth: int)
    requires
        0 <= i <= j < s.len(),
        s[j] == '"',
        forall|k: int| i <= k < j ==> s[k] != '"' && s[k] != '\\',
    ensures
        brace_end(s, i, depth, true, false) == brace_end(s, j + 1, depth, false, false),
    decreases j - i,
{
    if i < j {
        lemma_walk_in_string(s, i + 1, j, depth);
    }
}

/// The braces in a string do not count: the search for a closing brace passes
/// over a string from quote to quote.
pub proof fn law_strings_hold_no_braces(s: Seq<char>, i: int, j: int, depth: int)
    requires
        0 <= i < j < s.len(),
        s[i] == '"' && s[j] == '"',
        forall|k: int| i < k < j ==> s[k] != '"' && s[k] != '\\',
    ensures
        brace_end(s, i, depth, false, false) == brace_end(s, j + 1, depth, false, false),
{
    lemma_walk_in_string(s, i + 1, j, depth);
}

/// A quote behind a backslash does not end a string, and neither does the
/// backslash: both are passed over.
pub proof fn law_escapes_are_passed_over(s: Seq<char>, i: int, depth: int)
    requires
        0 <= i,
        i + 1 < s.len(),
        s[i] == '\\',
    ensures
        brace_end(s, i, depth, true, false) == brace_end(s, i + 2, depth, true, false),
{
    reveal_with_fuel(brace_end, 3);
}

proof fn lemma_walk_in_block(
    s: Seq<char>,
    i: int,
    depth: int,
    more: int,
    in_string: bool,
    escape: bool,
    close: int,
)
    requires
        depth >= 1,
        more >= 1,
        brace_end(s, i, depth, in_string, escape) == Some(close),
    ensures
        brace_end(s, i, depth + more, in_string, escape) == brace_end(
            s,
            close + 1,
            more,
            false,
            false,
        ),
    decreases s.len() - i,
{
    if escape {
        lemma_walk_in_block(s, i + 1, depth, more, in_string, false, close);
    } else if s[i] == '\\' && in_string {
        lemma_walk_in_block(s, i + 1, depth, more, in_string, true, close);
    } else if s[i] == '"' {
        lemma_walk_in_block(s, i + 1, depth, more, !in_string, false, close);
    } else if s[i] == '{' && !in_string {
        lemma_walk_in_block(s, i + 1, depth + 1, more, in_string, false, close);
    } else if s[i] == '}' && !in_string {
        if depth != 1 {
            lemma_walk_in_block(s, i + 1, depth - 1, more, in_string, false, close);
        }
    } else {
        lemma_walk_in_block(s, i + 1, depth, more, in_string, false, close);
    }
}

/// An opening brace is closed by the first closing brace behind it that is not
/// in a string and does not belong to an opening brace in between: outside
/// strings, a character that is no brace is passed over, and so is a whole block
/// from its brace to the one that matches it.
pub proof fn law_blocks_match(s: Seq<char>, open: int, i: int)
    requires
        0 <= open < i < s.len(),
        s[open] == '{',
    ensures
        matching_brace(s, open) == brace_end(s, open + 1, 1, false, false),
        s[i] == '}' ==> brace_end(s, i, 1, false, false) == Some(i),
        s[i] != '{' && s[i] != '}' && s[i] != '"' ==> brace_end(s, i, 1, false, false) == brace_end(
            s,
            i + 1,
            1,
            false,
            false,
        ),
        matching_brace(s, i) matches Some(close) ==> brace_end(s, i, 1, false, false) == brace_end(
            s,
            close + 1,
            1,
            false,
            false,
        ),
        brace_end(s, s.len() as int, 1, false, false) is None,
{
    if let Some(close) = matching_brace(s, i) {
        lemma_walk_in_block(s, i + 1, 1, 1, false, false, close);
    }
}

/// The index of the closing brace that belongs to the opening brace at index
/// `open`, if there is an opening brace there and it is closed.
pub fn find_matching_brace(text: &Vec<char>, open: usize) -> (r: Option<usize>)
    ensures
        match r {
            Some(i) => matching_brace(text@, open as int) == Some(i as int),
            None => matching_brace(text@, open as int) is None,
        },
{
    if open >= text.len() || text[open] != '{' {
        return None;
    }
    let mut depth: usize = 0;
    let mut in_string: bool = false;
    let mut escape: bool = false;
    let mut i: usize = open;
    while i < text.len()
        invariant
            open <= i <= text@.len(),
            0 <= depth <= i - open,
            i == open ==> text@[i as int] == '{' && !in_string && !escape && depth == 0,
            i > open ==> depth > 0,
            matching_brace(text@, open as int) == brace_end(
                text@,
                i as int,
                depth as int,
                in_string,
                escape,
            ),
        decreases text.len() - i,
    {
        let c: char = text[i];
        if escape {
            escape = false;
        } else if c == '\\' && in_string {
            escape = true;
        } else if c == '"' {
            in_string = !in_string;
        } else if c == '{' && !in_string {
            depth = depth + 1;
        } else if c == '}' && !in_string {
            if depth == 1 {
                return Some(i);
            }
            depth = depth - 1;
        }
        i = i + 1;
    }
    None
}

// ---- Nesting ----

/// What a place of a text belongs to.
#[derive(Clone, Copy, PartialEq, Eq, Structural)]
pub enum Mode {
    /// Neither a string nor a comment.
    Plain,
    /// A string.
    Text,
    /// A string, behind a backslash.
    Escape,
    /// A comment that ends with the line.
    LineComment,
    /// A comment that is closed.
    BlockComment,
}

/// How deep a place of a text lies: how many braces and brackets are open
/// there, how many more were opened than closed in the string that it belongs
/// to, and what it belongs to.
#[verifier::ext_equal]
pub struct Nesting {
    pub braces: int,
    pub brackets: int,
    pub held_braces: int,
    pub held_brackets: int,
    pub mode: Mode,
}

/// A character that ends a line.
pub open spec fn line_break(c: char) -> bool {
    c == '\n' || c == '\r'
}

/// What the place behind character `i` belongs to, where the place before it
/// belongs to `mode`. A text in the middle of being typed may hold strings that
/// are not closed: a string ends with its line at the latest, and a quote that
/// a section begins with opens a string.
pub open spec fn mode_behind(mode: Mode, s: Seq<char>, i: int) -> Mode {
    match mode {
        Mode::Plain => if s[i] == '"' {
            Mode::Text
        } else if s[i] == '/' && i + 1 < s.len() && s[i + 1] == '/' {
            Mode::LineComment
        } else if s[i] == '/' && i + 1 < s.len() && s[i + 1] == '*' {
            Mode::BlockComment
        } else {
            Mode::Plain
        },
        Mode::Text => if line_break(s[i]) {
            Mode::Plain
        } else if s[i] == '\\' {
            Mode::Escape
        } else if s[i] == '"' && section_at(s, i) is None {
            Mode::Plain
        } else {
            Mode::Text
        },
        Mode::Escape => if line_break(s[i]) {
            Mode::Plain
        } else {
            Mode::Text
        },
        Mode::LineComment => if line_break(s[i]) {
            Mode::Plain
        } else {
            Mode::LineComment
        },
        Mode::BlockComment => if s[i] == '/' && i > 0 && s[i - 1] == '*' {
            Mode::Plain
        } else {
            Mode::BlockComment
        },
    }
}

/// What a character does to the number of pairs that are open.
pub open spec fn change(c: char, open: char, close: char) -> int {
    if c == open {
        1
    } else if c == close {
        -1
    } else {
        0
    }
}

/// The nesting where the string that a place belongs to turns out not to be
/// closed: what it closes beyond what it opens was not meant to be part of it.
pub open spec fn settled(n: Nesting) -> Nesting {
    Nesting {
        braces: n.braces + if n.held_braces < 0 {
            n.held_braces
        } else {
            0
        },
        brackets: n.brackets + if n.held_brackets < 0 {
            n.held_brackets
        } else {
            0
        },
        held_braces: 0,
        held_brackets: 0,
        mode: n.mode,
    }
}

/// The nesting behind character `i`, where `n` is the one before it. What a
/// closed string or a comment holds does not count.
pub open spec fn nesting_behind(n: Nesting, s: Seq<char>, i: int) -> Nesting {
    let mode = mode_behind(n.mode, s, i);
    let braces = change(s[i], '{', '}');
    let brackets = change(s[i], '[', ']');
    match n.mode {
        Mode::Plain => Nesting {
            braces: n.braces + braces,
            brackets: n.brackets + brackets,
            mode,
            ..n
        },
        Mode::Text | Mode::Escape => if line_break(s[i]) || n.mode == Mode::Text && s[i] == '"'
            && mode == Mode::Text {
            Nesting { mode, ..settled(n) }
        } else if mode == Mode::Plain {
            Nesting { held_braces: 0, held_brackets: 0, mode, ..n }
        } else {
            Nesting {
                held_braces: n.held_braces + braces,
                held_brackets: n.held_brackets + brackets,
                mode,
                ..n
            }
        },
        Mode::LineComment | Mode::BlockComment => Nesting { mode, ..n },
    }
}

/// The nesting before character `i`.
pub open spec fn nesting(s: Seq<char>, i: int) -> Nesting
    decreases i,
{
    if i <= 0 {
        Nesting { braces: 0, brackets: 0, held_braces: 0, held_brackets: 0, mode: Mode::Plain }
    } else {
        nesting_behind(nesting(s, i - 1), s, i - 1)
    }
}

/// A section at a place with this nesting is not nested: no brace is open but
/// that of the outermost object, and no bracket, and the section does not begin
/// with a quote that is part of a string.
pub open spec fn shallow(n: Nesting) -> bool {
    settled(n).braces <= 1 && settled(n).brackets <= 0 && n.mode != Mode::Escape
}

/// A section at character `i` lies at the top level.
pub open spec fn top_level(s: Seq<char>, i: int) -> bool {
    shallow(nesting(s, i))
}

/// A number of pairs that are open, with what was opened and what was closed
/// counted apart.
#[derive(Clone, Copy)]
struct Count {
    opened: usize,
    closed: usize,
}

impl View for Count {
    type V = int;

    closed spec fn view(&self) -> int {
        self.opened - self.closed
    }
}

impl Count {
    /// Nothing was opened or closed.
    fn zero() -> (r: Count)
        ensures
            r.opened == 0,
            r.closed == 0,
    {
        Count { opened: 0, closed: 0 }
    }

    /// Takes in a character.
    fn take_in(self, c: char, open: char, close: char) -> (r: Count)
        requires
            self.opened < usize::MAX,
            self.closed < usize::MAX,
        ensures
            r@ == self@ + change(c, open, close),
            self.opened <= r.opened <= self.opened + 1,
            self.closed <= r.closed <= self.closed + 1,
    {
        if c == open {
            Count { opened: self.opened + 1, closed: self.closed }
        } else if c == close {
            Count { opened: self.opened, closed: self.closed + 1 }
        } else {
            self
        }
    }

    /// Takes in what `held` closes beyond what it opens.
    fn settle(self, held: Count) -> (r: Count)
        requires
            self.closed + held.closed <= usize::MAX,
        ensures
            r@ == self@ + if held@ < 0 {
                held@
            } else {
                0
            },
            r.opened == self.opened,
            r.closed <= self.closed + held.closed,
    {
        if held.opened < held.closed {
            Count { opened: self.opened, closed: self.closed + (held.closed - held.opened) }
        } else {
            self
        }
    }

    /// Whether at most `limit` pairs are open.
    fn at_most(self, limit: usize) -> (r: bool)
        ensures
            r == (self@ <= limit),
    {
        self.opened <= self.closed || self.opened - self.closed <= limit
    }
}

/// The nesting at a place of a text.
#[derive(Clone, Copy)]
struct Walk {
    braces: Count,
    brackets: Count,
    held_braces: Count,
    held_brackets: Count,
    mode: Mode,
}

impl View for Walk {
    type V = Nesting;

    closed spec fn view(&self) -> Nesting {
        Nesting {
            braces: self.braces@,
            brackets: self.brackets@,
            held_braces: self.held_braces@,
            held_brackets: self.held_brackets@,
            mode: self.mode,
        }
    }
}

impl Walk {
    /// No more was opened or closed than characters were walked over.
    spec fn within(&self, i: int) -> bool {
        &&& self.braces.opened <= i
        &&& self.brackets.opened <= i
        &&& self.held_braces.opened <= i
        &&& self.held_brackets.opened <= i
        &&& self.braces.closed + self.held_braces.closed <= i
        &&& self.brackets.closed + self.held_brackets.closed <= i
    }

    /// The beginning of a text.
    fn start() -> (r: Walk)
        ensures
            forall|s: Seq<char>| r@ == nesting(s, 0),
            r.within(0),
    {
        Walk {
            braces: Count::zero(),
            brackets: Count::zero(),
            held_braces: Count::zero(),
            held_brackets: Count::zero(),
            mode: Mode::Plain,
        }
    }

    /// Walks over character `i`.
    fn step(self, text: &Vec<char>, i: usize) -> (r: Walk)
        requires
            i < text.len(),
            self.within(i as int),
        ensures
            r@ == nesting_behind(self@, text@, i as int),
            r.within(i + 1),
    {
        let c: char = text[i];
        let mode: Mode = next_mode(self.mode, text, i);
        match self.mode {
            Mode::Plain => Walk {
                braces: self.braces.take_in(c, '{', '}'),
                brackets: self.brackets.take_in(c, '[', ']'),
                mode,
                ..self
            },
            Mode::Text | Mode::Escape => {
                let quote: bool = c == '"' && self.mode == Mode::Text;
                if c == '\n' || c == '\r' || quote && mode == Mode::Text {
                    Walk {
                        braces: self.braces.settle(self.held_braces),
                        brackets: self.brackets.settle(self.held_brackets),
                        held_braces: Count::zero(),
                        held_brackets: Count::zero(),
                        mode,
                    }
                } else if mode == Mode::Plain {
                    Walk { held_braces: Count::zero(), held_brackets: Count::zero(), mode, ..self }
                } else {
                    Walk {
                        held_braces: self.held_braces.take_in(c, '{', '}'),
                        held_brackets: self.held_brackets.take_in(c, '[', ']'),
                        mode,
                        ..self
                    }
                }
            },
            Mode::LineComment | Mode::BlockComment => Walk { mode, ..self },
        }
    }

    /// Walks from character `from` to character `to`.
    fn advance(&mut self, text: &Vec<char>, from: usize, to: usize)
        requires
            old(self)@ == nesting(text@, from as int),
            old(self).within(from as int),
            from <= to <= text@.len(),
        ensures
            final(self)@ == nesting(text@, to as int),
            final(self).within(to as int),
    {
        let mut i: usize = from;
        while i < to
            invariant
                from <= i <= to <= text@.len(),
                self@ == nesting(text@, i as int),
                self.within(i as int),
            decreases to - i,
        {
            *self = self.step(text, i);
            i = i + 1;
        }
    }

    /// Whether a section at the place, character `i`, is not nested.
    fn is_shallow(&self, i: usize) -> (r: bool)
        requires
            self.within(i as int),
        ensures
            r == shallow(self@),
    {
        self.braces.settle(self.held_braces).at_most(1) && self.brackets.settle(
            self.held_brackets,
        ).at_most(0) && self.mode != Mode::Escape
    }
}

/// What the place behind character `i` belongs to.
fn next_mode(mode: Mode, text: &Vec<char>, i: usize) -> (r: Mode)
    requires
        i < text@.len(),
    ensures
        r == mode_behind(mode, text@, i as int),
{
    let c: char = text[i];
    let ends_line: bool = c == '\n' || c == '\r';
    match mode {
        Mode::Plain => if c == '"' {
            Mode::Text
        } else if c == '/' && i < text.len() - 1 && text[i + 1] == '/' {
            Mode::LineComment
        } else if c == '/' && i < text.len() - 1 && text[i + 1] == '*' {
            Mode::BlockComment
        } else {
            Mode::Plain
        },
        Mode::Text => if ends_line {
            Mode::Plain
        } else if c == '\\' {
            Mode::Escape
        } else if c == '"' && match_section(text, i).is_none() {
            Mode::Plain
        } else {
            Mode::Text
        },
        Mode::Escape => if ends_line {
            Mode::Plain
        } else {
            Mode::Text
        },
        Mode::LineComment => if ends_line {
            Mode::Plain
        } else {
            Mode::LineComment
        },
        Mode::BlockComment => if c == '/' && i > 0 && text[i - 1] == '*' {
            Mode::Plain
        } else {
            Mode::BlockComment
        },
    }
}

// ---- Sections and entries ----

/// A section that begins at character `i`: `"key" : {`, where the key is a
/// letter and then letters, digits, `_` and `-`, and white space may stand on
/// either side of the colon. Gives the index of the quote behind the key and
/// the index of the brace.
pub open spec fn section_at(s: Seq<char>, i: int) -> Option<(int, int)> {
    let hi = s.len() as int;
    let key_end = run_end(s, i + 1, hi, CharClass::Key);
    let colon = run_end(s, key_end + 1, hi, CharClass::White);
    let brace = run_end(s, colon + 1, hi, CharClass::White);
    if 0 <= i && brace < hi && s[i] == '"' && letter(s[i + 1]) && s[key_end] == '"' && s[colon]
        == ':' && s[brace] == '{' {
        Some((key_end, brace))
    } else {
        None
    }
}

/// An entry that begins at character `i` and ends before `hi`:
/// `"name" : "version"`, where the name is not empty and holds neither quote
/// nor white space, the version holds no quote, and white space may stand on
/// either side of the colon. Gives the index of the quote behind the name, and
/// where the version begins and ends.
pub open spec fn entry_at(s: Seq<char>, i: int, hi: int) -> Option<(int, int, int)> {
    let name_end = run_end(s, i + 1, hi, CharClass::Name);
    let colon = run_end(s, name_end + 1, hi, CharClass::White);
    let quote = run_end(s, colon + 1, hi, CharClass::White);
    let end = run_end(s, quote + 1, hi, CharClass::Unquoted);
    if 0 <= i && end < hi && s[i] == '"' && name_end > i + 1 && s[name_end] == '"' && s[colon]
        == ':' && s[quote] == '"' {
        Some((name_end, quote + 1, end))
    } else {
        None
    }
}

proof fn lemma_run_end_ge(s: Seq<char>, i: int, hi: int, class: CharClass)
    ensures
        run_end(s, i, hi, class) >= i,
    decreases hi - i,
{
    if 0 <= i < hi && in_class(class, s[i]) {
        lemma_run_end_ge(s, i + 1, hi, class);
    }
}

proof fn lemma_section_at(s: Seq<char>, i: int)
    ensures
        section_at(s, i) matches Some((key_end, brace)) ==> 0 <= i && i + 1 < key_end < brace
            < s.len(),
{
    let hi = s.len() as int;
    let key_end = run_end(s, i + 1, hi, CharClass::Key);
    let colon = run_end(s, key_end + 1, hi, CharClass::White);
    lemma_run_end_ge(s, i + 1, hi, CharClass::Key);
    lemma_run_end_ge(s, i + 2, hi, CharClass::Key);
    lemma_run_end_ge(s, key_end + 1, hi, CharClass::White);
    lemma_run_end_ge(s, colon + 1, hi, CharClass::White);
}

proof fn lemma_entry_at(s: Seq<char>, i: int, hi: int)
    ensures
        entry_at(s, i, hi) matches Some((name_end, start, end)) ==> 0 <= i && i + 1 < name_end
            < start <= end < hi,
{
    let name_end = run_end(s, i + 1, hi, CharClass::Name);
    let colon = run_end(s, name_end + 1, hi, CharClass::White);
    let quote = run_end(s, colon + 1, hi, CharClass::White);
    lemma_run_end_ge(s, i + 1, hi, CharClass::Name);
    lemma_run_end_ge(s, name_end + 1, hi, CharClass::White);
    lemma_run_end_ge(s, colon + 1, hi, CharClass::White);
    lemma_run_end_ge(s, quote + 1, hi, CharClass::Unquoted);
}

/// A version string that names no version: a workspace, a file, a link, a
/// repository, another package or an address.
pub open spec fn names_no_version(v: Seq<char>) -> bool {
    ||| "workspace:"@.is_prefix_of(v)
    ||| "file:"@.is_prefix_of(v)
    ||| "link:"@.is_prefix_of(v)
    ||| "git+"@.is_prefix_of(v)
    ||| "github:"@.is_prefix_of(v)
    ||| "npm:"@.is_prefix_of(v)
    ||| occurs_in(v, "://"@)
}

/// The dependency with the name before `name_end` and the version string from
/// `start` to `end`, if that names versions.
pub open spec fn entry_dep(s: Seq<char>, i: int, name_end: int, start: int, end: int) -> Seq<
    DepView,
> {
    let version = s.subrange(start, end);
    if names_no_version(version) {
        seq![]
    } else {
        seq![
            DepView {
                name: s.subrange(i + 1, name_end),
                range_str: version,
                range: parsed_range(version),
                value_range: LspRange { start: position_at(s, start), end: position_at(s, end) },
            },
        ]
    }
}

/// The dependencies among the entries between `i` and `hi`, first to last. An
/// entry is looked for behind the one before it.
pub open spec fn entry_deps(s: Seq<char>, i: int, hi: int) -> Seq<DepView>
    decreases hi - i,
{
    if i < 0 || i >= hi {
        seq![]
    } else {
        match entry_at(s, i, hi) {
            Some((name_end, start, end)) => {
                if end >= i {
                    entry_dep(s, i, name_end, start, end) + entry_deps(s, end + 1, hi)
                } else {
                    seq![]
                }
            },
            None => entry_deps(s, i + 1, hi),
        }
    }
}

/// The dependencies of the section whose brace stands at `brace`: none where
/// the brace is not closed, or `keys` does not include the section.
pub open spec fn section_deps(
    s: Seq<char>,
    keys: Seq<Seq<char>>,
    i: int,
    key_end: int,
    brace: int,
) -> Seq<DepView> {
    if keys.contains(s.subrange(i + 1, key_end)) {
        match matching_brace(s, brace) {
            Some(close) => entry_deps(s, brace + 1, close),
            None => seq![],
        }
    } else {
        seq![]
    }
}

/// The dependencies in the sections of the text from character `i` on, first
/// to last. A section is looked for behind the brace of the one before it, and
/// at the top level alone.
pub open spec fn document_deps(s: Seq<char>, keys: Seq<Seq<char>>, i: int) -> Seq<DepView>
    decreases s.len() - i,
{
    if i < 0 || i >= s.len() {
        seq![]
    } else {
        match section_at(s, i) {
            Some((key_end, brace)) if top_level(s, i) => {
                if brace >= i {
                    section_deps(s, keys, i, key_end, brace) + document_deps(s, keys, brace + 1)
                } else {
                    seq![]
                }
            },
            _ => document_deps(s, keys, i + 1),
        }
    }
}

/// Looks for a section at character `i`.
fn match_section(text: &Vec<char>, i: usize) -> (r: Option<(usize, usize)>)
    requires
        i < text@.len(),
    ensures
        match r {
            Some((k, b)) => section_at(text@, i as int) == Some((k as int, b as int)),
            None => section_at(text@, i as int) is None,
        },
{
    let hi: usize = text.len();
    proof {
        lemma_section_at(text@, i as int);
    }
    if text[i] != '"' || hi - i < 2 || !is_letter(text[i + 1]) {
        return None;
    }
    let key_end: usize = skip_run(text, i + 1, hi, CharClass::Key);
    proof {
        lemma_run_end_ge(text@, key_end + 1, hi as int, CharClass::White);
        let c = run_end(text@, key_end + 1, hi as int, CharClass::White);
        lemma_run_end_ge(text@, c + 1, hi as int, CharClass::White);
    }
    if key_end >= hi || text[key_end] != '"' {
        return None;
    }
    let colon: usize = skip_run(text, key_end + 1, hi, CharClass::White);
    if colon >= hi || text[colon] != ':' {
        return None;
    }
    let brace: usize = skip_run(text, colon + 1, hi, CharClass::White);
    if brace >= hi || text[brace] != '{' {
        return None;
    }
    Some((key_end, brace))
}

/// Looks for an entry at character `i`.
fn match_entry(text: &Vec<char>, i: usize, hi: usize) -> (r: Option<(usize, usize, usize)>)
    requires
        i < hi <= text@.len(),
    ensures
        match r {
            Some((n, v, e)) => entry_at(text@, i as int, hi as int) == Some(
                (n as int, v as int, e as int),
            ),
            None => entry_at(text@, i as int, hi as int) is None,
        },
{
    proof {
        lemma_entry_at(text@, i as int, hi as int);
    }
    if text[i] != '"' {
        return None;
    }
    let name_end: usize = skip_run(text, i + 1, hi, CharClass::Name);
    proof {
        lemma_run_end_ge(text@, name_end + 1, hi as int, CharClass::White);
        let c = run_end(text@, name_end + 1, hi as int, CharClass::White);
        lemma_run_end_ge(text@, c + 1, hi as int, CharClass::White);
        let q = run_end(text@, c + 1, hi as int, CharClass::White);
        lemma_run_end_ge(text@, q + 1, hi as int, CharClass::Unquoted);
    }
    if name_end >= hi || name_end == i + 1 || text[name_end] != '"' {
        return None;
    }
    let colon: usize = skip_run(text, name_end + 1, hi, CharClass::White);
    if colon >= hi || text[colon] != ':' {
        return None;
    }
    let quote: usize = skip_run(text, colon + 1, hi, CharClass::White);
    if quote >= hi || text[quote] != '"' {
        return None;
    }
    let end: usize = skip_run(text, quote + 1, hi, CharClass::Unquoted);
    if end >= hi {
        return None;
    }
    Some((name_end, quote + 1, end))
}

/// Whether a version string names no version.
fn is_no_version(v: &str) -> (r: bool)
    ensures
        r == names_no_version(v@),
{
    starts_with(v, "workspace:") || starts_with(v, "file:") || starts_with(v, "link:")
        || starts_with(v, "git+") || starts_with(v, "github:") || starts_with(v, "npm:")
        || contains(v, "://")
}

/// Adds the dependencies among the entries between `from` and `hi`.
fn collect_entries(
    source: &str,
    text: &Vec<char>,
    from: usize,
    hi: usize,
    deps: &mut Vec<DepEntry>,
)
    requires
        text@ == source@,
        positions_fit(text@),
        from <= hi <= text@.len(),
    ensures
        final(deps).deep_view() == old(deps).deep_view() + entry_deps(
            text@,
            from as int,
            hi as int,
        ),
{
    let ghost before = deps.deep_view();
    let ghost all = entry_deps(text@, from as int, hi as int);
    let mut i: usize = from;
    while i < hi
        invariant
            text@ == source@,
            positions_fit(text@),
            i <= hi <= text@.len(),
            before + all == deps.deep_view() + entry_deps(text@, i as int, hi as int),
        decreases hi - i,
    {
        let ghost now = deps.deep_view();
        let ghost rest = entry_deps(text@, i as int, hi as int);
        proof {
            lemma_entry_at(text@, i as int, hi as int);
        }
        match match_entry(text, i, hi) {
            Some((name_end, start, end)) => {
                let version: &str = source.substring_char(start, end);
                if is_no_version(version) {
                    assert(rest =~= entry_deps(text@, end + 1, hi as int));
                } else {
                    let dep = DepEntry {
                        name: source.substring_char(i + 1, name_end).to_owned(),
                        range_str: version.to_owned(),
                        range: Range::parse(version),
                        value_range: LspRange {
                            start: offset_to_position(text, start),
                            end: offset_to_position(text, end),
                        },
                    };
                    let ghost view = dep.deep_view();
                    deps.push(dep);
                    proof {
                        assert(deps.deep_view() =~= now.push(view));
                        assert(seq![view] =~= entry_dep(
                            text@,
                            i as int,
                            name_end as int,
                            start as int,
                            end as int,
                        ));
                        assert(deps.deep_view() + entry_deps(text@, end + 1, hi as int) =~= now
                            + rest);
                    }
                }
                i = end + 1;
            },
            None => {
                i = i + 1;
            },
        }
    }
    assert(deps.deep_view() + entry_deps(text@, i as int, hi as int) =~= deps.deep_view());
}

/// The dependencies in the given top-level sections of a document.
pub fn parse_package_json(text: &str, sections: &[String]) -> (r: DocState)
    requires
        positions_fit(text@),
    ensures
        r.deep_view() == document_deps(text@, sections.deep_view(), 0),
{
    let chars = chars_of(text);
    let ghost keys = sections.deep_view();
    let ghost all = document_deps(text@, keys, 0);
    let mut deps: Vec<DepEntry> = Vec::new();
    let mut i: usize = 0;
    let mut walk = Walk::start();
    assert(deps.deep_view() + all =~= all);
    while i < chars.len()
        invariant
            chars@ == text@,
            walk@ == nesting(text@, i as int),
            walk.within(i as int),
            positions_fit(text@),
            keys == sections.deep_view(),
            i <= chars@.len(),
            all == deps.deep_view() + document_deps(text@, keys, i as int),
        decreases chars.len() - i,
    {
        let ghost now = deps.deep_view();
        let ghost rest = document_deps(text@, keys, i as int);
        proof {
            lemma_section_at(text@, i as int);
        }
        let section = if walk.is_shallow(i) {
            match_section(&chars, i)
        } else {
            None
        };
        let next: usize = match section {
            Some((key_end, brace)) => {
                let ghost later = document_deps(text@, keys, brace + 1);
                if list_has(sections, text.substring_char(i + 1, key_end)) {
                    proof {
                        law_matching_brace(text@, brace as int);
                    }
                    if let Some(close) = find_matching_brace(&chars, brace) {
                        collect_entries(text, &chars, brace + 1, close, &mut deps);
                    }
                }
                proof {
                    let found = section_deps(text@, keys, i as int, key_end as int, brace as int);
                    assert(deps.deep_view() =~= now + found);
                    assert(deps.deep_view() + later =~= now + rest);
                }
                brace + 1
            },
            None => i + 1,
        };
        walk.advance(&chars, i, next);
        i = next;
    }
    assert(deps.deep_view() + document_deps(text@, keys, i as int) =~= deps.deep_view());
    DocState { deps }
}

// ---- The grammar of sections and entries ----

/// All characters from `from` to `to` are of `class`.
pub open spec fn all_of(s: Seq<char>, from: int, to: int, class: CharClass) -> bool {
    from <= to && forall|j: int| from <= j < to ==> in_class(class, #[trigger] s[j])
}

/// The characters from `i` to `brace` have the form
/// `"` letter (letter | digit | `_` | `-`)* `"` space* `:` space* `{`.
pub open spec fn section_form(s: Seq<char>, i: int, key_end: int, colon: int, brace: int) -> bool {
    &&& 0 <= i && i + 1 < key_end && brace < s.len()
    &&& s[i] == '"' && letter(s[i + 1])
    &&& all_of(s, i + 2, key_end, CharClass::Key) && s[key_end] == '"'
    &&& all_of(s, key_end + 1, colon, CharClass::White) && s[colon] == ':'
    &&& all_of(s, colon + 1, brace, CharClass::White) && s[brace] == '{'
}

/// The characters from `i` to `end`, which lies before `hi`, have the form
/// `"` (neither quote nor space)+ `"` space* `:` space* `"` (no quote)* `"`.
pub open spec fn entry_form(
    s: Seq<char>,
    i: int,
    hi: int,
    name_end: int,
    colon: int,
    start: int,
    end: int,
) -> bool {
    &&& 0 <= i && i + 1 < name_end && end < hi
    &&& s[i] == '"'
    &&& all_of(s, i + 1, name_end, CharClass::Name) && s[name_end] == '"'
    &&& all_of(s, name_end + 1, colon, CharClass::White) && s[colon] == ':'
    &&& all_of(s, colon + 1, start - 1, CharClass::White) && s[start - 1] == '"'
    &&& all_of(s, start, end, CharClass::Unquoted) && s[end] == '"'
}

proof fn lemma_run_end_is(s: Seq<char>, i: int, hi: int, class: CharClass, end: int)
    requires
        0 <= i,
        end < hi <= s.len(),
        all_of(s, i, end, class),
        !in_class(class, s[end]),
    ensures
        run_end(s, i, hi, class) == end,
    decreases end - i,
{
    if i < end {
        lemma_run_end_is(s, i + 1, hi, class, end);
    }
}

/// A section is found at `i` exactly where the text has the form of one, and
/// its key and its brace are those of the form.
pub proof fn law_section_grammar(s: Seq<char>, i: int, key_end: int, brace: int)
    ensures
        section_at(s, i) == Some((key_end, brace)) <==> exists|colon: int|
            section_form(s, i, key_end, colon, brace),
{
    let hi = s.len() as int;
    if section_at(s, i) == Some((key_end, brace)) {
        lemma_section_at(s, i);
        let colon = run_end(s, key_end + 1, hi, CharClass::White);
        lemma_run_end_ge(s, key_end + 1, hi, CharClass::White);
        lemma_run_end_ge(s, colon + 1, hi, CharClass::White);
        lemma_run_end(s, i + 1, hi, CharClass::Key);
        lemma_run_end(s, key_end + 1, hi, CharClass::White);
        lemma_run_end(s, colon + 1, hi, CharClass::White);
        assert(section_form(s, i, key_end, colon, brace));
    }
    if exists|colon: int| section_form(s, i, key_end, colon, brace) {
        let colon = choose|colon: int| section_form(s, i, key_end, colon, brace);
        assert(all_of(s, i + 1, key_end, CharClass::Key));
        lemma_run_end_is(s, i + 1, hi, CharClass::Key, key_end);
        lemma_run_end_is(s, key_end + 1, hi, CharClass::White, colon);
        lemma_run_end_is(s, colon + 1, hi, CharClass::White, brace);
    }
}

/// An entry is found at `i` exactly where the text has the form of one, and its
/// name and its version string are those of the form.
pub proof fn law_entry_grammar(
    s: Seq<char>,
    i: int,
    hi: int,
    name_end: int,
    start: int,
    end: int,
)
    requires
        hi <= s.len(),
    ensures
        entry_at(s, i, hi) == Some((name_end, start, end)) <==> exists|colon: int|
            entry_form(s, i, hi, name_end, colon, start, end),
{
    if entry_at(s, i, hi) == Some((name_end, start, end)) {
        lemma_entry_at(s, i, hi);
        let colon = run_end(s, name_end + 1, hi, CharClass::White);
        lemma_run_end_ge(s, name_end + 1, hi, CharClass::White);
        lemma_run_end_ge(s, colon + 1, hi, CharClass::White);
        lemma_run_end(s, i + 1, hi, CharClass::Name);
        lemma_run_end(s, name_end + 1, hi, CharClass::White);
        lemma_run_end(s, colon + 1, hi, CharClass::White);
        lemma_run_end(s, start, hi, CharClass::Unquoted);
        assert(entry_form(s, i, hi, name_end, colon, start, end));
    }
    if exists|colon: int| entry_form(s, i, hi, name_end, colon, start, end) {
        let colon = choose|colon: int| entry_form(s, i, hi, name_end, colon, start, end);
        lemma_run_end_is(s, i + 1, hi, CharClass::Name, name_end);
        lemma_run_end_is(s, name_end + 1, hi, CharClass::White, colon);
        lemma_run_end_is(s, colon + 1, hi, CharClass::White, start - 1);
        lemma_run_end_is(s, start, hi, CharClass::Unquoted, end);
    }
}

/// The dependency `d` is declared by the entry at `j`, in the section at `i`,
/// which is one of `keys` and lies at the top level.
pub open spec fn declared_at(
    s: Seq<char>,
    keys: Seq<Seq<char>>,
    i: int,
    j: int,
    d: DepView,
) -> bool {
    match section_at(s, i) {
        Some((key_end, brace)) => top_level(s, i) && keys.contains(s.subrange(i + 1, key_end))
            && match matching_brace(s, brace) {
            Some(close) => brace < j && match entry_at(s, j, close) {
                Some((name_end, start, end)) => entry_dep(s, j, name_end, start, end) == seq![d],
                None => false,
            },
            None => false,
        },
        None => false,
    }
}

proof fn lemma_entry_deps(s: Seq<char>, lo: int, hi: int, k: int) -> (j: int)
    requires
        0 <= k < entry_deps(s, lo, hi).len(),
    ensures
        lo <= j,
        entry_at(s, j, hi) matches Some((name_end, start, end)) && entry_dep(
            s,
            j,
            name_end,
            start,
            end,
        ) == seq![entry_deps(s, lo, hi)[k]],
    decreases hi - lo,
{
    match entry_at(s, lo, hi) {
        Some((name_end, start, end)) => {
            let own = entry_dep(s, lo, name_end, start, end);
            if k < own.len() {
                assert(own =~= seq![entry_deps(s, lo, hi)[k]]);
                lo
            } else {
                lemma_entry_deps(s, end + 1, hi, k - own.len())
            }
        },
        None => lemma_entry_deps(s, lo + 1, hi, k),
    }
}

proof fn lemma_document_deps(s: Seq<char>, keys: Seq<Seq<char>>, lo: int, k: int) -> (r: (int, int))
    requires
        0 <= k < document_deps(s, keys, lo).len(),
    ensures
        declared_at(s, keys, r.0, r.1, document_deps(s, keys, lo)[k]),
    decreases s.len() - lo,
{
    match section_at(s, lo) {
        Some((key_end, brace)) if top_level(s, lo) => {
            let own = section_deps(s, keys, lo, key_end, brace);
            if k < own.len() {
                let close = matching_brace(s, brace)->0;
                let j = lemma_entry_deps(s, brace + 1, close, k);
                assert(document_deps(s, keys, lo)[k] == own[k]);
                (lo, j)
            } else {
                lemma_document_deps(s, keys, brace + 1, k - own.len())
            }
        },
        _ => lemma_document_deps(s, keys, lo + 1, k),
    }
}

/// Every dependency of a document is declared by an entry of one of the
/// top-level sections that are looked at; its name, its version string and its place are
/// those of the entry.
pub proof fn law_deps_are_declared(s: Seq<char>, keys: Seq<Seq<char>>, k: int)
    requires
        0 <= k < document_deps(s, keys, 0).len(),
    ensures
        exists|i: int, j: int| declared_at(s, keys, i, j, document_deps(s, keys, 0)[k]),
{
    let (i, j) = lemma_document_deps(s, keys, 0, k);
    assert(declared_at(s, keys, i, j, document_deps(s, keys, 0)[k]));
}

/// No string goes on behind the end of its line: a quote that is not closed
/// hides nothing on the lines below.
pub proof fn law_strings_end_with_their_line(s: Seq<char>, i: int)
    requires
        0 <= i < s.len(),
        line_break(s[i]),
    ensures
        nesting(s, i + 1).mode == Mode::Plain || nesting(s, i + 1).mode == Mode::BlockComment,
{
}

/// A section that does not lie at the top level declares nothing: where none of
/// the sections that are looked at does, the document has no dependencies.
pub proof fn law_nested_sections_are_passed_over(s: Seq<char>, keys: Seq<Seq<char>>)
    requires
        forall|i: int|
            (#[trigger] section_at(s, i)) is Some && keys.contains(
                s.subrange(i + 1, (section_at(s, i)->0).0),
            ) ==> !top_level(s, i),
    ensures
        document_deps(s, keys, 0) == Seq::<DepView>::empty(),
{
    if document_deps(s, keys, 0).len() > 0 {
        let (i, j) = lemma_document_deps(s, keys, 0, 0);
        assert(section_at(s, i) is Some);
    }
    assert(document_deps(s, keys, 0) =~= seq![]);
}

proof fn lemma_nesting_in_string(s: Seq<char>, i: int, k: int)
    requires
        0 <= i < k <= s.len(),
        nesting(s, i).mode == Mode::Plain,
        nesting(s, i).held_braces == 0,
        nesting(s, i).held_brackets == 0,
        s[i] == '"',
        forall|m: int| i < m < k ==> s[m] != '"' && s[m] != '\\' && s[m] != '\n' && s[m] != '\r',
    ensures
        nesting(s, k).mode == Mode::Text,
        nesting(s, k).braces == nesting(s, i).braces,
        nesting(s, k).brackets == nesting(s, i).brackets,
    decreases k - i,
{
    if k > i + 1 {
        lemma_nesting_in_string(s, i, k - 1);
    } else {
        assert(nesting(s, k) == nesting_behind(nesting(s, i), s, i));
    }
}

proof fn lemma_nothing_held(s: Seq<char>, i: int)
    ensures
        nesting(s, i).mode != Mode::Text && nesting(s, i).mode != Mode::Escape ==> nesting(
            s,
            i,
        ).held_braces == 0 && nesting(s, i).held_brackets == 0,
    decreases i,
{
    if i > 0 {
        lemma_nothing_held(s, i - 1);
    }
}

/// A string that is closed on its line, and behind which no section begins,
/// changes nothing of the nesting, whatever braces and brackets it holds.
pub proof fn law_closed_strings_do_not_nest(s: Seq<char>, i: int, j: int)
    requires
        0 <= i < j < s.len(),
        nesting(s, i).mode == Mode::Plain,
        s[i] == '"' && s[j] == '"',
        forall|m: int| i < m < j ==> s[m] != '"' && s[m] != '\\' && s[m] != '\n' && s[m] != '\r',
        forall|key_end: int, colon: int, brace: int|
            !#[trigger] section_form(s, j, key_end, colon, brace),
    ensures
        nesting(s, j + 1) == nesting(s, i),
{
    lemma_nothing_held(s, i);
    lemma_nesting_in_string(s, i, j);
    if let Some((key_end, brace)) = section_at(s, j) {
        law_section_grammar(s, j, key_end, brace);
        let colon = choose|colon: int| section_form(s, j, key_end, colon, brace);
        assert(section_form(s, j, key_end, colon, brace));
    }
    assert(nesting(s, j + 1) == nesting_behind(nesting(s, j), s, j));
    lemma_nothing_held(s, j + 1);
}

proof fn lemma_nesting_in_line_comment(s: Seq<char>, i: int, k: int)
    requires
        0 <= i < k <= s.len(),
        i + 1 < s.len(),
        nesting(s, i).mode == Mode::Plain,
        s[i] == '/' && s[i + 1] == '/',
        forall|m: int| i < m < k ==> s[m] != '\n' && s[m] != '\r',
    ensures
        nesting(s, k) == (Nesting { mode: Mode::LineComment, ..nesting(s, i) }),
    decreases k - i,
{
    if k > i + 1 {
        lemma_nesting_in_line_comment(s, i, k - 1);
    } else {
        assert(nesting(s, k) == nesting_behind(nesting(s, i), s, i));
    }
}

/// A comment to the end of its line changes nothing of the nesting.
pub proof fn law_comments_do_not_nest(s: Seq<char>, i: int, j: int)
    requires
        0 <= i,
        i + 1 < j < s.len(),
        nesting(s, i).mode == Mode::Plain,
        s[i] == '/' && s[i + 1] == '/',
        forall|m: int| i < m < j ==> s[m] != '\n' && s[m] != '\r',
        s[j] == '\n' || s[j] == '\r',
    ensures
        nesting(s, j + 1) == nesting(s, i),
{
    lemma_nesting_in_line_comment(s, i, j);
    assert(nesting(s, j + 1) == nesting_behind(nesting(s, j), s, j));
}

/// Outside strings and comments a brace or a bracket opens or closes a level,
/// and any other character but a quote and a slash leaves the nesting as it is.
pub proof fn law_braces_nest(s: Seq<char>, i: int)
    requires
        0 <= i < s.len(),
        nesting(s, i).mode == Mode::Plain,
        s[i] != '"' && s[i] != '/',
    ensures
        nesting(s, i + 1).mode == Mode::Plain,
        nesting(s, i + 1).braces - nesting(s, i).braces == (if s[i] == '{' {
            1int
        } else if s[i] == '}' {
            -1
        } else {
            0
        }),
        nesting(s, i + 1).brackets - nesting(s, i).brackets == (if s[i] == '[' {
            1int
        } else if s[i] == ']' {
            -1
        } else {
            0
        }),
{
    assert(nesting(s, i + 1) == nesting_behind(nesting(s, i), s, i));
}

/// Outside strings and comments a section lies at the top level exactly where at
/// most one brace and no bracket is open. The beginning of a text is such a
/// place.
pub proof fn law_top_level(s: Seq<char>, i: int)
    requires
        nesting(s, i).mode == Mode::Plain,
    ensures
        top_level(s, i) <==> nesting(s, i).braces <= 1 && nesting(s, i).brackets <= 0,
        nesting(s, 0).mode == Mode::Plain && nesting(s, 0).braces == 0 && nesting(s, 0).brackets
            == 0,
{
    lemma_nothing_held(s, i);
}

/// How many more of one character than of the other stand from `from` to `to`.
pub open spec fn surplus(s: Seq<char>, from: int, to: int, open: char, close: char) -> int
    decreases to - from,
{
    if to <= from {
        0
    } else {
        surplus(s, from, to - 1, open, close) + (if s[to - 1] == open {
            1int
        } else if s[to - 1] == close {
            -1
        } else {
            0
        })
    }
}

proof fn lemma_held_in_string(s: Seq<char>, i: int, k: int)
    requires
        0 <= i < k <= s.len(),
        nesting(s, i).mode == Mode::Plain,
        s[i] == '"',
        forall|m: int| i < m < k ==> s[m] != '"' && s[m] != '\\' && s[m] != '\n' && s[m] != '\r',
    ensures
        nesting(s, k) == (Nesting {
            held_braces: surplus(s, i + 1, k, '{', '}'),
            held_brackets: surplus(s, i + 1, k, '[', ']'),
            mode: Mode::Text,
            ..nesting(s, i)
        }),
    decreases k - i,
{
    if k > i + 1 {
        lemma_held_in_string(s, i, k - 1);
        assert(nesting(s, k) == nesting_behind(nesting(s, k - 1), s, k - 1));
    } else {
        lemma_nothing_held(s, i);
        assert(nesting(s, k) == nesting_behind(nesting(s, i), s, i));
    }
}

/// A string that is not closed ends with its line, or where a section begins.
/// What it closes beyond what it opens is closed then, and what it opens beyond
/// what it closes is not opened.
pub proof fn law_unclosed_strings_close_levels(s: Seq<char>, i: int, j: int)
    requires
        0 <= i < j < s.len(),
        nesting(s, i).mode == Mode::Plain,
        s[i] == '"',
        forall|m: int| i < m < j ==> s[m] != '"' && s[m] != '\\' && s[m] != '\n' && s[m] != '\r',
        s[j] == '\n' || s[j] == '\r' || exists|key_end: int, colon: int, brace: int|
            section_form(s, j, key_end, colon, brace),
    ensures
        ({
            let braces = surplus(s, i + 1, j, '{', '}');
            let brackets = surplus(s, i + 1, j, '[', ']');
            let closed_braces = if braces < 0 {
                braces
            } else {
                0
            };
            let closed_brackets = if brackets < 0 {
                brackets
            } else {
                0
            };
            &&& nesting(s, j + 1).braces == nesting(s, i).braces + closed_braces
            &&& nesting(s, j + 1).brackets == nesting(s, i).brackets + closed_brackets
            &&& nesting(s, j + 1).mode == (if s[j] == '"' {
                Mode::Text
            } else {
                Mode::Plain
            })
            &&& top_level(s, j) <==> nesting(s, i).braces + closed_braces <= 1 && nesting(
                s,
                i,
            ).brackets + closed_brackets <= 0
        }),
{
    lemma_held_in_string(s, i, j);
    if s[j] != '\n' && s[j] != '\r' {
        let (key_end, colon, brace) = choose|key_end: int, colon: int, brace: int|
            section_form(s, j, key_end, colon, brace);
        assert(section_form(s, j, key_end, colon, brace));
        law_section_grammar(s, j, key_end, brace);
    }
    assert(nesting(s, j + 1) == nesting_behind(nesting(s, j), s, j));
}

/// A quote behind a backslash in a string begins no section.
pub proof fn law_escaped_quotes_begin_no_section(s: Seq<char>, i: int, j: int)
    requires
        0 <= i < j < s.len() - 1,
        nesting(s, i).mode == Mode::Plain,
        s[i] == '"' && s[j] == '\\',
        forall|m: int| i < m < j ==> s[m] != '"' && s[m] != '\\' && s[m] != '\n' && s[m] != '\r',
    ensures
        !top_level(s, j + 1),
        s[j + 1] != '\n' && s[j + 1] != '\r' ==> nesting(s, j + 2).mode == Mode::Text,
{
    lemma_held_in_string(s, i, j);
    assert(nesting(s, j + 1) == nesting_behind(nesting(s, j), s, j));
    assert(nesting(s, j + 2) == nesting_behind(nesting(s, j + 1), s, j + 1));
}

proof fn lemma_nesting_in_block_comment(s: Seq<char>, i: int, k: int)
    requires
        0 <= i < k <= s.len(),
        i + 1 < s.len(),
        nesting(s, i).mode == Mode::Plain,
        s[i] == '/' && s[i + 1] == '*',
        forall|m: int| i < m < k ==> !(#[trigger] s[m] == '/' && s[m - 1] == '*'),
    ensures
        nesting(s, k) == (Nesting { mode: Mode::BlockComment, ..nesting(s, i) }),
    decreases k - i,
{
    if k > i + 1 {
        lemma_nesting_in_block_comment(s, i, k - 1);
    }
    assert(nesting(s, k) == nesting_behind(nesting(s, k - 1), s, k - 1));
}

/// A comment from `/*` to `*/` changes nothing of the nesting, whatever it holds.
pub proof fn law_block_comments_do_not_nest(s: Seq<char>, i: int, j: int)
    requires
        0 <= i,
        i + 1 < j < s.len(),
        nesting(s, i).mode == Mode::Plain,
        s[i] == '/' && s[i + 1] == '*',
        forall|m: int| i < m < j ==> !(#[trigger] s[m] == '/' && s[m - 1] == '*'),
        s[j - 1] == '*' && s[j] == '/',
    ensures
        nesting(s, j + 1) == nesting(s, i),
{
    lemma_nesting_in_block_comment(s, i, j);
    assert(nesting(s, j + 1) == nesting_behind(nesting(s, j), s, j));
}

proof fn lemma_outermost(s: Seq<char>, i: int)
    requires
        0 < i <= s.len(),
        s[0] == '{',
        forall|k: int|
            0 < k < i ==> s[k] != '{' && s[k] != '}' && s[k] != '[' && s[k] != ']' && s[k] != '"'
                && s[k] != '/',
    ensures
        nesting(s, i).mode == Mode::Plain,
        nesting(s, i).braces == 1,
        nesting(s, i).brackets == 0,
    decreases i,
{
    if i > 1 {
        lemma_outermost(s, i - 1);
        law_braces_nest(s, i - 1);
    } else {
        law_top_level(s, 0);
        law_braces_nest(s, 0);
    }
}

/// The first section of a document lies at the top level, where nothing but its
/// brace and plain characters stands before it.
pub proof fn law_first_section_is_at_the_top(s: Seq<char>, i: int)
    requires
        0 < i <= s.len(),
        s[0] == '{',
        forall|k: int|
            0 < k < i ==> s[k] != '{' && s[k] != '}' && s[k] != '[' && s[k] != ']' && s[k] != '"'
                && s[k] != '/',
    ensures
        top_level(s, i),
{
    lemma_outermost(s, i);
    law_top_level(s, i);
}

// ---- Version strings ----

/// A character that a range operator begins with.
pub open spec fn operator(c: char) -> bool {
    c == '^' || c == '~' || c == '>' || c == '<' || c == '='
}

/// The length of the operator that `t` begins with: a second character belongs
/// to it where it is `=`, `<` or `>`.
pub open spec fn operator_len(t: Seq<char>) -> int {
    if t.len() > 0 && operator(t[0]) {
        if t.len() > 1 && (t[1] == '=' || t[1] == '<' || t[1] == '>') {
            2
        } else {
            1
        }
    } else {
        0
    }
}

/// The operator of a version string.
pub open spec fn range_prefix(s: Seq<char>) -> Seq<char> {
    trimmed_start(s).take(operator_len(trimmed_start(s)))
}

/// What stands behind the operator of a version string.
pub open spec fn range_rest(s: Seq<char>) -> Seq<char> {
    trimmed_start(s).skip(operator_len(trimmed_start(s)))
}

/// Splits a version string into its operator and the rest, without the white
/// space before it.
pub fn split_prefix(range_str: &str) -> (r: (&str, &str))
    ensures
        r.0@ == range_prefix(range_str@),
        r.1@ == range_rest(range_str@),
{
    let t: &str = trim_start(range_str);
    let chars = chars_of(t);
    let n: usize = if chars.len() > 0 && (chars[0] == '^' || chars[0] == '~' || chars[0] == '>'
        || chars[0] == '<' || chars[0] == '=') {
        if chars.len() > 1 && (chars[1] == '=' || chars[1] == '<' || chars[1] == '>') {
            2
        } else {
            1
        }
    } else {
        0
    };
    (t.substring_char(0, n), t.substring_char(n, chars.len()))
}

/// The version that a version string pins or begins at.
pub open spec fn pinned(range_str: Seq<char>) -> Option<VersionView> {
    parsed_version(range_rest(range_str))
}

/// The version that a version string pins or begins at: what stands behind its
/// operator, read as a version.
pub fn current_pinned(range_str: &str) -> (r: Option<Version>)
    ensures
        r.deep_view() == pinned(range_str@),
{
    let (_, rest) = split_prefix(range_str);
    Version::parse(rest)
}

/// Operator and rest make up the version string, but for the white space
/// before it.
pub proof fn law_split_keeps_text(s: Seq<char>)
    ensures
        range_prefix(s) + range_rest(s) == trimmed_start(s),
{
    assert(range_prefix(s) + range_rest(s) =~= trimmed_start(s));
}

proof fn lemma_version_text_starts_with_digit(v: VersionView)
    ensures
        version_text(v).len() > 0,
        '0' <= version_text(v)[0] <= '9',
{
    crate::text::lemma_decimal(v.major as nat);
    let d = crate::text::decimal(v.major as nat);
    assert(version_text(v)[0] == d[0]);
}

/// A new version behind the operator of a version string is a version string
/// with that operator and that version: rewriting changes nothing but the
/// version.
pub proof fn law_rewrite_keeps_operator(range_str: Seq<char>, v: VersionView)
    ensures
        range_prefix(range_prefix(range_str) + version_text(v)) == range_prefix(range_str),
        range_rest(range_prefix(range_str) + version_text(v)) == version_text(v),
        pinned(range_prefix(range_str) + version_text(v)) == parsed_version(version_text(v)),
{
    let p = range_prefix(range_str);
    let t = version_text(v);
    let s = p + t;
    let old = trimmed_start(range_str);
    lemma_version_text_starts_with_digit(v);
    lemma_run_end(range_str, 0, range_str.len() as int, CharClass::White);
    assert(p.len() == operator_len(old));
    if p.len() > 0 {
        assert(s[0] == old[0]);
    } else {
        assert(s[0] == t[0]);
    }
    assert(!in_class(CharClass::White, s[0]));
    assert(trimmed_start(s) =~= s);
    if p.len() == 1 {
        assert(s[1] == t[0]);
    } else if p.len() == 2 {
        assert(s[1] == old[1]);
    }
    assert(operator_len(s) == p.len());
    assert(s.take(p.len() as int) =~= p);
    assert(s.skip(p.len() as int) =~= t);
}

/// White space before a version string does not matter. Behind it an operator is
/// one of `^`, `~`, `>`, `<` and `=`, and a second character where that is `=`,
/// `<` or `>`; what stands behind the operator is the rest.
pub proof fn law_operators(white: Seq<char>, a: char, b: char, rest: Seq<char>)
    requires
        all_of(white, 0, white.len() as int, CharClass::White),
    ensures
        ({
            let first = a == '^' || a == '~' || a == '>' || a == '<' || a == '=';
            let second = b == '=' || b == '<' || b == '>';
            let s = white + seq![a, b] + rest;
            &&& first && second ==> range_prefix(s) == seq![a, b] && range_rest(s) == rest
            &&& first && !second ==> range_prefix(s) == seq![a] && range_rest(s) == seq![b] + rest
            &&& first ==> range_prefix(white + seq![a]) == seq![a] && range_rest(white + seq![a])
                == Seq::<char>::empty()
            &&& !first && !in_class(CharClass::White, a) ==> range_prefix(s) == Seq::<
                char,
            >::empty() && range_rest(s) == seq![a, b] + rest
        }),
        range_prefix(white) == Seq::<char>::empty(),
        range_rest(white) == Seq::<char>::empty(),
{
    let s = white + seq![a, b] + rest;
    let n = white.len() as int;
    let one = white + seq![a];
    if !in_class(CharClass::White, a) {
        assert(all_of(s, 0, n, CharClass::White)) by {
            assert forall|j: int| 0 <= j < n implies in_class(
                CharClass::White,
                #[trigger] s[j],
            ) by {
                assert(s[j] == white[j]);
            }
        }
        assert(all_of(one, 0, n, CharClass::White)) by {
            assert forall|j: int| 0 <= j < n implies in_class(
                CharClass::White,
                #[trigger] one[j],
            ) by {
                assert(one[j] == white[j]);
            }
        }
        lemma_run_end_is(s, 0, s.len() as int, CharClass::White, n);
        lemma_run_end_is(one, 0, one.len() as int, CharClass::White, n);
        let t = trimmed_start(s);
        assert(t =~= seq![a, b] + rest);
        assert(trimmed_start(one) =~= seq![a]);
        assert(t.take(2) =~= seq![a, b]);
        assert(t.take(1) =~= seq![a]);
        assert(t.take(0) =~= seq![]);
        assert(t.skip(2) =~= rest);
        assert(t.skip(1) =~= seq![b] + rest);
        assert(t.skip(0) =~= t);
        assert(seq![a].take(1) =~= seq![a]);
        assert(seq![a].skip(1) =~= seq![]);
    }
    lemma_run_end(white, 0, n, CharClass::White);
    let e = run_end(white, 0, n, CharClass::White);
    if e < n {
        assert(in_class(CharClass::White, white[e]));
    }
    assert(trimmed_start(white) =~= seq![]);
    assert(range_prefix(white) =~= seq![]);
    assert(range_rest(white) =~= seq![]);
}

/// The version that a version string pins is what stands behind its operator,
/// whatever the operator is.
pub proof fn law_pinned_behind_the_operator(s: Seq<char>, t: Seq<char>)
    requires
        range_rest(s) == range_rest(t),
    ensures
        pinned(s) == pinned(t),
        pinned(s) == parsed_version(range_rest(s)),
{
}

// ---- Upgrades ----

/// What kind of step it is from `current` to `target`.
pub open spec fn kind_of_upgrade(current: Option<VersionView>, target: VersionView) -> Seq<char> {
    match current {
        Some(c) => if c.major != target.major {
            "major"@
        } else if c.minor != target.minor {
            "minor"@
        } else {
            "patch"@
        },
        None => "upgrade"@,
    }
}

/// What kind of step it is from `current` to `target`: `major`, `minor` or
/// `patch`, or `upgrade` where no version is pinned.
pub fn upgrade_kind(current: Option<&Version>, target: &Version) -> (r: &'static str)
    ensures
        r@ == kind_of_upgrade(current.deep_view(), target.deep_view()),
{
    match current {
        Some(c) => if c.major != target.major {
            "major"
        } else if c.minor != target.minor {
            "minor"
        } else {
            "patch"
        },
        None => "upgrade",
    }
}

/// `v` is a stable version that an upgrade of the given tier may lead to:
/// `patch` stays in the same minor series, `minor` in the same major series,
/// and both go up; `major` takes any.
pub open spec fn fits_tier(v: VersionView, current: VersionView, tier: Seq<char>) -> bool {
    &&& v.pre_release.len() == 0
    &&& if tier == "patch"@ {
        v.major == current.major && v.minor == current.minor && version_lt(current, v)
    } else if tier == "minor"@ {
        v.major == current.major && version_lt(current, v)
    } else {
        tier == "major"@
    }
}

/// The first of `versions` that an upgrade of the given tier may lead to.
pub open spec fn tier_target(
    versions: Seq<VersionView>,
    current: VersionView,
    tier: Seq<char>,
) -> Option<VersionView>
    decreases versions.len(),
{
    if versions.len() == 0 {
        None
    } else if fits_tier(versions[0], current, tier) {
        Some(versions[0])
    } else {
        tier_target(versions.drop_first(), current, tier)
    }
}

/// The first of `versions` that an upgrade of the given tier may lead to. Where
/// they are sorted newest first, it is the highest.
pub fn pick_tier_target(versions: &[Version], current: &Version, tier: &str) -> (r: Option<Version>)
    ensures
        r.deep_view() == tier_target(versions.deep_view(), current.deep_view(), tier@),
{
    let patch: bool = crate::text::str_eq(tier, "patch");
    let minor: bool = crate::text::str_eq(tier, "minor");
    let major: bool = crate::text::str_eq(tier, "major");
    let ghost all = versions.deep_view();
    let mut i: usize = 0;
    assert(all.skip(0) =~= all);
    while i < versions.len()
        invariant
            i <= versions.len(),
            all == versions.deep_view(),
            patch == (tier@ == "patch"@),
            minor == (tier@ == "minor"@),
            major == (tier@ == "major"@),
            tier_target(all, current.deep_view(), tier@) == tier_target(
                all.skip(i as int),
                current.deep_view(),
                tier@,
            ),
        decreases versions.len() - i,
    {
        assert(all.skip(i as int).drop_first() =~= all.skip(i + 1));
        let v: &Version = &versions[i];
        let fits: bool = !v.is_prerelease() && (if patch {
            v.major == current.major && v.minor == current.minor && precedes(current, v)
        } else if minor {
            v.major == current.major && precedes(current, v)
        } else {
            major
        });
        if fits {
            return Some(v.clone());
        }
        i = i + 1;
    }
    None
}

/// What is picked is one of the versions, and fits the tier.
pub proof fn law_tier_target_fits(
    versions: Seq<VersionView>,
    current: VersionView,
    tier: Seq<char>,
)
    requires
        tier_target(versions, current, tier) is Some,
    ensures
        versions.contains(tier_target(versions, current, tier)->0),
        fits_tier(tier_target(versions, current, tier)->0, current, tier),
    decreases versions.len(),
{
    if fits_tier(versions[0], current, tier) {
        assert(versions.contains(versions[0]));
    } else {
        let rest = versions.drop_first();
        law_tier_target_fits(rest, current, tier);
        let v = tier_target(versions, current, tier)->0;
        let k = choose|k: int| 0 <= k < rest.len() && rest[k] == v;
        assert(versions[k + 1] == v);
    }
}

/// The version picked from a list that is sorted newest first is the highest of
/// those that fit the tier, and one is picked wherever one fits.
pub proof fn law_tier_target_is_highest(
    versions: Seq<VersionView>,
    current: VersionView,
    tier: Seq<char>,
)
    requires
        sorted_newest_first(versions),
    ensures
        match tier_target(versions, current, tier) {
            Some(v) => versions.contains(v) && fits_tier(v, current, tier) && forall|u: VersionView|
                versions.contains(u) && fits_tier(u, current, tier) ==> !version_lt(v, u),
            None => forall|u: VersionView|
                versions.contains(u) ==> !fits_tier(u, current, tier),
        },
    decreases versions.len(),
{
    if versions.len() > 0 {
        let rest = versions.drop_first();
        let first = versions[0];
        assert(sorted_newest_first(rest)) by {
            assert forall|i: int, j: int| 0 <= i < j < rest.len() implies !version_lt(
                #[trigger] rest[i],
                #[trigger] rest[j],
            ) by {
                assert(rest[i] == versions[i + 1] && rest[j] == versions[j + 1]);
            }
        }
        law_tier_target_is_highest(rest, current, tier);
        assert forall|u: VersionView| versions.contains(u) implies u == first || rest.contains(
            u,
        ) by {
            let k = choose|k: int| 0 <= k < versions.len() && versions[k] == u;
            if k > 0 {
                assert(rest[k - 1] == u);
            }
        }
        if fits_tier(first, current, tier) {
            assert(versions.contains(first));
            assert forall|u: VersionView|
                versions.contains(u) && fits_tier(u, current, tier) implies !version_lt(
                first,
                u,
            ) by {
                let k = choose|k: int| 0 <= k < versions.len() && versions[k] == u;
                if k == 0 {
                    law_order_total(first, first);
                } else {
                    assert(!version_lt(versions[0], versions[k]));
                }
            }
        } else if let Some(v) = tier_target(rest, current, tier) {
            let k = choose|k: int| 0 <= k < rest.len() && rest[k] == v;
            assert(versions[k + 1] == v);
        }
    }
}

proof fn lemma_tiers_differ()
    ensures
        "patch"@ != "minor"@,
        "patch"@ != "major"@,
        "minor"@ != "major"@,
        "patch"@ != "upgrade"@,
        "minor"@ != "upgrade"@,
        "major"@ != "upgrade"@,
{
    reveal_strlit("patch");
    reveal_strlit("minor");
    reveal_strlit("major");
    reveal_strlit("upgrade");
    assert("patch"@[0] != "minor"@[0]);
    assert("patch"@[0] != "major"@[0]);
    assert("minor"@[1] != "major"@[1]);
    assert("upgrade"@.len() == 7);
}

proof fn lemma_tier_target_is_first(
    versions: Seq<VersionView>,
    current: VersionView,
    tier: Seq<char>,
)
    ensures
        match tier_target(versions, current, tier) {
            Some(t) => exists|k: int|
                0 <= k < versions.len() && #[trigger] versions[k] == t && fits_tier(
                    t,
                    current,
                    tier,
                ) && forall|j: int|
                    0 <= j < k ==> !fits_tier(#[trigger] versions[j], current, tier),
            None => forall|j: int|
                0 <= j < versions.len() ==> !fits_tier(#[trigger] versions[j], current, tier),
        },
    decreases versions.len(),
{
    if versions.len() > 0 {
        let rest = versions.drop_first();
        if fits_tier(versions[0], current, tier) {
            assert(versions[0] == tier_target(versions, current, tier)->0);
        } else {
            lemma_tier_target_is_first(rest, current, tier);
            if let Some(t) = tier_target(versions, current, tier) {
                let k = choose|k: int|
                    0 <= k < rest.len() && #[trigger] rest[k] == t && fits_tier(t, current, tier)
                        && forall|j: int|
                        0 <= j < k ==> !fits_tier(#[trigger] rest[j], current, tier);
                assert(versions[k + 1] == t);
                assert forall|j: int| 0 <= j < k + 1 implies !fits_tier(
                    #[trigger] versions[j],
                    current,
                    tier,
                ) by {
                    if j > 0 {
                        assert(versions[j] == rest[j - 1]);
                    }
                }
            } else {
                assert forall|j: int| 0 <= j < versions.len() implies !fits_tier(
                    #[trigger] versions[j],
                    current,
                    tier,
                ) by {
                    if j > 0 {
                        assert(versions[j] == rest[j - 1]);
                    }
                }
            }
        }
    }
}

/// The tier `major` leads to the first stable version of a list. The tier
/// `minor` leads to the first stable version that comes after the current one
/// and has its major number, and the tier `patch` to the first that has its
/// minor number too. There is no target exactly where there is no such version,
/// and no other tier has one.
pub proof fn law_tier_targets(versions: Seq<VersionView>, current: VersionView, tier: Seq<char>)
    ensures
        match tier_target(versions, current, "major"@) {
            Some(t) => exists|k: int|
                0 <= k < versions.len() && #[trigger] versions[k] == t && t.pre_release.len() == 0
                    && forall|j: int| 0 <= j < k ==> (#[trigger] versions[j]).pre_release.len() > 0,
            None => forall|j: int|
                0 <= j < versions.len() ==> (#[trigger] versions[j]).pre_release.len() > 0,
        },
        match tier_target(versions, current, "minor"@) {
            Some(t) => exists|k: int|
                0 <= k < versions.len() && #[trigger] versions[k] == t && t.pre_release.len() == 0
                    && t.major == current.major && version_lt(current, t) && forall|j: int|
                    0 <= j < k && (#[trigger] versions[j]).pre_release.len() == 0
                        && versions[j].major == current.major ==> !version_lt(current, versions[j]),
            None => forall|j: int|
                0 <= j < versions.len() && (#[trigger] versions[j]).pre_release.len() == 0
                    && versions[j].major == current.major ==> !version_lt(current, versions[j]),
        },
        match tier_target(versions, current, "patch"@) {
            Some(t) => exists|k: int|
                0 <= k < versions.len() && #[trigger] versions[k] == t && t.pre_release.len() == 0
                    && t.major == current.major && t.minor == current.minor && version_lt(
                    current,
                    t,
                ) && forall|j: int|
                    0 <= j < k && (#[trigger] versions[j]).pre_release.len() == 0
                        && versions[j].major == current.major && versions[j].minor == current.minor
                        ==> !version_lt(current, versions[j]),
            None => forall|j: int|
                0 <= j < versions.len() && (#[trigger] versions[j]).pre_release.len() == 0
                    && versions[j].major == current.major && versions[j].minor == current.minor
                    ==> !version_lt(current, versions[j]),
        },
        tier != "patch"@ && tier != "minor"@ && tier != "major"@ ==> tier_target(
            versions,
            current,
            tier,
        ) is None,
{
    lemma_tiers_differ();
    lemma_tier_target_is_first(versions, current, "major"@);
    lemma_tier_target_is_first(versions, current, "minor"@);
    lemma_tier_target_is_first(versions, current, "patch"@);
    lemma_tier_target_is_first(versions, current, tier);
}

/// `t` is the highest of the stable versions that come after `current` and have,
/// where that is asked for, its major and its minor number.
pub open spec fn highest_upgrade(
    versions: Seq<VersionView>,
    current: VersionView,
    same_major: bool,
    same_minor: bool,
    t: VersionView,
) -> bool {
    &&& versions.contains(t) && t.pre_release.len() == 0 && version_lt(current, t)
    &&& same_major ==> t.major == current.major
    &&& same_minor ==> t.minor == current.minor
    &&& forall|u: VersionView| #[trigger]
        versions.contains(u) && u.pre_release.len() == 0 && (same_major ==> u.major
            == current.major) && (same_minor ==> u.minor == current.minor) ==> !version_lt(t, u)
}

/// In a list that is sorted newest first, each tier leads to the highest stable
/// version of its series: the tier `major` of all, whatever lies between, the
/// tier `minor` of those with the same major number, and the tier `patch` of
/// those with the same minor number too. A target of the tier `major` that is
/// not newer means that no stable version is.
pub proof fn law_tiers_lead_to_the_highest(versions: Seq<VersionView>, current: VersionView)
    requires
        sorted_newest_first(versions),
    ensures
        match tier_target(versions, current, "major"@) {
            Some(t) => {
                &&& versions.contains(t) && t.pre_release.len() == 0
                &&& forall|u: VersionView| #[trigger]
                    versions.contains(u) && u.pre_release.len() == 0 ==> !version_lt(t, u)
            },
            None => forall|u: VersionView| #[trigger]
                versions.contains(u) ==> u.pre_release.len() > 0,
        },
        match tier_target(versions, current, "minor"@) {
            Some(t) => highest_upgrade(versions, current, true, false, t),
            None => forall|u: VersionView| #[trigger]
                versions.contains(u) && u.pre_release.len() == 0 && u.major == current.major
                    ==> !version_lt(current, u),
        },
        match tier_target(versions, current, "patch"@) {
            Some(t) => highest_upgrade(versions, current, true, true, t),
            None => forall|u: VersionView| #[trigger]
                versions.contains(u) && u.pre_release.len() == 0 && u.major == current.major
                    && u.minor == current.minor ==> !version_lt(current, u),
        },
{
    lemma_tiers_differ();
    law_tier_target_is_highest(versions, current, "major"@);
    law_tier_target_is_highest(versions, current, "minor"@);
    law_tier_target_is_highest(versions, current, "patch"@);
    if let Some(t) = tier_target(versions, current, "minor"@) {
        assert forall|u: VersionView| #[trigger]
            versions.contains(u) && u.pre_release.len() == 0 && u.major
                == current.major implies !version_lt(t, u) by {
            if version_lt(t, u) {
                law_order_transitive(current, t, u);
            }
        }
    }
    if let Some(t) = tier_target(versions, current, "patch"@) {
        assert forall|u: VersionView| #[trigger]
            versions.contains(u) && u.pre_release.len() == 0 && u.major == current.major && u.minor
                == current.minor implies !version_lt(t, u) by {
            if version_lt(t, u) {
                law_order_transitive(current, t, u);
            }
        }
    }
}

/// A step is `major` where the major number changes, else `minor` where the
/// minor number does, else `patch`. Where nothing is pinned it is an `upgrade`.
pub proof fn law_kinds_of_upgrades(current: Option<VersionView>, target: VersionView)
    ensures
        kind_of_upgrade(current, target) == "upgrade"@ <==> current is None,
        current matches Some(c) ==> {
            &&& kind_of_upgrade(current, target) == "major"@ <==> c.major != target.major
            &&& kind_of_upgrade(current, target) == "minor"@ <==> c.major == target.major
                && c.minor != target.minor
            &&& kind_of_upgrade(current, target) == "patch"@ <==> c.major == target.major
                && c.minor == target.minor
        },
{
    lemma_tiers_differ();
}

// ---- What a document declares ----

/// `d` is the dependency that the entry at `j` gives: the name between its first
/// quotes, the version string between its last quotes, whether that is a range,
/// and where it stands.
pub open spec fn gives(
    s: Seq<char>,
    j: int,
    name_end: int,
    start: int,
    end: int,
    d: DepView,
) -> bool {
    &&& d.name == s.subrange(j + 1, name_end)
    &&& d.range_str == s.subrange(start, end)
    &&& d.range == (if valid_range(s.subrange(start, end)) {
        Some(s.subrange(start, end))
    } else {
        None
    })
    &&& d.value_range.start == position_at(s, start)
    &&& d.value_range.end == position_at(s, end)
}

/// No entry that begins behind `brace` and before `j` reaches as far as `j`.
pub open spec fn stands_free(s: Seq<char>, brace: int, close: int, j: int) -> bool {
    forall|k: int, name_end: int, colon: int, start: int, end: int|
        brace < k < j && #[trigger] entry_form(s, k, close, name_end, colon, start, end) ==> end < j
}

proof fn lemma_entry_is_found(s: Seq<char>, lo: int, hi: int, j: int) -> (k: int)
    requires
        0 <= lo <= j < hi <= s.len(),
        entry_at(s, j, hi) is Some,
        ({
            let (name_end, start, end) = entry_at(s, j, hi)->0;
            entry_dep(s, j, name_end, start, end).len() == 1
        }),
        forall|m: int| lo <= m < j && (#[trigger] entry_at(s, m, hi)) is Some ==> (entry_at(
            s,
            m,
            hi,
        )->0).2 < j,
    ensures
        0 <= k < entry_deps(s, lo, hi).len(),
        ({
            let (name_end, start, end) = entry_at(s, j, hi)->0;
            entry_deps(s, lo, hi)[k] == entry_dep(s, j, name_end, start, end)[0]
        }),
    decreases hi - lo,
{
    lemma_entry_at(s, lo, hi);
    match entry_at(s, lo, hi) {
        Some((name_end, start, end)) => {
            let own = entry_dep(s, lo, name_end, start, end);
            if lo == j {
                assert(entry_deps(s, lo, hi)[0] == own[0]);
                0
            } else {
                let k = lemma_entry_is_found(s, end + 1, hi, j);
                assert(entry_deps(s, lo, hi)[own.len() + k] == entry_deps(s, end + 1, hi)[k]);
                own.len() + k
            }
        },
        None => lemma_entry_is_found(s, lo + 1, hi, j),
    }
}

/// A section does not begin inside the head of another.
proof fn lemma_sections_stand_apart(s: Seq<char>, i: int, j: int)
    requires
        section_at(s, i) is Some,
        section_at(s, j) is Some,
        i < j,
    ensures
        (section_at(s, i)->0).1 < j,
{
    let (key_end, brace) = section_at(s, i)->0;
    law_section_grammar(s, i, key_end, brace);
    let colon = choose|colon: int| section_form(s, i, key_end, colon, brace);
    assert(section_form(s, i, key_end, colon, brace));
    if j <= brace {
        assert(s[j] == '"');
        if j < key_end {
            if j > i + 1 {
                assert(in_class(CharClass::Key, s[j]));
            }
        } else if j == key_end {
            assert(letter(s[key_end + 1]));
            if key_end + 1 < colon {
                assert(in_class(CharClass::White, s[key_end + 1]));
            }
        } else if j < colon {
            assert(in_class(CharClass::White, s[j]));
        } else if colon < j < brace {
            assert(in_class(CharClass::White, s[j]));
        }
    }
}

proof fn lemma_section_is_found(
    s: Seq<char>,
    keys: Seq<Seq<char>>,
    lo: int,
    i: int,
    m: int,
) -> (k: int)
    requires
        0 <= lo <= i,
        section_at(s, i) is Some,
        top_level(s, i),
        ({
            let (key_end, brace) = section_at(s, i)->0;
            0 <= m < section_deps(s, keys, i, key_end, brace).len()
        }),
    ensures
        0 <= k < document_deps(s, keys, lo).len(),
        ({
            let (key_end, brace) = section_at(s, i)->0;
            document_deps(s, keys, lo)[k] == section_deps(s, keys, i, key_end, brace)[m]
        }),
    decreases s.len() - lo,
{
    lemma_section_at(s, i);
    lemma_section_at(s, lo);
    match section_at(s, lo) {
        Some((key_end, brace)) if top_level(s, lo) => {
            let own = section_deps(s, keys, lo, key_end, brace);
            if lo == i {
                assert(document_deps(s, keys, lo)[m] == own[m]);
                m
            } else {
                lemma_sections_stand_apart(s, lo, i);
                let k = lemma_section_is_found(s, keys, brace + 1, i, m);
                assert(document_deps(s, keys, lo)[own.len() + k] == document_deps(
                    s,
                    keys,
                    brace + 1,
                )[k]);
                own.len() + k
            }
        },
        _ => lemma_section_is_found(s, keys, lo + 1, i, m),
    }
}

/// Every entry of a section at the top level that is looked at, and that no
/// entry before it overlaps, is listed as a dependency, with exactly its name,
/// its version string and its place, unless the version string begins with
/// `workspace:`, `file:`, `link:`, `git+`, `github:` or `npm:` or holds `://`.
pub proof fn law_declared_deps_are_listed(
    s: Seq<char>,
    keys: Seq<Seq<char>>,
    i: int,
    key_end: int,
    key_colon: int,
    brace: int,
    close: int,
    j: int,
    name_end: int,
    colon: int,
    start: int,
    end: int,
)
    requires
        section_form(s, i, key_end, key_colon, brace),
        top_level(s, i),
        keys.contains(s.subrange(i + 1, key_end)),
        matching_brace(s, brace) == Some(close),
        brace < j,
        entry_form(s, j, close, name_end, colon, start, end),
        stands_free(s, brace, close, j),
        ({
            let version = s.subrange(start, end);
            &&& !"workspace:"@.is_prefix_of(version)
            &&& !"file:"@.is_prefix_of(version)
            &&& !"link:"@.is_prefix_of(version)
            &&& !"git+"@.is_prefix_of(version)
            &&& !"github:"@.is_prefix_of(version)
            &&& !"npm:"@.is_prefix_of(version)
            &&& forall|a: Seq<char>, b: Seq<char>| version != #[trigger] (a + "://"@ + b)
        }),
    ensures
        exists|k: int|
            0 <= k < document_deps(s, keys, 0).len() && gives(
                s,
                j,
                name_end,
                start,
                end,
                #[trigger] document_deps(s, keys, 0)[k],
            ),
{
    let version = s.subrange(start, end);
    law_section_grammar(s, i, key_end, brace);
    law_matching_brace(s, brace);
    law_entry_grammar(s, j, close, name_end, start, end);
    law_occurs_in(version, "://"@);
    assert forall|m: int| brace + 1 <= m < j && (#[trigger] entry_at(s, m, close)) is Some implies (
    entry_at(s, m, close)->0).2 < j by {
        let (n, b, e) = entry_at(s, m, close)->0;
        law_entry_grammar(s, m, close, n, b, e);
        let c = choose|c: int| entry_form(s, m, close, n, c, b, e);
        assert(entry_form(s, m, close, n, c, b, e));
    }
    let m = lemma_entry_is_found(s, brace + 1, close, j);
    let k = lemma_section_is_found(s, keys, 0, i, m);
    assert(gives(s, j, name_end, start, end, document_deps(s, keys, 0)[k]));
}

/// The dependency `d` stands in the text: the section at `i` is one of `keys`
/// and at the top level, the entry at `j` lies between its braces, and gives
/// `d`, whose version string does not point elsewhere.
pub open spec fn stands_at(
    s: Seq<char>,
    keys: Seq<Seq<char>>,
    i: int,
    j: int,
    d: DepView,
) -> bool {
    exists|
        key_end: int,
        key_colon: int,
        brace: int,
        close: int,
        name_end: int,
        colon: int,
        start: int,
        end: int,
    |
        {
            &&& #[trigger] section_form(s, i, key_end, key_colon, brace)
            &&& top_level(s, i)
            &&& keys.contains(s.subrange(i + 1, key_end))
            &&& matching_brace(s, brace) == Some(close)
            &&& brace < j
            &&& #[trigger] entry_form(s, j, close, name_end, colon, start, end)
            &&& gives(s, j, name_end, start, end, d)
            &&& !"workspace:"@.is_prefix_of(d.range_str)
            &&& !"file:"@.is_prefix_of(d.range_str)
            &&& !"link:"@.is_prefix_of(d.range_str)
            &&& !"git+"@.is_prefix_of(d.range_str)
            &&& !"github:"@.is_prefix_of(d.range_str)
            &&& !"npm:"@.is_prefix_of(d.range_str)
            &&& forall|a: Seq<char>, b: Seq<char>| d.range_str != #[trigger] (a + "://"@ + b)
        }
}

/// One place of a text comes before another: an earlier section, or an earlier
/// entry of the same section.
pub open spec fn comes_before(p: (int, int), q: (int, int)) -> bool {
    p.0 < q.0 || (p.0 == q.0 && p.1 < q.1)
}

proof fn lemma_entries_in_order(s: Seq<char>, lo: int, hi: int) -> (at: Seq<int>)
    requires
        0 <= lo,
        hi <= s.len(),
    ensures
        at.len() == entry_deps(s, lo, hi).len(),
        forall|k: int|
            0 <= k < at.len() ==> lo <= #[trigger] at[k] && (entry_at(s, at[k], hi) matches Some(
                (name_end, start, end),
            ) && entry_dep(s, at[k], name_end, start, end) == seq![entry_deps(s, lo, hi)[k]]),
        forall|k: int, l: int| 0 <= k < l < at.len() ==> #[trigger] at[k] < #[trigger] at[l],
    decreases hi - lo,
{
    if lo >= hi {
        seq![]
    } else {
        lemma_entry_at(s, lo, hi);
        match entry_at(s, lo, hi) {
            Some((name_end, start, end)) => {
                let rest = lemma_entries_in_order(s, end + 1, hi);
                let own = entry_dep(s, lo, name_end, start, end);
                let all = entry_deps(s, lo, hi);
                if own.len() == 0 {
                    assert(all =~= entry_deps(s, end + 1, hi));
                    rest
                } else {
                    let at = seq![lo] + rest;
                    assert forall|k: int| 0 <= k < at.len() implies lo <= #[trigger] at[k] && (
                    entry_at(s, at[k], hi) matches Some((n, b, e)) && entry_dep(s, at[k], n, b, e)
                        == seq![all[k]]) by {
                        if k == 0 {
                            assert(own =~= seq![all[0]]);
                        } else {
                            assert(at[k] == rest[k - 1]);
                            assert(all[k] == entry_deps(s, end + 1, hi)[k - 1]);
                        }
                    }
                    assert forall|k: int, l: int| 0 <= k < l < at.len() implies #[trigger] at[k]
                        < #[trigger] at[l] by {
                        assert(at[l] == rest[l - 1]);
                        if k > 0 {
                            assert(at[k] == rest[k - 1]);
                        }
                    }
                    at
                }
            },
            None => lemma_entries_in_order(s, lo + 1, hi),
        }
    }
}

proof fn lemma_deps_in_order(s: Seq<char>, keys: Seq<Seq<char>>, lo: int) -> (at: Seq<(int, int)>)
    requires
        0 <= lo,
    ensures
        at.len() == document_deps(s, keys, lo).len(),
        forall|k: int|
            0 <= k < at.len() ==> lo <= (#[trigger] at[k]).0 && declared_at(
                s,
                keys,
                at[k].0,
                at[k].1,
                document_deps(s, keys, lo)[k],
            ),
        forall|k: int, l: int|
            0 <= k < l < at.len() ==> comes_before(#[trigger] at[k], #[trigger] at[l]),
    decreases s.len() - lo,
{
    if lo >= s.len() {
        seq![]
    } else {
        lemma_section_at(s, lo);
        match section_at(s, lo) {
            Some((key_end, brace)) if top_level(s, lo) => {
                let rest = lemma_deps_in_order(s, keys, brace + 1);
                let own = section_deps(s, keys, lo, key_end, brace);
                let all = document_deps(s, keys, lo);
                let later = document_deps(s, keys, brace + 1);
                if own.len() == 0 {
                    assert(all =~= later);
                    rest
                } else {
                    let close = matching_brace(s, brace)->0;
                    law_matching_brace(s, brace);
                    let inner = lemma_entries_in_order(s, brace + 1, close);
                    let first = inner.map_values(|j: int| (lo, j));
                    let at = first + rest;
                    assert forall|k: int| 0 <= k < at.len() implies lo <= (#[trigger] at[k]).0
                        && declared_at(s, keys, at[k].0, at[k].1, all[k]) by {
                        if k < first.len() {
                            assert(at[k] == first[k] && first[k] == (lo, inner[k]));
                            assert(all[k] == own[k]);
                        } else {
                            assert(at[k] == rest[k - first.len()]);
                            assert(all[k] == later[k - own.len()]);
                        }
                    }
                    assert forall|k: int, l: int| 0 <= k < l < at.len() implies comes_before(
                        #[trigger] at[k],
                        #[trigger] at[l],
                    ) by {
                        if k < first.len() {
                            assert(at[k] == (lo, inner[k]));
                            if l < first.len() {
                                assert(at[l] == (lo, inner[l]));
                                assert(inner[k] < inner[l]);
                            } else {
                                assert(at[l] == rest[l - first.len()]);
                            }
                        } else {
                            assert(at[k] == rest[k - first.len()]);
                            assert(at[l] == rest[l - first.len()]);
                        }
                    }
                    at
                }
            },
            _ => lemma_deps_in_order(s, keys, lo + 1),
        }
    }
}

/// Every dependency that is listed stands in the text, in a section at the top
/// level that is looked at, and none is listed twice: they are listed in the
/// order in which they stand there.
pub proof fn law_listed_deps_stand_in_the_text(s: Seq<char>, keys: Seq<Seq<char>>)
    ensures
        exists|at: Seq<(int, int)>|
            {
                &&& #[trigger] at.len() == document_deps(s, keys, 0).len()
                &&& forall|k: int|
                    0 <= k < at.len() ==> stands_at(
                        s,
                        keys,
                        (#[trigger] at[k]).0,
                        at[k].1,
                        document_deps(s, keys, 0)[k],
                    )
                &&& forall|k: int, l: int|
                    0 <= k < l < at.len() ==> comes_before(#[trigger] at[k], #[trigger] at[l])
            },
{
    let all = document_deps(s, keys, 0);
    let at = lemma_deps_in_order(s, keys, 0);
    assert forall|k: int| 0 <= k < at.len() implies stands_at(
        s,
        keys,
        (#[trigger] at[k]).0,
        at[k].1,
        all[k],
    ) by {
        let (i, j) = at[k];
        assert(declared_at(s, keys, i, j, all[k]));
        let (key_end, brace) = section_at(s, i)->0;
        let close = matching_brace(s, brace)->0;
        let (name_end, start, end) = entry_at(s, j, close)->0;
        law_matching_brace(s, brace);
        law_section_grammar(s, i, key_end, brace);
        law_entry_grammar(s, j, close, name_end, start, end);
        let key_colon = choose|c: int| section_form(s, i, key_end, c, brace);
        let colon = choose|c: int| entry_form(s, j, close, name_end, c, start, end);
        assert(section_form(s, i, key_end, key_colon, brace));
        assert(entry_form(s, j, close, name_end, colon, start, end));
        assert(entry_dep(s, j, name_end, start, end)[0] == seq![all[k]][0]);
        law_occurs_in(s.subrange(start, end), "://"@);
        assert(gives(s, j, name_end, start, end, all[k]));
    }
}

} // verus!
