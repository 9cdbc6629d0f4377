//! Text primitives. The model of a string is its sequence of characters.

use vstd::prelude::*;
use vstd::string::*;

verus! {

/// The characters with Unicode's `White_Space` property.
pub open spec fn white_space(c: char) -> bool {
    ||| '\u{9}' <= c <= '\u{d}'
    ||| c == '\u{20}'
    ||| c == '\u{85}'
    ||| c == '\u{a0}'
    ||| c == '\u{1680}'
    ||| '\u{2000}' <= c <= '\u{200a}'
    ||| c == '\u{2028}'
    ||| c == '\u{2029}'
    ||| c == '\u{202f}'
    ||| c == '\u{205f}'
    ||| c == '\u{3000}'
}

/// Whether `c` is white space.
pub fn is_white_space(c: char) -> (r: bool)
    ensures
        r == white_space(c),
{
    ('\u{9}' <= c && c <= '\u{d}') || c == '\u{20}' || c == '\u{85}' || c == '\u{a0}' || c
        == '\u{1680}' || ('\u{2000}' <= c && c <= '\u{200a}') || c == '\u{2028}' || c == '\u{2029}'
        || c == '\u{202f}' || c == '\u{205f}' || c == '\u{3000}'
}

/// The characters of `s`, to be indexed.
pub fn chars_of(s: &str) -> (r: Vec<char>)
    ensures
        r@ == s@,
{
    let mut out: Vec<char> = Vec::new();
    for c in it: s.chars()
        invariant
            out@ == s@.take(it.index()),
            it.seq() == s@,
    {
        out.push(c);
        assert(s@.take(it.index() + 1) =~= s@.take(it.index()).push(c));
    }
    assert(s@.take(s@.len() as int) =~= s@);
    out
}

/// Whether two strings hold the same characters.
pub fn str_eq(a: &str, b: &str) -> (r: bool)
    ensures
        r == (a@ == b@),
{
    a.to_owned() == b.to_owned()
}

/// A copy of a list of strings.
pub fn copy_strings(list: &Vec<String>) -> (r: Vec<String>)
    ensures
        r.deep_view() == list.deep_view(),
{
    let mut out: Vec<String> = Vec::new();
    let mut i: usize = 0;
    while i < list.len()
        invariant
            i <= list.len(),
            out.len() == i,
            forall|j: int| 0 <= j < i ==> (#[trigger] out@[j])@ == list@[j]@,
        decreases list.len() - i,
    {
        out.push(list[i].clone());
        i = i + 1;
    }
    assert(out.deep_view() =~= list.deep_view());
    out
}

/// Whether the strings of `list` include `s`.
pub fn list_has(list: &[String], s: &str) -> (r: bool)
    ensures
        r == list.deep_view().contains(s@),
{
    let mut i: usize = 0;
    while i < list.len()
        invariant
            i <= list.len(),
            forall|j: int| 0 <= j < i ==> list.deep_view()[j] != s@,
        decreases list.len() - i,
    {
        if str_eq(list[i].as_str(), s) {
            assert(list.deep_view()[i as int] == s@);
            return true;
        }
        i = i + 1;
    }
    false
}

/// `needle` occurs in `s` at index `i`.
pub open spec fn occurs_at(s: Seq<char>, needle: Seq<char>, i: int) -> bool {
    0 <= i && i + needle.len() <= s.len() && s.subrange(i, i + needle.len()) == needle
}

/// `needle` occurs somewhere in `s`.
pub open spec fn occurs_in(s: Seq<char>, needle: Seq<char>) -> bool {
    exists|i: int| occurs_at(s, needle, i)
}

/// A text occurs in another exactly where that is made up of it and something
/// on either side.
pub proof fn law_occurs_in(s: Seq<char>, needle: Seq<char>)
    ensures
        occurs_in(s, needle) <==> exists|a: Seq<char>, b: Seq<char>| s == #[trigger] (a + needle
            + b),
{
    if occurs_in(s, needle) {
        let i = choose|i: int| occurs_at(s, needle, i);
        assert(s =~= s.take(i) + needle + s.skip(i + needle.len()));
    }
    if exists|a: Seq<char>, b: Seq<char>| s == #[trigger] (a + needle + b) {
        let (a, b) = choose|a: Seq<char>, b: Seq<char>| s == #[trigger] (a + needle + b);
        assert(s.subrange(a.len() as int, (a.len() + needle.len()) as int) =~= needle);
        assert(occurs_at(s, needle, a.len() as int));
    }
}

/// Whether `needle` occurs in `s` at index `at`.
fn occurs_here(s: &Vec<char>, needle: &Vec<char>, at: usize) -> (r: bool)
    ensures
        r == occurs_at(s@, needle@, at as int),
{
    if at > s.len() || s.len() - at < needle.len() {
        return false;
    }
    let mut k: usize = 0;
    while k < needle.len()
        invariant
            k <= needle.len(),
            at + needle.len() <= s.len(),
            forall|j: int| 0 <= j < k ==> s@[at + j] == needle@[j],
        decreases needle.len() - k,
    {
        if s[at + k] != needle[k] {
            assert(s@.subrange(at as int, at + needle@.len())[k as int] != needle@[k as int]);
            return false;
        }
        k = k + 1;
    }
    assert(s@.subrange(at as int, at + needle@.len()) =~= needle@);
    true
}

/// Whether `s` begins with `prefix`.
pub fn starts_with(s: &str, prefix: &str) -> (r: bool)
    ensures
        r == prefix@.is_prefix_of(s@),
{
    occurs_here(&chars_of(s), &chars_of(prefix), 0)
}

/// Whether `s` ends with `suffix`.
pub fn ends_with(s: &str, suffix: &str) -> (r: bool)
    ensures
        r == suffix@.is_suffix_of(s@),
{
    let text = chars_of(s);
    let tail = chars_of(suffix);
    if text.len() < tail.len() {
        return false;
    }
    occurs_here(&text, &tail, text.len() - tail.len())
}

/// Whether `needle` occurs in `s`.
pub fn contains(s: &str, needle: &str) -> (r: bool)
    ensures
        r == occurs_in(s@, needle@),
{
    let text = chars_of(s);
    let part = chars_of(needle);
    let mut i: usize = 0;
    while i < text.len()
        invariant
            i <= text.len(),
            text@ == s@,
            part@ == needle@,
            forall|j: int| 0 <= j < i ==> !occurs_at(s@, needle@, j),
        decreases text.len() - i,
    {
        if occurs_here(&text, &part, i) {
            return true;
        }
        i = i + 1;
    }
    occurs_here(&text, &part, i)
}

/// What follows `prefix` in `s`, where `s` begins with it.
pub open spec fn without_prefix(s: Seq<char>, prefix: Seq<char>) -> Option<Seq<char>> {
    if prefix.is_prefix_of(s) {
        Some(s.skip(prefix.len() as int))
    } else {
        None
    }
}

/// What precedes `suffix` in `s`, where `s` ends with it.
pub open spec fn without_suffix(s: Seq<char>, suffix: Seq<char>) -> Option<Seq<char>> {
    if suffix.is_suffix_of(s) {
        Some(s.take(s.len() - suffix.len()))
    } else {
        None
    }
}

/// What follows `prefix` in `s`, if `s` begins with it.
pub fn strip_prefix<'a>(s: &'a str, prefix: &str) -> (r: Option<&'a str>)
    ensures
        r.deep_view() == without_prefix(s@, prefix@),
{
    if starts_with(s, prefix) {
        let n: usize = s.unicode_len();
        Some(s.substring_char(prefix.unicode_len(), n))
    } else {
        None
    }
}

/// What precedes `suffix` in `s`, if `s` ends with it.
pub fn strip_suffix<'a>(s: &'a str, suffix: &str) -> (r: Option<&'a str>)
    ensures
        r.deep_view() == without_suffix(s@, suffix@),
{
    if ends_with(s, suffix) {
        let n: usize = s.unicode_len();
        Some(s.substring_char(0, n - suffix.unicode_len()))
    } else {
        None
    }
}

/// Sets of characters that text is scanned over.
#[derive(Clone, Copy, PartialEq, Eq, Structural)]
pub enum CharClass {
    /// White space.
    White,
    /// Letters, digits, `_` and `-`: what the name of a section is made of.
    Key,
    /// Anything but `"` and white space: what the name of a package is made of.
    Name,
    /// Anything but `"`.
    Unquoted,
    /// The slash alone.
    Slash,
    /// Anything but a slash.
    Segment,
}

/// An ASCII letter.
pub open spec fn letter(c: char) -> bool {
    'a' <= c <= 'z' || 'A' <= c <= 'Z'
}

/// An ASCII digit.
pub open spec fn digit(c: char) -> bool {
    '0' <= c <= '9'
}

/// `c` belongs to `class`.
pub open spec fn in_class(class: CharClass, c: char) -> bool {
    match class {
        CharClass::White => white_space(c),
        CharClass::Key => letter(c) || digit(c) || c == '_' || c == '-',
        CharClass::Name => c != '"' && !white_space(c),
        CharClass::Unquoted => c != '"',
        CharClass::Slash => c == '/',
        CharClass::Segment => c != '/',
    }
}

/// Whether `c` is an ASCII letter.
pub fn is_letter(c: char) -> (r: bool)
    ensures
        r == letter(c),
{
    ('a' <= c && c <= 'z') || ('A' <= c && c <= 'Z')
}

/// Whether `c` belongs to `class`.
pub fn is_in_class(class: CharClass, c: char) -> (r: bool)
    ensures
        r == in_class(class, c),
{
    match class {
        CharClass::White => is_white_space(c),
        CharClass::Key => is_letter(c) || ('0' <= c && c <= '9') || c == '_' || c == '-',
        CharClass::Name => c != '"' && !is_white_space(c),
        CharClass::Unquoted => c != '"',
        CharClass::Slash => c == '/',
        CharClass::Segment => c != '/',
    }
}

/// The end of the run of characters of `class` that begins at `i`, looking no
/// further than `hi`.
pub open spec fn run_end(s: Seq<char>, i: int, hi: int, class: CharClass) -> int
    decreases hi - i,
{
    if 0 <= i < hi && in_class(class, s[i]) {
        run_end(s, i + 1, hi, class)
    } else {
        i
    }
}

/// The beginning of the run of characters of `class` that ends before `hi`.
pub open spec fn run_start(s: Seq<char>, hi: int, class: CharClass) -> int
    decreases hi,
{
    if 0 < hi <= s.len() && in_class(class, s[hi - 1]) {
        run_start(s, hi - 1, class)
    } else {
        hi
    }
}

/// A run consists of characters of its class, and what follows it is none.
pub proof fn lemma_run_end(s: Seq<char>, i: int, hi: int, class: CharClass)
    requires
        0 <= i <= hi <= s.len(),
    ensures
        i <= run_end(s, i, hi, class) <= hi,
        forall|j: int| i <= j < run_end(s, i, hi, class) ==> in_class(class, #[trigger] s[j]),
        run_end(s, i, hi, class) < hi ==> !in_class(class, s[run_end(s, i, hi, class)]),
    decreases hi - i,
{
    if i < hi && in_class(class, s[i]) {
        lemma_run_end(s, i + 1, hi, class);
    }
}

/// A run consists of characters of its class, and what precedes it is none.
pub proof fn lemma_run_start(s: Seq<char>, hi: int, class: CharClass)
    requires
        0 <= hi <= s.len(),
    ensures
        0 <= run_start(s, hi, class) <= hi,
        forall|j: int| run_start(s, hi, class) <= j < hi ==> in_class(class, #[trigger] s[j]),
        run_start(s, hi, class) > 0 ==> !in_class(class, s[run_start(s, hi, class) - 1]),
    decreases hi,
{
    if hi > 0 && in_class(class, s[hi - 1]) {
        lemma_run_start(s, hi - 1, class);
    }
}

/// Scans over the run of characters of `class` that begins at `from`.
pub fn skip_run(s: &Vec<char>, from: usize, hi: usize, class: CharClass) -> (r: usize)
    requires
        from <= hi <= s@.len(),
    ensures
        r == run_end(s@, from as int, hi as int, class),
        from <= r <= hi,
{
    let mut i: usize = from;
    while i < hi && is_in_class(class, s[i])
        invariant
            from <= i <= hi <= s@.len(),
            run_end(s@, i as int, hi as int, class) == run_end(s@, from as int, hi as int, class),
        decreases hi - i,
    {
        i = i + 1;
    }
    i
}

/// `s` without the white space that it begins with.
pub open spec fn trimmed_start(s: Seq<char>) -> Seq<char> {
    s.skip(run_end(s, 0, s.len() as int, CharClass::White))
}

/// `s` without the characters of `class` that it ends with.
pub open spec fn trimmed_end(s: Seq<char>, class: CharClass) -> Seq<char> {
    s.take(run_start(s, s.len() as int, class))
}

/// `s` without the white space around it.
pub open spec fn trimmed(s: Seq<char>) -> Seq<char> {
    trimmed_end(trimmed_start(s), CharClass::White)
}

/// `s` without the white space that it begins with.
pub fn trim_start(s: &str) -> (r: &str)
    ensures
        r@ == trimmed_start(s@),
{
    let text = chars_of(s);
    let from: usize = skip_run(&text, 0, text.len(), CharClass::White);
    s.substring_char(from, text.len())
}

/// `s` without the characters of `class` that it ends with.
pub fn trim_end(s: &str, class: CharClass) -> (r: &str)
    ensures
        r@ == trimmed_end(s@, class),
{
    let text = chars_of(s);
    let mut hi: usize = text.len();
    while hi > 0 && is_in_class(class, text[hi - 1])
        invariant
            hi <= text@.len(),
            text@ == s@,
            run_start(s@, hi as int, class) == run_start(s@, s@.len() as int, class),
        decreases hi,
    {
        hi = hi - 1;
    }
    s.substring_char(0, hi)
}

/// `s` without the white space around it.
pub fn trim(s: &str) -> (r: &str)
    ensures
        r@ == trimmed(s@),
{
    trim_end(trim_start(s), CharClass::White)
}

/// The decimal digit `d`.
pub open spec fn digit_char(d: nat) -> char {
    ('0' as u8 + d) as char
}

/// `n` in decimal notation.
pub open spec fn decimal(n: nat) -> Seq<char>
    decreases n,
{
    if n < 10 {
        seq![digit_char(n)]
    } else {
        decimal(n / 10).push(digit_char(n % 10))
    }
}

/// Decimal notation has at least one character, and digits alone.
pub proof fn lemma_decimal(n: nat)
    ensures
        decimal(n).len() > 0,
        forall|i: int| 0 <= i < decimal(n).len() ==> digit(#[trigger] decimal(n)[i]),
    decreases n,
{
    if n >= 10 {
        lemma_decimal(n / 10);
    }
}

/// Appends the decimal digit `d` to `out`.
fn push_digit(out: &mut String, d: u64)
    requires
        d < 10,
    ensures
        final(out)@ == old(out)@.push(digit_char(d as nat)),
{
    proof {
        reveal_strlit("0");
        reveal_strlit("1");
        reveal_strlit("2");
        reveal_strlit("3");
        reveal_strlit("4");
        reveal_strlit("5");
        reveal_strlit("6");
        reveal_strlit("7");
        reveal_strlit("8");
        reveal_strlit("9");
    }
    let text: &str = if d == 0 {
        "0"
    } else if d == 1 {
        "1"
    } else if d == 2 {
        "2"
    } else if d == 3 {
        "3"
    } else if d == 4 {
        "4"
    } else if d == 5 {
        "5"
    } else if d == 6 {
        "6"
    } else if d == 7 {
        "7"
    } else if d == 8 {
        "8"
    } else {
        "9"
    };
    let ghost before = out@;
    out.append(text);
    assert(out@ =~= before.push(digit_char(d as nat)));
}

/// `n` in decimal notation.
pub fn decimal_string(n: u64) -> (r: String)
    ensures
        r@ == decimal(n as nat),
    decreases n,
{
    if n < 10 {
        let mut out = String::new();
        push_digit(&mut out, n);
        assert(out@ =~= decimal(n as nat));
        out
    } else {
        let mut out = decimal_string(n / 10);
        push_digit(&mut out, n % 10);
        out
    }
}

/// `text` with zeros before it, up to `width` characters.
pub open spec fn zero_padded(text: Seq<char>, width: nat) -> Seq<char>
    decreases width - text.len(),
{
    if text.len() < width {
        zero_padded(seq!['0'] + text, width)
    } else {
        text
    }
}

/// `n` in decimal notation, with zeros before it up to four characters.
pub fn padded_string(n: u64) -> (r: String)
    ensures
        r@ == zero_padded(decimal(n as nat), 4),
{
    proof {
        reveal_strlit("0");
    }
    let mut out = decimal_string(n);
    while out.as_str().unicode_len() < 4
        invariant
            zero_padded(out@, 4) == zero_padded(decimal(n as nat), 4),
            "0"@ =~= seq!['0'],
        decreases 4 - out@.len(),
    {
        out = "0".to_owned().concat(out.as_str());
    }
    out
}

/// Of two numbers below a hundred, padded to four characters, the smaller one
/// comes first in the order of their characters.
pub proof fn lemma_padded_order(m: nat, n: nat)
    requires
        m < n < 100,
    ensures
        zero_padded(decimal(m), 4).len() == 4,
        zero_padded(decimal(n), 4).len() == 4,
        ({
            let a = zero_padded(decimal(m), 4);
            let b = zero_padded(decimal(n), 4);
            a[0] == b[0] && a[1] == b[1] && (a[2] < b[2] || (a[2] == b[2] && a[3] < b[3]))
        }),
{
    lemma_padded(m);
    lemma_padded(n);
}

proof fn lemma_padded(n: nat)
    requires
        n < 100,
    ensures
        zero_padded(decimal(n), 4) == seq!['0', '0', digit_char(n / 10), digit_char(n % 10)],
{
    reveal_with_fuel(zero_padded, 5);
    reveal_with_fuel(decimal, 3);
    if n < 10 {
        assert(zero_padded(decimal(n), 4) =~= seq![
            '0',
            '0',
            digit_char(n / 10),
            digit_char(n % 10),
        ]);
    } else {
        assert(n / 10 < 10);
        assert(decimal(n) =~= seq![digit_char(n / 10), digit_char(n % 10)]);
        assert(zero_padded(decimal(n), 4) =~= seq![
            '0',
            '0',
            digit_char(n / 10),
            digit_char(n % 10),
        ]);
    }
}

/// Putting texts together does not depend on the order in which it is done.
pub proof fn lemma_regroup(a: Seq<char>, b: Seq<char>, c: Seq<char>)
    ensures
        a + b + c == a + (b + c),
{
    assert(a + b + c =~= a + (b + c));
}

/// A text between two others; nothing where there is no text.
pub open spec fn wrapped(before: Seq<char>, text: Option<Seq<char>>, after: Seq<char>) -> Seq<
    char,
> {
    match text {
        Some(t) => before + t + after,
        None => seq![],
    }
}

/// Appends a text between two others, if there is one.
pub fn append_wrapped(out: &mut String, before: &str, text: &Option<String>, after: &str)
    ensures
        final(out)@ == old(out)@ + wrapped(before@, text.deep_view(), after@),
{
    if let Some(t) = text {
        let ghost start = out@;
        out.append(before);
        out.append(t.as_str());
        out.append(after);
        assert(out@ =~= start + (before@ + t@ + after@));
    } else {
        assert(out@ =~= out@ + seq![]);
    }
}

/// The upper-case form of an ASCII letter; any other character as it is.
pub open spec fn upper(c: char) -> char {
    if 'a' <= c <= 'z' {
        (c as u8 - 32) as char
    } else {
        c
    }
}

/// `s` with its ASCII letters in upper case.
pub open spec fn uppercased(s: Seq<char>) -> Seq<char> {
    s.map_values(|c: char| upper(c))
}

/// Whether `s` in upper case is `word`.
pub fn upper_eq(s: &str, word: &str) -> (r: bool)
    ensures
        r == (uppercased(s@) == word@),
{
    let text = chars_of(s);
    let goal = chars_of(word);
    if text.len() != goal.len() {
        return false;
    }
    let mut i: usize = 0;
    while i < text.len()
        invariant
            i <= text@.len(),
            text@.len() == goal@.len(),
            text@ == s@,
            goal@ == word@,
            forall|j: int| 0 <= j < i ==> upper(s@[j]) == word@[j],
        decreases text.len() - i,
    {
        let c: char = text[i];
        let u: char = if 'a' <= c && c <= 'z' {
            (c as u8 - 32) as char
        } else {
            c
        };
        if u != goal[i] {
            assert(uppercased(s@)[i as int] != word@[i as int]);
            return false;
        }
        i = i + 1;
    }
    assert(uppercased(s@) =~= word@);
    true
}

/// The pieces of `s` between slashes. There is always at least one.
pub open spec fn split_slash(s: Seq<char>) -> Seq<Seq<char>>
    decreases s.len(),
{
    let n = run_end(s, 0, s.len() as int, CharClass::Segment);
    if 0 <= n < s.len() {
        seq![s.take(n)] + split_slash(s.skip(n + 1))
    } else {
        seq![s]
    }
}

/// The pieces of `s` between slashes.
pub fn split_at_slashes(s: &str) -> (r: Vec<String>)
    ensures
        r.deep_view() == split_slash(s@),
{
    let mut out: Vec<String> = Vec::new();
    let text = chars_of(s);
    let hi: usize = text.len();
    let mut from: usize = 0;
    assert(s@.skip(0) =~= s@);
    assert(out.deep_view() + split_slash(s@) =~= split_slash(s@));
    loop
        invariant
            text@ == s@,
            hi == text@.len(),
            from <= hi,
            split_slash(s@) == out.deep_view() + split_slash(s@.skip(from as int)),
        decreases hi - from,
    {
        let end: usize = skip_run(&text, from, hi, CharClass::Segment);
        let ghost before = out.deep_view();
        let ghost rest = s@.skip(from as int);
        proof {
            lemma_run_end_shift(s@, from as int, CharClass::Segment);
        }
        out.push(s.substring_char(from, end).to_owned());
        assert(s@.subrange(from as int, end as int) =~= rest.take(end - from));
        assert(out.deep_view() =~= before.push(rest.take(end - from)));
        if end >= hi {
            assert(rest.take(end - from) =~= rest);
            assert(out.deep_view() =~= before + split_slash(rest));
            return out;
        }
        assert(s@.skip(end + 1) =~= rest.skip(end - from + 1));
        assert(out.deep_view() + split_slash(s@.skip(end + 1)) =~= before + split_slash(rest));
        from = end + 1;
    }
}

proof fn lemma_run_end_shift_from(s: Seq<char>, from: int, i: int, class: CharClass)
    requires
        0 <= from <= i <= s.len(),
    ensures
        run_end(s, i, s.len() as int, class) - from == run_end(
            s.skip(from),
            i - from,
            s.len() - from,
            class,
        ),
    decreases s.len() - i,
{
    if i < s.len() && in_class(class, s[i]) {
        lemma_run_end_shift_from(s, from, i + 1, class);
    }
}

proof fn lemma_run_end_shift(s: Seq<char>, from: int, class: CharClass)
    requires
        0 <= from <= s.len(),
    ensures
        run_end(s, from, s.len() as int, class) - from == run_end(
            s.skip(from),
            0,
            s.skip(from).len() as int,
            class,
        ),
{
    lemma_run_end_shift_from(s, from, from, class);
}

// ---- Laws ----

/// Of the ASCII characters, the space and those from the tab to the carriage
/// return are white space.
pub proof fn law_ascii_white_space(c: char)
    requires
        (c as u32) < 0x80,
    ensures
        white_space(c) <==> c as u32 == 0x20 || 9 <= c as u32 <= 13,
{
}

/// A key is made of ASCII letters, digits, the underscore and the hyphen, and
/// begins with a letter. A name is made of what is neither white space nor a
/// quote. What is not quoted is any character but the quote, and a segment any
/// but the slash.
pub proof fn law_classes(c: char)
    ensures
        letter(c) <==> 65 <= c as u32 <= 90 || 97 <= c as u32 <= 122,
        in_class(CharClass::Key, c) <==> letter(c) || 48 <= c as u32 <= 57 || c as u32 == 95
            || c as u32 == 45,
        in_class(CharClass::White, c) <==> white_space(c),
        in_class(CharClass::Name, c) <==> !in_class(CharClass::White, c) && in_class(
            CharClass::Unquoted,
            c,
        ),
        in_class(CharClass::Unquoted, c) <==> c as u32 != 34,
        in_class(CharClass::Slash, c) <==> !in_class(CharClass::Segment, c),
        in_class(CharClass::Slash, c) <==> c as u32 == 47,
{
}

/// What follows a prefix or precedes a suffix is what makes up the text together
/// with it, and there is such a rest exactly where the text can be made up so.
pub proof fn law_rests_make_up_the_text(s: Seq<char>, part: Seq<char>, rest: Seq<char>)
    ensures
        without_prefix(s, part) == Some(rest) <==> s == part + rest,
        without_suffix(s, part) == Some(rest) <==> s == rest + part,
{
    if without_prefix(s, part) == Some(rest) {
        assert(s =~= part + rest);
    }
    if s == part + rest {
        assert(s.subrange(0, part.len() as int) =~= part);
        assert(s.skip(part.len() as int) =~= rest);
    }
    if without_suffix(s, part) == Some(rest) {
        assert(s =~= rest + part);
    }
    if s == rest + part {
        assert(s.subrange(s.len() - part.len(), s.len() as int) =~= part);
        assert(s.take(s.len() - part.len()) =~= rest);
    }
}

/// A trimmed text is the text without white space at its ends: what was taken
/// off is white space, and no more of it is left there. The same holds of the
/// characters of any class at the end.
pub proof fn law_trimming(s: Seq<char>, class: CharClass)
    ensures
        exists|a: Seq<char>, b: Seq<char>|
            s == #[trigger] (a + trimmed(s) + b) && (forall|i: int|
                0 <= i < a.len() ==> white_space(#[trigger] a[i])) && (forall|i: int|
                0 <= i < b.len() ==> white_space(#[trigger] b[i])),
        trimmed(s).len() > 0 ==> !white_space(trimmed(s)[0]) && !white_space(trimmed(s).last()),
        exists|a: Seq<char>|
            s == #[trigger] (a + trimmed_start(s)) && (forall|i: int|
                0 <= i < a.len() ==> white_space(#[trigger] a[i])),
        trimmed_start(s).len() > 0 ==> !white_space(trimmed_start(s)[0]),
        exists|b: Seq<char>|
            s == #[trigger] (trimmed_end(s, class) + b) && (forall|i: int|
                0 <= i < b.len() ==> in_class(class, #[trigger] b[i])),
        trimmed_end(s, class).len() > 0 ==> !in_class(class, trimmed_end(s, class).last()),
{
    let n = s.len() as int;
    lemma_run_end(s, 0, n, CharClass::White);
    let i = run_end(s, 0, n, CharClass::White);
    let t = trimmed_start(s);
    let a = s.take(i);
    lemma_run_start(t, t.len() as int, CharClass::White);
    let j = run_start(t, t.len() as int, CharClass::White);
    let b = t.skip(j);
    assert(s =~= a + t);
    assert(s =~= a + trimmed(s) + b);
    assert forall|k: int| 0 <= k < a.len() implies white_space(#[trigger] a[k]) by {
        assert(in_class(CharClass::White, s[k]));
    }
    assert forall|k: int| 0 <= k < b.len() implies white_space(#[trigger] b[k]) by {
        assert(in_class(CharClass::White, t[j + k]));
    }
    if t.len() > 0 {
        assert(t[0] == s[i]);
    }
    if trimmed(s).len() > 0 {
        assert(trimmed(s)[0] == t[0]);
        assert(trimmed(s).last() == t[j - 1]);
    }
    lemma_run_start(s, n, class);
    let e = run_start(s, n, class);
    let c = s.skip(e);
    assert(s =~= trimmed_end(s, class) + c);
    assert forall|k: int| 0 <= k < c.len() implies in_class(class, #[trigger] c[k]) by {
        assert(in_class(class, s[e + k]));
    }
    if trimmed_end(s, class).len() > 0 {
        assert(trimmed_end(s, class).last() == s[e - 1]);
    }
}

/// The number that decimal digits stand for.
pub open spec fn value_of(digits: Seq<char>) -> int
    decreases digits.len(),
{
    if digits.len() == 0 {
        0
    } else {
        10 * value_of(digits.drop_last()) + (digits.last() as u32 - '0' as u32)
    }
}

/// Decimal notation stands for its number, and does not begin with a zero unless
/// it is the zero.
pub proof fn law_decimal_stands_for_its_number(n: nat)
    ensures
        value_of(decimal(n)) == n,
        forall|i: int| 0 <= i < decimal(n).len() ==> '0' <= #[trigger] decimal(n)[i] <= '9',
        decimal(n)[0] == '0' ==> n == 0,
        n < 10 ==> decimal(n).len() == 1,
    decreases n,
{
    lemma_decimal(n);
    assert forall|i: int| 0 <= i < decimal(n).len() implies '0' <= #[trigger] decimal(n)[i]
        <= '9' by {
        assert(digit(decimal(n)[i]));
    }
    if n >= 10 {
        law_decimal_stands_for_its_number(n / 10);
        lemma_decimal(n / 10);
        assert(decimal(n).drop_last() =~= decimal(n / 10));
        assert(decimal(n)[0] == decimal(n / 10)[0]);
        assert(decimal(n).last() == digit_char(n % 10));
        assert(digit_char(n % 10) as u32 - '0' as u32 == n % 10);
        assert(value_of(decimal(n)) == 10 * (n / 10) + n % 10);
    } else {
        assert(decimal(n).drop_last() =~= seq![]);
        assert(decimal(n).last() == digit_char(n));
        assert(digit_char(n) as u32 - '0' as u32 == n);
        assert(value_of(decimal(n).drop_last()) == 0);
    }
}

proof fn lemma_leading_zero(text: Seq<char>)
    ensures
        value_of(seq!['0'] + text) == value_of(text),
    decreases text.len(),
{
    let more = seq!['0'] + text;
    if text.len() == 0 {
        assert(more.drop_last() =~= seq![]);
        reveal_with_fuel(value_of, 2);
    } else {
        assert(more.drop_last() =~= seq!['0'] + text.drop_last());
        lemma_leading_zero(text.drop_last());
    }
}

/// Zeros before a number do not change it, and no more of them are put there
/// than are needed.
pub proof fn law_padding_keeps_the_number(text: Seq<char>, width: nat)
    ensures
        value_of(zero_padded(text, width)) == value_of(text),
        zero_padded(text, width).len() == (if text.len() < width {
            width
        } else {
            text.len()
        }),
        text.is_suffix_of(zero_padded(text, width)),
    decreases width - text.len(),
{
    if text.len() < width {
        let more = seq!['0'] + text;
        lemma_leading_zero(text);
        law_padding_keeps_the_number(more, width);
        let all = zero_padded(more, width);
        let tail = all.subrange(all.len() - more.len(), all.len() as int);
        assert(tail =~= more);
        assert(all.subrange(all.len() - text.len(), all.len() as int) =~= tail.skip(1));
        assert(more.skip(1) =~= text);
    } else {
        assert(text.subrange(0, text.len() as int) =~= text);
    }
}

/// The upper-case form differs from a text in the lower-case letters alone, each
/// of which becomes the letter at the same place of the upper-case ones. Upper
/// case is left as it is.
pub proof fn law_upper_case(s: Seq<char>)
    ensures
        uppercased(s).len() == s.len(),
        uppercased(uppercased(s)) == uppercased(s),
        forall|i: int|
            0 <= i < s.len() ==> {
                let c = #[trigger] s[i];
                let u = uppercased(s)[i];
                if 97 <= c as u32 <= 122 {
                    u as u32 - 65 == c as u32 - 97
                } else {
                    u == c
                }
            },
{
    assert(uppercased(uppercased(s)) =~= uppercased(s));
}

/// Some pieces with a slash between each two.
pub open spec fn joined_by_slashes(pieces: Seq<Seq<char>>) -> Seq<char>
    decreases pieces.len(),
{
    if pieces.len() == 0 {
        seq![]
    } else if pieces.len() == 1 {
        pieces[0]
    } else {
        pieces[0] + seq!['/'] + joined_by_slashes(pieces.drop_first())
    }
}

/// The pieces between slashes hold no slash, and put together again with slashes
/// they are the text.
pub proof fn law_pieces_make_up_the_text(s: Seq<char>)
    ensures
        split_slash(s).len() > 0,
        joined_by_slashes(split_slash(s)) == s,
        forall|i: int|
            0 <= i < split_slash(s).len() ==> !(#[trigger] split_slash(s)[i]).contains('/'),
    decreases s.len(),
{
    let n = run_end(s, 0, s.len() as int, CharClass::Segment);
    lemma_run_end(s, 0, s.len() as int, CharClass::Segment);
    let pieces = split_slash(s);
    if n < s.len() {
        let rest = s.skip(n + 1);
        law_pieces_make_up_the_text(rest);
        assert(pieces.drop_first() =~= split_slash(rest));
        assert(s =~= s.take(n) + seq!['/'] + rest);
        assert forall|i: int| 0 <= i < pieces.len() implies !(
        #[trigger] pieces[i]).contains('/') by {
            if i == 0 {
                assert forall|k: int| 0 <= k < n implies s.take(n)[k] != '/' by {
                    assert(in_class(CharClass::Segment, s[k]));
                }
            } else {
                assert(pieces[i] == split_slash(rest)[i - 1]);
            }
        }
    } else {
        assert forall|k: int| 0 <= k < s.len() implies s[k] != '/' by {
            assert(in_class(CharClass::Segment, s[k]));
        }
    }
}

/// A wrapped text is the text between the two others; where there is none,
/// nothing is written, not even those.
pub proof fn law_wrapped(before: Seq<char>, text: Option<Seq<char>>, after: Seq<char>)
    ensures
        text matches Some(t) ==> wrapped(before, text, after) == before + t + after,
        text is None ==> wrapped(before, text, after).len() == 0,
{
}

proof fn lemma_run_end_reaches(s: Seq<char>, i: int, end: int, class: CharClass)
    requires
        0 <= i <= end <= s.len(),
        forall|j: int| i <= j < end ==> in_class(class, #[trigger] s[j]),
        end < s.len() ==> !in_class(class, s[end]),
    ensures
        run_end(s, i, s.len() as int, class) == end,
    decreases end - i,
{
    if i < end {
        lemma_run_end_reaches(s, i + 1, end, class);
    }
}

proof fn lemma_run_start_reaches(s: Seq<char>, start: int, hi: int, class: CharClass)
    requires
        0 <= start <= hi <= s.len(),
        forall|j: int| start <= j < hi ==> in_class(class, #[trigger] s[j]),
        start > 0 ==> !in_class(class, s[start - 1]),
    ensures
        run_start(s, hi, class) == start,
    decreases hi - start,
{
    if start < hi {
        lemma_run_start_reaches(s, start, hi - 1, class);
    }
}

/// Taking off the characters of a class that were put behind a text gives the
/// text back, unless it ends with one of them itself.
pub proof fn law_trimmed_end_of_padded(t: Seq<char>, b: Seq<char>, class: CharClass)
    requires
        t.len() > 0 ==> !in_class(class, t.last()),
        forall|i: int| 0 <= i < b.len() ==> in_class(class, #[trigger] b[i]),
    ensures
        trimmed_end(t + b, class) == t,
{
    let s = t + b;
    let n = t.len() as int;
    assert forall|j: int| n <= j < s.len() implies in_class(class, #[trigger] s[j]) by {
        assert(s[j] == b[j - n]);
    }
    if n > 0 {
        assert(s[n - 1] == t.last());
    }
    lemma_run_start_reaches(s, n, s.len() as int, class);
    assert(s.take(n) =~= t);
}

/// Trimming takes off the white space that was put around a text, and gives the
/// text back, unless it begins or ends with white space itself.
pub proof fn law_trimmed_of_padded(a: Seq<char>, t: Seq<char>, b: Seq<char>)
    requires
        t.len() > 0 ==> !white_space(t[0]) && !white_space(t.last()),
        forall|i: int| 0 <= i < a.len() ==> white_space(#[trigger] a[i]),
        forall|i: int| 0 <= i < b.len() ==> white_space(#[trigger] b[i]),
    ensures
        trimmed(a + t + b) == t,
{
    let s = a + t + b;
    let n = a.len() as int;
    let class = CharClass::White;
    if t.len() > 0 {
        assert forall|j: int| 0 <= j < n implies in_class(class, #[trigger] s[j]) by {
            assert(s[j] == a[j]);
        }
        assert(s[n] == t[0]);
        lemma_run_end_reaches(s, 0, n, class);
        assert(trimmed_start(s) =~= t + b);
        law_trimmed_end_of_padded(t, b, class);
    } else {
        assert forall|j: int| 0 <= j < s.len() implies in_class(class, #[trigger] s[j]) by {
            if j < n {
                assert(s[j] == a[j]);
            } else {
                assert(s[j] == b[j - n]);
            }
        }
        lemma_run_end_reaches(s, 0, s.len() as int, class);
        assert(trimmed_start(s) =~= seq![]);
        assert(trimmed(s) =~= seq![]);
        assert(t =~= seq![]);
    }
}

} // verus!
