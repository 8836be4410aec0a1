//! Character-level text helpers shared by the other modules.
//!
//! Text is handled as sequences of `char`: a `&str` comes in through
//! [`chars_of`], the logic works on `Vec<char>`, and [`string_of`] builds the
//! `String` that goes back out.

use vstd::prelude::*;

verus! {

/// Appends one character to a `String` (std's `String::push`): the new
/// contents are the old ones followed by `c`.
#[verifier::external_body]
pub(crate) fn push_char(s: &mut String, c: char)
    ensures
        final(s)@ == old(s)@.push(c),
{
    s.push(c);
}

/// The characters of `s`, in order.
pub fn chars_of(s: &str) -> (v: Vec<char>)
    ensures
        v@ == s@,
{
    let mut v: Vec<char> = Vec::new();
    for c in it: s.chars()
        invariant
            v@ == it.seq().take(it.index() as int),
    {
        v.push(c);
    }
    v
}

/// A `String` holding exactly the characters of `v`.
pub fn string_of(v: &[char]) -> (s: String)
    ensures
        s@ == v@,
{
    let mut s = String::new();
    let mut i: usize = 0;
    while i < v.len()
        invariant
            i <= v.len(),
            s@ == v@.take(i as int),
        decreases v.len() - i,
    {
        push_char(&mut s, v[i]);
        assert(v@.take(i + 1) == v@.take(i as int).push(v@[i as int]));
        i = i + 1;
    }
    assert(v@.take(v.len() as int) == v@);
    s
}

/// Appends the characters of `tail` to `v`.
pub fn extend_chars(v: &mut Vec<char>, tail: &[char])
    ensures
        final(v)@ == old(v)@ + tail@,
{
    let mut i: usize = 0;
    while i < tail.len()
        invariant
            i <= tail.len(),
            v@ == old(v)@ + tail@.take(i as int),
        decreases tail.len() - i,
    {
        v.push(tail[i]);
        assert(tail@.take(i + 1) == tail@.take(i as int).push(tail@[i as int]));
        i = i + 1;
    }
    assert(tail@.take(tail.len() as int) == tail@);
}

/// Whether two strings hold the same characters.
pub fn eq_str(a: &str, b: &str) -> (r: bool)
    ensures
        r == (a@ == b@),
{
    let x = chars_of(a);
    let y = chars_of(b);
    same_chars(x.as_slice(), y.as_slice())
}

/// The code of `c` with ASCII upper-case letters mapped to lower case.
pub open spec fn ascii_lower_code(c: char) -> u32 {
    if 'A' <= c && c <= 'Z' {
        (c as u32 + 32) as u32
    } else {
        c as u32
    }
}

/// Whether `a` and `b` are equal up to ASCII case (`eq_ignore_ascii_case`).
pub open spec fn eq_ignore_ascii_case_spec(a: Seq<char>, b: Seq<char>) -> bool {
    a.len() == b.len() && forall|i: int|
        0 <= i < a.len() ==> ascii_lower_code(#[trigger] a[i]) == ascii_lower_code(b[i])
}

/// The code of `c` with ASCII upper-case letters mapped to lower case.
pub fn lower_code(c: char) -> (r: u32)
    ensures
        r == ascii_lower_code(c),
{
    if 'A' <= c && c <= 'Z' {
        c as u32 + 32
    } else {
        c as u32
    }
}

/// Whether `a[from..from + b.len()]` equals `b` up to ASCII case.
pub fn eq_ignore_ascii_case_at(a: &[char], from: usize, b: &[char]) -> (r: bool)
    requires
        from + b.len() <= a.len(),
    ensures
        r == eq_ignore_ascii_case_spec(a@.subrange(from as int, from + b.len()), b@),
{
    let mut i: usize = 0;
    while i < b.len()
        invariant
            i <= b.len(),
            from + b.len() <= a.len(),
            forall|j: int| 0 <= j < i ==> ascii_lower_code(a@[from + j]) == ascii_lower_code(b@[j]),
        decreases b.len() - i,
    {
        if lower_code(a[from + i]) != lower_code(b[i]) {
            assert(a@.subrange(from as int, from + b.len())[i as int] == a@[from + i]);
            return false;
        }
        i = i + 1;
    }
    assert forall|j: int| 0 <= j < b@.len() implies ascii_lower_code(
        #[trigger] a@.subrange(from as int, from + b.len())[j],
    ) == ascii_lower_code(b@[j]) by {
        assert(a@.subrange(from as int, from + b.len())[j] == a@[from + j]);
    }
    true
}

/// The characters `s[from..to]`.
pub fn slice_chars(s: &[char], from: usize, to: usize) -> (v: Vec<char>)
    requires
        from <= to <= s.len(),
    ensures
        v@ == s@.subrange(from as int, to as int),
{
    let mut v: Vec<char> = Vec::new();
    let mut i: usize = from;
    while i < to
        invariant
            from <= i <= to <= s.len(),
            v@ == s@.subrange(from as int, i as int),
        decreases to - i,
    {
        v.push(s[i]);
        assert(s@.subrange(from as int, i + 1) == s@.subrange(from as int, i as int).push(
            s@[i as int],
        ));
        i = i + 1;
    }
    v
}

/// Whether two character sequences are equal.
pub fn same_chars(a: &[char], b: &[char]) -> (r: bool)
    ensures
        r == (a@ == b@),
{
    if a.len() != b.len() {
        return false;
    }
    let mut i: usize = 0;
    while i < a.len()
        invariant
            a.len() == b.len(),
            i <= a.len(),
            forall|j: int| 0 <= j < i ==> a@[j] == b@[j],
        decreases a.len() - i,
    {
        if a[i] != b[i] {
            return false;
        }
        i = i + 1;
    }
    assert(a@ =~= b@);
    true
}

/// Whether `pat` occurs in `s` starting at position `i`.
pub open spec fn matches_at(s: Seq<char>, pat: Seq<char>, i: int) -> bool {
    0 <= i && i + pat.len() <= s.len() && s.subrange(i, i + pat.len()) == pat
}

/// Whether `s` starts with `pat`.
pub open spec fn has_prefix(s: Seq<char>, pat: Seq<char>) -> bool {
    matches_at(s, pat, 0)
}

/// Whether `s` ends with `pat`.
pub open spec fn has_suffix(s: Seq<char>, pat: Seq<char>) -> bool {
    matches_at(s, pat, s.len() - pat.len())
}

/// Whether `pat` occurs in `s` starting at position `i`.
pub fn match_at(s: &[char], pat: &[char], i: usize) -> (r: bool)
    ensures
        r == matches_at(s@, pat@, i as int),
{
    if i > s.len() || pat.len() > s.len() - i {
        return false;
    }
    let mut k: usize = 0;
    while k < pat.len()
        invariant
            i + pat.len() <= s.len(),
            k <= pat.len(),
            forall|j: int| 0 <= j < k ==> s@[i + j] == pat@[j],
        decreases pat.len() - k,
    {
        if s[i + k] != pat[k] {
            assert(s@.subrange(i as int, i + pat.len())[k as int] != pat@[k as int]);
            return false;
        }
        k = k + 1;
    }
    assert(s@.subrange(i as int, i + pat.len()) =~= pat@);
    true
}

/// Whether `s` starts with `pat`.
pub fn starts_with(s: &[char], pat: &[char]) -> (r: bool)
    ensures
        r == has_prefix(s@, pat@),
{
    match_at(s, pat, 0)
}

/// Whether `s` ends with `pat`.
pub fn ends_with(s: &[char], pat: &[char]) -> (r: bool)
    ensures
        r == has_suffix(s@, pat@),
{
    if pat.len() > s.len() {
        return false;
    }
    match_at(s, pat, s.len() - pat.len())
}

/// The first position at or after `from` where `pat` occurs in `s`.
pub open spec fn first_match_from(s: Seq<char>, pat: Seq<char>, from: int) -> Option<int>
    decreases s.len() + 1 - from,
{
    if from < 0 || from > s.len() {
        None
    } else if matches_at(s, pat, from) {
        Some(from)
    } else {
        first_match_from(s, pat, from + 1)
    }
}

/// The last position before `end` where `pat` occurs in `s`.
pub open spec fn last_match_before(s: Seq<char>, pat: Seq<char>, end: int) -> Option<int>
    decreases end,
{
    if end <= 0 {
        None
    } else if matches_at(s, pat, end - 1) {
        Some(end - 1)
    } else {
        last_match_before(s, pat, end - 1)
    }
}

/// The last position where `pat` occurs in `s` (`str::rfind`).
pub open spec fn last_match(s: Seq<char>, pat: Seq<char>) -> Option<int> {
    last_match_before(s, pat, s.len() + 1int)
}

proof fn lemma_last_match_before_bound(s: Seq<char>, pat: Seq<char>, end: int)
    ensures
        last_match_before(s, pat, end) matches Some(i) ==> 0 <= i < end && matches_at(s, pat, i),
    decreases end,
{
    if end > 0 && !matches_at(s, pat, end - 1) {
        lemma_last_match_before_bound(s, pat, end - 1);
    }
}

/// A match found by [`last_match`] lies inside `s`.
pub proof fn lemma_last_match_bound(s: Seq<char>, pat: Seq<char>)
    ensures
        last_match(s, pat) matches Some(i) ==> 0 <= i && i + pat.len() <= s.len() && matches_at(
            s,
            pat,
            i,
        ),
{
    lemma_last_match_before_bound(s, pat, s.len() + 1int);
}

/// The first position at or after `from` where `pat` occurs in `s`.
pub fn find_from(s: &[char], pat: &[char], from: usize) -> (r: Option<usize>)
    requires
        from <= s.len(),
    ensures
        r == (match first_match_from(s@, pat@, from as int) {
            Some(i) => Some(i as usize),
            None => None,
        }),
{
    let mut i = from;
    while i < s.len()
        invariant
            from <= i <= s.len(),
            first_match_from(s@, pat@, from as int) == first_match_from(s@, pat@, i as int),
        decreases s.len() - i,
    {
        if match_at(s, pat, i) {
            return Some(i);
        }
        i = i + 1;
    }
    assert(first_match_from(s@, pat@, s@.len() + 1int) is None);
    if match_at(s, pat, s.len()) {
        Some(s.len())
    } else {
        None
    }
}

/// The last position where `pat` occurs in `s`.
pub fn rfind(s: &[char], pat: &[char]) -> (r: Option<usize>)
    ensures
        r == (match last_match(s@, pat@) {
            Some(i) => Some(i as usize),
            None => None,
        }),
        r matches Some(i) ==> i + pat@.len() <= s@.len() && last_match(s@, pat@) == Some(
            i as int,
        ),
{
    proof {
        lemma_last_match_bound(s@, pat@);
    }
    if match_at(s, pat, s.len()) {
        return Some(s.len());
    }
    let mut end = s.len();
    while end > 0
        invariant
            end <= s.len() + 1,
            last_match(s@, pat@) == last_match_before(s@, pat@, end as int),
        decreases end,
    {
        if match_at(s, pat, end - 1) {
            return Some(end - 1);
        }
        end = end - 1;
    }
    None
}

/// The character classes that the parsers of this crate look for.
#[derive(Clone, Copy, Debug, PartialEq, Eq)]
pub enum CharClass {
    /// `char::is_whitespace`.
    Whitespace,
    /// ASCII letters and digits.
    AsciiAlphanumeric,
    /// ASCII digits.
    AsciiDigit,
    /// ASCII upper-case letters.
    AsciiUppercase,
    /// What may stand in a worktree name: ASCII letters, digits, `-`, `_`, `.`.
    NameChar,
    /// What ends an argument before a path: whitespace or one of `"'=(` and a backtick.
    PathDelimiter,
    /// What separates the words of a shell command: whitespace or one of `;&|()` and a backtick.
    CommandSeparator,
    /// The space character.
    Space,
    /// The line feed `\n`.
    Newline,
    /// The NUL character.
    Nul,
    /// The tab `\t`.
    Tab,
    /// The slash `/`.
    Slash,
    /// The comma `,`.
    Comma,
    /// What may stand in a task code: ASCII letters, digits and `-`.
    TaskCodeChar,
    /// What separates candidate task codes: anything but ASCII letters, digits and `-`.
    TaskCodeSeparator,
    /// The dash `-`.
    Dash,
    /// The equals sign `=`.
    Equals,
    /// The quotes and redirections around a shell word: `"`, `'`, `<`, `>`.
    QuoteChar,
    /// What may stand in a session id: ASCII letters, digits, `-` and `_`.
    IdChar,
    /// The plus sign `+`.
    Plus,
}

/// `char::is_whitespace`: the characters with the Unicode `White_Space` property.
pub open spec fn is_whitespace_spec(c: char) -> bool {
    ||| ('\t' <= c && c <= '\r')
    ||| c == ' '
    ||| c == '\u{85}'
    ||| c == '\u{a0}'
    ||| c == '\u{1680}'
    ||| ('\u{2000}' <= c && c <= '\u{200a}')
    ||| c == '\u{2028}'
    ||| c == '\u{2029}'
    ||| c == '\u{202f}'
    ||| c == '\u{205f}'
    ||| c == '\u{3000}'
}

pub open spec fn is_ascii_digit_spec(c: char) -> bool {
    '0' <= c && c <= '9'
}

pub open spec fn is_ascii_upper_spec(c: char) -> bool {
    'A' <= c && c <= 'Z'
}

pub open spec fn is_ascii_lower_spec(c: char) -> bool {
    'a' <= c && c <= 'z'
}

pub open spec fn is_ascii_alnum_spec(c: char) -> bool {
    is_ascii_digit_spec(c) || is_ascii_upper_spec(c) || is_ascii_lower_spec(c)
}

/// Whether `c` belongs to `class`.
pub open spec fn in_class(class: CharClass, c: char) -> bool {
    match class {
        CharClass::Whitespace => is_whitespace_spec(c),
        CharClass::AsciiAlphanumeric => is_ascii_alnum_spec(c),
        CharClass::AsciiDigit => is_ascii_digit_spec(c),
        CharClass::AsciiUppercase => is_ascii_upper_spec(c),
        CharClass::NameChar => is_ascii_alnum_spec(c) || c == '-' || c == '_' || c == '.',
        CharClass::PathDelimiter => is_whitespace_spec(c) || c == '"' || c == '\'' || c == '='
            || c == '(' || c == '`',
        CharClass::CommandSeparator => is_whitespace_spec(c) || c == ';' || c == '&' || c == '|'
            || c == '(' || c == ')' || c == '`',
        CharClass::Space => c == ' ',
        CharClass::Newline => c == '\n',
        CharClass::Nul => c == '\0',
        CharClass::Tab => c == '\t',
        CharClass::Slash => c == '/',
        CharClass::Comma => c == ',',
        CharClass::TaskCodeChar => is_ascii_alnum_spec(c) || c == '-',
        CharClass::TaskCodeSeparator => !(is_ascii_alnum_spec(c) || c == '-'),
        CharClass::Dash => c == '-',
        CharClass::Equals => c == '=',
        CharClass::QuoteChar => c == '"' || c == '\'' || c == '<' || c == '>',
        CharClass::IdChar => is_ascii_alnum_spec(c) || c == '-' || c == '_',
        CharClass::Plus => c == '+',
    }
}

/// `char::is_whitespace`.
pub fn is_whitespace(c: char) -> (r: bool)
    ensures
        r == is_whitespace_spec(c),
{
    ('\t' <= c && c <= '\r') || c == ' ' || c == '\u{85}' || c == '\u{a0}' || c == '\u{1680}'
        || ('\u{2000}' <= c && c <= '\u{200a}') || c == '\u{2028}' || c == '\u{2029}' || c
        == '\u{202f}' || c == '\u{205f}' || c == '\u{3000}'
}

/// Whether `c` belongs to `class`.
pub fn class_has(class: CharClass, c: char) -> (r: bool)
    ensures
        r == in_class(class, c),
{
    let digit = '0' <= c && c <= '9';
    let upper = 'A' <= c && c <= 'Z';
    let lower = 'a' <= c && c <= 'z';
    match class {
        CharClass::Whitespace => is_whitespace(c),
        CharClass::AsciiAlphanumeric => digit || upper || lower,
        CharClass::AsciiDigit => digit,
        CharClass::AsciiUppercase => upper,
        CharClass::NameChar => digit || upper || lower || c == '-' || c == '_' || c == '.',
        CharClass::PathDelimiter => is_whitespace(c) || c == '"' || c == '\'' || c == '=' || c
            == '(' || c == '`',
        CharClass::CommandSeparator => is_whitespace(c) || c == ';' || c == '&' || c == '|' || c
            == '(' || c == ')' || c == '`',
        CharClass::Space => c == ' ',
        CharClass::Newline => c == '\n',
        CharClass::Nul => c == '\0',
        CharClass::Tab => c == '\t',
        CharClass::Slash => c == '/',
        CharClass::Comma => c == ',',
        CharClass::TaskCodeChar => digit || upper || lower || c == '-',
        CharClass::TaskCodeSeparator => !(digit || upper || lower || c == '-'),
        CharClass::Dash => c == '-',
        CharClass::Equals => c == '=',
        CharClass::QuoteChar => c == '"' || c == '\'' || c == '<' || c == '>',
        CharClass::IdChar => digit || upper || lower || c == '-' || c == '_',
        CharClass::Plus => c == '+',
    }
}

/// The first position at or after `from` whose character is (`want`) or is not
/// (`!want`) in `class`.
pub open spec fn first_in_class_from(s: Seq<char>, class: CharClass, want: bool, from: int) -> Option<
    int,
>
    decreases s.len() - from,
{
    if from < 0 || from >= s.len() {
        None
    } else if in_class(class, s[from]) == want {
        Some(from)
    } else {
        first_in_class_from(s, class, want, from + 1)
    }
}

/// The last position before `end` whose character is (`want`) or is not
/// (`!want`) in `class`.
pub open spec fn last_in_class_before(s: Seq<char>, class: CharClass, want: bool, end: int) -> Option<
    int,
>
    decreases end,
{
    if end <= 0 || end > s.len() {
        None
    } else if in_class(class, s[end - 1]) == want {
        Some(end - 1)
    } else {
        last_in_class_before(s, class, want, end - 1)
    }
}

/// The first position at or after `from` whose membership in `class` is `want`.
pub fn find_class_from(s: &[char], class: CharClass, want: bool, from: usize) -> (r: Option<usize>)
    ensures
        r == (match first_in_class_from(s@, class, want, from as int) {
            Some(i) => Some(i as usize),
            None => None,
        }),
{
    let mut i = from;
    while i < s.len()
        invariant
            from <= i,
            first_in_class_from(s@, class, want, from as int) == first_in_class_from(
                s@,
                class,
                want,
                i as int,
            ),
        decreases s.len() - i,
    {
        if class_has(class, s[i]) == want {
            return Some(i);
        }
        i = i + 1;
    }
    None
}

/// The last position before `end` whose membership in `class` is `want`.
pub fn rfind_class_before(s: &[char], class: CharClass, want: bool, end: usize) -> (r: Option<
    usize,
>)
    requires
        end <= s.len(),
    ensures
        r == (match last_in_class_before(s@, class, want, end as int) {
            Some(i) => Some(i as usize),
            None => None,
        }),
{
    let mut e = end;
    while e > 0
        invariant
            e <= end <= s.len(),
            last_in_class_before(s@, class, want, end as int) == last_in_class_before(
                s@,
                class,
                want,
                e as int,
            ),
        decreases e,
    {
        if class_has(class, s[e - 1]) == want {
            return Some(e - 1);
        }
        e = e - 1;
    }
    None
}

/// Trimming the same character twice is trimming it once.
pub proof fn lemma_trim_end_twice(s: Seq<char>, c: char)
    ensures
        trim_end_char(trim_end_char(s, c), c) == trim_end_char(s, c),
    decreases s.len(),
{
    if s.len() > 0 && s.last() == c {
        lemma_trim_end_twice(s.drop_last(), c);
    }
}

/// `s` without the trailing copies of `c` (`str::trim_end_matches(c)`).
pub open spec fn trim_end_char(s: Seq<char>, c: char) -> Seq<char>
    decreases s.len(),
{
    if s.len() > 0 && s.last() == c {
        trim_end_char(s.drop_last(), c)
    } else {
        s
    }
}

/// `s` without the trailing copies of `c`.
pub fn trim_end_matching(s: &[char], c: char) -> (v: Vec<char>)
    ensures
        v@ == trim_end_char(s@, c),
{
    let mut end = s.len();
    assert(s@.take(end as int) =~= s@);
    while end > 0 && s[end - 1] == c
        invariant
            end <= s.len(),
            trim_end_char(s@, c) == trim_end_char(s@.take(end as int), c),
        decreases end,
    {
        assert(s@.take(end as int).drop_last() == s@.take(end - 1));
        end = end - 1;
    }
    slice_chars(s, 0, end)
}

/// The position of the first non-whitespace character of `s`, or its length.
pub open spec fn trim_start_index(s: Seq<char>) -> int {
    match first_in_class_from(s, CharClass::Whitespace, false, 0) {
        Some(i) => i,
        None => s.len() as int,
    }
}

/// The position just after the last non-whitespace character of `s`, or 0.
pub open spec fn trim_end_index(s: Seq<char>) -> int {
    match last_in_class_before(s, CharClass::Whitespace, false, s.len() as int) {
        Some(i) => i + 1,
        None => 0,
    }
}

/// `s` without leading and trailing whitespace (`str::trim`).
pub open spec fn trim_spec(s: Seq<char>) -> Seq<char> {
    if trim_start_index(s) >= trim_end_index(s) {
        Seq::empty()
    } else {
        s.subrange(trim_start_index(s), trim_end_index(s))
    }
}

/// `s` without the leading and trailing characters of `class`
/// (`str::trim_matches` with a character predicate).
pub open spec fn trim_class_spec(s: Seq<char>, class: CharClass) -> Seq<char> {
    let a = match first_in_class_from(s, class, false, 0) {
        Some(i) => i,
        None => s.len() as int,
    };
    let b = match last_in_class_before(s, class, false, s.len() as int) {
        Some(i) => i + 1,
        None => 0,
    };
    if a >= b {
        Seq::empty()
    } else {
        s.subrange(a, b)
    }
}

/// `s` without the leading and trailing characters of `class`.
pub fn trim_class(s: &[char], class: CharClass) -> (v: Vec<char>)
    ensures
        v@ == trim_class_spec(s@, class),
{
    proof {
        lemma_first_in_class_bounds(s@, class, false, 0);
        lemma_last_in_class_bounds(s@, class, false, s@.len() as int);
    }
    let a = match find_class_from(s, class, false, 0) {
        Some(i) => i,
        None => s.len(),
    };
    let b = match rfind_class_before(s, class, false, s.len()) {
        Some(i) => i + 1,
        None => 0,
    };
    if a >= b {
        Vec::new()
    } else {
        slice_chars(s, a, b)
    }
}

/// `s` without leading whitespace (`str::trim_start`).
pub open spec fn trim_start_spec(s: Seq<char>) -> Seq<char> {
    s.subrange(trim_start_index(s), s.len() as int)
}

pub proof fn lemma_first_in_class_bounds(s: Seq<char>, class: CharClass, want: bool, from: int)
    requires
        0 <= from,
    ensures
        first_in_class_from(s, class, want, from) matches Some(i) ==> from <= i < s.len() && in_class(
            class,
            s[i],
        ) == want,
        first_in_class_from(s, class, want, from) is None ==> forall|j: int|
            from <= j < s.len() && 0 <= j ==> in_class(class, s[j]) != want,
    decreases s.len() - from,
{
    if from < 0 || from >= s.len() {
    } else if in_class(class, s[from]) == want {
    } else {
        lemma_first_in_class_bounds(s, class, want, from + 1);
    }
}

pub proof fn lemma_last_in_class_bounds(s: Seq<char>, class: CharClass, want: bool, end: int)
    ensures
        last_in_class_before(s, class, want, end) matches Some(i) ==> 0 <= i < end && i < s.len()
            && in_class(class, s[i]) == want,
        last_in_class_before(s, class, want, end) is None && end <= s.len() ==> forall|j: int|
            0 <= j < end ==> in_class(class, s[j]) != want,
    decreases end,
{
    if end <= 0 || end > s.len() {
    } else if in_class(class, s[end - 1]) == want {
    } else {
        lemma_last_in_class_bounds(s, class, want, end - 1);
    }
}

/// The bounds of the trimmed part of `s` are in order and inside `s`.
pub proof fn lemma_trim_bounds(s: Seq<char>)
    ensures
        0 <= trim_start_index(s) <= s.len(),
        0 <= trim_end_index(s) <= s.len(),
{
    lemma_first_in_class_bounds(s, CharClass::Whitespace, false, 0);
    lemma_last_in_class_bounds(s, CharClass::Whitespace, false, s.len() as int);
}

/// Trimming a trimmed text changes nothing.
pub proof fn lemma_trim_idempotent(s: Seq<char>)
    ensures
        trim_spec(trim_spec(s)) == trim_spec(s),
{
    lemma_trim_bounds(s);
    lemma_first_in_class_bounds(s, CharClass::Whitespace, false, 0);
    lemma_last_in_class_bounds(s, CharClass::Whitespace, false, s.len() as int);
    let t = trim_spec(s);
    if t.len() > 0 {
        assert(t[0] == s[trim_start_index(s)]);
        assert(t[t.len() - 1] == s[trim_end_index(s) - 1]);
        assert(first_in_class_from(t, CharClass::Whitespace, false, 0) == Some(0int));
        assert(last_in_class_before(t, CharClass::Whitespace, false, t.len() as int) == Some(
            t.len() - 1,
        ));
        assert(t.subrange(0, t.len() as int) =~= t);
    } else {
        assert(first_in_class_from(t, CharClass::Whitespace, false, 0) is None);
    }
}

/// `s` without leading and trailing whitespace.
pub fn trim(s: &[char]) -> (v: Vec<char>)
    ensures
        v@ == trim_spec(s@),
{
    proof {
        lemma_first_in_class_bounds(s@, CharClass::Whitespace, false, 0);
        lemma_last_in_class_bounds(s@, CharClass::Whitespace, false, s@.len() as int);
    }
    let start = match find_class_from(s, CharClass::Whitespace, false, 0) {
        Some(i) => i,
        None => s.len(),
    };
    let end = match rfind_class_before(s, CharClass::Whitespace, false, s.len()) {
        Some(i) => i + 1,
        None => 0,
    };
    if start >= end {
        Vec::new()
    } else {
        slice_chars(s, start, end)
    }
}

/// `s` without trailing whitespace (`str::trim_end`).
pub fn trim_end(s: &[char]) -> (v: Vec<char>)
    ensures
        v@ == s@.take(trim_end_index(s@)),
{
    proof {
        lemma_last_in_class_bounds(s@, CharClass::Whitespace, false, s@.len() as int);
    }
    let end = match rfind_class_before(s, CharClass::Whitespace, false, s.len()) {
        Some(i) => i + 1,
        None => 0,
    };
    slice_chars(s, 0, end)
}

/// `s` without leading whitespace.
pub fn trim_start(s: &[char]) -> (v: Vec<char>)
    ensures
        v@ == trim_start_spec(s@),
{
    proof {
        lemma_first_in_class_bounds(s@, CharClass::Whitespace, false, 0);
    }
    let start = match find_class_from(s, CharClass::Whitespace, false, 0) {
        Some(i) => i,
        None => s.len(),
    };
    slice_chars(s, start, s.len())
}

/// `s` with every non-overlapping occurrence of `pat`, scanning from the left,
/// replaced by `rep` (`str::replace`); `pat` is not empty.
pub open spec fn replace_spec(s: Seq<char>, pat: Seq<char>, rep: Seq<char>) -> Seq<char>
    decreases s.len(),
{
    if s.len() == 0 || pat.len() == 0 {
        s
    } else if has_prefix(s, pat) {
        rep + replace_spec(s.skip(pat.len() as int), pat, rep)
    } else {
        seq![s[0]] + replace_spec(s.skip(1), pat, rep)
    }
}

/// `s` with every occurrence of `pat` replaced by `rep`.
pub fn replace(s: &[char], pat: &[char], rep: &[char]) -> (v: Vec<char>)
    requires
        pat.len() > 0,
    ensures
        v@ == replace_spec(s@, pat@, rep@),
{
    let mut out: Vec<char> = Vec::new();
    let mut i: usize = 0;
    assert(s@.skip(0) =~= s@);
    assert(Seq::<char>::empty() + replace_spec(s@, pat@, rep@) =~= replace_spec(s@, pat@, rep@));
    while i < s.len()
        invariant
            i <= s.len(),
            pat.len() > 0,
            out@ + replace_spec(s@.skip(i as int), pat@, rep@) == replace_spec(s@, pat@, rep@),
        decreases s.len() - i,
    {
        let ghost rest = s@.skip(i as int);
        if match_at(s, pat, i) {
            assert(rest.subrange(0, pat@.len() as int) =~= s@.subrange(
                i as int,
                i + pat@.len(),
            ));
            assert(rest.skip(pat@.len() as int) =~= s@.skip(i + pat@.len()));
            extend_chars(&mut out, rep);
            assert(out@ + replace_spec(s@.skip(i + pat@.len()), pat@, rep@) =~= old_out_plus(
                out@,
                rep@,
                replace_spec(s@.skip(i + pat@.len()), pat@, rep@),
            ));
            i = i + pat.len();
        } else {
            assert(!has_prefix(rest, pat@)) by {
                if has_prefix(rest, pat@) {
                    assert(rest.subrange(0, pat@.len() as int) =~= s@.subrange(
                        i as int,
                        i + pat@.len(),
                    ));
                }
            }
            assert(rest.skip(1) =~= s@.skip(i + 1));
            assert(rest[0] == s@[i as int]);
            out.push(s[i]);
            assert(out@ + replace_spec(s@.skip(i + 1), pat@, rep@) =~= out@.drop_last() + (seq![
                s@[i as int],
            ] + replace_spec(s@.skip(i + 1), pat@, rep@)));
            i = i + 1;
        }
    }
    assert(s@.skip(i as int) =~= Seq::<char>::empty());
    assert(out@ + Seq::<char>::empty() =~= out@);
    out
}

spec fn old_out_plus(out: Seq<char>, rep: Seq<char>, tail: Seq<char>) -> Seq<char> {
    out + tail
}

/// The value of the decimal digits `s` (all of them digits).
pub open spec fn digits_value(s: Seq<char>) -> nat
    decreases s.len(),
{
    if s.len() == 0 {
        0
    } else {
        digits_value(s.drop_last()) * 10 + (s.last() as nat - '0' as nat) as nat
    }
}

/// Whether every character of `s` is an ASCII digit.
pub open spec fn all_digits(s: Seq<char>) -> bool {
    forall|i: int| 0 <= i < s.len() ==> is_ascii_digit_spec(#[trigger] s[i])
}

/// What `str::parse::<u32>` gives for `s`: an optional `+`, then one or more
/// ASCII digits whose value fits in a `u32`.
pub open spec fn parse_u32_spec(s: Seq<char>) -> Option<u32> {
    let digits = if s.len() > 0 && s[0] == '+' {
        s.skip(1)
    } else {
        s
    };
    if digits.len() > 0 && all_digits(digits) && digits_value(digits) <= u32::MAX {
        Some(digits_value(digits) as u32)
    } else {
        None
    }
}

/// What `str::parse::<u64>` gives for `s`.
pub open spec fn parse_u64_spec(s: Seq<char>) -> Option<u64> {
    let digits = if s.len() > 0 && s[0] == '+' {
        s.skip(1)
    } else {
        s
    };
    if digits.len() > 0 && all_digits(digits) && digits_value(digits) <= u64::MAX {
        Some(digits_value(digits) as u64)
    } else {
        None
    }
}

/// The value of the digits `s[..k]` grows with `k`.
proof fn lemma_digits_value_mono(s: Seq<char>, k: int)
    requires
        0 <= k <= s.len(),
        all_digits(s),
    ensures
        digits_value(s.take(k)) <= digits_value(s),
    decreases s.len() - k,
{
    if k < s.len() {
        lemma_digits_value_mono(s, k + 1);
        assert(s.take(k + 1).drop_last() =~= s.take(k));
    } else {
        assert(s.take(k) =~= s);
    }
}

/// The value of the decimal digits of `s`, when they are all digits and the
/// value fits in a `u64`.
pub fn digits_to_u64(s: &[char]) -> (r: Option<u64>)
    ensures
        r == (if s@.len() > 0 && all_digits(s@) && digits_value(s@) <= u64::MAX {
            Some(digits_value(s@) as u64)
        } else {
            None
        }),
{
    if s.len() == 0 {
        return None;
    }
    let mut value: u64 = 0;
    let mut i: usize = 0;
    while i < s.len()
        invariant
            i <= s.len(),
            s@.len() > 0,
            all_digits(s@.take(i as int)),
            value == digits_value(s@.take(i as int)),
        decreases s.len() - i,
    {
        let c = s[i];
        assert(s@.take(i + 1).drop_last() =~= s@.take(i as int));
        assert(s@.take(i + 1).last() == c);
        if !('0' <= c && c <= '9') {
            assert(!all_digits(s@)) by {
                assert(!is_ascii_digit_spec(s@[i as int]));
            }
            return None;
        }
        let d = (c as u32 - '0' as u32) as u64;
        if value > (u64::MAX - d) / 10 {
            assert(digits_value(s@.take(i + 1)) > u64::MAX) by (nonlinear_arith)
                requires
                    value > (u64::MAX - d) / 10,
                    digits_value(s@.take(i + 1)) == value * 10 + d,
                    d <= 9,
            ;
            proof {
                assert(all_digits(s@.take(i + 1)));
                if all_digits(s@) {
                    assert(s@.take(i + 1) =~= s@.take(i + 1));
                    lemma_digits_value_mono(s@, i + 1);
                }
            }
            return None;
        }
        value = value * 10 + d;
        i = i + 1;
    }
    assert(s@.take(s.len() as int) =~= s@);
    Some(value)
}

/// `str::parse::<u32>`.
pub fn parse_u32(s: &[char]) -> (r: Option<u32>)
    ensures
        r == parse_u32_spec(s@),
{
    let digits = if s.len() > 0 && s[0] == '+' {
        slice_chars(s, 1, s.len())
    } else {
        slice_chars(s, 0, s.len())
    };
    assert(s@.subrange(0, s@.len() as int) =~= s@);
    assert(s@.len() > 0 ==> s@.subrange(1, s@.len() as int) =~= s@.skip(1));
    match digits_to_u64(&digits) {
        Some(v) => {
            if v <= u32::MAX as u64 {
                Some(v as u32)
            } else {
                None
            }
        },
        None => {
            None
        },
    }
}

/// `str::parse::<u64>`.
pub fn parse_u64(s: &[char]) -> (r: Option<u64>)
    ensures
        r == parse_u64_spec(s@),
{
    let digits = if s.len() > 0 && s[0] == '+' {
        slice_chars(s, 1, s.len())
    } else {
        slice_chars(s, 0, s.len())
    };
    assert(s@.subrange(0, s@.len() as int) =~= s@);
    assert(s@.len() > 0 ==> s@.subrange(1, s@.len() as int) =~= s@.skip(1));
    digits_to_u64(&digits)
}

/// The digit character for `d < 10`.
pub open spec fn digit_char(d: nat) -> char {
    ((d + '0' as nat) as u32) as char
}

/// The decimal representation of `n`, without leading zeros.
pub open spec fn decimal_spec(n: nat) -> Seq<char>
    decreases n,
{
    if n < 10 {
        seq![digit_char(n)]
    } else {
        decimal_spec(n / 10).push(digit_char(n % 10))
    }
}

/// The decimal representation of `n` (`u64::to_string`).
pub fn decimal(n: u64) -> (v: Vec<char>)
    ensures
        v@ == decimal_spec(n as nat),
    decreases n,
{
    let d = (n % 10) as u32;
    let c = char_from_digit(d);
    if n < 10 {
        let mut v: Vec<char> = Vec::new();
        v.push(c);
        v
    } else {
        let mut v = decimal(n / 10);
        v.push(c);
        v
    }
}

/// The ASCII digit for `d < 10`.
fn char_from_digit(d: u32) -> (c: char)
    requires
        d < 10,
    ensures
        c == digit_char(d as nat),
{
    match d {
        0 => '0',
        1 => '1',
        2 => '2',
        3 => '3',
        4 => '4',
        5 => '5',
        6 => '6',
        7 => '7',
        8 => '8',
        _ => '9',
    }
}

/// Whether `a` sorts before `b` (`str`'s `<`): at the first position where
/// they differ `a` has the smaller character, or `a` is a proper prefix of `b`.
pub open spec fn lex_lt(a: Seq<char>, b: Seq<char>) -> bool {
    exists|k: int|
        0 <= k <= a.len() && k <= b.len() && #[trigger] a.take(k) == b.take(k) && ((k < a.len()
            && k < b.len() && a[k] < b[k]) || (k == a.len() && k < b.len()))
}

/// The length of the common prefix of `a` and `b`, from `i` on.
pub open spec fn common_prefix_from(a: Seq<char>, b: Seq<char>, i: int) -> int
    decreases a.len() - i,
{
    if i < 0 || i >= a.len() || i >= b.len() || a[i] != b[i] {
        i
    } else {
        common_prefix_from(a, b, i + 1)
    }
}

proof fn lemma_common_prefix(a: Seq<char>, b: Seq<char>, i: int)
    requires
        0 <= i <= a.len(),
        i <= b.len(),
        a.take(i) == b.take(i),
    ensures
        i <= common_prefix_from(a, b, i) <= a.len(),
        common_prefix_from(a, b, i) <= b.len(),
        a.take(common_prefix_from(a, b, i)) == b.take(common_prefix_from(a, b, i)),
        common_prefix_from(a, b, i) < a.len() && common_prefix_from(a, b, i) < b.len() ==> a[common_prefix_from(a, b, i)] != b[common_prefix_from(a, b, i)],
    decreases a.len() - i,
{
    if i < a.len() && i < b.len() && a[i] == b[i] {
        assert(a.take(i + 1) =~= a.take(i).push(a[i]));
        assert(b.take(i + 1) =~= b.take(i).push(b[i]));
        lemma_common_prefix(a, b, i + 1);
    }
}

/// Of two different texts, one sorts before the other.
pub proof fn lemma_lex_total(a: Seq<char>, b: Seq<char>)
    ensures
        lex_lt(a, b) || lex_lt(b, a) || a == b,
{
    assert(a.take(0) =~= b.take(0));
    lemma_common_prefix(a, b, 0);
    let k = common_prefix_from(a, b, 0);
    if k < a.len() && k < b.len() {
        if a[k] < b[k] {
            assert(lex_lt(a, b));
        } else {
            assert(b.take(k) == a.take(k));
            assert(lex_lt(b, a));
        }
    } else if k == a.len() && k < b.len() {
        assert(lex_lt(a, b));
    } else if k == b.len() && k < a.len() {
        assert(b.take(k) == a.take(k));
        assert(lex_lt(b, a));
    } else {
        assert(a.take(k) =~= a);
        assert(b.take(k) =~= b);
    }
}

/// Nothing sorts before itself.
pub proof fn lemma_lex_irreflexive(a: Seq<char>)
    ensures
        !lex_lt(a, a),
{
}

/// Whether `a` sorts before `b`.
pub fn lex_less(a: &[char], b: &[char]) -> (r: bool)
    ensures
        r == lex_lt(a@, b@),
{
    let mut i: usize = 0;
    assert(a@.take(0) =~= b@.take(0));
    while i < a.len() && i < b.len() && a[i] == b[i]
        invariant
            i <= a.len(),
            i <= b.len(),
            a@.take(i as int) == b@.take(i as int),
        decreases a.len() - i,
    {
        assert(a@.take(i + 1) =~= a@.take(i as int).push(a@[i as int]));
        assert(b@.take(i + 1) =~= b@.take(i as int).push(b@[i as int]));
        i = i + 1;
    }
    let r = if i < a.len() && i < b.len() {
        a[i] < b[i]
    } else {
        i == a.len() && i < b.len()
    };
    proof {
        if r {
            assert(a@.take(i as int) == b@.take(i as int));
        } else {
            assert forall|k: int|
                0 <= k <= a@.len() && k <= b@.len() && #[trigger] a@.take(k) == b@.take(k)
                    implies !((k < a@.len() && k < b@.len() && a@[k] < b@[k]) || (k == a@.len()
                    && k < b@.len())) by {
                if k < i {
                    assert(a@.take(i as int)[k] == b@.take(i as int)[k]);
                } else if k > i {
                    assert(a@.take(k)[i as int] == b@.take(k)[i as int]);
                }
            }
        }
    }
    r
}

} // verus!
