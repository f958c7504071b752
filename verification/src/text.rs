//! Text as sequences of characters: the operations on strings that the rest of
//! the library is built from, each proved against a specification on
//! `Seq<char>`.

use vstd::prelude::*;
use vstd::string::*;

verus! {

/// `String::push` appends one character to the end of the string.
pub assume_specification[ String::push ](s: &mut String, c: char)
    ensures
        final(s)@ == old(s)@.push(c),
;

/// `str::eq` (the `==` of string slices) holds exactly when both sides have the
/// same characters in the same order.
pub assume_specification[ <str as PartialEq>::eq ](a: &str, b: &str) -> (r: bool)
    ensures
        r == (a@ == b@),
;

/// `s` in lower case, as `str::to_lowercase` has it.
pub uninterp spec fn lowercase(s: Seq<char>) -> Seq<char>;

/// Whether every character of the text is an ASCII character.
pub open spec fn is_ascii(s: Seq<char>) -> bool {
    forall|i: int| 0 <= i < s.len() ==> (#[trigger] s[i]) as u32 <= 127
}

/// The character, where it is an ASCII letter, in lower case.
pub open spec fn ascii_lower(c: char) -> char {
    if 'A' <= c <= 'Z' {
        (c as u32 + 32) as char
    } else {
        c
    }
}

/// The character, where it is an ASCII letter, in upper case.
pub open spec fn ascii_upper(c: char) -> char {
    if 'a' <= c <= 'z' {
        (c as u32 - 32) as char
    } else {
        c
    }
}

/// The text with its ASCII letters in lower case.
pub open spec fn ascii_lowercase(s: Seq<char>) -> Seq<char> {
    s.map_values(|c: char| ascii_lower(c))
}

/// The text with its ASCII letters in upper case.
pub open spec fn ascii_uppercase(s: Seq<char>) -> Seq<char> {
    s.map_values(|c: char| ascii_upper(c))
}

/// The text in lower case. Calls `str::to_lowercase`, and claims that the result
/// depends on the text alone, and that of an ASCII text it is that text with its
/// letters `A` to `Z` replaced by `a` to `z`. The Unicode tables that decide the
/// lower case of other characters are not stated.
#[verifier::external_body]
pub(crate) fn to_lowercase(s: &str) -> (r: String)
    ensures
        r@ == lowercase(s@),
        is_ascii(s@) ==> r@ == ascii_lowercase(s@),
{
    s.to_lowercase()
}

/// Lower case forgets the case of ASCII letters, and a change of case leaves an ASCII
/// text ASCII.
pub proof fn lemma_lower_case_forgets_case(s: Seq<char>)
    ensures
        ascii_lowercase(ascii_uppercase(s)) == ascii_lowercase(s),
        ascii_lowercase(ascii_lowercase(s)) == ascii_lowercase(s),
        is_ascii(s) ==> is_ascii(ascii_uppercase(s)) && is_ascii(ascii_lowercase(s)),
{
    assert(ascii_lowercase(ascii_uppercase(s)) =~= ascii_lowercase(s));
    assert(ascii_lowercase(ascii_lowercase(s)) =~= ascii_lowercase(s));
}

// ---- Conversions ----------------------------------------------------------

/// The characters of a string slice.
pub fn chars_of(s: &str) -> (r: Vec<char>)
    ensures
        r@ == s@,
{
    let mut r: Vec<char> = Vec::new();
    for c in it: s.chars()
        invariant
            r@ == it.seq().take(it.index()),
            it.seq() == s@,
    {
        r.push(c);
    }
    r
}

/// Whether two string slices hold the same characters.
pub fn str_eq(a: &str, b: &str) -> (r: bool)
    ensures
        r == (a@ == b@),
{
    a.eq(b)
}

/// The views of the strings of a sequence.
pub open spec fn texts(v: Seq<String>) -> Seq<Seq<char>> {
    v.map_values(|s: String| s@)
}

/// The view of an optional string.
pub open spec fn opt_text(o: Option<String>) -> Option<Seq<char>> {
    match o {
        Some(s) => Some(s@),
        None => None,
    }
}

pub broadcast proof fn lemma_texts_push(v: Seq<String>, s: String)
    ensures
        #[trigger] texts(v.push(s)) == texts(v).push(s@),
{
    assert(texts(v.push(s)) =~= texts(v).push(s@));
}

pub broadcast proof fn lemma_texts_empty()
    ensures
        #[trigger] texts(Seq::<String>::empty()) == Seq::<Seq<char>>::empty(),
{
    assert(texts(Seq::<String>::empty()) =~= Seq::<Seq<char>>::empty());
}

/// A copy of a slice of strings.
pub fn copy_strings(v: &[String]) -> (r: Vec<String>)
    ensures
        texts(r@) == texts(v@),
{
    let mut r: Vec<String> = Vec::new();
    for i in 0..v.len()
        invariant
            texts(r@) == texts(v@.take(i as int)),
    {
        broadcast use lemma_texts_push;

        r.push(v[i].clone());
        assert(v@.take(i + 1) =~= v@.take(i as int).push(v@[i as int]));
    }
    assert(v@.take(v@.len() as int) =~= v@);
    assert(texts(r@) =~= texts(v@));
    r
}

/// A copy of an optional string.
pub fn copy_opt(o: &Option<String>) -> (r: Option<String>)
    ensures
        opt_text(r) == opt_text(*o),
{
    match o {
        Some(s) => Some(s.clone()),
        None => None,
    }
}

/// Whether a slice of strings holds the given text.
pub fn contains_text(v: &[String], s: &str) -> (r: bool)
    ensures
        r == texts(v@).contains(s@),
{
    for i in 0..v.len()
        invariant
            forall|j: int| 0 <= j < i ==> texts(v@)[j] != s@,
    {
        if str_eq(v[i].as_str(), s) {
            assert(texts(v@)[i as int] == s@);
            return true;
        }
    }
    false
}

/// The UTF-8 encoding of `s`.
pub open spec fn utf8(s: Seq<char>) -> Seq<u8> {
    vstd::utf8::encode_utf8(s)
}

/// The number of bytes in the UTF-8 encoding of a text.
pub fn byte_len(s: &str) -> (r: usize)
    ensures
        r == utf8(s@).len(),
{
    s.as_bytes().len()
}

// ---- Character classes ----------------------------------------------------

/// The code point of a character.
pub fn code_point(c: char) -> (r: u32)
    ensures
        r == c as int,
{
    c as u32
}

/// The characters with the Unicode property `White_Space`.
pub open spec fn white_space(c: char) -> bool {
    let n = c as int;
    ||| 0x9 <= n <= 0xd
    ||| n == 0x20 || n == 0x85 || n == 0xa0 || n == 0x1680
    ||| 0x2000 <= n <= 0x200a
    ||| n == 0x2028 || n == 0x2029 || n == 0x202f || n == 0x205f || n == 0x3000
}

/// Whether a character has the Unicode property `White_Space`.
pub fn is_white_space(c: char) -> (r: bool)
    ensures
        r == white_space(c),
{
    let n: u32 = c as u32;
    (0x9 <= n && n <= 0xd) || n == 0x20 || n == 0x85 || n == 0xa0 || n == 0x1680 || (0x2000 <= n
        && n <= 0x200a) || n == 0x2028 || n == 0x2029 || n == 0x202f || n == 0x205f || n == 0x3000
}

/// The control characters: the Unicode general category `Cc`.
pub open spec fn control(c: char) -> bool {
    let n = c as int;
    n <= 0x1f || 0x7f <= n <= 0x9f
}

/// Whether a character is a control character.
pub fn is_control(c: char) -> (r: bool)
    ensures
        r == control(c),
{
    let n: u32 = c as u32;
    n <= 0x1f || (0x7f <= n && n <= 0x9f)
}

/// The ASCII letters and digits.
pub open spec fn ascii_alphanumeric(c: char) -> bool {
    let n = c as int;
    0x30 <= n <= 0x39 || 0x41 <= n <= 0x5a || 0x61 <= n <= 0x7a
}

/// Whether a character is an ASCII letter or digit.
pub fn is_ascii_alphanumeric(c: char) -> (r: bool)
    ensures
        r == ascii_alphanumeric(c),
{
    let n: u32 = c as u32;
    (0x30 <= n && n <= 0x39) || (0x41 <= n && n <= 0x5a) || (0x61 <= n && n <= 0x7a)
}

// ---- Trimming -------------------------------------------------------------

/// `s` without its leading white space.
pub open spec fn trimmed_start(s: Seq<char>) -> Seq<char>
    decreases s.len(),
{
    if s.len() > 0 && white_space(s[0]) {
        trimmed_start(s.drop_first())
    } else {
        s
    }
}

/// `s` without its trailing white space.
pub open spec fn trimmed_end(s: Seq<char>) -> Seq<char>
    decreases s.len(),
{
    if s.len() > 0 && white_space(s.last()) {
        trimmed_end(s.drop_last())
    } else {
        s
    }
}

/// `s` without leading and trailing white space.
pub open spec fn trimmed(s: Seq<char>) -> Seq<char> {
    trimmed_end(trimmed_start(s))
}

proof fn lemma_trimmed_end(s: Seq<char>)
    ensures
        trimmed_end(s).len() <= s.len(),
        trimmed_end(s) == s.take(trimmed_end(s).len() as int),
        trimmed_end(s).len() > 0 ==> !white_space(trimmed_end(s).last()),
    decreases s.len(),
{
    if s.len() > 0 && white_space(s.last()) {
        lemma_trimmed_end(s.drop_last());
        assert(s.drop_last().take(trimmed_end(s).len() as int) =~= s.take(
            trimmed_end(s).len() as int,
        ));
    } else {
        assert(s.take(s.len() as int) =~= s);
    }
}

proof fn lemma_trimmed_start(s: Seq<char>)
    ensures
        trimmed_start(s).len() > 0 ==> !white_space(trimmed_start(s)[0]),
    decreases s.len(),
{
    if s.len() > 0 && white_space(s[0]) {
        lemma_trimmed_start(s.drop_first());
    }
}

/// A trimmed text neither begins nor ends with white space.
pub proof fn lemma_trimmed_is_tidy(s: Seq<char>)
    ensures
        trimmed(s).len() > 0 ==> !white_space(trimmed(s)[0]) && !white_space(trimmed(s).last()),
{
    lemma_trimmed_start(s);
    lemma_trimmed_end(trimmed_start(s));
}

/// The text without trailing white space.
pub fn trim_end<'a>(s: &'a str) -> (r: &'a str)
    ensures
        r@ == trimmed_end(s@),
{
    let v = chars_of(s);
    let mut j: usize = v.len();
    assert(s@.take(j as int) =~= s@);
    while j > 0 && is_white_space(v[j - 1])
        invariant
            j <= v.len(),
            v@ == s@,
            trimmed_end(s@) == trimmed_end(s@.take(j as int)),
        decreases j,
    {
        assert(s@.take(j as int).drop_last() =~= s@.take(j - 1));
        j = j - 1;
    }
    assert(s@.subrange(0, j as int) =~= s@.take(j as int));
    s.substring_char(0, j)
}

/// The text without leading white space.
pub fn trim_start<'a>(s: &'a str) -> (r: &'a str)
    ensures
        r@ == trimmed_start(s@),
{
    let v = chars_of(s);
    let mut i: usize = 0;
    assert(s@.skip(0) =~= s@);
    while i < v.len() && is_white_space(v[i])
        invariant
            i <= v.len(),
            v@ == s@,
            trimmed_start(s@) == trimmed_start(s@.skip(i as int)),
        decreases v.len() - i,
    {
        assert(s@.skip(i as int).drop_first() =~= s@.skip(i + 1));
        i = i + 1;
    }
    assert(s@.subrange(i as int, v.len() as int) =~= s@.skip(i as int));
    s.substring_char(i, v.len())
}

/// The text without leading and trailing white space.
pub fn trim<'a>(s: &'a str) -> (r: &'a str)
    ensures
        r@ == trimmed(s@),
{
    trim_end(trim_start(s))
}

// ---- Prefixes, suffixes and substrings -------------------------------------

/// Whether `s` begins with `p`.
pub open spec fn has_prefix(s: Seq<char>, p: Seq<char>) -> bool {
    p.len() <= s.len() && s.take(p.len() as int) == p
}

/// Whether `s` ends with `p`.
pub open spec fn has_suffix(s: Seq<char>, p: Seq<char>) -> bool {
    p.len() <= s.len() && s.skip(s.len() - p.len()) == p
}

/// Whether a text begins with another.
pub fn starts_with(s: &str, p: &str) -> (r: bool)
    ensures
        r == has_prefix(s@, p@),
{
    let v = chars_of(s);
    let w = chars_of(p);
    if w.len() > v.len() {
        return false;
    }
    for i in 0..w.len()
        invariant
            w@ == p@,
            v@ == s@,
            w.len() <= v.len(),
            forall|j: int| 0 <= j < i ==> v@[j] == w@[j],
    {
        if v[i] != w[i] {
            assert(s@.take(p@.len() as int)[i as int] != p@[i as int]);
            return false;
        }
    }
    assert(s@.take(p@.len() as int) =~= p@);
    true
}

/// Whether a text ends with another.
pub fn ends_with(s: &str, p: &str) -> (r: bool)
    ensures
        r == has_suffix(s@, p@),
{
    let v = chars_of(s);
    let w = chars_of(p);
    if w.len() > v.len() {
        return false;
    }
    let base: usize = v.len() - w.len();
    for i in 0..w.len()
        invariant
            w@ == p@,
            v@ == s@,
            base == v.len() - w.len(),
            w.len() <= v.len(),
            forall|j: int| 0 <= j < i ==> v@[base + j] == w@[j],
    {
        if v[base + i] != w[i] {
            assert(s@.skip(base as int)[i as int] != p@[i as int]);
            return false;
        }
    }
    assert(s@.skip(base as int) =~= p@);
    true
}

/// `s` without the prefix `p`, where it has it.
pub open spec fn without_prefix(s: Seq<char>, p: Seq<char>) -> Seq<char> {
    if has_prefix(s, p) {
        s.skip(p.len() as int)
    } else {
        s
    }
}

/// `s` without the suffix `p`, where it has it.
pub open spec fn without_suffix(s: Seq<char>, p: Seq<char>) -> Seq<char> {
    if has_suffix(s, p) {
        s.take(s.len() - p.len())
    } else {
        s
    }
}

/// The text without a prefix, where it has it.
pub fn strip_prefix_or_self<'a>(s: &'a str, p: &str) -> (r: &'a str)
    ensures
        r@ == without_prefix(s@, p@),
{
    if starts_with(s, p) {
        let n = s.unicode_len();
        let k = p.unicode_len();
        assert(s@.subrange(k as int, n as int) =~= s@.skip(k as int));
        s.substring_char(k, n)
    } else {
        s
    }
}

/// The text without a suffix, where it has it.
pub fn strip_suffix_or_self<'a>(s: &'a str, p: &str) -> (r: &'a str)
    ensures
        r@ == without_suffix(s@, p@),
{
    if ends_with(s, p) {
        let n = s.unicode_len();
        let k = p.unicode_len();
        assert(s@.subrange(0, n - k) =~= s@.take(n - k));
        s.substring_char(0, n - k)
    } else {
        s
    }
}

/// Where the last word of `s` begins: after its last white space.
pub open spec fn last_word_start(s: Seq<char>) -> int
    decreases s.len(),
{
    if s.len() == 0 || white_space(s.last()) {
        s.len() as int
    } else {
        last_word_start(s.drop_last())
    }
}

/// The last word of `s`: what follows its last white space.
pub open spec fn last_word(s: Seq<char>) -> Seq<char> {
    s.skip(last_word_start(s))
}

/// The last word of a text: what follows its last white space.
pub fn last_word_of<'a>(s: &'a str) -> (r: &'a str)
    ensures
        r@ == last_word(s@),
{
    let v = chars_of(s);
    let mut j: usize = v.len();
    assert(s@.take(j as int) =~= s@);
    while j > 0 && !is_white_space(v[j - 1])
        invariant
            j <= v.len(),
            v@ == s@,
            last_word_start(s@) == last_word_start(s@.take(j as int)),
        decreases j,
    {
        assert(s@.take(j as int).drop_last() =~= s@.take(j - 1));
        j = j - 1;
    }
    assert(s@.subrange(j as int, v.len() as int) =~= s@.skip(j as int));
    s.substring_char(j, v.len())
}

/// How often a character occurs in `s`.
pub open spec fn occurrences(s: Seq<char>, c: char) -> nat
    decreases s.len(),
{
    if s.len() == 0 {
        0
    } else {
        occurrences(s.drop_last(), c) + if s.last() == c {
            1nat
        } else {
            0nat
        }
    }
}

/// How often a character occurs in a text.
pub fn count_char(s: &str, c: char) -> (r: usize)
    ensures
        r == occurrences(s@, c),
{
    let v = chars_of(s);
    let mut n: usize = 0;
    for i in 0..v.len()
        invariant
            v@ == s@,
            n == occurrences(s@.take(i as int), c),
            n <= i,
    {
        assert(s@.take(i + 1).drop_last() =~= s@.take(i as int));
        if v[i] == c {
            n = n + 1;
        }
    }
    assert(s@.take(v.len() as int) =~= s@);
    n
}

/// The first `n` characters of `s`, or all of it where it has fewer.
pub open spec fn prefix_of_len(s: Seq<char>, n: nat) -> Seq<char> {
    if s.len() <= n {
        s
    } else {
        s.take(n as int)
    }
}

/// The first `n` characters of a text, or all of it where it has fewer.
pub fn take_chars(s: &str, n: usize) -> (r: String)
    ensures
        r@ == prefix_of_len(s@, n as nat),
{
    let len = s.unicode_len();
    if len <= n {
        s.to_owned()
    } else {
        assert(s@.subrange(0, n as int) =~= s@.take(n as int));
        s.substring_char(0, n).to_owned()
    }
}

// ---- Lines and joins --------------------------------------------------------

/// The position of the first newline at or after `from`, or the length of `s`.
pub open spec fn newline_at(s: Seq<char>, from: int) -> int
    decreases s.len() - from,
{
    if from < 0 || from >= s.len() {
        s.len() as int
    } else if s[from] == '\n' {
        from
    } else {
        newline_at(s, from + 1)
    }
}

/// `s` without one trailing carriage return, where it has one.
pub open spec fn without_cr(s: Seq<char>) -> Seq<char> {
    if s.len() > 0 && s.last() == '\r' {
        s.drop_last()
    } else {
        s
    }
}

/// The lines of `s` from position `from` on. A line ends at a newline, or at a
/// carriage return and a newline; the last line ending is optional.
pub open spec fn lines_from(s: Seq<char>, from: int) -> Seq<Seq<char>>
    decreases s.len() - from,
{
    if from < 0 || from >= s.len() {
        Seq::empty()
    } else {
        let e = newline_at(s, from);
        if from <= e < s.len() {
            seq![without_cr(s.subrange(from, e))] + lines_from(s, e + 1)
        } else {
            seq![s.subrange(from, s.len() as int)]
        }
    }
}

/// The lines of `s`.
pub open spec fn lines_of(s: Seq<char>) -> Seq<Seq<char>> {
    lines_from(s, 0)
}

proof fn lemma_newline_at(s: Seq<char>, from: int, to: int)
    requires
        0 <= from <= to <= s.len(),
        forall|j: int| from <= j < to ==> s[j] != '\n',
    ensures
        newline_at(s, from) == newline_at(s, to),
    decreases to - from,
{
    if from < to {
        lemma_newline_at(s, from + 1, to);
    }
}

/// The lines of `s` from position `from` on, each of which is ended: by its line
/// ending, or, the last, by one that follows `s`.
pub open spec fn ended_lines(s: Seq<char>, from: int) -> Seq<Seq<char>>
    decreases s.len() - from,
{
    if from < 0 || from > s.len() {
        Seq::empty()
    } else {
        let e = newline_at(s, from);
        if from <= e < s.len() {
            seq![without_cr(s.subrange(from, e))] + ended_lines(s, e + 1)
        } else {
            seq![without_cr(s.subrange(from, s.len() as int))]
        }
    }
}

proof fn lemma_newline_found(s: Seq<char>, from: int)
    requires
        0 <= from <= s.len(),
    ensures
        from <= newline_at(s, from) <= s.len(),
        newline_at(s, from) < s.len() ==> s[newline_at(s, from)] == '\n',
        forall|j: int| from <= j < newline_at(s, from) ==> s[j] != '\n',
    decreases s.len() - from,
{
    if from < s.len() && s[from] != '\n' {
        lemma_newline_found(s, from + 1);
    }
}

proof fn lemma_newline_in(s: Seq<char>, from: int, e: int)
    requires
        0 <= from <= e < s.len(),
        s[e] == '\n',
        forall|j: int| from <= j < e ==> s[j] != '\n',
    ensures
        newline_at(s, from) == e,
{
    lemma_newline_at(s, from, e);
}

proof fn lemma_lines_shift(before: Seq<char>, s: Seq<char>, from: int)
    requires
        0 <= from <= s.len(),
    ensures
        lines_from(before + s, before.len() + from) == lines_from(s, from),
    decreases s.len() - from,
{
    let all = before + s;
    let n = before.len() as int;
    if from < s.len() {
        lemma_newline_found(s, from);
        lemma_newline_found(all, n + from);
        let e = newline_at(s, from);
        let f = newline_at(all, n + from);
        assert(f == n + e) by {
            if e < s.len() {
                assert(all[n + e] == '\n');
                assert forall|j: int| n + from <= j < n + e implies all[j] != '\n' by {
                    assert(all[j] == s[j - n]);
                }
                lemma_newline_in(all, n + from, n + e);
            } else if f < all.len() {
                assert(s[f - n] == all[f]);
            }
        }
        if e < s.len() {
            assert(all.subrange(n + from, n + e) =~= s.subrange(from, e));
            lemma_lines_shift(before, s, e + 1);
        } else {
            assert(all.subrange(n + from, all.len() as int) =~= s.subrange(from, s.len() as int));
        }
    }
}

/// The lines of two texts with a newline between them are those of the first, each
/// ended, and then those of the second.
pub proof fn lemma_lines_of_joined(a: Seq<char>, b: Seq<char>, from: int)
    requires
        0 <= from <= a.len(),
    ensures
        lines_from(a.push('\n') + b, from) == ended_lines(a, from) + lines_of(b),
    decreases a.len() - from,
{
    let head = a.push('\n');
    let all = head + b;
    lemma_newline_found(a, from);
    let e = newline_at(a, from);
    assert forall|j: int| from <= j < e implies all[j] != '\n' by {
        assert(all[j] == a[j]);
    }
    assert(all[e] == '\n');
    lemma_newline_in(all, from, e);
    assert(all.subrange(from, e) =~= a.subrange(from, e));
    if e < a.len() {
        lemma_lines_of_joined(a, b, e + 1);
        assert(lines_from(all, from) =~= ended_lines(a, from) + lines_of(b));
    } else {
        lemma_lines_shift(head, b, 0);
        assert(lines_from(all, from) =~= ended_lines(a, from) + lines_of(b));
    }
}

proof fn lemma_trimmed_start_drops(s: Seq<char>)
    requires
        s.len() > 0,
        white_space(s.last()),
    ensures
        trimmed_start(s).len() == 0 ==> trimmed_start(s.drop_last()).len() == 0,
        trimmed_start(s).len() > 0 ==> trimmed_start(s).last() == s.last() && trimmed_start(
            s.drop_last(),
        ) == trimmed_start(s).drop_last(),
    decreases s.len(),
{
    if white_space(s[0]) && s.len() > 1 {
        assert(s.drop_first().drop_last() =~= s.drop_last().drop_first());
        lemma_trimmed_start_drops(s.drop_first());
    } else if white_space(s[0]) {
        assert(s.drop_first() =~= Seq::empty());
        assert(trimmed_start(s.drop_first()) == s.drop_first());
        assert(s.drop_last() =~= Seq::empty());
    } else {
        assert(s.len() > 1);
        assert(s.drop_last()[0] == s[0]);
    }
}

/// White space at the end makes no difference to a text that is trimmed.
pub proof fn lemma_trimmed_ignores_last_space(s: Seq<char>)
    requires
        s.len() > 0,
        white_space(s.last()),
    ensures
        trimmed(s.drop_last()) == trimmed(s),
{
    lemma_trimmed_start_drops(s);
    if trimmed_start(s).len() == 0 {
        assert(trimmed_start(s) =~= Seq::empty());
        assert(trimmed_start(s.drop_last()) =~= Seq::empty());
    }
}

/// The lines of a text, without their line endings.
pub fn lines(s: &str) -> (r: Vec<String>)
    ensures
        texts(r@) == lines_of(s@),
{
    broadcast use {lemma_texts_push, lemma_texts_empty};

    let v = chars_of(s);
    let n: usize = v.len();
    let mut r: Vec<String> = Vec::new();
    let mut start: usize = 0;
    let mut i: usize = 0;
    assert(texts(r@) + lines_from(s@, 0) =~= lines_from(s@, 0));
    while i < n
        invariant
            start <= i <= n,
            n == v.len(),
            v@ == s@,
            forall|j: int| start <= j < i ==> s@[j] != '\n',
            texts(r@) + lines_from(s@, start as int) == lines_of(s@),
        decreases n - i,
    {
        if v[i] == '\n' {
            let ghost before = texts(r@);
            proof {
                lemma_newline_at(s@, start as int, i as int);
            }
            let line = s.substring_char(start, i);
            if i > start && v[i - 1] == '\r' {
                let kept = s.substring_char(start, i - 1);
                assert(kept@ =~= without_cr(s@.subrange(start as int, i as int)));
                r.push(kept.to_owned());
            } else {
                assert(line@ == without_cr(s@.subrange(start as int, i as int)));
                r.push(line.to_owned());
            }
            assert(texts(r@) + lines_from(s@, i + 1) =~= before + lines_from(s@, start as int));
            start = i + 1;
        }
        i = i + 1;
    }
    if start < n {
        let ghost before = texts(r@);
        proof {
            lemma_newline_at(s@, start as int, n as int);
        }
        r.push(s.substring_char(start, n).to_owned());
        assert(texts(r@) =~= before + lines_from(s@, start as int));
    } else {
        assert(texts(r@) =~= texts(r@) + lines_from(s@, start as int));
    }
    r
}

/// The texts of `parts` with `sep` between each two.
pub open spec fn joined(parts: Seq<Seq<char>>, sep: Seq<char>) -> Seq<char>
    decreases parts.len(),
{
    if parts.len() == 0 {
        Seq::empty()
    } else if parts.len() == 1 {
        parts[0]
    } else {
        joined(parts.drop_last(), sep) + sep + parts.last()
    }
}

/// The strings of `parts` with `sep` between each two.
pub fn join(parts: &[String], sep: &str) -> (r: String)
    ensures
        r@ == joined(texts(parts@), sep@),
{
    let mut r: String = String::new();
    for i in 0..parts.len()
        invariant
            r@ == joined(texts(parts@).take(i as int), sep@),
    {
        let ghost p = texts(parts@);
        assert(p.take(i + 1).drop_last() =~= p.take(i as int));
        assert(p.take(i + 1).last() == parts@[i as int]@);
        if i > 0 {
            r.append(sep);
            r.append(parts[i].as_str());
        } else {
            r.append(parts[i].as_str());
            assert(r@ =~= parts@[0]@);
        }
    }
    assert(texts(parts@).take(parts@.len() as int) =~= texts(parts@));
    r
}

/// The concatenation of two texts.
pub fn concat2(a: &str, b: &str) -> (r: String)
    ensures
        r@ == a@ + b@,
{
    let mut r = a.to_owned();
    r.append(b);
    r
}

/// The concatenation of three texts.
pub fn concat3(a: &str, b: &str, c: &str) -> (r: String)
    ensures
        r@ == a@ + b@ + c@,
{
    let mut r = a.to_owned();
    r.append(b);
    r.append(c);
    r
}

/// The concatenation of four texts.
pub fn concat4(a: &str, b: &str, c: &str, d: &str) -> (r: String)
    ensures
        r@ == a@ + b@ + c@ + d@,
{
    let mut r = a.to_owned();
    r.append(b);
    r.append(c);
    r.append(d);
    r
}

/// The concatenation of five texts.
pub fn concat5(a: &str, b: &str, c: &str, d: &str, e: &str) -> (r: String)
    ensures
        r@ == a@ + b@ + c@ + d@ + e@,
{
    let mut r = a.to_owned();
    r.append(b);
    r.append(c);
    r.append(d);
    r.append(e);
    r
}

// ---- Digits -----------------------------------------------------------------

/// The lower-case hexadecimal digit of value `n`.
pub open spec fn hex_digit(n: int) -> char {
    if n == 0 { '0' } else if n == 1 { '1' } else if n == 2 { '2' } else if n == 3 { '3' }
    else if n == 4 { '4' } else if n == 5 { '5' } else if n == 6 { '6' } else if n == 7 { '7' }
    else if n == 8 { '8' } else if n == 9 { '9' } else if n == 10 { 'a' } else if n == 11 { 'b' }
    else if n == 12 { 'c' } else if n == 13 { 'd' } else if n == 14 { 'e' } else { 'f' }
}

/// The lower-case hexadecimal digit of a value below sixteen.
pub fn hex_digit_of(n: u64) -> (r: char)
    ensures
        r == hex_digit(n as int),
{
    if n == 0 { '0' } else if n == 1 { '1' } else if n == 2 { '2' } else if n == 3 { '3' }
    else if n == 4 { '4' } else if n == 5 { '5' } else if n == 6 { '6' } else if n == 7 { '7' }
    else if n == 8 { '8' } else if n == 9 { '9' } else if n == 10 { 'a' } else if n == 11 { 'b' }
    else if n == 12 { 'c' } else if n == 13 { 'd' } else if n == 14 { 'e' } else { 'f' }
}

/// The decimal digits of `n`.
pub open spec fn decimal(n: nat) -> Seq<char>
    decreases n,
{
    if n < 10 {
        seq![hex_digit(n as int)]
    } else {
        decimal(n / 10).push(hex_digit((n % 10) as int))
    }
}

/// The decimal digits of a number.
pub fn decimal_of(n: u64) -> (r: String)
    ensures
        r@ == decimal(n as nat),
    decreases n,
{
    if n < 10 {
        let mut r: String = String::new();
        r.push(hex_digit_of(n));
        assert(r@ =~= decimal(n as nat));
        r
    } else {
        let mut r = decimal_of(n / 10);
        r.push(hex_digit_of(n % 10));
        r
    }
}

/// The decimal text of an integer, with a minus sign where it is negative.
pub open spec fn integer(n: int) -> Seq<char> {
    if n < 0 {
        "-"@ + decimal((-n) as nat)
    } else {
        decimal(n as nat)
    }
}

/// The decimal text of an integer, with a minus sign where it is negative.
pub fn integer_of(n: i64) -> (r: String)
    ensures
        r@ == integer(n as int),
{
    if n < 0 {
        if n == i64::MIN {
            let m: u64 = 0x8000_0000_0000_0000;
            return concat2("-", decimal_of(m).as_str());
        }
        let m: i64 = -n;
        concat2("-", decimal_of(m as u64).as_str())
    } else {
        decimal_of(n as u64)
    }
}

/// The bytes as lower-case hexadecimal, two digits each.
pub open spec fn hex(bytes: Seq<u8>) -> Seq<char>
    decreases bytes.len(),
{
    if bytes.len() == 0 {
        Seq::empty()
    } else {
        hex(bytes.drop_last()).push(hex_digit(bytes.last() as int / 16)).push(
            hex_digit(bytes.last() as int % 16),
        )
    }
}

/// The first `n` bytes as lower-case hexadecimal, two digits each.
pub fn hex_of(bytes: &[u8], n: usize) -> (r: String)
    requires
        n <= bytes@.len(),
    ensures
        r@ == hex(bytes@.take(n as int)),
{
    let mut r: String = String::new();
    for i in 0..n
        invariant
            n <= bytes@.len(),
            r@ == hex(bytes@.take(i as int)),
    {
        assert(bytes@.take(i + 1).drop_last() =~= bytes@.take(i as int));
        let b: u64 = bytes[i] as u64;
        r.push(hex_digit_of(b / 16));
        r.push(hex_digit_of(b % 16));
    }
    r
}

// ---- Order --------------------------------------------------------------------

/// The lexicographic order of texts by code point, which is the order of their
/// UTF-8 bytes.
pub open spec fn text_before(a: Seq<char>, b: Seq<char>) -> bool
    decreases a.len(),
{
    if b.len() == 0 {
        false
    } else if a.len() == 0 {
        true
    } else if a[0] != b[0] {
        (a[0] as int) < (b[0] as int)
    } else {
        text_before(a.drop_first(), b.drop_first())
    }
}

pub proof fn lemma_text_before_irreflexive(a: Seq<char>)
    ensures
        !text_before(a, a),
    decreases a.len(),
{
    if a.len() > 0 {
        lemma_text_before_irreflexive(a.drop_first());
    }
}

pub proof fn lemma_text_before_transitive(a: Seq<char>, b: Seq<char>, c: Seq<char>)
    requires
        text_before(a, b),
        text_before(b, c),
    ensures
        text_before(a, c),
    decreases a.len(),
{
    if a.len() > 0 && a[0] == b[0] && b[0] == c[0] {
        lemma_text_before_transitive(a.drop_first(), b.drop_first(), c.drop_first());
    }
}

pub proof fn lemma_text_before_total(a: Seq<char>, b: Seq<char>)
    ensures
        text_before(a, b) || text_before(b, a) || a == b,
    decreases a.len(),
{
    if a.len() > 0 && b.len() > 0 && a[0] == b[0] {
        lemma_text_before_total(a.drop_first(), b.drop_first());
        if a.drop_first() == b.drop_first() {
            assert(a =~= seq![a[0]] + a.drop_first());
            assert(b =~= seq![b[0]] + b.drop_first());
            assert(a =~= b);
        }
    } else if a.len() == 0 && b.len() == 0 {
        assert(a =~= b);
    }
}

proof fn lemma_text_before_skip(a: Seq<char>, b: Seq<char>, n: int)
    requires
        0 <= n <= a.len(),
        n <= b.len(),
        a.take(n) == b.take(n),
    ensures
        text_before(a, b) == text_before(a.skip(n), b.skip(n)),
    decreases n,
{
    if n > 0 {
        assert(a[0] == a.take(n)[0]);
        assert(b[0] == b.take(n)[0]);
        assert(a.drop_first().take(n - 1) =~= a.take(n).drop_first());
        assert(b.drop_first().take(n - 1) =~= b.take(n).drop_first());
        lemma_text_before_skip(a.drop_first(), b.drop_first(), n - 1);
        assert(a.drop_first().skip(n - 1) =~= a.skip(n));
        assert(b.drop_first().skip(n - 1) =~= b.skip(n));
    } else {
        assert(a.skip(0) =~= a);
        assert(b.skip(0) =~= b);
    }
}

/// Whether one text comes before another in lexicographic order.
pub fn is_text_before(a: &str, b: &str) -> (r: bool)
    ensures
        r == text_before(a@, b@),
{
    let v = chars_of(a);
    let w = chars_of(b);
    let mut i: usize = 0;
    while i < v.len() && i < w.len() && v[i] == w[i]
        invariant
            v@ == a@,
            w@ == b@,
            i <= v.len(),
            i <= w.len(),
            v@.take(i as int) == w@.take(i as int),
        decreases v.len() - i,
    {
        assert(v@.take(i + 1) =~= v@.take(i as int).push(v@[i as int]));
        assert(w@.take(i + 1) =~= w@.take(i as int).push(w@[i as int]));
        i = i + 1;
    }
    proof {
        lemma_text_before_skip(a@, b@, i as int);
    }
    if i >= w.len() {
        false
    } else if i >= v.len() {
        true
    } else {
        code_point(v[i]) < code_point(w[i])
    }
}

/// Whether two lists hold the same texts in the same order.
pub open spec fn same_texts(a: Seq<String>, b: Seq<String>) -> bool {
    &&& a.len() == b.len()
    &&& forall|i: int| 0 <= i < a.len() ==> (#[trigger] a[i])@ == b[i]@
}

pub(crate) proof fn lemma_same_texts(a: Seq<String>, b: Seq<String>)
    requires
        texts(a) == texts(b),
    ensures
        same_texts(a, b),
{
    assert(a.len() == texts(a).len());
    assert(b.len() == texts(b).len());
    assert forall|i: int| 0 <= i < a.len() implies (#[trigger] a[i])@ == b[i]@ by {
        assert(texts(a)[i] == a[i]@);
        assert(texts(b)[i] == b[i]@);
    }
}

// ---- Laws -----------------------------------------------------------------------

/// The white space of ASCII is the space, the tab, and the characters that end lines and
/// pages; the no-break space and the ideographic space are white space too.
pub proof fn lemma_white_space_of_ascii(c: char)
    ensures
        (c as int) < 128 ==> (white_space(c) <==> c == ' ' || c == '\t' || c == '\n' || c == '\r'
            || c as int == 11 || c as int == 12),
        c as int == 0xa0 || c as int == 0x3000 ==> white_space(c),
{
}

/// Whether every character is white space.
pub open spec fn is_blank(s: Seq<char>) -> bool {
    forall|i: int| 0 <= i < s.len() ==> white_space(#[trigger] s[i])
}

proof fn lemma_start_taken(s: Seq<char>) -> (a: int)
    ensures
        0 <= a <= s.len(),
        trimmed_start(s) == s.skip(a),
        is_blank(s.take(a)),
    decreases s.len(),
{
    if s.len() > 0 && white_space(s[0]) {
        let rest = s.drop_first();
        let a = lemma_start_taken(rest);
        assert(s.skip(a + 1) =~= rest.skip(a));
        assert forall|i: int| 0 <= i < s.take(a + 1).len() implies white_space(
            #[trigger] s.take(a + 1)[i],
        ) by {
            if i > 0 {
                assert(rest.take(a)[i - 1] == s[i]);
            }
        }
        a + 1
    } else {
        assert(s.skip(0) =~= s);
        0
    }
}

proof fn lemma_end_taken(s: Seq<char>) -> (b: int)
    ensures
        0 <= b <= s.len(),
        trimmed_end(s) == s.take(b),
        is_blank(s.skip(b)),
    decreases s.len(),
{
    if s.len() > 0 && white_space(s.last()) {
        let rest = s.drop_last();
        let b = lemma_end_taken(rest);
        assert(s.take(b) =~= rest.take(b));
        assert forall|i: int| 0 <= i < s.skip(b).len() implies white_space(
            #[trigger] s.skip(b)[i],
        ) by {
            if i < rest.skip(b).len() {
                assert(rest.skip(b)[i] == s[b + i]);
            }
        }
        b
    } else {
        assert(s.take(s.len() as int) =~= s);
        s.len() as int
    }
}

/// Trimming takes white space away at both ends, and nothing else.
pub proof fn lemma_trimming_takes_white_space_only(s: Seq<char>) -> (r: (Seq<char>, Seq<char>))
    ensures
        s == r.0 + trimmed(s) + r.1,
        is_blank(r.0),
        is_blank(r.1),
{
    let a = lemma_start_taken(s);
    let t = trimmed_start(s);
    let b = lemma_end_taken(t);
    assert(s =~= s.take(a) + t.take(b) + t.skip(b));
    (s.take(a), t.skip(b))
}

/// A text begins with another where something follows that one in it, and ends with
/// another where something stands before it; and what is left without it is that.
pub proof fn lemma_ends_of_texts(s: Seq<char>, p: Seq<char>, t: Seq<char>)
    ensures
        has_prefix(p + t, p),
        has_suffix(t + p, p),
        without_prefix(p + t, p) == t,
        without_suffix(t + p, p) == t,
        has_prefix(s, p) ==> s == p + without_prefix(s, p),
        has_suffix(s, p) ==> s == without_suffix(s, p) + p,
        !has_prefix(s, p) ==> without_prefix(s, p) == s,
        !has_suffix(s, p) ==> without_suffix(s, p) == s,
{
    assert((p + t).take(p.len() as int) =~= p);
    assert((p + t).skip(p.len() as int) =~= t);
    assert((t + p).skip(t.len() as int) =~= p);
    assert((t + p).take(t.len() as int) =~= t);
    if has_prefix(s, p) {
        assert(s =~= s.take(p.len() as int) + s.skip(p.len() as int));
    }
    if has_suffix(s, p) {
        assert(s =~= s.take(s.len() - p.len()) + s.skip(s.len() - p.len()));
    }
}

/// The last word holds no white space, and white space stands before it, unless the whole
/// text is the word.
pub proof fn lemma_last_word_is_a_word(s: Seq<char>)
    ensures
        0 <= last_word_start(s) <= s.len(),
        forall|i: int| last_word_start(s) <= i < s.len() ==> !white_space(#[trigger] s[i]),
        last_word_start(s) > 0 ==> white_space(s[last_word_start(s) - 1]),
        s == s.take(last_word_start(s)) + last_word(s),
    decreases s.len(),
{
    if s.len() > 0 && !white_space(s.last()) {
        let rest = s.drop_last();
        lemma_last_word_is_a_word(rest);
        assert forall|i: int| last_word_start(s) <= i < s.len() implies !white_space(
            #[trigger] s[i],
        ) by {
            if i < rest.len() {
                assert(rest[i] == s[i]);
            }
        }
    }
    assert(s =~= s.take(last_word_start(s)) + s.skip(last_word_start(s)));
}

/// A character is counted once for each place where it stands.
pub proof fn lemma_occurrences_count(a: Seq<char>, b: Seq<char>, d: char, c: char)
    ensures
        occurrences(a + b, c) == occurrences(a, c) + occurrences(b, c),
        occurrences(seq![d], c) == if d == c {
            1int
        } else {
            0
        },
        occurrences(a, c) == 0 <==> !a.contains(c),
    decreases a.len() + b.len(),
{
    reveal_with_fuel(occurrences, 2);
    assert(seq![d].drop_last() =~= Seq::<char>::empty());
    if b.len() == 0 {
        assert(a + b =~= a);
        if a.len() > 0 {
            lemma_occurrences_count(a.drop_last(), b, d, c);
            let rest = a.drop_last();
            if rest.contains(c) {
                let k = choose|k: int| 0 <= k < rest.len() && rest[k] == c;
                assert(a[k] == c);
            }
            if a.contains(c) && a.last() != c {
                let k = choose|k: int| 0 <= k < a.len() && a[k] == c;
                assert(rest[k] == c);
            }
            if a.last() == c {
                assert(a[a.len() - 1] == c);
            }
        }
    } else {
        lemma_occurrences_count(a, b.drop_last(), d, c);
        assert((a + b).drop_last() =~= a + b.drop_last());
        assert((a + b).last() == b.last());
    }
}

/// Parts are joined with the separator between each two, and nowhere else.
pub proof fn lemma_joining(a: Seq<Seq<char>>, b: Seq<Seq<char>>, one: Seq<char>, sep: Seq<char>)
    ensures
        joined(seq![one], sep) == one,
        joined(Seq::empty(), sep).len() == 0,
        a.len() > 0 && b.len() > 0 ==> joined(a + b, sep) == joined(a, sep) + sep + joined(b, sep),
    decreases b.len(),
{
    if a.len() > 0 && b.len() > 0 {
        let all = a + b;
        assert(all.drop_last() =~= a + b.drop_last());
        assert(all.last() == b.last());
        if b.len() == 1 {
            assert(a + b.drop_last() =~= a);
            assert(joined(b, sep) == b[0]);
        } else {
            lemma_joining(a, b.drop_last(), one, sep);
            assert(joined(all, sep) =~= joined(a, sep) + sep + joined(b, sep));
        }
    }
}

/// A line ends at the first newline, and a carriage return before that does not belong to
/// it; what follows is split in the same way. A text without a newline is one line, and an
/// empty text has none.
pub proof fn lemma_lines_end_at_newlines(line: Seq<char>, rest: Seq<char>)
    requires
        !line.contains('\n'),
    ensures
        lines_of(line.push('\n') + rest) == seq![
            if line.len() > 0 && line.last() == '\r' {
                line.drop_last()
            } else {
                line
            },
        ] + lines_of(rest),
        line.len() > 0 ==> lines_of(line) == seq![line],
        lines_of(Seq::empty()).len() == 0,
{
    let head = line.push('\n');
    let s = head + rest;
    let n = line.len() as int;
    assert forall|i: int| 0 <= i < n implies s[i] != '\n' by {
        assert(line[i] == s[i]);
    }
    assert(s[n] == '\n');
    lemma_newline_at(s, 0, n);
    assert(newline_at(s, n) == n);
    assert(s.subrange(0, n) =~= line);
    lemma_lines_shift(head, rest, 0);
    assert(lines_of(s) == seq![without_cr(line)] + lines_from(s, n + 1));
    assert forall|i: int| 0 <= i < n implies line[i] != '\n' by {}
    if n > 0 {
        lemma_newline_at(line, 0, n);
        assert(newline_at(line, n) == n);
        assert(line.subrange(0, n) =~= line);
    }
}

/// What a hexadecimal digit stands for.
pub open spec fn digit_value(c: char) -> int {
    if '0' <= c <= '9' {
        c as int - 48
    } else {
        c as int - 87
    }
}

/// What decimal digits stand for.
pub open spec fn number_of(digits: Seq<char>) -> int
    decreases digits.len(),
{
    if digits.len() == 0 {
        0
    } else {
        10 * number_of(digits.drop_last()) + digit_value(digits.last())
    }
}

/// A digit stands for its value: from nought to nine a figure, and then a letter in lower
/// case.
pub proof fn lemma_digits_stand_for_their_values(n: int)
    requires
        0 <= n < 16,
    ensures
        digit_value(hex_digit(n)) == n,
        n < 10 <==> '0' <= hex_digit(n) <= '9',
        n >= 10 <==> 'a' <= hex_digit(n) <= 'f',
{
}

/// The decimal digits of a number stand for it; they are figures, and the first is no
/// nought where there are more.
pub proof fn lemma_decimal_stands_for_the_number(n: nat)
    ensures
        number_of(decimal(n)) == n,
        decimal(n).len() > 0,
        forall|i: int| 0 <= i < decimal(n).len() ==> '0' <= #[trigger] decimal(n)[i] <= '9',
        n > 0 ==> decimal(n)[0] != '0',
    decreases n,
{
    reveal_with_fuel(number_of, 2);
    let d = decimal(n);
    if n >= 10 {
        lemma_decimal_stands_for_the_number(n / 10);
        let before = decimal(n / 10);
        assert(d.drop_last() =~= before);
        assert(d.last() == hex_digit((n % 10) as int));
        lemma_digits_stand_for_their_values((n % 10) as int);
        assert forall|i: int| 0 <= i < d.len() implies '0' <= #[trigger] d[i] <= '9' by {
            if i < before.len() {
                assert(d[i] == before[i]);
            }
        }
    } else {
        lemma_digits_stand_for_their_values(n as int);
        assert(d.drop_last() =~= Seq::<char>::empty());
    }
}

/// An integer is written as its size, behind a minus sign where it is negative.
pub proof fn lemma_integer_has_its_sign(n: int)
    ensures
        n >= 0 ==> number_of(integer(n)) == n,
        n < 0 ==> integer(n) == "-"@ + integer(-n),
{
    if n >= 0 {
        lemma_decimal_stands_for_the_number(n as nat);
    }
}

/// Each byte is written as two hexadecimal digits that stand for it, in order.
pub proof fn lemma_hex_stands_for_the_bytes(bytes: Seq<u8>)
    ensures
        hex(bytes).len() == 2 * bytes.len(),
        forall|i: int|
            0 <= i < bytes.len() ==> (#[trigger] bytes[i]) as int == 16 * digit_value(
                hex(bytes)[2 * i],
            ) + digit_value(hex(bytes)[2 * i + 1]),
    decreases bytes.len(),
{
    if bytes.len() > 0 {
        let rest = bytes.drop_last();
        lemma_hex_stands_for_the_bytes(rest);
        let h = hex(bytes);
        let last = bytes.last() as int;
        lemma_digits_stand_for_their_values(last / 16);
        lemma_digits_stand_for_their_values(last % 16);
        assert forall|i: int| 0 <= i < bytes.len() implies (#[trigger] bytes[i]) as int == 16
            * digit_value(h[2 * i]) + digit_value(h[2 * i + 1]) by {
            if i < rest.len() {
                assert(rest[i] == bytes[i]);
                assert(h[2 * i] == hex(rest)[2 * i]);
                assert(h[2 * i + 1] == hex(rest)[2 * i + 1]);
            }
        }
    }
}

/// Of two texts that are alike up to a place, the one with the lower character there comes
/// first, and so does the one that ends there.
pub proof fn lemma_first_difference_decides(a: Seq<char>, b: Seq<char>, k: int)
    requires
        0 <= k <= a.len(),
        k <= b.len(),
        a.take(k) == b.take(k),
    ensures
        k < a.len() && k < b.len() && a[k] != b[k] ==> (text_before(a, b) <==> (a[k] as int) < (
        b[k] as int)),
        k == a.len() ==> (text_before(a, b) <==> k < b.len()),
        k == b.len() ==> !text_before(a, b),
    decreases k,
{
    if k > 0 {
        assert(a[0] == a.take(k)[0]);
        assert(b[0] == b.take(k)[0]);
        assert(a[0] == b[0]);
        assert(a.drop_first().take(k - 1) =~= a.take(k).drop_first());
        assert(b.drop_first().take(k - 1) =~= b.take(k).drop_first());
        lemma_first_difference_decides(a.drop_first(), b.drop_first(), k - 1);
    }
}

/// The first so many characters of a text are those that stand first in it.
pub proof fn lemma_prefix_is_what_stands_first(s: Seq<char>, n: nat)
    ensures
        prefix_of_len(s, n).len() <= n,
        has_prefix(s, prefix_of_len(s, n)),
        s.len() >= n ==> prefix_of_len(s, n).len() == n,
        s.len() <= n ==> prefix_of_len(s, n) == s,
{
    if s.len() <= n {
        assert(s.take(s.len() as int) =~= s);
    }
}

} // verus!
