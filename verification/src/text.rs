//! Text as sequences of characters: trimming, prefixes, joining, padding,
//! ordering and decimal numerals.
use vstd::prelude::*;
use vstd::string::*;

verus! {

/// The Unicode `White_Space` characters.
pub open spec fn is_space(c: char) -> bool {
    ||| '\u{9}' <= c <= '\u{d}'
    ||| c == ' '
    ||| c == '\u{85}'
    ||| c == '\u{a0}'
    ||| c == '\u{1680}'
    ||| '\u{2000}' <= c <= '\u{200a}'
    ||| c == '\u{2028}'
    ||| c == '\u{2029}'
    ||| c == '\u{202f}'
    ||| c == '\u{205f}'
    ||| c == '\u{3000}'
}

/// `char::is_whitespace` answers whether a character has the `White_Space`
/// property; `is_space` lists the characters that have it.
pub assume_specification[ char::is_whitespace ](c: char) -> (r: bool)
    ensures
        r == is_space(c),
;

/// `String::push` appends one character.
pub assume_specification[ String::push ](s: &mut String, c: char)
    ensures
        final(s)@ == old(s)@.push(c),
;

/// `==` on string slices holds exactly when both have the same characters.
pub assume_specification[ <str as PartialEq>::eq ](a: &str, b: &str) -> (r: bool)
    ensures
        r == (a@ == b@),
;

/// A text in quotes, with the escapes that Rust's `{:?}` puts into it.
pub uninterp spec fn quoted_of(text: Seq<char>) -> Seq<char>;

/// `format!` with `{:?}` on a string slice. The contract claims that the
/// result depends on the characters alone.
#[verifier::external_body]
pub(crate) fn quoted(text: &str) -> (r: String)
    ensures
        r@ == quoted_of(text@),
{
    format!("{:?}", text)
}

// ---- views of collections of strings ----------------------------------------

/// The characters of an optional string.
pub open spec fn opt_text(o: Option<String>) -> Option<Seq<char>> {
    match o {
        Some(s) => Some(s@),
        None => None,
    }
}

/// The characters of each string of a list.
pub open spec fn texts(list: Seq<String>) -> Seq<Seq<char>> {
    list.map_values(|s: String| s@)
}

// ---- blank text and trimming ------------------------------------------------

/// Only white space, or nothing at all.
pub open spec fn is_blank(s: Seq<char>) -> bool {
    forall|i: int| 0 <= i < s.len() ==> is_space(#[trigger] s[i])
}

pub open spec fn trim_start(s: Seq<char>) -> Seq<char>
    decreases s.len(),
{
    if s.len() > 0 && is_space(s[0]) {
        trim_start(s.drop_first())
    } else {
        s
    }
}

pub open spec fn trim_end(s: Seq<char>) -> Seq<char>
    decreases s.len(),
{
    if s.len() > 0 && is_space(s.last()) {
        trim_end(s.drop_last())
    } else {
        s
    }
}

/// `s` without the white space at its two ends.
pub open spec fn trim(s: Seq<char>) -> Seq<char> {
    trim_end(trim_start(s))
}

/// `s` without the leading run of `c`.
pub open spec fn strip_leading(s: Seq<char>, c: char) -> Seq<char>
    decreases s.len(),
{
    if s.len() > 0 && s[0] == c {
        strip_leading(s.drop_first(), c)
    } else {
        s
    }
}

/// `s` without the trailing run of `c`.
pub open spec fn strip_trailing(s: Seq<char>, c: char) -> Seq<char>
    decreases s.len(),
{
    if s.len() > 0 && s.last() == c {
        strip_trailing(s.drop_last(), c)
    } else {
        s
    }
}

/// What is left does not end in `c`.
pub proof fn lemma_strip_trailing_end(s: Seq<char>, c: char)
    ensures
        strip_trailing(s, c).len() > 0 ==> strip_trailing(s, c).last() != c,
    decreases s.len(),
{
    if s.len() > 0 && s.last() == c {
        lemma_strip_trailing_end(s.drop_last(), c);
    }
}

/// Where the first `from` characters are white space, trimming starts after
/// them.
proof fn lemma_trim_start_skips(s: Seq<char>, from: int)
    requires
        0 <= from <= s.len(),
        forall|i: int| 0 <= i < from ==> is_space(#[trigger] s[i]),
    ensures
        trim_start(s) == trim_start(s.skip(from)),
    decreases from,
{
    if from > 0 {
        let rest = s.drop_first();
        assert forall|i: int| 0 <= i < from - 1 implies is_space(#[trigger] rest[i]) by {
            assert(rest[i] == s[i + 1]);
        }
        lemma_trim_start_skips(rest, from - 1);
        assert(rest.skip(from - 1) =~= s.skip(from));
    } else {
        assert(s.skip(0) =~= s);
    }
}

proof fn lemma_trim_end_skips(s: Seq<char>, to: int)
    requires
        0 <= to <= s.len(),
        forall|i: int| to <= i < s.len() ==> is_space(#[trigger] s[i]),
    ensures
        trim_end(s) == trim_end(s.take(to)),
    decreases s.len() - to,
{
    if to < s.len() {
        let rest = s.drop_last();
        assert(is_space(s[s.len() - 1]));
        lemma_trim_end_skips(rest, to);
        assert(rest.take(to) =~= s.take(to));
    } else {
        assert(s.take(to) =~= s);
    }
}

/// Trimming leaves a stretch of the text: it starts and ends at characters
/// that are not white space, and only white space is cut away.
pub proof fn lemma_trim_is_stretch(s: Seq<char>) -> (r: (int, int))
    ensures
        0 <= r.0 <= r.1 <= s.len(),
        trim(s) == s.subrange(r.0, r.1),
        r.0 < r.1 ==> !is_space(s[r.0]) && !is_space(s[r.1 - 1]),
        forall|i: int| 0 <= i < r.0 ==> is_space(#[trigger] s[i]),
        forall|i: int| r.1 <= i < s.len() ==> is_space(#[trigger] s[i]),
{
    let a = lemma_trim_start_is_suffix(s);
    let t = trim_start(s);
    let b = lemma_trim_end_is_prefix(t);
    if a == s.len() {
        assert(t =~= Seq::<char>::empty());
        assert(trim(s) =~= s.subrange(a, a));
        (a, a)
    } else {
        assert(t[0] == s[a]);
        assert(!is_space(t[0]));
        if b == 0 {
            assert(is_space(t[0]));
        }
        assert(trim(s) =~= s.subrange(a, a + b));
        assert forall|i: int| a + b <= i < s.len() implies is_space(#[trigger] s[i]) by {
            assert(t[i - a] == s[i]);
        }
        assert(t[b - 1] == s[a + b - 1]);
        (a, a + b)
    }
}

proof fn lemma_trim_start_is_suffix(s: Seq<char>) -> (a: int)
    ensures
        0 <= a <= s.len(),
        trim_start(s) == s.skip(a),
        a < s.len() ==> !is_space(s[a]),
        forall|i: int| 0 <= i < a ==> is_space(#[trigger] s[i]),
    decreases s.len(),
{
    if s.len() > 0 && is_space(s[0]) {
        let rest = s.drop_first();
        let a = lemma_trim_start_is_suffix(rest) + 1;
        assert(rest.skip(a - 1) =~= s.skip(a));
        assert forall|i: int| 0 <= i < a implies is_space(#[trigger] s[i]) by {
            if i > 0 {
                assert(rest[i - 1] == s[i]);
            }
        }
        a
    } else {
        assert(s.skip(0) =~= s);
        0
    }
}

proof fn lemma_trim_end_is_prefix(s: Seq<char>) -> (b: int)
    ensures
        0 <= b <= s.len(),
        trim_end(s) == s.take(b),
        b > 0 ==> !is_space(s[b - 1]),
        forall|i: int| b <= i < s.len() ==> is_space(#[trigger] s[i]),
    decreases s.len(),
{
    if s.len() > 0 && is_space(s.last()) {
        let rest = s.drop_last();
        let b = lemma_trim_end_is_prefix(rest);
        assert(rest.take(b) =~= s.take(b));
        assert forall|i: int| b <= i < s.len() implies is_space(#[trigger] s[i]) by {
            if i < s.len() - 1 {
                assert(rest[i] == s[i]);
            }
        }
        b
    } else {
        assert(s.take(s.len() as int) =~= s);
        s.len() as int
    }
}

/// Trimmed text is empty exactly when the text was blank.
pub proof fn lemma_trim_empty(s: Seq<char>)
    ensures
        (trim(s).len() == 0) == is_blank(s),
{
    let (a, b) = lemma_trim_is_stretch(s);
    if a == b {
        assert forall|i: int| 0 <= i < s.len() implies is_space(#[trigger] s[i]) by {}
    } else {
        assert(!is_space(s[a]));
    }
}

/// Trimming a second time changes nothing.
pub proof fn lemma_trim_twice(s: Seq<char>)
    ensures
        trim(trim(s)) == trim(s),
{
    let (a, b) = lemma_trim_is_stretch(s);
    let t = trim(s);
    if t.len() > 0 {
        assert(t[0] == s[a]);
        assert(t.last() == s[b - 1]);
    }
}

// ---- reading a string slice -------------------------------------------------

/// The characters of a string, in order.
pub fn chars_of(s: &str) -> (r: Vec<char>)
    ensures
        r@ == s@,
{
    let mut out: Vec<char> = Vec::new();
    for c in it: s.chars()
        invariant
            it.seq() == s@,
            out@ == s@.take(it.index() as int),
    {
        out.push(c);
    }
    out
}

/// Whether two strings have the same characters.
pub fn same(a: &str, b: &str) -> (r: bool)
    ensures
        r == (a@ == b@),
{
    *a == *b
}

pub fn blank(s: &str) -> (r: bool)
    ensures
        r == is_blank(s@),
{
    for c in it: s.chars()
        invariant
            it.seq() == s@,
            forall|i: int| 0 <= i < it.index() ==> is_space(#[trigger] s@[i]),
    {
        if !c.is_whitespace() {
            return false;
        }
    }
    true
}

/// Cuts the white space off the two ends.
pub fn trimmed(s: &str) -> (r: &str)
    ensures
        r@ == trim(s@),
{
    let chars = chars_of(s);
    let n: usize = chars.len();
    let mut from: usize = 0;
    while from < n && chars[from].is_whitespace()
        invariant
            n == chars.len(),
            from <= n,
            forall|i: int| 0 <= i < from ==> is_space(#[trigger] chars@[i]),
        decreases n - from,
    {
        from += 1;
    }
    let mut to: usize = n;
    while from < to && chars[to - 1].is_whitespace()
        invariant
            n == chars.len(),
            from <= to <= n,
            forall|i: int| to <= i < n ==> is_space(#[trigger] chars@[i]),
        decreases to,
    {
        to -= 1;
    }
    proof {
        lemma_trim_start_skips(s@, from as int);
        let t = s@.skip(from as int);
        assert(trim_start(t) == t);
        assert forall|i: int| to - from <= i < t.len() implies is_space(#[trigger] t[i]) by {
            assert(t[i] == chars@[i + from]);
        }
        lemma_trim_end_skips(t, to - from);
        assert(t.take(to - from) =~= s@.subrange(from as int, to as int));
        let u = s@.subrange(from as int, to as int);
        assert(trim_end(u) == u);
    }
    s.substring_char(from, to)
}

/// Cuts the leading run of `c` off.
pub fn without_leading(s: &str, c: char) -> (r: &str)
    ensures
        r@ == strip_leading(s@, c),
{
    let n: usize = s.unicode_len();
    let mut from: usize = 0;
    assert(s@.skip(0) =~= s@);
    while from < n && s.get_char(from) == c
        invariant
            n == s@.len(),
            from <= n,
            strip_leading(s@, c) == strip_leading(s@.skip(from as int), c),
        decreases n - from,
    {
        proof {
            assert(s@.skip(from as int).drop_first() =~= s@.skip(from + 1));
        }
        from += 1;
    }
    assert(s@.skip(from as int) =~= s@.subrange(from as int, n as int));
    s.substring_char(from, n)
}

/// Cuts the trailing run of `c` off.
pub fn without_trailing(s: &str, c: char) -> (r: &str)
    ensures
        r@ == strip_trailing(s@, c),
{
    let n: usize = s.unicode_len();
    let mut to: usize = n;
    assert(s@.take(n as int) =~= s@);
    while to > 0 && s.get_char(to - 1) == c
        invariant
            n == s@.len(),
            to <= n,
            strip_trailing(s@, c) == strip_trailing(s@.take(to as int), c),
        decreases to,
    {
        proof {
            assert(s@.take(to as int).drop_last() =~= s@.take(to - 1));
        }
        to -= 1;
    }
    assert(s@.take(to as int) =~= s@.subrange(0, to as int));
    s.substring_char(0, to)
}

/// Cuts the white space off the end.
pub fn trimmed_end(s: &str) -> (r: &str)
    ensures
        r@ == trim_end(s@),
{
    let n: usize = s.unicode_len();
    let mut to: usize = n;
    assert(s@.take(n as int) =~= s@);
    while to > 0 && s.get_char(to - 1).is_whitespace()
        invariant
            n == s@.len(),
            to <= n,
            trim_end(s@) == trim_end(s@.take(to as int)),
        decreases to,
    {
        proof {
            assert(s@.take(to as int).drop_last() =~= s@.take(to - 1));
        }
        to -= 1;
    }
    assert(s@.take(to as int) =~= s@.subrange(0, to as int));
    s.substring_char(0, to)
}

// ---- prefixes, suffixes and single characters -------------------------------

/// What follows `prefix` in `s`, where `s` begins with it.
pub open spec fn after_prefix(s: Seq<char>, prefix: Seq<char>) -> Option<Seq<char>> {
    if prefix.is_prefix_of(s) {
        Some(s.skip(prefix.len() as int))
    } else {
        None
    }
}

/// What precedes `suffix` in `s`, where `s` ends with it.
pub open spec fn before_suffix(s: Seq<char>, suffix: Seq<char>) -> Option<Seq<char>> {
    if suffix.is_suffix_of(s) {
        Some(s.take(s.len() - suffix.len()))
    } else {
        None
    }
}

pub open spec fn opt_slice(o: Option<&str>) -> Option<Seq<char>> {
    match o {
        Some(s) => Some(s@),
        None => None,
    }
}

pub fn rest_after<'a>(s: &'a str, prefix: &str) -> (r: Option<&'a str>)
    ensures
        opt_slice(r) == after_prefix(s@, prefix@),
{
    let n: usize = s.unicode_len();
    let m: usize = prefix.unicode_len();
    if m <= n && same(s.substring_char(0, m), prefix) {
        assert(s@.skip(m as int) =~= s@.subrange(m as int, n as int));
        Some(s.substring_char(m, n))
    } else {
        None
    }
}

pub fn rest_before<'a>(s: &'a str, suffix: &str) -> (r: Option<&'a str>)
    ensures
        opt_slice(r) == before_suffix(s@, suffix@),
{
    let n: usize = s.unicode_len();
    let m: usize = suffix.unicode_len();
    if m <= n && same(s.substring_char(n - m, n), suffix) {
        assert(s@.take(n - m) =~= s@.subrange(0, n - m));
        Some(s.substring_char(0, n - m))
    } else {
        None
    }
}

/// Whether `s` begins with the character `c`.
pub fn begins_with(s: &str, c: char) -> (r: bool)
    ensures
        r == (s@.len() > 0 && s@[0] == c),
{
    s.unicode_len() > 0 && s.get_char(0) == c
}

/// Whether `s` ends with the character `c`.
pub fn ends_with(s: &str, c: char) -> (r: bool)
    ensures
        r == (s@.len() > 0 && s@.last() == c),
{
    let n: usize = s.unicode_len();
    n > 0 && s.get_char(n - 1) == c
}

/// The part of `s` before the first `c`: all of it where `c` does not occur.
pub open spec fn up_to_first(s: Seq<char>, c: char) -> Seq<char>
    decreases s.len(),
{
    if s.len() == 0 || s[0] == c {
        Seq::empty()
    } else {
        seq![s[0]] + up_to_first(s.drop_first(), c)
    }
}

pub proof fn lemma_up_to_first(s: Seq<char>, c: char, n: int)
    requires
        0 <= n <= s.len(),
        forall|i: int| 0 <= i < n ==> #[trigger] s[i] != c,
        n == s.len() || s[n] == c,
    ensures
        up_to_first(s, c) == s.take(n),
    decreases n,
{
    if n > 0 {
        let rest = s.drop_first();
        assert forall|i: int| 0 <= i < n - 1 implies #[trigger] rest[i] != c by {
            assert(rest[i] == s[i + 1]);
        }
        lemma_up_to_first(rest, c, n - 1);
        assert(seq![s[0]] + rest.take(n - 1) =~= s.take(n));
    } else {
        assert(s.take(0) =~= Seq::empty());
    }
}

pub fn before_first(s: &str, c: char) -> (r: &str)
    ensures
        r@ == up_to_first(s@, c),
{
    let n: usize = s.unicode_len();
    let mut i: usize = 0;
    while i < n && s.get_char(i) != c
        invariant
            n == s@.len(),
            i <= n,
            forall|j: int| 0 <= j < i ==> #[trigger] s@[j] != c,
        decreases n - i,
    {
        i += 1;
    }
    proof {
        lemma_up_to_first(s@, c, i as int);
        assert(s@.take(i as int) =~= s@.subrange(0, i as int));
    }
    s.substring_char(0, i)
}

/// The part of `s` before the last `c`, and nothing where `c` does not occur.
pub open spec fn up_to_last(s: Seq<char>, c: char) -> Seq<char>
    decreases s.len(),
{
    if s.len() == 0 {
        s
    } else if s.last() == c {
        s.drop_last()
    } else {
        up_to_last(s.drop_last(), c)
    }
}

pub fn before_last(s: &str, c: char) -> (r: &str)
    ensures
        r@ == up_to_last(s@, c),
{
    let mut i: usize = s.unicode_len();
    assert(s@.take(i as int) =~= s@);
    while i > 0
        invariant
            i <= s@.len(),
            up_to_last(s@, c) == up_to_last(s@.take(i as int), c),
        decreases i,
    {
        i -= 1;
        proof {
            assert(s@.take(i + 1).drop_last() =~= s@.take(i as int));
        }
        if s.get_char(i) == c {
            assert(s@.take(i as int) =~= s@.subrange(0, i as int));
            return s.substring_char(0, i);
        }
    }
    assert(s@.take(0) =~= s@.subrange(0, 0));
    s.substring_char(0, 0)
}

/// The part of `s` after the last `c`: all of it where `c` does not occur.
pub open spec fn from_last(s: Seq<char>, c: char) -> Seq<char>
    decreases s.len(),
{
    if s.len() == 0 || s.last() == c {
        Seq::empty()
    } else {
        from_last(s.drop_last(), c).push(s.last())
    }
}

proof fn lemma_from_last(s: Seq<char>, c: char, n: int)
    requires
        0 <= n <= s.len(),
        forall|i: int| n <= i < s.len() ==> #[trigger] s[i] != c,
        n == 0 || s[n - 1] == c,
    ensures
        from_last(s, c) == s.skip(n),
    decreases s.len(),
{
    if n < s.len() {
        assert(s[s.len() - 1] != c);
        lemma_from_last(s.drop_last(), c, n);
        assert(s.drop_last().skip(n).push(s.last()) =~= s.skip(n));
    } else {
        assert(s.skip(n) =~= Seq::empty());
    }
}

pub fn after_last(s: &str, c: char) -> (r: &str)
    ensures
        r@ == from_last(s@, c),
{
    let n: usize = s.unicode_len();
    let mut i: usize = n;
    while i > 0 && s.get_char(i - 1) != c
        invariant
            n == s@.len(),
            i <= n,
            forall|j: int| i <= j < n ==> #[trigger] s@[j] != c,
        decreases i,
    {
        i -= 1;
    }
    proof {
        lemma_from_last(s@, c, i as int);
        assert(s@.skip(i as int) =~= s@.subrange(i as int, n as int));
    }
    s.substring_char(i, n)
}

// ---- ASCII letter case ------------------------------------------------------

/// The same character, or the same ASCII letter in the other case.
pub open spec fn same_letter(a: char, b: char) -> bool {
    ||| a == b
    ||| 'A' <= a <= 'Z' && b as int == a as int + 32
    ||| 'A' <= b <= 'Z' && a as int == b as int + 32
}

/// Equal but for the case of ASCII letters.
pub open spec fn same_ignoring_case(a: Seq<char>, b: Seq<char>) -> bool {
    a.len() == b.len() && forall|i: int| 0 <= i < a.len() ==> same_letter(#[trigger] a[i], b[i])
}

fn letters_match(a: char, b: char) -> (r: bool)
    ensures
        r == same_letter(a, b),
{
    let x: u32 = a as u32;
    let y: u32 = b as u32;
    a == b || ('A' <= a && a <= 'Z' && y == x + 32) || ('A' <= b && b <= 'Z' && x == y + 32)
}

pub fn equal_ignoring_case(a: &str, b: &str) -> (r: bool)
    ensures
        r == same_ignoring_case(a@, b@),
{
    let n: usize = a.unicode_len();
    if n != b.unicode_len() {
        return false;
    }
    let mut i: usize = 0;
    while i < n
        invariant
            n == a@.len(),
            n == b@.len(),
            i <= n,
            forall|j: int| 0 <= j < i ==> same_letter(#[trigger] a@[j], b@[j]),
        decreases n - i,
    {
        if !letters_match(a.get_char(i), b.get_char(i)) {
            assert(!same_letter(a@[i as int], b@[i as int]));
            return false;
        }
        i += 1;
    }
    true
}

// ---- numerals ---------------------------------------------------------------

pub open spec fn digit(d: nat) -> char {
    if d == 0 {
        '0'
    } else if d == 1 {
        '1'
    } else if d == 2 {
        '2'
    } else if d == 3 {
        '3'
    } else if d == 4 {
        '4'
    } else if d == 5 {
        '5'
    } else if d == 6 {
        '6'
    } else if d == 7 {
        '7'
    } else if d == 8 {
        '8'
    } else {
        '9'
    }
}

/// The decimal numeral of `n`, without leading zeros.
pub open spec fn decimal(n: nat) -> Seq<char>
    decreases n,
{
    if n < 10 {
        seq![digit(n)]
    } else {
        decimal(n / 10).push(digit(n % 10))
    }
}

pub(crate) fn digit_char(d: u128) -> (c: char)
    requires
        d < 10,
    ensures
        c == digit(d as nat),
{
    if d == 0 {
        '0'
    } else if d == 1 {
        '1'
    } else if d == 2 {
        '2'
    } else if d == 3 {
        '3'
    } else if d == 4 {
        '4'
    } else if d == 5 {
        '5'
    } else if d == 6 {
        '6'
    } else if d == 7 {
        '7'
    } else if d == 8 {
        '8'
    } else {
        '9'
    }
}

/// Writes `n` in decimal.
pub fn numeral(n: u128) -> (r: String)
    ensures
        r@ == decimal(n as nat),
    decreases n,
{
    if n < 10 {
        let mut out = String::new();
        out.push(digit_char(n));
        assert(out@ =~= seq![digit(n as nat)]);
        out
    } else {
        let mut out = numeral(n / 10);
        out.push(digit_char(n % 10));
        out
    }
}

// ---- building text ----------------------------------------------------------

/// The pieces one after the other.
pub open spec fn concat(pieces: Seq<Seq<char>>) -> Seq<char>
    decreases pieces.len(),
{
    if pieces.len() == 0 {
        Seq::empty()
    } else {
        concat(pieces.drop_last()) + pieces.last()
    }
}

/// One more piece goes to the end.
pub proof fn lemma_concat_push(pieces: Seq<Seq<char>>, piece: Seq<char>)
    ensures
        concat(pieces.push(piece)) == concat(pieces) + piece,
{
    assert(pieces.push(piece).drop_last() =~= pieces);
}

/// The pieces one after the other, with `sep` between two of them.
pub open spec fn join(pieces: Seq<Seq<char>>, sep: Seq<char>) -> Seq<char>
    decreases pieces.len(),
{
    if pieces.len() == 0 {
        Seq::empty()
    } else if pieces.len() == 1 {
        pieces[0]
    } else {
        join(pieces.drop_last(), sep) + sep + pieces.last()
    }
}

/// Joins the strings of a list.
pub fn joined(pieces: &Vec<String>, sep: &str) -> (r: String)
    ensures
        r@ == join(texts(pieces@), sep@),
{
    let mut out = String::new();
    let mut i: usize = 0;
    assert(texts(pieces@).take(0) =~= Seq::<Seq<char>>::empty());
    while i < pieces.len()
        invariant
            i <= pieces.len(),
            out@ == join(texts(pieces@).take(i as int), sep@),
        decreases pieces.len() - i,
    {
        proof {
            let t = texts(pieces@);
            assert(t.take(i + 1).drop_last() =~= t.take(i as int));
            assert(t.take(i + 1).last() == pieces@[i as int]@);
            if i == 0 {
                assert(Seq::<char>::empty() + t[0] =~= t[0]);
            }
        }
        if i > 0 {
            out.append(sep);
        }
        out.append(pieces[i].as_str());
        i += 1;
    }
    assert(texts(pieces@).take(i as int) =~= texts(pieces@));
    out
}

/// A run of `n` spaces.
pub open spec fn spaces(n: int) -> Seq<char> {
    Seq::new(if n > 0 { n as nat } else { 0 }, |i: int| ' ')
}

/// `s` filled up with spaces behind it to at least `width` characters.
pub open spec fn pad_end(s: Seq<char>, width: int) -> Seq<char> {
    s + spaces(width - s.len())
}

/// `s` filled up with spaces before it to at least `width` characters.
pub open spec fn pad_start(s: Seq<char>, width: int) -> Seq<char> {
    spaces(width - s.len()) + s
}

/// Appends `s`, filled up with spaces to `width`.
pub fn append_padded(out: &mut String, s: &str, width: usize)
    ensures
        final(out)@ == old(out)@ + pad_end(s@, width as int),
{
    out.append(s);
    let mut n: usize = s.unicode_len();
    assert(pad_end(s@, n as int) =~= s@);
    while n < width
        invariant
            s@.len() <= n,
            n <= width || n == s@.len(),
            out@ == old(out)@ + pad_end(s@, n as int),
        decreases width - n,
    {
        out.push(' ');
        n += 1;
        assert(out@ =~= old(out)@ + pad_end(s@, n as int));
    }
    assert(pad_end(s@, n as int) =~= pad_end(s@, width as int));
}

/// `s` filled up with spaces before it.
pub fn padded_start(s: &str, width: usize) -> (r: String)
    ensures
        r@ == pad_start(s@, width as int),
{
    let len: usize = s.unicode_len();
    let mut out = String::new();
    let mut n: usize = len;
    assert(out@ =~= spaces(0));
    while n < width
        invariant
            len == s@.len(),
            len <= n,
            n <= width || n == len,
            out@ == spaces(n - len),
        decreases width - n,
    {
        out.push(' ');
        n += 1;
        assert(out@ =~= spaces(n - len));
    }
    out.append(s);
    assert(out@ =~= pad_start(s@, width as int));
    out
}

// ---- lines ------------------------------------------------------------------

/// The text holds no line feed.
pub open spec fn is_one_line(s: Seq<char>) -> bool {
    forall|i: int| 0 <= i < s.len() ==> #[trigger] s[i] != '\n'
}

pub proof fn lemma_one_line_sum(a: Seq<char>, b: Seq<char>)
    requires
        is_one_line(a),
        is_one_line(b),
    ensures
        is_one_line(a + b),
{
    assert forall|i: int| 0 <= i < (a + b).len() implies #[trigger] (a + b)[i] != '\n' by {
        if i < a.len() {
            assert((a + b)[i] == a[i]);
        } else {
            assert((a + b)[i] == b[i - a.len()]);
        }
    }
}

pub proof fn lemma_one_line_join(pieces: Seq<Seq<char>>, sep: Seq<char>)
    requires
        is_one_line(sep),
        forall|k: int| 0 <= k < pieces.len() ==> is_one_line(#[trigger] pieces[k]),
    ensures
        is_one_line(join(pieces, sep)),
    decreases pieces.len(),
{
    if pieces.len() > 1 {
        let past = pieces.drop_last();
        assert forall|k: int| 0 <= k < past.len() implies is_one_line(#[trigger] past[k]) by {
            assert(past[k] == pieces[k]);
        }
        lemma_one_line_join(past, sep);
        lemma_one_line_sum(join(past, sep), sep);
        lemma_one_line_sum(join(past, sep) + sep, pieces[pieces.len() - 1]);
    }
}

pub proof fn lemma_one_line_decimal(n: nat)
    ensures
        is_one_line(decimal(n)),
    decreases n,
{
    if n >= 10 {
        lemma_one_line_decimal(n / 10);
    }
}

// ---- ordering ---------------------------------------------------------------

/// Code point order: `a` comes before `b` in a sorted list.
pub open spec fn precedes(a: Seq<char>, b: Seq<char>) -> bool
    decreases a.len(),
{
    if b.len() == 0 {
        false
    } else if a.len() == 0 {
        true
    } else if a[0] == b[0] {
        precedes(a.drop_first(), b.drop_first())
    } else {
        a[0] < b[0]
    }
}

pub fn comes_before(a: &str, b: &str) -> (r: bool)
    ensures
        r == precedes(a@, b@),
{
    let n: usize = a.unicode_len();
    let m: usize = b.unicode_len();
    let mut i: usize = 0;
    assert(a@.skip(0) =~= a@);
    assert(b@.skip(0) =~= b@);
    while i < n && i < m
        invariant
            n == a@.len(),
            m == b@.len(),
            i <= n,
            i <= m,
            precedes(a@, b@) == precedes(a@.skip(i as int), b@.skip(i as int)),
        decreases n - i,
    {
        proof {
            assert(a@.skip(i as int).drop_first() =~= a@.skip(i + 1));
            assert(b@.skip(i as int).drop_first() =~= b@.skip(i + 1));
        }
        let x: char = a.get_char(i);
        let y: char = b.get_char(i);
        if x != y {
            return x < y;
        }
        i += 1;
    }
    i < m
}

proof fn lemma_precedes_total(a: Seq<char>, b: Seq<char>)
    ensures
        precedes(a, b) || precedes(b, a) || a == b,
    decreases a.len(),
{
    if a.len() > 0 && b.len() > 0 && a[0] == b[0] {
        lemma_precedes_total(a.drop_first(), b.drop_first());
        if a.drop_first() == b.drop_first() {
            assert(a =~= seq![a[0]] + a.drop_first());
            assert(b =~= seq![b[0]] + b.drop_first());
        }
    } else if a.len() == 0 && b.len() == 0 {
        assert(a =~= b);
    }
}

proof fn lemma_precedes_transitive(a: Seq<char>, b: Seq<char>, c: Seq<char>)
    requires
        precedes(a, b),
        precedes(b, c),
    ensures
        precedes(a, c),
    decreases a.len(),
{
    if a.len() > 0 && b.len() > 0 && c.len() > 0 && a[0] == b[0] && b[0] == c[0] {
        lemma_precedes_transitive(a.drop_first(), b.drop_first(), c.drop_first());
    }
}

/// Each text of the list comes before the next ones.
pub open spec fn is_ascending(list: Seq<Seq<char>>) -> bool {
    forall|i: int, j: int|
        0 <= i < j < list.len() ==> precedes(#[trigger] list[i], #[trigger] list[j])
}

/// `text` put at its place in an ascending list; a text that is there already
/// is not put in twice.
pub open spec fn with_text(list: Seq<Seq<char>>, text: Seq<char>) -> Seq<Seq<char>>
    decreases list.len(),
{
    if list.len() == 0 {
        seq![text]
    } else if list.last() == text {
        list
    } else if precedes(list.last(), text) {
        list.push(text)
    } else {
        with_text(list.drop_last(), text).push(list.last())
    }
}

/// The distinct texts of a list, in ascending order.
pub open spec fn sorted_set(list: Seq<Seq<char>>) -> Seq<Seq<char>>
    decreases list.len(),
{
    if list.len() == 0 {
        Seq::empty()
    } else {
        with_text(sorted_set(list.drop_last()), list.last())
    }
}

proof fn lemma_with_text(list: Seq<Seq<char>>, text: Seq<char>)
    requires
        is_ascending(list),
    ensures
        is_ascending(with_text(list, text)),
        forall|x: Seq<char>| #[trigger]
            with_text(list, text).contains(x) == (list.contains(x) || x == text),
    decreases list.len(),
{
    let out = with_text(list, text);
    if list.len() == 0 {
        assert forall|x: Seq<char>| #[trigger] out.contains(x) == (list.contains(x) || x
            == text) by {
            assert(out[0] == text);
        }
    } else if list.last() == text {
        assert(list[list.len() - 1] == text);
    } else if precedes(list.last(), text) {
        assert forall|i: int, j: int| 0 <= i < j < out.len() implies precedes(
            #[trigger] out[i],
            #[trigger] out[j],
        ) by {
            if j == list.len() && i < list.len() - 1 {
                lemma_precedes_transitive(list[i], list.last(), text);
            }
        }
        assert forall|x: Seq<char>| #[trigger] out.contains(x) == (list.contains(x) || x
            == text) by {
            if out.contains(x) {
                let i = choose|i: int| 0 <= i < out.len() && out[i] == x;
                if i < list.len() {
                    assert(list[i] == x);
                }
            }
            if list.contains(x) {
                let i = choose|i: int| 0 <= i < list.len() && list[i] == x;
                assert(out[i] == x);
            }
            assert(out[list.len() as int] == text);
        }
    } else {
        let rest = list.drop_last();
        let inner = with_text(rest, text);
        lemma_with_text(rest, text);
        lemma_precedes_total(list.last(), text);
        assert forall|i: int, j: int| 0 <= i < j < out.len() implies precedes(
            #[trigger] out[i],
            #[trigger] out[j],
        ) by {
            if j == inner.len() {
                assert(inner.contains(inner[i]));
                assert(rest.contains(inner[i]) || inner[i] == text);
                if rest.contains(inner[i]) {
                    let k = choose|k: int| 0 <= k < rest.len() && rest[k] == inner[i];
                    assert(precedes(list[k], list[list.len() - 1]));
                }
            }
        }
        assert forall|x: Seq<char>| #[trigger] out.contains(x) == (list.contains(x) || x
            == text) by {
            if out.contains(x) {
                let i = choose|i: int| 0 <= i < out.len() && out[i] == x;
                if i < inner.len() {
                    assert(inner.contains(x));
                    if rest.contains(x) {
                        let k = choose|k: int| 0 <= k < rest.len() && rest[k] == x;
                        assert(list[k] == x);
                    }
                } else {
                    assert(list[list.len() - 1] == x);
                }
            }
            if list.contains(x) || x == text {
                if x == list.last() {
                    assert(out[inner.len() as int] == x);
                } else {
                    if list.contains(x) {
                        let k = choose|k: int| 0 <= k < list.len() && list[k] == x;
                        assert(rest[k] == x);
                        assert(rest.contains(x));
                    }
                    assert(inner.contains(x));
                    let i = choose|i: int| 0 <= i < inner.len() && inner[i] == x;
                    assert(out[i] == x);
                }
            }
        }
    }
}

/// The sorted set of a list is ascending, so that no text stands in it twice,
/// and it holds exactly the texts of the list.
pub proof fn law_sorted_set(list: Seq<Seq<char>>)
    ensures
        is_ascending(sorted_set(list)),
        forall|x: Seq<char>| #[trigger] sorted_set(list).contains(x) == list.contains(x),
    decreases list.len(),
{
    if list.len() > 0 {
        let rest = list.drop_last();
        law_sorted_set(rest);
        lemma_with_text(sorted_set(rest), list.last());
        assert forall|x: Seq<char>| #[trigger] sorted_set(list).contains(x) == list.contains(
            x,
        ) by {
            if list.contains(x) {
                let i = choose|i: int| 0 <= i < list.len() && list[i] == x;
                if i < rest.len() {
                    assert(rest[i] == x);
                }
            }
            if rest.contains(x) {
                let i = choose|i: int| 0 <= i < rest.len() && rest[i] == x;
                assert(list[i] == x);
            }
            assert(list[list.len() - 1] == list.last());
        }
    }
}

proof fn lemma_precedes_irreflexive(a: Seq<char>)
    ensures
        !precedes(a, a),
    decreases a.len(),
{
    if a.len() > 0 {
        lemma_precedes_irreflexive(a.drop_first());
    }
}

/// All but the last of an ascending list is ascending, and lacks only the last.
proof fn lemma_ascending_drop_last(a: Seq<Seq<char>>)
    requires
        a.len() > 0,
        is_ascending(a),
    ensures
        is_ascending(a.drop_last()),
        forall|x: Seq<char>| #[trigger]
            a.drop_last().contains(x) == (a.contains(x) && x != a.last()),
{
    let rest = a.drop_last();
    assert forall|x: Seq<char>| #[trigger] rest.contains(x) == (a.contains(x) && x != a.last()) by {
        if rest.contains(x) {
            let i = choose|i: int| 0 <= i < rest.len() && rest[i] == x;
            assert(a[i] == x);
            assert(precedes(a[i], a[a.len() - 1]));
            lemma_precedes_irreflexive(x);
        }
        if a.contains(x) && x != a.last() {
            let i = choose|i: int| 0 <= i < a.len() && a[i] == x;
            assert(rest[i] == x);
        }
    }
}

/// Two ascending lists with the same texts are the same list.
pub proof fn lemma_ascending_unique(a: Seq<Seq<char>>, b: Seq<Seq<char>>)
    requires
        is_ascending(a),
        is_ascending(b),
        forall|x: Seq<char>| #[trigger] a.contains(x) == b.contains(x),
    ensures
        a == b,
    decreases a.len(),
{
    if a.len() == 0 {
        if b.len() > 0 {
            assert(b.contains(b[0]));
            assert(a.contains(b[0]));
        }
        assert(a =~= b);
    } else {
        let x = a[a.len() - 1];
        assert(a.contains(x));
        assert(b.contains(x));
        let y = b[b.len() - 1];
        assert(b.contains(y));
        assert(a.contains(y));
        if x != y {
            let i = choose|i: int| 0 <= i < b.len() && b[i] == x;
            assert(precedes(b[i], b[b.len() - 1]));
            let j = choose|j: int| 0 <= j < a.len() && a[j] == y;
            assert(precedes(a[j], a[a.len() - 1]));
            lemma_precedes_transitive(x, y, x);
            lemma_precedes_irreflexive(x);
        }
        lemma_ascending_drop_last(a);
        lemma_ascending_drop_last(b);
        assert forall|z: Seq<char>| #[trigger] a.drop_last().contains(z)
            == b.drop_last().contains(z) by {
            assert(a.contains(z) == b.contains(z));
        }
        lemma_ascending_unique(a.drop_last(), b.drop_last());
        assert(a =~= a.drop_last().push(x));
        assert(b =~= b.drop_last().push(y));
    }
}

/// The characters of each string slice of a list.
pub open spec fn slices(list: Seq<&str>) -> Seq<Seq<char>> {
    list.map_values(|s: &str| s@)
}

/// Puts `text` at its place in an ascending list, unless it is there already.
pub fn insert_sorted<'a>(list: &mut Vec<&'a str>, text: &'a str)
    ensures
        slices(final(list)@) == with_text(slices(old(list)@), text@),
{
    let n: usize = list.len();
    let mut i: usize = n;
    let ghost before = slices(list@);
    assert(before.take(n as int) =~= before);
    assert(before.skip(n as int) =~= Seq::<Seq<char>>::empty());
    assert(with_text(before, text@) + Seq::<Seq<char>>::empty() =~= with_text(before, text@));
    while i > 0
        invariant
            n == list.len(),
            list@ == old(list)@,
            before == slices(list@),
            i <= n,
            with_text(before, text@) == with_text(before.take(i as int), text@) + before.skip(
                i as int,
            ),
        ensures
            i == 0 || (before[i - 1] != text@ && precedes(before[i - 1], text@)),
        decreases i,
    {
        let last = list[i - 1];
        assert(before.take(i as int).last() == last@);
        if same(last, text) {
            assert(before.take(i as int) + before.skip(i as int) =~= before);
            return;
        }
        if comes_before(last, text) {
            break;
        }
        proof {
            let t = before.take(i as int);
            assert(t.drop_last() =~= before.take(i - 1));
            assert(with_text(t.drop_last(), text@).push(t.last()) + before.skip(i as int)
                =~= with_text(before.take(i - 1), text@) + before.skip(i - 1));
        }
        i -= 1;
    }
    proof {
        let t = before.take(i as int);
        if i == 0 {
            assert(with_text(t, text@) =~= t.push(text@));
        }
        assert(with_text(t, text@) == t.push(text@));
    }
    list.insert(i, text);
    assert(slices(list@) =~= before.take(i as int).push(text@) + before.skip(i as int));
}

// ---- what holds of texts ----------------------------------------------------

/// `part` stands somewhere in `text`.
pub open spec fn holds(text: Seq<char>, part: Seq<char>) -> bool {
    exists|i: int|
        0 <= i && i + part.len() <= text.len() && #[trigger] text.subrange(i, i + part.len())
            == part
}

/// What stands between two texts stands in the whole.
pub proof fn lemma_holds(before: Seq<char>, part: Seq<char>, after: Seq<char>)
    ensures
        holds(before + part + after, part),
        holds(before + part, part),
        holds(part + after, part),
        holds(part, part),
{
    let whole = before + part + after;
    let i = before.len() as int;
    assert(whole.subrange(i, i + part.len()) =~= part);
    assert((before + part).subrange(i, i + part.len()) =~= part);
    assert((part + after).subrange(0int, 0int + part.len()) =~= part);
    assert(part.subrange(0int, 0int + part.len()) =~= part);
}

/// What stands in a text stands in every text around it.
pub proof fn lemma_holds_within(
    before: Seq<char>,
    text: Seq<char>,
    after: Seq<char>,
    part: Seq<char>,
)
    requires
        holds(text, part),
    ensures
        holds(before + text + after, part),
        holds(before + text, part),
        holds(text + after, part),
{
    let i = choose|i: int|
        0 <= i && i + part.len() <= text.len() && #[trigger] text.subrange(i, i + part.len())
            == part;
    let j = before.len() + i;
    assert((before + text + after).subrange(j, j + part.len()) =~= part);
    assert((before + text).subrange(j, j + part.len()) =~= part);
    assert((text + after).subrange(i, i + part.len()) =~= part);
}

/// Trimming takes white space off both ends and nothing else: what remains stands in
/// the text with only white space around it, and neither begins nor ends with some.
pub proof fn law_trim_takes_only_white_space(s: Seq<char>) -> (r: (Seq<char>, Seq<char>))
    ensures
        s == r.0 + trim(s) + r.1,
        forall|i: int| 0 <= i < r.0.len() ==> is_space(#[trigger] r.0[i]),
        forall|i: int| 0 <= i < r.1.len() ==> is_space(#[trigger] r.1[i]),
        trim(s).len() > 0 ==> !is_space(trim(s)[0]) && !is_space(trim(s).last()),
{
    let (a, b) = lemma_trim_is_stretch(s);
    let r = (s.take(a), s.skip(b));
    assert(s =~= r.0 + trim(s) + r.1);
    assert forall|i: int| 0 <= i < r.1.len() implies is_space(#[trigger] r.1[i]) by {
        assert(r.1[i] == s[b + i]);
    }
    if a < b {
        assert(trim(s)[0] == s[a]);
        assert(trim(s).last() == s[b - 1]);
    }
    r
}

/// A path splits at the last `c` into what precedes it and what follows it, and the
/// latter holds no `c`. Without a `c` all of it follows.
pub proof fn law_split_at_the_last(s: Seq<char>, c: char)
    ensures
        s.contains(c) ==> s == up_to_last(s, c).push(c) + from_last(s, c),
        !s.contains(c) ==> up_to_last(s, c).len() == 0 && from_last(s, c) == s,
        !from_last(s, c).contains(c),
    decreases s.len(),
{
    if s.len() > 0 {
        let past = s.drop_last();
        law_split_at_the_last(past, c);
        assert(s =~= past.push(s.last()));
        if s.last() == c {
            assert(s[s.len() - 1] == c);
            assert(s =~= up_to_last(s, c).push(c) + from_last(s, c));
        } else {
            let tail = from_last(past, c);
            assert(from_last(s, c) == tail.push(s.last()));
            assert forall|i: int| 0 <= i < tail.push(s.last()).len() implies tail.push(
                s.last(),
            )[i] != c by {
                if i < tail.len() {
                    assert(tail[i] == tail.push(s.last())[i]);
                    assert(tail.contains(tail[i]));
                }
            }
            if s.contains(c) {
                let i = choose|i: int| 0 <= i < s.len() && s[i] == c;
                assert(past[i] == c);
                assert(s =~= up_to_last(s, c).push(c) + from_last(s, c));
            } else {
                if past.contains(c) {
                    let i = choose|i: int| 0 <= i < past.len() && past[i] == c;
                    assert(s[i] == c);
                }
                assert(from_last(s, c) =~= s);
            }
        }
    }
}

/// What precedes the first `c` holds none, and the text goes on with `c` or ends.
pub proof fn law_split_at_the_first(s: Seq<char>, c: char)
    ensures
        up_to_first(s, c).is_prefix_of(s),
        !up_to_first(s, c).contains(c),
        up_to_first(s, c).len() == s.len() || s[up_to_first(s, c).len() as int] == c,
    decreases s.len(),
{
    if s.len() > 0 && s[0] != c {
        let rest = s.drop_first();
        let head = up_to_first(rest, c);
        law_split_at_the_first(rest, c);
        let whole = up_to_first(s, c);
        assert(whole == seq![s[0]] + head);
        assert forall|i: int| 0 <= i < whole.len() implies whole[i] == s[i] && whole[i] != c by {
            if i > 0 {
                assert(whole[i] == head[i - 1]);
                assert(head.contains(head[i - 1]));
                assert(head[i - 1] == rest[i - 1]);
            }
        }
        assert(whole =~= s.take(whole.len() as int));
        if head.len() < rest.len() {
            assert(s[whole.len() as int] == rest[head.len() as int]);
        }
    }
}

/// The number that a row of digits stands for.
pub open spec fn value_of(digits: Seq<char>) -> int
    decreases digits.len(),
{
    if digits.len() == 0 {
        0
    } else {
        10 * value_of(digits.drop_last()) + (digits.last() as int - '0' as int)
    }
}

/// A numeral is a row of digits that stands for the number, and it does not begin
/// with a zero but for the number zero itself.
pub proof fn law_numeral_stands_for_the_number(n: nat)
    ensures
        value_of(decimal(n)) == n,
        decimal(n).len() > 0,
        forall|i: int| 0 <= i < decimal(n).len() ==> '0' <= #[trigger] decimal(n)[i] <= '9',
        n > 0 ==> decimal(n)[0] != '0',
    decreases n,
{
    if n < 10 {
        assert(decimal(n).drop_last() =~= Seq::empty());
        assert(value_of(decimal(n).drop_last()) == 0);
        assert(decimal(n).last() == digit(n));
    } else {
        let head = decimal(n / 10);
        law_numeral_stands_for_the_number(n / 10);
        assert(decimal(n).drop_last() =~= head);
        assert(decimal(n).last() == digit(n % 10));
        assert forall|i: int| 0 <= i < decimal(n).len() implies '0' <= #[trigger] decimal(n)[i]
            <= '9' by {
            if i < head.len() {
                assert(decimal(n)[i] == head[i]);
            }
        }
        assert(decimal(n)[0] == head[0]);
    }
}

/// The pieces stand in the joined text in their order, with the separator between two
/// neighbours and nowhere else.
pub proof fn law_join_keeps_order(front: Seq<Seq<char>>, back: Seq<Seq<char>>, sep: Seq<char>)
    ensures
        front.len() == 0 ==> join(front + back, sep) == join(back, sep),
        back.len() == 0 ==> join(front + back, sep) == join(front, sep),
        front.len() > 0 && back.len() > 0 ==> join(front + back, sep) == join(front, sep) + sep
            + join(back, sep),
        front.len() == 1 ==> join(front, sep) == front[0],
    decreases back.len(),
{
    if front.len() == 0 {
        assert(front + back =~= back);
    } else if back.len() == 0 {
        assert(front + back =~= front);
    } else if back.len() == 1 {
        assert((front + back).drop_last() =~= front);
        assert((front + back).last() == back[0]);
    } else {
        let less = back.drop_last();
        law_join_keeps_order(front, less, sep);
        assert((front + back).drop_last() =~= front + less);
        assert((front + back).last() == back.last());
        assert(join(front + back, sep) =~= join(front, sep) + sep + join(back, sep));
    }
}

/// Concatenation keeps the order of the pieces and adds nothing.
pub proof fn law_concat_keeps_order(front: Seq<Seq<char>>, back: Seq<Seq<char>>)
    ensures
        concat(front + back) == concat(front) + concat(back),
        front.len() == 1 ==> concat(front) == front[0],
    decreases back.len(),
{
    if front.len() == 1 {
        assert(front.drop_last() =~= Seq::empty());
        assert(concat(front.drop_last()) =~= Seq::empty());
        assert(concat(front) =~= front[0]);
    }
    if back.len() == 0 {
        assert(front + back =~= front);
        assert(concat(front + back) =~= concat(front) + concat(back));
    } else {
        let less = back.drop_last();
        law_concat_keeps_order(front, less);
        assert((front + back).drop_last() =~= front + less);
        assert((front + back).last() == back.last());
        assert(concat(front + back) =~= concat(front) + concat(back));
    }
}

/// The character, in lower case where it is an ASCII letter.
pub open spec fn lowered(c: char) -> int {
    if 'A' <= c <= 'Z' {
        c as int + 32
    } else {
        c as int
    }
}

/// Two texts are equal but for the case of ASCII letters exactly where they are equal
/// in lower case.
pub proof fn law_case_is_ignored(a: Seq<char>, b: Seq<char>)
    ensures
        same_ignoring_case(a, b) == (a.map_values(|c: char| lowered(c)) == b.map_values(
            |c: char| lowered(c),
        )),
{
    let x = a.map_values(|c: char| lowered(c));
    let y = b.map_values(|c: char| lowered(c));
    if same_ignoring_case(a, b) {
        assert forall|i: int| 0 <= i < x.len() implies x[i] == y[i] by {
            assert(same_letter(a[i], b[i]));
        }
        assert(x =~= y);
    }
    if x == y {
        assert(a.len() == x.len() && b.len() == y.len());
        assert forall|i: int| 0 <= i < a.len() implies same_letter(#[trigger] a[i], b[i]) by {
            assert(x[i] == lowered(a[i]));
            assert(y[i] == lowered(b[i]));
        }
    }
}

/// Padding adds spaces on one side only, and as many as are lacking.
pub proof fn law_padding_adds_spaces(s: Seq<char>, width: int)
    ensures
        s.is_prefix_of(pad_end(s, width)),
        s.is_suffix_of(pad_start(s, width)),
        pad_end(s, width).len() == if s.len() < width {
            width
        } else {
            s.len() as int
        },
        pad_start(s, width).len() == pad_end(s, width).len(),
        forall|i: int|
            s.len() <= i < pad_end(s, width).len() ==> #[trigger] pad_end(s, width)[i] == ' ',
        forall|i: int|
            0 <= i < pad_start(s, width).len() - s.len() ==> #[trigger] pad_start(s, width)[i]
                == ' ',
{
    assert(pad_end(s, width).take(s.len() as int) =~= s);
    let p = pad_start(s, width);
    assert(p.skip(p.len() - s.len()) =~= s);
}

/// Every piece stands in the concatenation.
pub proof fn lemma_holds_piece(pieces: Seq<Seq<char>>, k: int)
    requires
        0 <= k < pieces.len(),
    ensures
        holds(concat(pieces), pieces[k]),
    decreases pieces.len(),
{
    let past = pieces.drop_last();
    if k == pieces.len() - 1 {
        lemma_holds(concat(past), pieces.last(), Seq::empty());
    } else {
        lemma_holds_piece(past, k);
        assert(past[k] == pieces[k]);
        lemma_holds_within(Seq::empty(), concat(past), pieces.last(), pieces[k]);
    }
}

/// Every piece stands in the joined text.
pub proof fn lemma_holds_joined(pieces: Seq<Seq<char>>, sep: Seq<char>, k: int)
    requires
        0 <= k < pieces.len(),
    ensures
        holds(join(pieces, sep), pieces[k]),
    decreases pieces.len(),
{
    let past = pieces.drop_last();
    let empty = Seq::<char>::empty();
    if pieces.len() == 1 {
        lemma_holds(empty, pieces[0], empty);
    } else if k == pieces.len() - 1 {
        lemma_holds(join(past, sep) + sep, pieces.last(), empty);
    } else {
        lemma_holds_joined(past, sep, k);
        assert(past[k] == pieces[k]);
        lemma_holds_within(empty, join(past, sep), sep + pieces.last(), pieces[k]);
        assert(join(past, sep) + (sep + pieces.last()) =~= join(pieces, sep));
    }
}

/// What stands in a part stands in the whole.
pub proof fn lemma_holds_through(whole: Seq<char>, text: Seq<char>, part: Seq<char>)
    requires
        holds(whole, text),
        holds(text, part),
    ensures
        holds(whole, part),
{
    let k = choose|k: int|
        0 <= k && k + text.len() <= whole.len() && #[trigger] whole.subrange(k, k + text.len())
            == text;
    assert(whole =~= whole.take(k) + text + whole.skip(k + text.len()));
    lemma_holds_within(whole.take(k), text, whole.skip(k + text.len()), part);
}

/// Stripping takes the run of `c` off the end, or off the start, and nothing else.
pub proof fn law_stripping_takes_a_run(s: Seq<char>, c: char, n: nat)
    ensures
        s.len() == 0 || s.last() != c ==> strip_trailing(s, c) == s && strip_trailing(
            s + Seq::new(n, |i: int| c),
            c,
        ) == s,
        s.len() == 0 || s[0] != c ==> strip_leading(s, c) == s && strip_leading(
            Seq::new(n, |i: int| c) + s,
            c,
        ) == s,
    decreases n,
{
    let run = Seq::new(n, |i: int| c);
    if n == 0 {
        assert(s + run =~= s);
        assert(run + s =~= s);
    } else {
        let less = Seq::new((n - 1) as nat, |i: int| c);
        law_stripping_takes_a_run(s, c, (n - 1) as nat);
        assert((s + run).drop_last() =~= s + less);
        assert((s + run).last() == c);
        assert((run + s).drop_first() =~= less + s);
        assert((run + s)[0] == c);
    }
}

/// Texts are ordered by the first character in which they differ, and a text comes before its
/// continuations.
pub proof fn law_order_of_texts(common: Seq<char>, x: char, a: Seq<char>, y: char, b: Seq<char>)
    ensures
        x < y ==> precedes(common.push(x) + a, common.push(y) + b),
        x > y ==> !precedes(common.push(x) + a, common.push(y) + b),
        precedes(common, common.push(y) + b),
        !precedes(common.push(x) + a, common),
    decreases common.len(),
{
    let p = common.push(x) + a;
    let q = common.push(y) + b;
    if common.len() > 0 {
        let rest = common.drop_first();
        law_order_of_texts(rest, x, a, y, b);
        assert(p.drop_first() =~= rest.push(x) + a);
        assert(q.drop_first() =~= rest.push(y) + b);
        assert(p[0] == common[0] && q[0] == common[0]);
    } else {
        assert(p[0] == x && q[0] == y);
    }
}

/// Sums of texts can be taken in any grouping.
pub proof fn lemma_sum_assoc(a: Seq<char>, b: Seq<char>, c: Seq<char>)
    ensures
        a + b + c == a + (b + c),
{
    assert(a + b + c =~= a + (b + c));
}

/// Lists and options of strings are viewed string by string.
pub proof fn law_strings_are_viewed_one_by_one(s: String, list: Seq<String>, i: int)
    ensures
        opt_text(Some(s)) == Some(s@),
        opt_text(None) is None,
        texts(list).len() == list.len(),
        0 <= i < list.len() ==> texts(list)[i] == list[i]@,
{
}

} // verus!
