//! Text primitives: white space, trimming, splitting, searching and decimal numbers.

use vstd::arithmetic::power::{lemma_pow0, lemma_pow1, lemma_pow_adds, pow};
use vstd::prelude::*;

verus! {

/// `String::push` of std appends one character to the end of the string.
pub assume_specification[ String::push ](s: &mut String, c: char)
    ensures
        final(s)@ == old(s)@.push(c),
;

/// The contents of a sequence of strings.
pub open spec fn texts(strings: Seq<String>) -> Seq<Seq<char>> {
    Seq::new(strings.len(), |i: int| strings[i]@)
}

/// Collects the characters of a string.
pub fn chars_of(s: &str) -> (chars: Vec<char>)
    ensures
        chars@ == s@,
{
    let mut chars: Vec<char> = Vec::new();
    for c in it: s.chars()
        invariant
            it.seq() == s@,
            chars@ == s@.take(it.index() as int),
    {
        chars.push(c);
        assert(s@.take(it.index() + 1) == s@.take(it.index() as int).push(c));
    }
    assert(s@.take(s@.len() as int) == s@);
    chars
}

/// Whether two strings hold the same characters.
pub fn same_text(a: &str, b: &str) -> (same: bool)
    ensures
        same == (a@ == b@),
{
    a.to_owned() == b.to_owned()
}

// ---------------------------------------------------------------------------
// Trimming
// ---------------------------------------------------------------------------

/// The characters with the Unicode property `White_Space`.
pub open spec fn is_white_space(c: char) -> bool {
    ||| '\u{9}' <= c && c <= '\u{d}'
    ||| c == ' '
    ||| c == '\u{85}'
    ||| c == '\u{a0}'
    ||| c == '\u{1680}'
    ||| '\u{2000}' <= c && c <= '\u{200a}'
    ||| c == '\u{2028}'
    ||| c == '\u{2029}'
    ||| c == '\u{202f}'
    ||| c == '\u{205f}'
    ||| c == '\u{3000}'
}

/// Which characters a trim removes from the ends of a text.
#[derive(Clone, Copy)]
pub enum Cut {
    /// Every white space character.
    WhiteSpace,
    /// One character only.
    Only(char),
}

impl Cut {
    /// Whether the trim removes `c`.
    pub open spec fn removes(self, c: char) -> bool {
        match self {
            Cut::WhiteSpace => is_white_space(c),
            Cut::Only(d) => c == d,
        }
    }

    /// Tests whether the trim removes `c`.
    pub fn matches(self, c: char) -> (b: bool)
        ensures
            b == self.removes(c),
    {
        match self {
            Cut::WhiteSpace => ('\u{9}' <= c && c <= '\u{d}') || c == ' ' || c == '\u{85}' || c
                == '\u{a0}' || c == '\u{1680}' || ('\u{2000}' <= c && c <= '\u{200a}') || c
                == '\u{2028}' || c == '\u{2029}' || c == '\u{202f}' || c == '\u{205f}' || c
                == '\u{3000}',
            Cut::Only(d) => c == d,
        }
    }
}

/// `s` without the longest prefix that `cut` removes.
pub open spec fn trim_start(s: Seq<char>, cut: Cut) -> Seq<char>
    decreases s.len(),
{
    if s.len() > 0 && cut.removes(s[0]) {
        trim_start(s.drop_first(), cut)
    } else {
        s
    }
}

/// `s` without the longest suffix that `cut` removes.
pub open spec fn trim_end(s: Seq<char>, cut: Cut) -> Seq<char>
    decreases s.len(),
{
    if s.len() > 0 && cut.removes(s.last()) {
        trim_end(s.drop_last(), cut)
    } else {
        s
    }
}

/// `s` without the characters that `cut` removes from either end.
pub open spec fn trim(s: Seq<char>, cut: Cut) -> Seq<char> {
    trim_end(trim_start(s, cut), cut)
}

/// Removes from the front of `s` what `cut` names.
pub fn trim_start_matches<'a>(s: &'a str, cut: Cut) -> (r: &'a str)
    ensures
        r@ == trim_start(s@, cut),
{
    let chars = chars_of(s);
    let mut i: usize = 0;
    assert(s@.skip(0) == s@);
    while i < chars.len() && cut.matches(chars[i])
        invariant
            chars@ == s@,
            i <= chars.len(),
            trim_start(s@, cut) == trim_start(s@.skip(i as int), cut),
        decreases chars.len() - i,
    {
        assert(s@.skip(i as int).drop_first() == s@.skip(i + 1));
        i = i + 1;
    }
    assert(s@.skip(i as int) == s@.subrange(i as int, s@.len() as int));
    s.substring_char(i, chars.len())
}

/// Removes from the back of `s` what `cut` names.
pub fn trim_end_matches<'a>(s: &'a str, cut: Cut) -> (r: &'a str)
    ensures
        r@ == trim_end(s@, cut),
{
    let chars = chars_of(s);
    let mut n: usize = chars.len();
    assert(s@.take(s@.len() as int) == s@);
    while n > 0 && cut.matches(chars[n - 1])
        invariant
            chars@ == s@,
            n <= chars.len(),
            trim_end(s@, cut) == trim_end(s@.take(n as int), cut),
        decreases n,
    {
        assert(s@.take(n as int).drop_last() == s@.take(n - 1));
        n = n - 1;
    }
    assert(s@.take(n as int) == s@.subrange(0, n as int));
    s.substring_char(0, n)
}

/// Removes from both ends of `s` what `cut` names.
pub fn trim_matches<'a>(s: &'a str, cut: Cut) -> (r: &'a str)
    ensures
        r@ == trim(s@, cut),
{
    trim_end_matches(trim_start_matches(s, cut), cut)
}

/// A trim takes from the front nothing but what it removes, and stops at the first character that
/// it does not remove.
pub proof fn trim_start_is_exact(s: Seq<char>, cut: Cut)
    ensures
        trim_start(s, cut).len() <= s.len(),
        s.skip(s.len() - trim_start(s, cut).len()) == trim_start(s, cut),
        forall|i: int| 0 <= i < s.len() - trim_start(s, cut).len() ==> cut.removes(#[trigger] s[i]),
        trim_start(s, cut).len() > 0 ==> !cut.removes(trim_start(s, cut)[0]),
    decreases s.len(),
{
    if s.len() > 0 && cut.removes(s[0]) {
        let t = s.drop_first();
        trim_start_is_exact(t, cut);
        assert(s.skip(s.len() - trim_start(t, cut).len()) == t.skip(
            t.len() - trim_start(t, cut).len(),
        ));
        assert forall|i: int| 0 <= i < s.len() - trim_start(s, cut).len() implies cut.removes(
            #[trigger] s[i],
        ) by {
            if i > 0 {
                assert(t[i - 1] == s[i]);
            }
        }
    } else {
        assert(s.skip(0) == s);
    }
}

/// A trim takes from the back nothing but what it removes, and stops at the first character that
/// it does not remove.
pub proof fn trim_end_is_exact(s: Seq<char>, cut: Cut)
    ensures
        trim_end(s, cut).len() <= s.len(),
        s.take(trim_end(s, cut).len() as int) == trim_end(s, cut),
        forall|i: int| trim_end(s, cut).len() <= i < s.len() ==> cut.removes(#[trigger] s[i]),
        trim_end(s, cut).len() > 0 ==> !cut.removes(trim_end(s, cut).last()),
    decreases s.len(),
{
    if s.len() > 0 && cut.removes(s.last()) {
        let t = s.drop_last();
        trim_end_is_exact(t, cut);
        assert(s.take(trim_end(t, cut).len() as int) == t.take(trim_end(t, cut).len() as int));
        assert forall|i: int| trim_end(s, cut).len() <= i < s.len() implies cut.removes(
            #[trigger] s[i],
        ) by {
            if i < s.len() - 1 {
                assert(t[i] == s[i]);
            }
        }
    } else {
        assert(s.take(s.len() as int) == s);
    }
}

/// A text whose ends are to stay is trimmed to itself.
pub proof fn trimmed_text_is_kept(s: Seq<char>, cut: Cut)
    requires
        s.len() > 0 ==> !cut.removes(s[0]) && !cut.removes(s.last()),
    ensures
        trim(s, cut) == s,
{
}

/// A character that a trim removes makes no difference at the end of a text.
pub proof fn trimmed_end_makes_no_difference(s: Seq<char>, c: char, cut: Cut)
    requires
        cut.removes(c),
    ensures
        trim(s.push(c), cut) == trim(s, cut),
    decreases s.len(),
{
    let t = s.push(c);
    if s.len() == 0 {
        assert(t.drop_first() == s);
        assert(trim_start(t, cut) == trim_start(s, cut));
    } else if cut.removes(s[0]) {
        assert(t.drop_first() == s.drop_first().push(c));
        trimmed_end_makes_no_difference(s.drop_first(), c, cut);
    } else {
        assert(t.drop_last() == s);
        assert(trim_start(t, cut) == t);
        assert(trim_start(s, cut) == s);
    }
}

// ---------------------------------------------------------------------------
// Splitting and searching
// ---------------------------------------------------------------------------

/// Where `c` first stands in `s`; the length of `s` where it does not.
pub open spec fn first_at(s: Seq<char>, c: char) -> int
    decreases s.len(),
{
    if s.len() == 0 || s[0] == c {
        0
    } else {
        1 + first_at(s.drop_first(), c)
    }
}

/// The two sides of the first `c` in `s`, if there is one.
pub open spec fn split_first(s: Seq<char>, c: char) -> Option<(Seq<char>, Seq<char>)> {
    if first_at(s, c) < s.len() {
        Some((s.take(first_at(s, c)), s.skip(first_at(s, c) + 1)))
    } else {
        None
    }
}

/// The pieces of `s` between the occurrences of `c`.
pub open spec fn split(s: Seq<char>, c: char) -> Seq<Seq<char>>
    decreases s.len(),
{
    if 0 <= first_at(s, c) < s.len() {
        seq![s.take(first_at(s, c))] + split(s.skip(first_at(s, c) + 1), c)
    } else {
        seq![s]
    }
}

/// `first_at` is the first occurrence: none stands before it, and `c` stands at it.
pub proof fn lemma_first_at(s: Seq<char>, c: char)
    ensures
        0 <= first_at(s, c) <= s.len(),
        forall|i: int| 0 <= i < first_at(s, c) ==> s[i] != c,
        first_at(s, c) < s.len() ==> s[first_at(s, c)] == c,
    decreases s.len(),
{
    if s.len() > 0 && s[0] != c {
        let t = s.drop_first();
        lemma_first_at(t, c);
        assert forall|i: int| 0 <= i < first_at(s, c) implies s[i] != c by {
            if i > 0 {
                assert(t[i - 1] == s[i]);
            }
        }
    }
}

/// Where a text without `c` is followed by `c`, that is the first one.
pub proof fn first_at_end_of(a: Seq<char>, c: char, b: Seq<char>)
    requires
        !a.contains(c),
    ensures
        first_at(a + seq![c] + b, c) == a.len(),
        split_first(a + seq![c] + b, c) == Some((a, b)),
{
    let s = a + seq![c] + b;
    lemma_first_at(s, c);
    assert(s[a.len() as int] == c);
    if first_at(s, c) < a.len() {
        assert(s[first_at(s, c)] == a[first_at(s, c)]);
    }
    assert(s.take(a.len() as int) == a);
    assert(s.skip(a.len() as int + 1) == b);
}

/// Finds the first `c` at or after `from`.
fn find_from(chars: &Vec<char>, from: usize, c: char) -> (at: usize)
    requires
        from <= chars.len(),
    ensures
        from <= at <= chars.len(),
        at - from == first_at(chars@.skip(from as int), c),
{
    let ghost tail = chars@.skip(from as int);
    let mut at: usize = from;
    while at < chars.len() && chars[at] != c
        invariant
            from <= at <= chars.len(),
            tail == chars@.skip(from as int),
            forall|i: int| 0 <= i < at - from ==> tail[i] != c,
        decreases chars.len() - at,
    {
        assert(tail[at - from] == chars@[at as int]);
        at = at + 1;
    }
    proof {
        lemma_first_at(tail, c);
        if at < chars.len() {
            assert(tail[at - from] == c);
        }
        if first_at(tail, c) < at - from {
            assert(tail[first_at(tail, c)] != c);
        }
    }
    at
}

/// Splits `s` at the first `c`.
pub fn split_once<'a>(s: &'a str, c: char) -> (r: Option<(&'a str, &'a str)>)
    ensures
        match r {
            Some((a, b)) => split_first(s@, c) == Some((a@, b@)),
            None => split_first(s@, c) is None,
        },
{
    let chars = chars_of(s);
    let at: usize = find_from(&chars, 0, c);
    assert(s@.skip(0) == s@);
    if at < chars.len() {
        assert(s@.take(at as int) == s@.subrange(0, at as int));
        assert(s@.skip(at + 1) == s@.subrange(at + 1, s@.len() as int));
        Some((s.substring_char(0, at), s.substring_char(at + 1, chars.len())))
    } else {
        None
    }
}

/// Splits `s` at every `c`.
pub fn split_all(s: &str, c: char) -> (pieces: Vec<String>)
    ensures
        texts(pieces@) == split(s@, c),
{
    let chars = chars_of(s);
    let mut pieces: Vec<String> = Vec::new();
    let mut from: usize = 0;
    assert(s@.skip(0) == s@);
    assert(texts(pieces@) + split(s@, c) == split(s@, c));
    loop
        invariant_except_break
            chars@ == s@,
            from <= chars.len(),
            texts(pieces@) + split(s@.skip(from as int), c) == split(s@, c),
        ensures
            texts(pieces@) == split(s@, c),
        decreases chars.len() - from,
    {
        let ghost tail = s@.skip(from as int);
        let ghost before = texts(pieces@);
        let at: usize = find_from(&chars, from, c);
        let piece = s.substring_char(from, at).to_owned();
        assert(piece@ == tail.take(at - from));
        pieces.push(piece);
        assert(texts(pieces@) == before.push(piece@));
        if at < chars.len() {
            proof {
                assert(tail.skip(at - from + 1) == s@.skip(at + 1));
                assert(split(tail, c) == seq![piece@] + split(s@.skip(at + 1), c));
                assert(before + (seq![piece@] + split(s@.skip(at + 1), c)) == texts(pieces@) + split(
                    s@.skip(at + 1),
                    c,
                ));
            }
            from = at + 1;
        } else {
            proof {
                assert(tail.take(at - from) == tail);
                assert(split(tail, c) == seq![piece@]);
                assert(before + seq![piece@] == texts(pieces@));
            }
            break;
        }
    }
    pieces
}

/// Whether `part` stands somewhere in `s`.
pub open spec fn has_part(s: Seq<char>, part: Seq<char>) -> bool {
    exists|i: int| 0 <= i && i + part.len() <= s.len() && #[trigger] s.subrange(i, i + part.len()) == part
}

/// Whether `s` ends with `tail`.
pub open spec fn has_suffix(s: Seq<char>, tail: Seq<char>) -> bool {
    tail.len() <= s.len() && s.skip(s.len() - tail.len()) == tail
}

/// Whether `part` stands in `chars` at `at`.
fn part_at(chars: &Vec<char>, at: usize, part: &Vec<char>) -> (b: bool)
    requires
        at + part.len() <= chars.len(),
    ensures
        b == (chars@.subrange(at as int, at + part.len()) == part@),
{
    let mut i: usize = 0;
    while i < part.len()
        invariant
            i <= part.len(),
            at + part.len() <= chars.len(),
            forall|j: int| 0 <= j < i ==> chars@[at + j] == part@[j],
        decreases part.len() - i,
    {
        if chars[at + i] != part[i] {
            assert(chars@.subrange(at as int, at + part.len())[i as int] != part@[i as int]);
            return false;
        }
        i = i + 1;
    }
    assert(chars@.subrange(at as int, at + part.len()) == part@);
    true
}

/// Searches `s` for `part`.
pub fn contains(s: &str, part: &str) -> (b: bool)
    ensures
        b == has_part(s@, part@),
{
    let chars = chars_of(s);
    let wanted = chars_of(part);
    let mut at: usize = 0;
    while at <= chars.len() && wanted.len() <= chars.len() - at
        invariant
            chars@ == s@,
            wanted@ == part@,
            at <= chars.len() + 1,
            forall|i: int|
                0 <= i < at && i + part@.len() <= s@.len() ==> #[trigger] s@.subrange(
                    i,
                    i + part@.len(),
                ) != part@,
        decreases chars.len() + 1 - at,
    {
        if part_at(&chars, at, &wanted) {
            return true;
        }
        if at == chars.len() {
            return false;
        }
        at = at + 1;
    }
    false
}

/// Tests whether `s` ends with `tail`.
pub fn ends_with(s: &str, tail: &str) -> (b: bool)
    ensures
        b == has_suffix(s@, tail@),
{
    let chars = chars_of(s);
    let wanted = chars_of(tail);
    if wanted.len() > chars.len() {
        return false;
    }
    assert(s@.skip(s@.len() - tail@.len()) == s@.subrange(s@.len() - tail@.len(), s@.len() as int));
    part_at(&chars, chars.len() - wanted.len(), &wanted)
}

// ---------------------------------------------------------------------------
// Decimal numbers
// ---------------------------------------------------------------------------

/// Whether `c` is an ASCII digit.
pub open spec fn is_digit(c: char) -> bool {
    '0' <= c && c <= '9'
}

/// The value of an ASCII digit.
pub open spec fn digit_value(c: char) -> nat {
    (c as u32 - '0' as u32) as nat
}

/// The ASCII digit of value `d`.
pub open spec fn digit_char(d: nat) -> char {
    (d + '0' as u32) as char
}

/// The number that a run of digits stands for.
pub open spec fn digits_value(s: Seq<char>) -> nat
    decreases s.len(),
{
    if s.len() == 0 {
        0
    } else {
        digits_value(s.drop_last()) * 10 + digit_value(s.last())
    }
}

/// The decimal digits of `n`, without leading zeros.
pub open spec fn decimal(n: nat) -> Seq<char>
    decreases n,
{
    if n < 10 {
        seq![digit_char(n)]
    } else {
        decimal(n / 10).push(digit_char(n % 10))
    }
}

/// Whether every character of `s` is a digit.
pub open spec fn all_digits(s: Seq<char>) -> bool {
    forall|i: int| 0 <= i < s.len() ==> is_digit(#[trigger] s[i])
}

/// `s` without a leading plus sign.
pub open spec fn without_plus(s: Seq<char>) -> Seq<char> {
    if s.len() > 0 && s[0] == '+' {
        s.drop_first()
    } else {
        s
    }
}

/// The number that `s` spells: an optional plus sign and then one or more digits, up to `max`.
pub open spec fn number(s: Seq<char>, max: nat) -> Option<nat> {
    let digits = without_plus(s);
    if digits.len() > 0 && all_digits(digits) && digits_value(digits) <= max {
        Some(digits_value(digits))
    } else {
        None
    }
}

/// A prefix of a run of digits stands for no greater number than the whole.
proof fn lemma_prefix_value(s: Seq<char>, n: int)
    requires
        0 <= n <= s.len(),
    ensures
        digits_value(s.take(n)) <= digits_value(s),
    decreases s.len() - n,
{
    if n < s.len() {
        lemma_prefix_value(s, n + 1);
        assert(s.take(n + 1).drop_last() == s.take(n));
    } else {
        assert(s.take(n) == s);
    }
}

/// A number is written with digits only, at least one, and they stand for that number.
pub proof fn lemma_decimal_digits(n: nat)
    ensures
        decimal(n).len() > 0,
        all_digits(decimal(n)),
        digits_value(decimal(n)) == n,
    decreases n,
{
    if n < 10 {
        let s = seq![digit_char(n)];
        assert(s.drop_last() == Seq::<char>::empty());
        assert(digits_value(s.drop_last()) == 0);
        assert(s.last() == digit_char(n));
        assert(digit_value(digit_char(n)) == n);
    } else {
        lemma_decimal_digits(n / 10);
        assert(decimal(n).drop_last() == decimal(n / 10));
        assert(digit_value(digit_char(n % 10)) == n % 10);
    }
}

/// A number that was written in decimal is read back as itself, wherever it fits.
pub proof fn decimal_reads_back(n: nat, max: nat)
    requires
        n <= max,
    ensures
        number(decimal(n), max) == Some(n),
{
    lemma_decimal_digits(n);
}

fn digit(d: u64) -> (c: char)
    requires
        d < 10,
    ensures
        c == digit_char(d as nat),
{
    if d == 0 {
        '0'
    } else if d == 1 {
        '1'
    } else if d == 2 {
        '2'
    } else if d == 3 {
        '3'
    } else if d == 4 {
        '4'
    } else if d == 5 {
        '5'
    } else if d == 6 {
        '6'
    } else if d == 7 {
        '7'
    } else if d == 8 {
        '8'
    } else {
        '9'
    }
}

/// Writes `n` in decimal.
pub fn decimal_text(n: u64) -> (s: String)
    ensures
        s@ == decimal(n as nat),
    decreases n,
{
    if n < 10 {
        let mut s = String::new();
        s.push(digit(n));
        assert(s@ == seq![digit_char(n as nat)]);
        s
    } else {
        let mut s = decimal_text(n / 10);
        s.push(digit(n % 10));
        s
    }
}

/// Reads a number no greater than `max`.
pub fn parse_number(s: &str, max: u64) -> (r: Option<u64>)
    ensures
        match r {
            Some(n) => number(s@, max as nat) == Some(n as nat),
            None => number(s@, max as nat) is None,
        },
{
    let chars = chars_of(s);
    let start: usize = if chars.len() > 0 && chars[0] == '+' {
        1
    } else {
        0
    };
    let ghost digits = s@.skip(start as int);
    assert(start == 0 ==> digits == s@);
    assert(start == 1 ==> digits == s@.drop_first());
    if start == chars.len() {
        return None;
    }
    let mut value: u64 = 0;
    let mut i: usize = start;
    assert(digits.take(0) == Seq::<char>::empty());
    while i < chars.len()
        invariant
            chars@ == s@,
            start <= i <= chars.len(),
            digits == s@.skip(start as int),
            value <= max,
            value == digits_value(digits.take(i - start)),
            forall|j: int| 0 <= j < i - start ==> is_digit(#[trigger] digits[j]),
            digits == without_plus(s@),
            digits.len() > 0,
        decreases chars.len() - i,
    {
        let c = chars[i];
        assert(digits[i - start] == c);
        if !('0' <= c && c <= '9') {
            return None;
        }
        let d: u64 = (c as u32 - '0' as u32) as u64;
        proof {
            lemma_prefix_value(digits, i - start + 1);
            assert(digits.take(i - start + 1).drop_last() == digits.take(i - start));
        }
        if d > max || value > (max - d) / 10 {
            return None;
        }
        value = value * 10 + d;
        i = i + 1;
    }
    assert(digits.take(digits.len() as int) == digits);
    Some(value)
}

// ---------------------------------------------------------------------------
// Laws
// ---------------------------------------------------------------------------

/// A list of strings stands for their contents, one by one.
pub proof fn texts_are_the_contents(strings: Seq<String>)
    ensures
        texts(strings).len() == strings.len(),
        forall|i: int| 0 <= i < strings.len() ==> #[trigger] texts(strings)[i] == strings[i]@,
{
}

/// White space is what Unicode counts as such: 25 characters, by their code points.
pub proof fn white_space_has_these_code_points(c: char)
    ensures
        is_white_space(c) <==> {
            let n = c as u32;
            ||| n == 9 || n == 10 || n == 11 || n == 12 || n == 13 || n == 32
            ||| n == 133 || n == 160 || n == 5760
            ||| 8192 <= n <= 8202
            ||| n == 8232 || n == 8233 || n == 8239 || n == 8287 || n == 12288
        },
{
}

/// A cut removes either white space or one single character.
pub proof fn cut_removes_what_it_names(c: char, d: char)
    ensures
        Cut::WhiteSpace.removes(c) == is_white_space(c),
        Cut::Only(d).removes(c) == (c == d),
{
}

/// What a trim leaves stands between two runs of removed characters, and has none at its ends.
pub proof fn trim_leaves_the_middle(before: Seq<char>, middle: Seq<char>, after: Seq<char>, cut: Cut)
    requires
        forall|i: int| 0 <= i < before.len() ==> cut.removes(#[trigger] before[i]),
        forall|i: int| 0 <= i < after.len() ==> cut.removes(#[trigger] after[i]),
        middle.len() > 0 ==> !cut.removes(middle[0]) && !cut.removes(middle.last()),
    ensures
        trim(before + middle + after, cut) == middle,
    decreases before.len() + after.len(),
{
    let s = before + middle + after;
    if after.len() > 0 {
        assert(s == (before + middle + after.drop_last()).push(after.last()));
        assert forall|i: int| 0 <= i < after.drop_last().len() implies cut.removes(
            #[trigger] after.drop_last()[i],
        ) by {
            assert(after.drop_last()[i] == after[i]);
        }
        trimmed_end_makes_no_difference(
            before + middle + after.drop_last(),
            after.last(),
            cut,
        );
        trim_leaves_the_middle(before, middle, after.drop_last(), cut);
    } else if before.len() > 0 {
        assert(s[0] == before[0]);
        assert(s.drop_first() == before.drop_first() + middle + after);
        assert forall|i: int| 0 <= i < before.drop_first().len() implies cut.removes(
            #[trigger] before.drop_first()[i],
        ) by {
            assert(before.drop_first()[i] == before[i + 1]);
        }
        trim_leaves_the_middle(before.drop_first(), middle, after, cut);
    } else {
        assert(s == middle);
        trimmed_text_is_kept(middle, cut);
    }
}

/// A trim of the front leaves what follows a run of removed characters.
pub proof fn trim_start_leaves_the_rest(before: Seq<char>, rest: Seq<char>, cut: Cut)
    requires
        forall|i: int| 0 <= i < before.len() ==> cut.removes(#[trigger] before[i]),
        rest.len() > 0 ==> !cut.removes(rest[0]),
    ensures
        trim_start(before + rest, cut) == rest,
    decreases before.len(),
{
    if before.len() > 0 {
        assert((before + rest)[0] == before[0]);
        assert((before + rest).drop_first() == before.drop_first() + rest);
        assert forall|i: int| 0 <= i < before.drop_first().len() implies cut.removes(
            #[trigger] before.drop_first()[i],
        ) by {
            assert(before.drop_first()[i] == before[i + 1]);
        }
        trim_start_leaves_the_rest(before.drop_first(), rest, cut);
    } else {
        assert(before + rest == rest);
    }
}

/// A text splits at a character into what stands before and after its first occurrence, and does
/// not split where the character does not occur.
pub proof fn split_first_divides(s: Seq<char>, c: char)
    ensures
        match split_first(s, c) {
            Some((a, b)) => s == a + seq![c] + b && !a.contains(c),
            None => !s.contains(c),
        },
{
    lemma_first_at(s, c);
    match split_first(s, c) {
        Some((a, b)) => {
            assert(s =~= a + seq![c] + b);
            if a.contains(c) {
                let i = choose|i: int| 0 <= i < a.len() && a[i] == c;
                assert(s[i] != c);
            }
        },
        None => {},
    }
}

/// A text without the character is one piece.
pub proof fn text_without_separator_is_one_piece(s: Seq<char>, c: char)
    requires
        !s.contains(c),
    ensures
        split(s, c) == seq![s],
{
    lemma_first_at(s, c);
    if first_at(s, c) < s.len() {
        assert(s.contains(c));
    }
}

/// Two texts with the character between them have the pieces of the one and then of the other.
pub proof fn pieces_add_up(a: Seq<char>, c: char, b: Seq<char>)
    ensures
        split(a + seq![c] + b, c) == split(a, c) + split(b, c),
    decreases a.len(),
{
    let s = a + seq![c] + b;
    lemma_first_at(a, c);
    if first_at(a, c) < a.len() {
        let at = first_at(a, c);
        let head = a.take(at);
        let rest = a.skip(at + 1);
        assert(s =~= head + seq![c] + (rest + seq![c] + b));
        assert(!head.contains(c)) by {
            if head.contains(c) {
                let i = choose|i: int| 0 <= i < head.len() && head[i] == c;
                assert(a[i] != c);
            }
        }
        first_at_end_of(head, c, rest + seq![c] + b);
        pieces_add_up(rest, c, b);
        assert(s.take(at) =~= head);
        assert(s.skip(at + 1) =~= rest + seq![c] + b);
        assert(split(s, c) =~= seq![head] + (split(rest, c) + split(b, c)));
        assert(split(a, c) == seq![head] + split(rest, c));
        assert(split(s, c) =~= split(a, c) + split(b, c));
    } else {
        assert(!a.contains(c)) by {
            if a.contains(c) {
                let i = choose|i: int| 0 <= i < a.len() && a[i] == c;
                assert(a[i] != c);
            }
        }
        first_at_end_of(a, c, b);
        text_without_separator_is_one_piece(a, c);
        assert(s.take(a.len() as int) =~= a);
        assert(s.skip(a.len() as int + 1) =~= b);
    }
}

/// A text has a part if and only if it is something, the part and something.
pub proof fn part_stands_between(s: Seq<char>, part: Seq<char>)
    ensures
        has_part(s, part) <==> exists|a: Seq<char>, b: Seq<char>| s == #[trigger] (a + part + b),
{
    if has_part(s, part) {
        let i = choose|i: int|
            0 <= i && i + part.len() <= s.len() && #[trigger] s.subrange(i, i + part.len()) == part;
        let a = s.take(i);
        let b = s.skip(i + part.len());
        assert(s =~= a + s.subrange(i, i + part.len()) + b);
        assert(s == a + part + b);
    }
    if exists|a: Seq<char>, b: Seq<char>| s == #[trigger] (a + part + b) {
        let (a, b) = choose|a: Seq<char>, b: Seq<char>| s == #[trigger] (a + part + b);
        let i = a.len() as int;
        assert(s.subrange(i, i + part.len()) =~= part);
    }
}

/// A text ends with another if and only if it is something and the other.
pub proof fn suffix_stands_last(s: Seq<char>, tail: Seq<char>)
    ensures
        has_suffix(s, tail) <==> exists|a: Seq<char>| s == #[trigger] (a + tail),
{
    if has_suffix(s, tail) {
        let a = s.take(s.len() - tail.len());
        assert(s =~= a + s.skip(s.len() - tail.len()));
        assert(s == a + tail);
    }
    if exists|a: Seq<char>| s == #[trigger] (a + tail) {
        let a = choose|a: Seq<char>| s == #[trigger] (a + tail);
        assert(s.skip(s.len() - tail.len()) =~= tail);
    }
}

/// Each digit stands for its place among the ten digits.
pub proof fn digits_count_from_zero(d: nat)
    requires
        d < 10,
    ensures
        is_digit("0123456789"@[d as int]),
        digit_value("0123456789"@[d as int]) == d,
        decimal(d) == seq!["0123456789"@[d as int]],
{
    reveal_strlit("0123456789");
}

/// No other character is a digit.
pub proof fn there_are_ten_digits(c: char)
    ensures
        is_digit(c) <==> "0123456789"@.contains(c),
{
    reveal_strlit("0123456789");
    let ten = "0123456789"@;
    if is_digit(c) {
        let i = c as u32 - '0' as u32;
        assert(ten[i] == c);
    }
    if ten.contains(c) {
        let i = choose|i: int| 0 <= i < ten.len() && ten[i] == c;
        assert(0 <= i < 10);
    }
}

/// Digits count by their place: those before others count as often as ten to the number of the
/// others.
pub proof fn digits_count_by_place(a: Seq<char>, b: Seq<char>)
    ensures
        digits_value(a + b) == digits_value(a) * pow(10, b.len()) + digits_value(b),
        a.len() == 1 ==> digits_value(a) == digit_value(a[0]),
        a.len() == 0 ==> digits_value(a) == 0,
    decreases b.len(),
{
    lemma_pow0(10);
    if a.len() == 1 {
        reveal_with_fuel(digits_value, 2);
    }
    if b.len() == 0 {
        assert(a + b == a);
    } else {
        assert((a + b).drop_last() == a + b.drop_last());
        digits_count_by_place(a, b.drop_last());
        lemma_pow1(10);
        lemma_pow_adds(10, (b.len() - 1) as nat, 1);
        let va = digits_value(a) as int;
        let vb = digits_value(b.drop_last()) as int;
        let p = pow(10, (b.len() - 1) as nat);
        assert(pow(10, b.len()) == p * 10);
        assert((va * p + vb) * 10 == va * (p * 10) + vb * 10) by (nonlinear_arith);
    }
}

/// A number is written without leading zeros.
pub proof fn decimal_has_no_leading_zero(n: nat)
    ensures
        n > 0 ==> decimal(n)[0] != '0',
    decreases n,
{
    if n >= 10 {
        decimal_has_no_leading_zero(n / 10);
        lemma_decimal_digits(n / 10);
        assert(decimal(n)[0] == decimal(n / 10)[0]);
    }
}

/// A text is read as a number if and only if it is one or more digits, or a plus sign and one or
/// more digits, that stand for no more than the limit; it is read as what they stand for.
pub proof fn number_is_some_digits(s: Seq<char>, digits: Seq<char>, max: nat)
    requires
        s == digits || s == seq!['+'] + digits,
        digits.len() > 0,
        forall|i: int| 0 <= i < digits.len() ==> is_digit(#[trigger] digits[i]),
    ensures
        number(s, max) == if digits_value(digits) <= max {
            Some(digits_value(digits))
        } else {
            None
        },
{
    if s == seq!['+'] + digits {
        assert(s[0] == '+');
        assert(s.drop_first() =~= digits);
    }
    assert(is_digit(digits[0]));
    assert(without_plus(s) == digits);
    assert(all_digits(digits));
}

/// Nothing else is read as a number.
pub proof fn nothing_else_is_a_number(s: Seq<char>, max: nat)
    requires
        number(s, max) is Some,
    ensures
        s.len() > 0,
        is_digit(s.last()),
        s[0] == '+' || is_digit(s[0]),
        forall|i: int| 0 < i < s.len() ==> is_digit(#[trigger] s[i]),
{
    let digits = without_plus(s);
    assert(is_digit(digits.last()));
    assert(is_digit(digits[0]));
    assert forall|i: int| 0 < i < s.len() implies is_digit(#[trigger] s[i]) by {
        if s[0] == '+' {
            assert(digits[i - 1] == s[i]);
        } else {
            assert(digits[i] == s[i]);
        }
    }
}

} // verus!
