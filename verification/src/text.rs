//! Plain text handling on sequences of characters: trimming, searching, splitting and
//! reading decimal integers.

use vstd::prelude::*;
use vstd::slice::slice_subrange;

verus! {

/// `String::push` appends one character to the end of the string.
pub assume_specification[ String::push ](s: &mut String, c: char)
    ensures
        final(s)@ == old(s)@.push(c),
;

/// The characters with the Unicode property White_Space.
pub open spec fn is_space(c: char) -> bool {
    let v = c as u32;
    ||| 0x9 <= v <= 0xd
    ||| v == 0x20
    ||| v == 0x85
    ||| v == 0xa0
    ||| v == 0x1680
    ||| 0x2000 <= v <= 0x200a
    ||| v == 0x2028
    ||| v == 0x2029
    ||| v == 0x202f
    ||| v == 0x205f
    ||| v == 0x3000
}

/// `s` without the white space in front.
pub open spec fn trimmed_start(s: Seq<char>) -> Seq<char>
    decreases s.len(),
{
    if s.len() > 0 && is_space(s[0]) {
        trimmed_start(s.drop_first())
    } else {
        s
    }
}

/// `s` without the white space at its end.
pub open spec fn trimmed_end(s: Seq<char>) -> Seq<char>
    decreases s.len(),
{
    if s.len() > 0 && is_space(s.last()) {
        trimmed_end(s.drop_last())
    } else {
        s
    }
}

/// `s` without the white space on either side.
pub open spec fn trimmed(s: Seq<char>) -> Seq<char> {
    trimmed_end(trimmed_start(s))
}

/// The characters of `s` before its first white space.
pub open spec fn word_at_start(s: Seq<char>) -> Seq<char>
    decreases s.len(),
{
    if s.len() == 0 || is_space(s[0]) {
        Seq::empty()
    } else {
        seq![s[0]] + word_at_start(s.drop_first())
    }
}

/// `s` without the copies of `c` at its end.
pub open spec fn without_trailing(s: Seq<char>, c: char) -> Seq<char>
    decreases s.len(),
{
    if s.len() > 0 && s.last() == c {
        without_trailing(s.drop_last(), c)
    } else {
        s
    }
}

pub open spec fn is_paren(c: char) -> bool {
    c == '(' || c == ')'
}

/// `s` without the parentheses in front.
pub open spec fn without_parens_start(s: Seq<char>) -> Seq<char>
    decreases s.len(),
{
    if s.len() > 0 && is_paren(s[0]) {
        without_parens_start(s.drop_first())
    } else {
        s
    }
}

/// `s` without the parentheses at its end.
pub open spec fn without_parens_end(s: Seq<char>) -> Seq<char>
    decreases s.len(),
{
    if s.len() > 0 && is_paren(s.last()) {
        without_parens_end(s.drop_last())
    } else {
        s
    }
}

/// `s` without the parentheses on either side.
pub open spec fn without_parens(s: Seq<char>) -> Seq<char> {
    without_parens_end(without_parens_start(s))
}

/// `pat` stands in `s` at position `i`.
pub open spec fn occurs_at(s: Seq<char>, pat: Seq<char>, i: int) -> bool {
    0 <= i && i + pat.len() <= s.len() && s.subrange(i, i + pat.len()) == pat
}

/// `pat` stands somewhere in `s`.
pub open spec fn occurs(s: Seq<char>, pat: Seq<char>) -> bool {
    exists|i: int| occurs_at(s, pat, i)
}

/// The first position from `k` on at which `pat` stands in `s`.
pub open spec fn first_from(s: Seq<char>, pat: Seq<char>, k: int) -> Option<int>
    decreases s.len() - k + 1,
{
    if k + pat.len() > s.len() {
        None
    } else if occurs_at(s, pat, k) {
        Some(k)
    } else {
        first_from(s, pat, k + 1)
    }
}

/// The last position up to `k` at which `pat` stands in `s`.
pub open spec fn last_upto(s: Seq<char>, pat: Seq<char>, k: int) -> Option<int>
    decreases k + 1,
{
    if k < 0 {
        None
    } else if occurs_at(s, pat, k) {
        Some(k)
    } else {
        last_upto(s, pat, k - 1)
    }
}

/// The first position from `k` on at which `c` stands in `s`.
pub open spec fn position_from(s: Seq<char>, c: char, k: int) -> Option<int>
    decreases s.len() - k,
{
    if k >= s.len() {
        None
    } else if s[k] == c {
        Some(k)
    } else {
        position_from(s, c, k + 1)
    }
}

/// The two parts of `s` around `sep`, where `sep` stands in it exactly once.
pub open spec fn halves(s: Seq<char>, sep: char) -> Option<(Seq<char>, Seq<char>)> {
    match position_from(s, sep, 0) {
        None => None,
        Some(i) => if position_from(s, sep, i + 1) is None {
            Some((s.take(i), s.skip(i + 1)))
        } else {
            None
        },
    }
}

/// `s` starts with `prefix`.
pub open spec fn has_prefix(s: Seq<char>, prefix: Seq<char>) -> bool {
    occurs_at(s, prefix, 0)
}

/// `s` without one carriage return at its end.
pub open spec fn without_return(s: Seq<char>) -> Seq<char> {
    if s.len() > 0 && s.last() == '\r' {
        s.drop_last()
    } else {
        s
    }
}

/// The lines of `s`: each ends at a line feed or at a carriage return with a line feed, neither
/// of which belongs to it, and a line feed at the very end starts no further line.
pub open spec fn lines_of(s: Seq<char>) -> Seq<Seq<char>>
    decreases s.len(),
{
    if s.len() == 0 {
        Seq::empty()
    } else {
        match position_from(s, '\n', 0) {
            None => seq![s],
            Some(i) => {
                proof {
                    position_from_is_first(s, '\n', 0);
                }
                seq![without_return(s.take(i))] + lines_of(s.skip(i + 1))
            },
        }
    }
}

pub open spec fn is_digit(c: char) -> bool {
    '0' <= c <= '9'
}

pub open spec fn all_digits(s: Seq<char>) -> bool {
    forall|i: int| 0 <= i < s.len() ==> is_digit(#[trigger] s[i])
}

/// The number that a row of decimal digits writes.
pub open spec fn decimal(s: Seq<char>) -> int
    decreases s.len(),
{
    if s.len() == 0 {
        0
    } else {
        decimal(s.drop_last()) * 10 + (s.last() as u32 - '0' as u32)
    }
}

/// The digits of a signed number: what follows its sign, where it has one.
pub open spec fn unsigned_part(s: Seq<char>) -> Seq<char> {
    if s.len() > 0 && (s[0] == '+' || s[0] == '-') {
        s.drop_first()
    } else {
        s
    }
}

/// The number that `s` writes: digits, at least one, behind an optional sign.
pub open spec fn signed_value(s: Seq<char>) -> Option<int> {
    let digits = unsigned_part(s);
    if digits.len() == 0 || !all_digits(digits) {
        None
    } else if s[0] == '-' {
        Some(-decimal(digits))
    } else {
        Some(decimal(digits))
    }
}

/// The number that `s` writes, where it fits 32 bits; otherwise 0.
pub open spec fn int_or_zero(s: Seq<char>) -> int {
    match signed_value(s) {
        Some(v) => if i32::MIN <= v <= i32::MAX {
            v
        } else {
            0
        },
        None => 0,
    }
}

/// A decimal digit.
pub open spec fn digit(d: nat) -> char {
    ('0' as u32 + d) as char
}

/// A number in decimal digits.
pub open spec fn digits(n: nat) -> Seq<char>
    decreases n,
{
    if n < 10 {
        seq![digit(n)]
    } else {
        digits(n / 10).push(digit(n % 10))
    }
}

/// A number in decimal digits behind a minus sign, where it is negative.
pub open spec fn number(n: int) -> Seq<char> {
    if n < 0 {
        seq!['-'] + digits((-n) as nat)
    } else {
        digits(n as nat)
    }
}

/// `count` copies of `c`.
pub open spec fn row_of(c: char, count: nat) -> Seq<char> {
    Seq::new(count, |i: int| c)
}

/// What `first_from` finds is the first match, and where it finds none there is none.
pub proof fn first_from_is_first(s: Seq<char>, pat: Seq<char>, k: int)
    requires
        0 <= k,
    ensures
        first_from(s, pat, k) matches Some(i) ==> {
            &&& k <= i
            &&& occurs_at(s, pat, i)
            &&& forall|j: int| k <= j < i ==> !occurs_at(s, pat, j)
        },
        first_from(s, pat, k) is None ==> forall|j: int| k <= j ==> !occurs_at(s, pat, j),
    decreases s.len() - k + 1,
{
    if k + pat.len() > s.len() {
    } else if !occurs_at(s, pat, k) {
        first_from_is_first(s, pat, k + 1);
    }
}

/// What `last_upto` finds is the last match, and where it finds none there is none.
pub proof fn last_upto_is_last(s: Seq<char>, pat: Seq<char>, k: int)
    ensures
        last_upto(s, pat, k) matches Some(i) ==> {
            &&& i <= k
            &&& occurs_at(s, pat, i)
            &&& forall|j: int| i < j <= k ==> !occurs_at(s, pat, j)
        },
        last_upto(s, pat, k) is None ==> forall|j: int| j <= k ==> !occurs_at(s, pat, j),
    decreases k + 1,
{
    if k < 0 {
    } else if !occurs_at(s, pat, k) {
        last_upto_is_last(s, pat, k - 1);
    }
}

/// What `position_from` finds is the first place of the character.
pub proof fn position_from_is_first(s: Seq<char>, c: char, k: int)
    requires
        0 <= k,
    ensures
        position_from(s, c, k) matches Some(i) ==> {
            &&& k <= i < s.len()
            &&& s[i] == c
            &&& forall|j: int| k <= j < i ==> s[j] != c
        },
        position_from(s, c, k) is None ==> forall|j: int| k <= j < s.len() ==> s[j] != c,
    decreases s.len() - k,
{
    if k < s.len() && s[k] != c {
        position_from_is_first(s, c, k + 1);
    }
}

/// The characters of a string, one by one.
pub fn to_chars(s: &str) -> (r: Vec<char>)
    ensures
        r@ == s@,
{
    let mut r: Vec<char> = Vec::new();
    for c in it: s.chars()
        invariant
            it.seq() == s@,
            r@ == s@.take(it.index() as int),
    {
        r.push(c);
        assert(s@.take(it.index() as int).push(c) =~= s@.take(it.index() as int + 1));
    }
    assert(s@.take(s@.len() as int) =~= s@);
    r
}

/// The string that holds the given characters.
pub fn to_text(s: &[char]) -> (r: String)
    ensures
        r@ == s@,
{
    let mut r: String = String::new();
    let mut i: usize = 0;
    while i < s.len()
        invariant
            i <= s@.len(),
            r@ == s@.take(i as int),
        decreases s@.len() - i,
    {
        r.push(s[i]);
        assert(s@.take(i as int).push(s@[i as int]) =~= s@.take(i + 1));
        i = i + 1;
    }
    assert(s@.take(s@.len() as int) =~= s@);
    r
}

pub fn is_white(c: char) -> (r: bool)
    ensures
        r == is_space(c),
{
    let v: u32 = c as u32;
    (0x9 <= v && v <= 0xd) || v == 0x20 || v == 0x85 || v == 0xa0 || v == 0x1680 || (0x2000 <= v
        && v <= 0x200a) || v == 0x2028 || v == 0x2029 || v == 0x202f || v == 0x205f || v == 0x3000
}

/// `str::trim`: the text without the white space on either side.
pub fn trim(s: &[char]) -> (r: &[char])
    ensures
        r@ == trimmed(s@),
{
    let n: usize = s.len();
    let mut i: usize = 0;
    assert(s@.skip(0) =~= s@);
    while i < n && is_white(s[i])
        invariant
            i <= n == s@.len(),
            trimmed_start(s@) == trimmed_start(s@.skip(i as int)),
        decreases n - i,
    {
        assert(s@.skip(i as int).drop_first() =~= s@.skip(i + 1));
        i = i + 1;
    }
    let ghost rest = s@.skip(i as int);
    assert(trimmed_start(s@) == rest);
    let mut j: usize = n;
    assert(rest.take(rest.len() as int) =~= rest);
    while i < j && is_white(s[j - 1])
        invariant
            i <= j <= n == s@.len(),
            rest == s@.skip(i as int),
            trimmed_end(rest) == trimmed_end(rest.take(j - i)),
        decreases j,
    {
        assert(rest.take(j - i).drop_last() =~= rest.take(j - i - 1));
        j = j - 1;
    }
    assert(trimmed_end(rest) == rest.take(j - i));
    assert(rest.take(j - i) =~= s@.subrange(i as int, j as int));
    slice_subrange(s, i, j)
}

/// The characters in front of the first white space.
pub fn first_word(s: &[char]) -> (r: &[char])
    ensures
        r@ == word_at_start(s@),
{
    let n: usize = s.len();
    let mut i: usize = 0;
    assert(s@.skip(0) =~= s@);
    assert(s@.take(0) =~= Seq::<char>::empty());
    while i < n && !is_white(s[i])
        invariant
            i <= n == s@.len(),
            word_at_start(s@) =~= s@.take(i as int) + word_at_start(s@.skip(i as int)),
        decreases n - i,
    {
        assert(s@.skip(i as int).drop_first() =~= s@.skip(i + 1));
        assert(s@.take(i as int) + seq![s@[i as int]] =~= s@.take(i + 1));
        i = i + 1;
    }
    assert(s@.take(i as int) =~= s@.subrange(0, i as int));
    slice_subrange(s, 0, i)
}

/// The text without the copies of `c` at its end.
pub fn trim_trailing(s: &[char], c: char) -> (r: &[char])
    ensures
        r@ == without_trailing(s@, c),
{
    let mut j: usize = s.len();
    assert(s@.take(s@.len() as int) =~= s@);
    while 0 < j && s[j - 1] == c
        invariant
            j <= s@.len(),
            without_trailing(s@, c) == without_trailing(s@.take(j as int), c),
        decreases j,
    {
        assert(s@.take(j as int).drop_last() =~= s@.take(j - 1));
        j = j - 1;
    }
    assert(s@.take(j as int) =~= s@.subrange(0, j as int));
    slice_subrange(s, 0, j)
}

/// The text without the parentheses on either side.
pub fn trim_parens(s: &[char]) -> (r: &[char])
    ensures
        r@ == without_parens(s@),
{
    let n: usize = s.len();
    let mut i: usize = 0;
    assert(s@.skip(0) =~= s@);
    while i < n && (s[i] == '(' || s[i] == ')')
        invariant
            i <= n == s@.len(),
            without_parens_start(s@) == without_parens_start(s@.skip(i as int)),
        decreases n - i,
    {
        assert(s@.skip(i as int).drop_first() =~= s@.skip(i + 1));
        i = i + 1;
    }
    let ghost rest = s@.skip(i as int);
    let mut j: usize = n;
    assert(rest.take(rest.len() as int) =~= rest);
    while i < j && (s[j - 1] == '(' || s[j - 1] == ')')
        invariant
            i <= j <= n == s@.len(),
            rest == s@.skip(i as int),
            without_parens_end(rest) == without_parens_end(rest.take(j - i)),
        decreases j,
    {
        assert(rest.take(j - i).drop_last() =~= rest.take(j - i - 1));
        j = j - 1;
    }
    assert(rest.take(j - i) =~= s@.subrange(i as int, j as int));
    slice_subrange(s, i, j)
}

/// Whether `pat` stands in `s` at position `i`.
pub fn matches_at(s: &[char], pat: &[char], i: usize) -> (r: bool)
    ensures
        r == occurs_at(s@, pat@, i as int),
{
    if i > s.len() || pat.len() > s.len() - i {
        return false;
    }
    assert(s.len() == s@.len());
    let mut k: usize = 0;
    while k < pat.len()
        invariant
            k <= pat@.len(),
            i + pat@.len() <= s@.len() <= usize::MAX,
            forall|j: int| 0 <= j < k ==> s@[i + j] == pat@[j],
        decreases pat@.len() - k,
    {
        if s[i + k] != pat[k] {
            assert(s@.subrange(i as int, i + pat@.len())[k as int] != pat@[k as int]);
            return false;
        }
        k = k + 1;
    }
    assert(s@.subrange(i as int, i + pat@.len()) =~= pat@);
    true
}

/// The first position at which `pat` stands in `s`.
pub fn find(s: &[char], pat: &[char]) -> (r: Option<usize>)
    ensures
        match r {
            Some(i) => first_from(s@, pat@, 0) == Some(i as int),
            None => first_from(s@, pat@, 0) is None,
        },
{
    if pat.len() > s.len() {
        return None;
    }
    let last: usize = s.len() - pat.len();
    let mut k: usize = 0;
    loop
        invariant
            k <= last,
            last == s@.len() - pat@.len(),
            first_from(s@, pat@, 0) == first_from(s@, pat@, k as int),
        decreases last - k,
    {
        if matches_at(s, pat, k) {
            return Some(k);
        }
        if k == last {
            assert(first_from(s@, pat@, k + 1) is None);
            return None;
        }
        k = k + 1;
    }
}

/// The last position at which `pat` stands in `s`.
pub fn rfind(s: &[char], pat: &[char]) -> (r: Option<usize>)
    ensures
        match r {
            Some(i) => last_upto(s@, pat@, s@.len() as int) == Some(i as int),
            None => last_upto(s@, pat@, s@.len() as int) is None,
        },
{
    let mut k: usize = s.len();
    loop
        invariant
            k <= s@.len(),
            last_upto(s@, pat@, s@.len() as int) == last_upto(s@, pat@, k as int),
        decreases k,
    {
        if matches_at(s, pat, k) {
            return Some(k);
        }
        if k == 0 {
            assert(last_upto(s@, pat@, -1) is None);
            return None;
        }
        k = k - 1;
    }
}

/// Whether `pat` stands somewhere in `s`.
pub fn contains(s: &[char], pat: &[char]) -> (r: bool)
    ensures
        r == occurs(s@, pat@),
{
    let found = find(s, pat);
    proof {
        first_from_is_first(s@, pat@, 0);
    }
    found.is_some()
}

/// The first position from `k` on at which `c` stands in `s`.
pub fn find_char(s: &[char], c: char, k: usize) -> (r: Option<usize>)
    requires
        k <= s@.len(),
    ensures
        match r {
            Some(i) => position_from(s@, c, k as int) == Some(i as int) && k <= i < s@.len(),
            None => position_from(s@, c, k as int) is None,
        },
{
    let mut i: usize = k;
    while i < s.len()
        invariant
            k <= i <= s@.len(),
            position_from(s@, c, k as int) == position_from(s@, c, i as int),
        decreases s@.len() - i,
    {
        if s[i] == c {
            return Some(i);
        }
        i = i + 1;
    }
    None
}

/// The two parts around `sep`, where it stands in the text exactly once.
pub fn split_pair<'a>(s: &'a [char], sep: char) -> (r: Option<(&'a [char], &'a [char])>)
    ensures
        match r {
            Some((a, b)) => halves(s@, sep) == Some((a@, b@)),
            None => halves(s@, sep) is None,
        },
{
    let n: usize = s.len();
    match find_char(s, sep, 0) {
        None => None,
        Some(i) => match find_char(s, sep, i + 1) {
            Some(_) => None,
            None => {
                assert(s@.subrange(0, i as int) =~= s@.take(i as int));
                assert(s@.subrange(i + 1, s@.len() as int) =~= s@.skip(i + 1));
                Some((slice_subrange(s, 0, i), slice_subrange(s, i + 1, n)))
            },
        },
    }
}

/// What follows `prefix`, where the text starts with it.
pub fn strip_prefix<'a>(s: &'a [char], prefix: &[char]) -> (r: Option<&'a [char]>)
    ensures
        match r {
            Some(rest) => has_prefix(s@, prefix@) && rest@ == s@.skip(prefix@.len() as int),
            None => !has_prefix(s@, prefix@),
        },
{
    if matches_at(s, prefix, 0) {
        assert(s@.subrange(prefix@.len() as int, s@.len() as int) =~= s@.skip(
            prefix@.len() as int,
        ));
        Some(slice_subrange(s, prefix.len(), s.len()))
    } else {
        None
    }
}

/// The text without one carriage return at its end.
pub fn chomp_return(s: &[char]) -> (r: &[char])
    ensures
        r@ == without_return(s@),
{
    if s.len() > 0 && s[s.len() - 1] == '\r' {
        assert(s@.subrange(0, s@.len() - 1) =~= s@.drop_last());
        slice_subrange(s, 0, s.len() - 1)
    } else {
        s
    }
}

/// A row of digits writes at least what its first part writes.
proof fn decimal_grows(s: Seq<char>, k: int)
    requires
        all_digits(s),
        0 <= k <= s.len(),
    ensures
        0 <= decimal(s.take(k)) <= decimal(s),
    decreases s.len(),
{
    if k == s.len() {
        assert(s.take(k) =~= s);
        if k > 0 {
            assert(s.drop_last().take(k - 1) =~= s.drop_last());
            decimal_grows(s.drop_last(), k - 1);
        }
    } else {
        assert(s.drop_last().take(k) =~= s.take(k));
        decimal_grows(s.drop_last(), k);
    }
}

/// The number that the text writes, where it writes one that fits 32 bits; otherwise 0.
pub fn parse_int_or_zero(s: &[char]) -> (r: i32)
    ensures
        r == int_or_zero(s@),
{
    let n: usize = s.len();
    let negative: bool = n > 0 && s[0] == '-';
    let start: usize = if n > 0 && (s[0] == '+' || s[0] == '-') {
        1
    } else {
        0
    };
    let ghost digits = unsigned_part(s@);
    assert(digits =~= s@.skip(start as int));
    if start == n {
        return 0;
    }
    let mut i: usize = start;
    let mut total: i64 = 0;
    while i < n
        invariant
            start <= i <= n == s@.len(),
            start < n,
            digits == unsigned_part(s@),
            digits == s@.skip(start as int),
            all_digits(digits.take(i - start)),
            total == decimal(digits.take(i - start)),
            0 <= total <= 0x8000_0000,
        decreases n - i,
    {
        let c: char = s[i];
        assert(c == digits[i - start]);
        if c < '0' || c > '9' {
            assert(!all_digits(digits));
            return 0;
        }
        let d: u32 = c as u32 - '0' as u32;
        let next: i64 = total * 10 + d as i64;
        assert(digits.take(i + 1 - start).drop_last() =~= digits.take(i - start));
        assert(all_digits(digits.take(i + 1 - start))) by {
            assert forall|j: int| 0 <= j < i + 1 - start implies is_digit(
                #[trigger] digits.take(i + 1 - start)[j],
            ) by {
                if j < i - start {
                    assert(digits.take(i - start)[j] == digits[j]);
                }
            }
        }
        assert(next == decimal(digits.take(i + 1 - start)));
        if next > 0x8000_0000 {
            proof {
                if all_digits(digits) {
                    decimal_grows(digits, i + 1 - start);
                }
            }
            return 0;
        }
        total = next;
        i = i + 1;
    }
    assert(digits.take(n - start) =~= digits);
    if negative {
        (-total) as i32
    } else if total <= 0x7fff_ffff {
        total as i32
    } else {
        0
    }
}

/// Appends a number in decimal digits.
pub fn push_natural(out: &mut String, n: u64)
    ensures
        final(out)@ == old(out)@ + digits(n as nat),
    decreases n,
{
    let ghost before = out@;
    if n >= 10 {
        push_natural(out, n / 10);
    }
    let d: u8 = 48 + (n % 10) as u8;
    out.push(d as char);
    assert(out@ =~= before + digits(n as nat));
}

/// Appends a number in decimal digits, with its sign where it is negative.
pub fn push_integer(out: &mut String, n: i32)
    ensures
        final(out)@ == old(out)@ + number(n as int),
{
    let ghost before = out@;
    if n < 0 {
        out.push('-');
        push_natural(out, (-(n as i64)) as u64);
        assert(out@ =~= before + number(n as int));
    } else {
        push_natural(out, n as u64);
    }
}

// ---- Laws ----

/// The digits of a number write it.
pub proof fn digits_write_the_number(n: nat)
    ensures
        digits(n).len() > 0,
        all_digits(digits(n)),
        decimal(digits(n)) == n,
    decreases n,
{
    let s = digits(n);
    if n < 10 {
        assert(s.drop_last() =~= Seq::<char>::empty());
        assert(decimal(s.drop_last()) == 0);
        assert(s.last() as u32 == 48 + n);
    } else {
        digits_write_the_number(n / 10);
        let front = digits(n / 10);
        assert(s.drop_last() =~= front);
        assert(s.last() as u32 == 48 + n % 10);
        assert forall|i: int| 0 <= i < s.len() implies is_digit(#[trigger] s[i]) by {
            if i < s.len() - 1 {
                assert(front[i] == s[i]);
            }
        }
    }
}

/// A number that fits 32 bits is read back from its text.
pub proof fn number_is_read_back(n: int)
    requires
        i32::MIN <= n <= i32::MAX,
    ensures
        int_or_zero(number(n)) == n,
{
    let s = number(n);
    if n < 0 {
        digits_write_the_number((-n) as nat);
        assert(s.drop_first() =~= digits((-n) as nat));
    } else {
        digits_write_the_number(n as nat);
        assert(is_digit(s[0]));
    }
}

/// Of the ASCII characters, the tab, the four line ends and the space are white.
pub proof fn ascii_white_space(c: char)
    requires
        (c as u32) < 0x80,
    ensures
        is_space(c) <==> c == '\t' || c == '\n' || c == '\x0b' || c == '\x0c' || c == '\r' || c == ' ',
{
}

/// All characters are white space.
pub open spec fn all_space(s: Seq<char>) -> bool {
    forall|i: int| 0 <= i < s.len() ==> is_space(#[trigger] s[i])
}

proof fn trimmed_start_of(pad: Seq<char>, core: Seq<char>)
    requires
        all_space(pad),
        core.len() > 0 ==> !is_space(core[0]),
    ensures
        trimmed_start(pad + core) == core,
    decreases pad.len(),
{
    let s = pad + core;
    if pad.len() == 0 {
        assert(s =~= core);
    } else {
        assert(s[0] == pad[0]);
        assert(s.drop_first() =~= pad.drop_first() + core);
        trimmed_start_of(pad.drop_first(), core);
    }
}

proof fn trimmed_end_of(core: Seq<char>, pad: Seq<char>)
    requires
        all_space(pad),
        core.len() > 0 ==> !is_space(core.last()),
    ensures
        trimmed_end(core + pad) == core,
    decreases pad.len(),
{
    let s = core + pad;
    if pad.len() == 0 {
        assert(s =~= core);
    } else {
        assert(s.last() == pad.last());
        assert(s.drop_last() =~= core + pad.drop_last());
        trimmed_end_of(core, pad.drop_last());
    }
}

proof fn trimmed_start_of_space(s: Seq<char>)
    requires
        all_space(s),
    ensures
        trimmed_start(s).len() == 0,
    decreases s.len(),
{
    if s.len() > 0 {
        assert(is_space(s[0]));
        trimmed_start_of_space(s.drop_first());
    }
}

/// Trimming removes the white space on either side and nothing else: of a text between two rows
/// of white space it leaves the text, if that neither starts nor ends in white space.
pub proof fn trimming_leaves_the_core(front: Seq<char>, core: Seq<char>, back: Seq<char>)
    requires
        all_space(front),
        all_space(back),
        core.len() > 0 ==> !is_space(core[0]) && !is_space(core.last()),
    ensures
        trimmed(front + core + back) == core,
{
    if core.len() == 0 {
        assert(all_space(front + core + back));
        trimmed_start_of_space(front + core + back);
        assert(trimmed(front + core + back) =~= core);
    } else {
        assert(front + core + back =~= front + (core + back));
        trimmed_start_of(front, core + back);
        trimmed_end_of(core, back);
    }
}

/// The first word ends where white space begins.
pub proof fn word_ends_at_white_space(word: Seq<char>, rest: Seq<char>)
    requires
        forall|i: int| 0 <= i < word.len() ==> !is_space(#[trigger] word[i]),
        rest.len() > 0 ==> is_space(rest[0]),
    ensures
        word_at_start(word + rest) == word,
    decreases word.len(),
{
    let s = word + rest;
    if word.len() == 0 {
        assert(s =~= rest);
        assert(word_at_start(s) =~= word);
    } else {
        assert(s[0] == word[0]);
        assert(s.drop_first() =~= word.drop_first() + rest);
        word_ends_at_white_space(word.drop_first(), rest);
        assert(seq![word[0]] + word.drop_first() =~= word);
    }
}

/// All copies of a character at the end disappear, and nothing else.
pub proof fn trailing_copies_disappear(s: Seq<char>, c: char, count: nat)
    requires
        s.len() > 0 ==> s.last() != c,
    ensures
        without_trailing(s + row_of(c, count), c) == s,
    decreases count,
{
    let all = s + row_of(c, count);
    if count == 0 {
        assert(all =~= s);
    } else {
        assert(all.last() == c);
        assert(all.drop_last() =~= s + row_of(c, (count - 1) as nat));
        trailing_copies_disappear(s, c, (count - 1) as nat);
    }
}

proof fn parens_at_the_start(p: Seq<char>, core: Seq<char>)
    requires
        forall|i: int| 0 <= i < p.len() ==> #[trigger] p[i] == '(' || p[i] == ')',
        core.len() > 0 ==> core[0] != '(' && core[0] != ')',
    ensures
        without_parens_start(p + core) == core,
    decreases p.len(),
{
    let s = p + core;
    if p.len() == 0 {
        assert(s =~= core);
    } else {
        assert(s[0] == p[0]);
        assert(s.drop_first() =~= p.drop_first() + core);
        parens_at_the_start(p.drop_first(), core);
    }
}

proof fn parens_at_the_end(core: Seq<char>, p: Seq<char>)
    requires
        forall|i: int| 0 <= i < p.len() ==> #[trigger] p[i] == '(' || p[i] == ')',
        core.len() > 0 ==> core.last() != '(' && core.last() != ')',
    ensures
        without_parens_end(core + p) == core,
    decreases p.len(),
{
    let s = core + p;
    if p.len() == 0 {
        assert(s =~= core);
    } else {
        assert(s.last() == p.last());
        assert(s.drop_last() =~= core + p.drop_last());
        parens_at_the_end(core, p.drop_last());
    }
}

/// Parentheses around a text disappear, whatever their number, and nothing else.
pub proof fn parens_around_disappear(front: Seq<char>, core: Seq<char>, back: Seq<char>)
    requires
        forall|i: int| 0 <= i < front.len() ==> #[trigger] front[i] == '(' || front[i] == ')',
        forall|i: int| 0 <= i < back.len() ==> #[trigger] back[i] == '(' || back[i] == ')',
        core.len() > 0,
        core[0] != '(' && core[0] != ')',
        core.last() != '(' && core.last() != ')',
    ensures
        without_parens(front + core + back) == core,
{
    assert(front + core + back =~= front + (core + back));
    parens_at_the_start(front, core + back);
    parens_at_the_end(core, back);
}

/// A text stands at a place exactly if it agrees letter by letter from there on.
pub proof fn standing_is_letter_by_letter(s: Seq<char>, pat: Seq<char>, i: int)
    ensures
        occurs_at(s, pat, i) <==> {
            &&& 0 <= i
            &&& i + pat.len() <= s.len()
            &&& forall|k: int| 0 <= k < pat.len() ==> s[i + k] == #[trigger] pat[k]
        },
{
    if 0 <= i && i + pat.len() <= s.len() {
        let part = s.subrange(i, i + pat.len());
        if forall|k: int| 0 <= k < pat.len() ==> s[i + k] == #[trigger] pat[k] {
            assert(part =~= pat);
        }
        if part == pat {
            assert forall|k: int| 0 <= k < pat.len() implies s[i + k] == #[trigger] pat[k] by {
                assert(part[k] == s[i + k]);
            }
        }
    }
}

/// A text holds what stands between any two parts of it.
pub proof fn middle_part_occurs(a: Seq<char>, pat: Seq<char>, b: Seq<char>)
    ensures
        occurs_at(a + pat + b, pat, a.len() as int),
        occurs(a + pat + b, pat),
{
    assert((a + pat + b).subrange(a.len() as int, (a.len() + pat.len()) as int) =~= pat);
}

/// A text holds only what it can be split around.
pub proof fn what_occurs_is_a_middle_part(s: Seq<char>, pat: Seq<char>)
    ensures
        occurs(s, pat) <==> exists|a: Seq<char>, b: Seq<char>| s == #[trigger] (a + pat + b),
{
    if occurs(s, pat) {
        let i = choose|i: int| occurs_at(s, pat, i);
        let a = s.take(i);
        let b = s.skip(i + pat.len());
        assert(s =~= a + pat + b);
    }
    if exists|a: Seq<char>, b: Seq<char>| s == #[trigger] (a + pat + b) {
        let (a, b) = choose|a: Seq<char>, b: Seq<char>| s == #[trigger] (a + pat + b);
        middle_part_occurs(a, pat, b);
    }
}

/// Where the first character of `pat` does not stand in the front of a text, `pat` stands in the
/// text exactly if it stands in the rest.
pub proof fn occurrence_is_in_the_rest(front: Seq<char>, rest: Seq<char>, pat: Seq<char>)
    requires
        pat.len() > 0,
        !front.contains(pat[0]),
    ensures
        occurs(front + rest, pat) <==> occurs(rest, pat),
{
    let s = front + rest;
    if occurs(rest, pat) {
        let i = choose|i: int| occurs_at(rest, pat, i);
        assert(s.subrange(front.len() + i, front.len() + i + pat.len()) =~= rest.subrange(
            i,
            i + pat.len(),
        ));
        assert(occurs_at(s, pat, front.len() + i));
    }
    if occurs(s, pat) {
        let i = choose|i: int| occurs_at(s, pat, i);
        assert(s.subrange(i, i + pat.len())[0] == s[i]);
        if i < front.len() {
            assert(s[i] == front[i]);
            assert(front.contains(front[i]));
        }
        assert(rest.subrange(i - front.len(), i - front.len() + pat.len()) =~= s.subrange(
            i,
            i + pat.len(),
        ));
        assert(occurs_at(rest, pat, i - front.len()));
    }
}

/// A text that starts with a prefix is the prefix with something behind it.
pub proof fn prefix_and_rest(s: Seq<char>, prefix: Seq<char>)
    ensures
        has_prefix(s, prefix) <==> exists|rest: Seq<char>| s == #[trigger] (prefix + rest),
{
    if has_prefix(s, prefix) {
        assert(s =~= prefix + s.skip(prefix.len() as int));
    }
    if exists|rest: Seq<char>| s == #[trigger] (prefix + rest) {
        let rest = choose|rest: Seq<char>| s == #[trigger] (prefix + rest);
        assert(s.subrange(0, prefix.len() as int) =~= prefix);
    }
}

/// Two parts around a separator that stands in neither are told apart.
pub proof fn halves_of_a_pair(a: Seq<char>, sep: char, b: Seq<char>)
    requires
        !a.contains(sep),
        !b.contains(sep),
    ensures
        halves(a + seq![sep] + b, sep) == Some((a, b)),
{
    let s = a + seq![sep] + b;
    let n = a.len() as int;
    position_from_is_first(s, sep, 0);
    assert(s[n] == sep);
    let i = position_from(s, sep, 0)->0;
    if i < n {
        assert(a[i] == s[i]);
        assert(a.contains(a[i]));
    }
    assert(i == n);
    position_from_is_first(s, sep, n + 1);
    if position_from(s, sep, n + 1) is Some {
        let j = position_from(s, sep, n + 1)->0;
        assert(b[j - n - 1] == s[j]);
        assert(b.contains(b[j - n - 1]));
    }
    assert(s.take(n) =~= a);
    assert(s.skip(n + 1) =~= b);
}

/// Only a text with exactly one separator has halves.
pub proof fn halves_are_around_the_only_separator(s: Seq<char>, sep: char)
    ensures
        halves(s, sep) matches Some((a, b)) ==> {
            &&& s == a + seq![sep] + b
            &&& !a.contains(sep)
            &&& !b.contains(sep)
        },
        halves(s, sep) is None ==> forall|a: Seq<char>, b: Seq<char>|
            s == #[trigger] (a + seq![sep] + b) ==> a.contains(sep) || b.contains(sep),
{
    position_from_is_first(s, sep, 0);
    if let Some((a, b)) = halves(s, sep) {
        let i = position_from(s, sep, 0)->0;
        position_from_is_first(s, sep, i + 1);
        assert(s =~= a + seq![sep] + b);
        assert forall|k: int| 0 <= k < a.len() implies a[k] != sep by {
            assert(a[k] == s[k]);
        }
        assert forall|k: int| 0 <= k < b.len() implies b[k] != sep by {
            assert(b[k] == s[i + 1 + k]);
        }
    } else {
        assert forall|a: Seq<char>, b: Seq<char>| s == #[trigger] (a + seq![sep] + b) implies
            a.contains(sep) || b.contains(sep) by {
            if !a.contains(sep) && !b.contains(sep) {
                halves_of_a_pair(a, sep, b);
            }
        }
    }
}

proof fn position_of_the_first(a: Seq<char>, c: char, b: Seq<char>)
    requires
        !a.contains(c),
    ensures
        position_from(a + seq![c] + b, c, 0) == Some(a.len() as int),
{
    let s = a + seq![c] + b;
    position_from_is_first(s, c, 0);
    assert(s[a.len() as int] == c);
    let i = position_from(s, c, 0)->0;
    if i < a.len() {
        assert(a[i] == s[i]);
        assert(a.contains(a[i]));
    }
}

/// A line feed ends a line, alone or behind a carriage return, and what follows it is read as if
/// nothing stood before it.
pub proof fn line_feed_ends_a_line(line: Seq<char>, rest: Seq<char>)
    requires
        !line.contains('\n'),
    ensures
        line.len() > 0 && line.last() == '\r' ==> lines_of(line + seq!['\n'] + rest)
            == seq![line.drop_last()] + lines_of(rest),
        !(line.len() > 0 && line.last() == '\r') ==> lines_of(line + seq!['\n'] + rest)
            == seq![line] + lines_of(rest),
{
    let s = line + seq!['\n'] + rest;
    position_of_the_first(line, '\n', rest);
    assert(s.take(line.len() as int) =~= line);
    assert(s.skip(line.len() as int + 1) =~= rest);
}

/// A text without a line feed is one line, unless it is empty.
pub proof fn text_without_line_feed_is_one_line(s: Seq<char>)
    requires
        !s.contains('\n'),
    ensures
        s.len() > 0 ==> lines_of(s) == seq![s],
        s.len() == 0 ==> lines_of(s).len() == 0,
{
    position_from_is_first(s, '\n', 0);
    if let Some(i) = position_from(s, '\n', 0) {
        assert(s.contains(s[i]));
    }
}

/// A further digit makes ten times the number and the digit of it.
pub proof fn further_digit(s: Seq<char>, d: nat)
    requires
        d < 10,
    ensures
        decimal(s.push(digit(d))) == 10 * decimal(s) + d,
        decimal(Seq::<char>::empty()) == 0,
{
    assert(s.push(digit(d)).drop_last() =~= s);
    assert(digit(d) as u32 == 48 + d);
}

proof fn leading_zero(s: Seq<char>)
    ensures
        decimal(seq!['0'] + s) == decimal(s),
    decreases s.len(),
{
    let z = seq!['0'] + s;
    if s.len() == 0 {
        assert(z.drop_last() =~= s);
    } else {
        assert(z.drop_last() =~= seq!['0'] + s.drop_last());
        assert(z.last() == s.last());
        leading_zero(s.drop_last());
    }
}

/// A plus sign and a zero in front change no number.
pub proof fn plus_sign_and_leading_zero(s: Seq<char>)
    requires
        s.len() > 0,
        forall|i: int| 0 <= i < s.len() ==> '0' <= #[trigger] s[i] <= '9',
    ensures
        int_or_zero(seq!['+'] + s) == int_or_zero(s),
        int_or_zero(seq!['0'] + s) == int_or_zero(s),
        decimal(s) <= i32::MAX ==> int_or_zero(s) == decimal(s),
        decimal(s) > i32::MAX ==> int_or_zero(s) == 0,
        decimal(s) <= 0x8000_0000 ==> int_or_zero(seq!['-'] + s) == -decimal(s),
        decimal(s) > 0x8000_0000 ==> int_or_zero(seq!['-'] + s) == 0,
{
    assert((seq!['+'] + s).drop_first() =~= s);
    assert((seq!['-'] + s).drop_first() =~= s);
    leading_zero(s);
    assert(is_digit(s[0]));
    assert(all_digits(s));
    assert(all_digits(seq!['0'] + s));
    assert(s.take(0) =~= Seq::<char>::empty());
    decimal_grows(s, 0);
}

/// What holds a character other than a digit behind its first one is no number, nor is a sign
/// alone, nor the empty text; each counts as 0.
pub proof fn other_texts_are_no_number(s: Seq<char>, i: int)
    ensures
        0 < i < s.len() && !('0' <= s[i] <= '9') ==> int_or_zero(s) == 0,
        s.len() == 0 ==> int_or_zero(s) == 0,
        s.len() > 0 && !('0' <= s[0] <= '9') && s[0] != '+' && s[0] != '-' ==> int_or_zero(s) == 0,
        s.len() == 1 && !('0' <= s[0] <= '9') ==> int_or_zero(s) == 0,
{
    let u = unsigned_part(s);
    if 0 < i < s.len() && !('0' <= s[i] <= '9') {
        if u.len() == s.len() {
            assert(!is_digit(u[i]));
        } else {
            assert(u[i - 1] == s[i]);
            assert(!is_digit(u[i - 1]));
        }
    } else if s.len() > 0 && !('0' <= s[0] <= '9') && s[0] != '+' && s[0] != '-' {
        assert(!is_digit(u[0]));
    }
}

/// A written number is as short as can be: it starts with a zero only if it is 0, and a negative
/// one is its counterpart behind a minus sign.
pub proof fn written_numbers_are_shortest(n: nat)
    ensures
        n > 0 ==> digits(n)[0] != '0',
        n == 0 ==> digits(n) == seq!['0'],
        number(n as int) == digits(n),
        n > 0 ==> number(-(n as int)) == seq!['-'] + digits(n),
    decreases n,
{
    if n >= 10 {
        written_numbers_are_shortest(n / 10);
        digits_write_the_number(n / 10);
        assert(digits(n)[0] == digits(n / 10)[0]);
    } else {
        assert(digits(n)[0] as u32 == 48 + n);
    }
}

/// Text behind a line feed is read as if nothing stood before it.
pub proof fn lines_of_two_texts(a: Seq<char>, b: Seq<char>)
    requires
        a.len() > 0 ==> a.last() == '\n',
    ensures
        lines_of(a + b) == lines_of(a) + lines_of(b),
    decreases a.len(),
{
    if a.len() == 0 {
        assert(a + b =~= b);
        assert(lines_of(a) + lines_of(b) =~= lines_of(b));
    } else {
        position_from_is_first(a, '\n', 0);
        let i = position_from(a, '\n', 0)->0;
        let line = a.take(i);
        let rest = a.skip(i + 1);
        assert forall|k: int| 0 <= k < line.len() implies line[k] != '\n' by {
            assert(line[k] == a[k]);
        }
        assert(a =~= line + seq!['\n'] + rest);
        assert(a + b =~= line + seq!['\n'] + (rest + b));
        line_feed_ends_a_line(line, rest);
        line_feed_ends_a_line(line, rest + b);
        if rest.len() > 0 {
            assert(rest.last() == a.last());
        }
        lines_of_two_texts(rest, b);
        let first = if line.len() > 0 && line.last() == '\r' {
            line.drop_last()
        } else {
            line
        };
        assert(seq![first] + (lines_of(rest) + lines_of(b)) =~= (seq![first] + lines_of(rest))
            + lines_of(b));
    }
}

/// Trimming leaves nothing exactly of a text that is all white space.
pub proof fn trimming_leaves_something(s: Seq<char>)
    ensures
        trimmed(s).len() == 0 <==> all_space(s),
        trimmed(s).len() > 0 ==> !is_space(trimmed(s)[0]) && !is_space(trimmed(s).last()),
{
    trimmed_start_facts(s);
    trimmed_end_facts(trimmed_start(s));
    if all_space(s) {
        trimmed_start_of_space(s);
    } else {
        let t = trimmed_start(s);
        assert(t.len() > 0 && !is_space(t[0]));
        assert(trimmed_end(t).len() > 0);
    }
}

proof fn trimmed_start_facts(s: Seq<char>)
    ensures
        trimmed_start(s).len() > 0 ==> !is_space(trimmed_start(s)[0]),
        trimmed_start(s).len() == 0 ==> all_space(s),
    decreases s.len(),
{
    if s.len() > 0 && is_space(s[0]) {
        trimmed_start_facts(s.drop_first());
        if trimmed_start(s).len() == 0 {
            assert forall|i: int| 0 <= i < s.len() implies is_space(#[trigger] s[i]) by {
                if i > 0 {
                    assert(s.drop_first()[i - 1] == s[i]);
                }
            }
        }
    }
}

proof fn trimmed_end_facts(s: Seq<char>)
    ensures
        trimmed_end(s).len() > 0 ==> !is_space(trimmed_end(s).last()) && trimmed_end(s)[0] == s[0],
        trimmed_end(s).len() == 0 && s.len() > 0 ==> is_space(s[0]),
    decreases s.len(),
{
    if s.len() > 0 && is_space(s.last()) {
        trimmed_end_facts(s.drop_last());
    }
}

/// A written number starts with a minus sign or a digit, and digits alone follow.
pub proof fn characters_of_a_number(n: int, i: int)
    requires
        0 <= i < number(n).len(),
    ensures
        '0' <= number(n)[i] <= '9' || (i == 0 && number(n)[i] == '-'),
        number(n).len() > 0,
        '0' <= number(n).last() <= '9',
{
    if n < 0 {
        let d = digits((-n) as nat);
        digits_write_the_number((-n) as nat);
        if i > 0 {
            assert(is_digit(d[i - 1]));
        }
        assert(is_digit(d[d.len() - 1]));
    } else {
        let d = digits(n as nat);
        digits_write_the_number(n as nat);
        assert(is_digit(d[i]));
        assert(is_digit(d[d.len() - 1]));
    }
}

} // verus!
