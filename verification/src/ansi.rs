//! Terminal text without the sequences that color it.

use vstd::prelude::*;

use crate::text::{to_chars, to_text};

verus! {

/// The character that starts an escape sequence.
pub const ESCAPE: char = '\x1b';

pub open spec fn is_letter(c: char) -> bool {
    'a' <= c <= 'z' || 'A' <= c <= 'Z'
}

/// Where a control sequence whose parameters start at `k` ends: behind its first letter, or at
/// the end of the text where no letter follows.
pub open spec fn sequence_end(s: Seq<char>, k: int) -> int
    decreases s.len() - k,
{
    if k >= s.len() {
        s.len() as int
    } else if is_letter(s[k]) {
        k + 1
    } else {
        sequence_end(s, k + 1)
    }
}

/// A control sequence ends behind its start and inside the text.
pub proof fn sequence_end_bounds(s: Seq<char>, k: int)
    requires
        k <= s.len(),
    ensures
        k <= sequence_end(s, k) <= s.len(),
    decreases s.len() - k,
{
    if k < s.len() && !is_letter(s[k]) {
        sequence_end_bounds(s, k + 1);
    }
}

/// The text from position `k` on without its escape sequences: an escape character disappears,
/// and where a bracket follows it, so does everything up to the next letter.
pub open spec fn plain_from(s: Seq<char>, k: int) -> Seq<char>
    decreases s.len() - k,
{
    if k >= s.len() {
        Seq::empty()
    } else if s[k] != ESCAPE {
        seq![s[k]] + plain_from(s, k + 1)
    } else if k + 1 < s.len() && s[k + 1] == '[' {
        proof {
            sequence_end_bounds(s, k + 2);
        }
        plain_from(s, sequence_end(s, k + 2))
    } else {
        plain_from(s, k + 1)
    }
}

/// The text without its escape sequences.
pub open spec fn plain(s: Seq<char>) -> Seq<char> {
    plain_from(s, 0)
}

/// Removes the escape sequences from a row of characters.
pub fn strip_chars(s: &[char]) -> (r: Vec<char>)
    ensures
        r@ == plain(s@),
{
    let n: usize = s.len();
    let mut r: Vec<char> = Vec::new();
    let mut k: usize = 0;
    while k < n
        invariant
            k <= n == s@.len(),
            plain(s@) =~= r@ + plain_from(s@, k as int),
        decreases n - k,
    {
        let c: char = s[k];
        if c != ESCAPE {
            r.push(c);
            k = k + 1;
        } else if k + 1 < n && s[k + 1] == '[' {
            let ghost start = k + 2;
            proof {
                sequence_end_bounds(s@, start);
            }
            let mut j: usize = k + 2;
            while j < n && !((s[j] >= 'a' && s[j] <= 'z') || (s[j] >= 'A' && s[j] <= 'Z'))
                invariant
                    start <= j <= n == s@.len(),
                    sequence_end(s@, start) == sequence_end(s@, j as int),
                decreases n - j,
            {
                j = j + 1;
            }
            if j < n {
                j = j + 1;
            }
            assert(sequence_end(s@, start) == j);
            k = j;
        } else {
            k = k + 1;
        }
    }
    r
}

/// Removes the escape sequences that color a terminal's text.
pub fn strip_ansi(text: &str) -> (r: String)
    ensures
        r@ == plain(text@),
{
    let chars = to_chars(text);
    let stripped = strip_chars(chars.as_slice());
    to_text(stripped.as_slice())
}

// ---- Laws ----

proof fn plain_from_facts(s: Seq<char>, k: int)
    requires
        0 <= k <= s.len(),
    ensures
        !plain_from(s, k).contains(ESCAPE),
        !s.skip(k).contains(ESCAPE) ==> plain_from(s, k) == s.skip(k),
    decreases s.len() - k,
{
    if k == s.len() {
        assert(s.skip(k) =~= Seq::<char>::empty());
    } else if s[k] != ESCAPE {
        plain_from_facts(s, k + 1);
        let rest = plain_from(s, k + 1);
        let all = plain_from(s, k);
        assert(all =~= seq![s[k]] + rest);
        assert forall|i: int| 0 <= i < all.len() implies all[i] != ESCAPE by {
            if i > 0 {
                assert(all[i] == rest[i - 1]);
            }
        }
        if !s.skip(k).contains(ESCAPE) {
            let tail = s.skip(k + 1);
            assert forall|i: int| 0 <= i < tail.len() implies #[trigger] tail[i] != ESCAPE by {
                assert(s.skip(k)[i + 1] == tail[i]);
            }
            assert(seq![s[k]] + s.skip(k + 1) =~= s.skip(k));
        }
    } else {
        assert(s.skip(k)[0] == ESCAPE);
        if k + 1 < s.len() && s[k + 1] == '[' {
            sequence_end_bounds(s, k + 2);
            plain_from_facts(s, sequence_end(s, k + 2));
        } else {
            plain_from_facts(s, k + 1);
        }
    }
}

/// Stripped text holds no escape character.
pub proof fn stripped_text_has_no_escape(s: Seq<char>)
    ensures
        !plain(s).contains(ESCAPE),
{
    plain_from_facts(s, 0);
}

/// Text without escape characters is left as it is.
pub proof fn plain_text_is_kept(s: Seq<char>)
    requires
        !s.contains(ESCAPE),
    ensures
        plain(s) == s,
{
    assert(s.skip(0) =~= s);
    plain_from_facts(s, 0);
}

/// Stripping a second time changes nothing.
pub proof fn stripping_is_idempotent(s: Seq<char>)
    ensures
        plain(plain(s)) == plain(s),
{
    stripped_text_has_no_escape(s);
    plain_text_is_kept(plain(s));
}

proof fn plain_from_of_tail(a: Seq<char>, b: Seq<char>, k: int)
    requires
        0 <= k <= b.len(),
    ensures
        plain_from(a + b, a.len() + k) == plain_from(b, k),
        sequence_end(a + b, a.len() + k) == a.len() + sequence_end(b, k),
    decreases b.len() - k,
{
    let s = a + b;
    if k < b.len() {
        assert(s[a.len() + k] == b[k]);
        plain_from_of_tail(a, b, k + 1);
        if k + 1 < b.len() {
            assert(s[a.len() + k + 1] == b[k + 1]);
            if b[k] == ESCAPE && b[k + 1] == '[' {
                plain_from_of_tail(a, b, k + 2);
                sequence_end_bounds(b, k + 2);
                plain_from_of_tail(a, b, sequence_end(b, k + 2));
            }
        }
    }
}

proof fn plain_from_of_head(a: Seq<char>, b: Seq<char>, k: int)
    requires
        0 <= k <= a.len(),
        !a.contains(ESCAPE),
    ensures
        plain_from(a + b, k) == a.skip(k) + plain(b),
    decreases a.len() - k,
{
    let s = a + b;
    if k == a.len() {
        plain_from_of_tail(a, b, 0);
        assert(a.skip(k) + plain(b) =~= plain(b));
    } else {
        assert(s[k] == a[k]);
        assert(a.contains(a[k]));
        plain_from_of_head(a, b, k + 1);
        assert(seq![a[k]] + (a.skip(k + 1) + plain(b)) =~= a.skip(k) + plain(b));
    }
}

proof fn sequence_end_of_params(params: Seq<char>, rest: Seq<char>, k: int)
    requires
        0 <= k <= params.len(),
        forall|i: int| 0 <= i < params.len() ==> !is_letter(#[trigger] params[i]),
        rest.len() > 0 && is_letter(rest[0]),
    ensures
        sequence_end(params + rest, k) == params.len() + 1,
    decreases params.len() - k,
{
    let s = params + rest;
    if k == params.len() {
        assert(s[k] == rest[0]);
    } else {
        assert(s[k] == params[k]);
        sequence_end_of_params(params, rest, k + 1);
    }
}

/// A control sequence, an escape character and a bracket with parameters up to a letter,
/// disappears, and the text around it stays.
pub proof fn sequence_is_removed(
    before: Seq<char>,
    params: Seq<char>,
    letter: char,
    after: Seq<char>,
)
    requires
        !before.contains(ESCAPE),
        forall|i: int| 0 <= i < params.len() ==> !is_letter(#[trigger] params[i]),
        is_letter(letter),
    ensures
        plain(before + seq![ESCAPE, '['] + params + seq![letter] + after) == before + plain(after),
{
    let open = seq![ESCAPE, '['];
    let tail = seq![letter] + after;
    let inner = open + (params + tail);
    assert(before + open + params + seq![letter] + after =~= before + inner);
    plain_from_of_head(before, inner, 0);
    assert(before.skip(0) =~= before);
    sequence_end_of_params(params, tail, 0);
    plain_from_of_tail(open, params + tail, 0);
    assert(inner[0] == ESCAPE && inner[1] == '[');
    let front = open + params + seq![letter];
    assert(inner =~= front + after);
    assert(sequence_end(inner, 2) == front.len());
    plain_from_of_tail(front, after, 0);
}

/// The letters that end a control sequence are those of ASCII, small and capital.
pub proof fn ascii_letters_end_a_sequence(c: char)
    ensures
        is_letter(c) <==> 0x41 <= c as u32 <= 0x5a || 0x61 <= c as u32 <= 0x7a,
{
}

/// An escape character without a bracket behind it disappears alone.
pub proof fn lone_escape_disappears(before: Seq<char>, after: Seq<char>)
    requires
        !before.contains('\x1b'),
        after.len() > 0 ==> after[0] != '[',
    ensures
        plain(before + seq!['\x1b'] + after) == before + plain(after),
{
    let escape = seq!['\x1b'];
    let inner = escape + after;
    assert(before + escape + after =~= before + inner);
    plain_from_of_head(before, inner, 0);
    assert(before.skip(0) =~= before);
    assert(inner[0] == ESCAPE);
    if after.len() > 0 {
        assert(inner[1] == after[0]);
    }
    plain_from_of_tail(escape, after, 0);
}

proof fn sequence_without_end(s: Seq<char>, k: int)
    requires
        0 <= k <= s.len(),
        forall|i: int| k <= i < s.len() ==> !is_letter(#[trigger] s[i]),
    ensures
        sequence_end(s, k) == s.len(),
    decreases s.len() - k,
{
    if k < s.len() {
        sequence_without_end(s, k + 1);
    }
}

/// A control sequence that no letter ends takes the rest of the text with it.
pub proof fn open_sequence_takes_the_rest(before: Seq<char>, params: Seq<char>)
    requires
        !before.contains('\x1b'),
        forall|i: int| 0 <= i < params.len() ==> !is_letter(#[trigger] params[i]),
    ensures
        plain(before + seq!['\x1b', '['] + params) == before,
{
    let open = seq!['\x1b', '['];
    let inner = open + params;
    assert(before + open + params =~= before + inner);
    plain_from_of_head(before, inner, 0);
    assert(before.skip(0) =~= before);
    assert(inner[0] == ESCAPE && inner[1] == '[');
    assert forall|i: int| 2 <= i < inner.len() implies !is_letter(#[trigger] inner[i]) by {
        assert(inner[i] == params[i - 2]);
    }
    sequence_without_end(inner, 2);
    assert(plain_from(inner, inner.len() as int) =~= Seq::<char>::empty());
    assert(before + plain(inner) =~= before);
}

} // verus!
