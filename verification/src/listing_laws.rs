//! What the lines of a listing mean: laws over all names, values, numbers and lines.

use vstd::prelude::*;

use crate::ansi;
use crate::listing;
use crate::text;

verus! {

proof fn not_prefixed(t: Seq<char>, prefix: Seq<char>, k: int)
    requires
        0 <= k < prefix.len(),
        k < t.len() ==> t[k] != prefix[k],
    ensures
        !text::has_prefix(t, prefix),
{
    text::standing_is_letter_by_letter(t, prefix, 0);
    if text::has_prefix(t, prefix) {
        assert(t[0 + k] == prefix[k]);
    }
}

/// Behind any white space, "Make: " gives the make: all of what follows, and nothing else of the
/// output changes.
pub proof fn make_line(out: listing::Listed, pad: Seq<char>, v: Seq<char>)
    requires
        text::all_space(pad),
        v.len() > 0,
        !text::is_space(v.last()),
    ensures
        listing::with_line(out, pad + "Make: "@ + v) == (listing::Listed { make: v, ..out }),
{
    reveal_strlit("Make: ");
    let t = "Make: "@ + v;
    bare(pad, t);
    assert(pad + "Make: "@ + v =~= pad + t);
    text::prefix_and_rest(t, "Make: "@);
    assert(t.skip(6) =~= v);
}

/// Behind any white space, "Model: " gives the model.
pub proof fn model_line(out: listing::Listed, pad: Seq<char>, v: Seq<char>)
    requires
        text::all_space(pad),
        v.len() > 0,
        !text::is_space(v.last()),
    ensures
        listing::with_line(out, pad + "Model: "@ + v) == (listing::Listed { model: v, ..out }),
{
    reveal_strlit("Make: ");
    reveal_strlit("Model: ");
    let t = "Model: "@ + v;
    bare(pad, t);
    assert(pad + "Model: "@ + v =~= pad + t);
    not_prefixed(t, "Make: "@, 1);
    text::prefix_and_rest(t, "Model: "@);
    assert(t.skip(7) =~= v);
}

/// Behind any white space, "Description: " gives the description.
pub proof fn description_line(out: listing::Listed, pad: Seq<char>, v: Seq<char>)
    requires
        text::all_space(pad),
        v.len() > 0,
        !text::is_space(v.last()),
    ensures
        listing::with_line(out, pad + "Description: "@ + v) == (listing::Listed {
            description: v,
            ..out
        }),
{
    reveal_strlit("Make: ");
    reveal_strlit("Model: ");
    reveal_strlit("Description: ");
    let t = "Description: "@ + v;
    bare(pad, t);
    assert(pad + "Description: "@ + v =~= pad + t);
    not_prefixed(t, "Make: "@, 0);
    not_prefixed(t, "Model: "@, 0);
    text::prefix_and_rest(t, "Description: "@);
    assert(t.skip(13) =~= v);
}

/// Behind any white space, "Scale: " gives the scale as it is written.
pub proof fn scale_line(out: listing::Listed, pad: Seq<char>, v: Seq<char>)
    requires
        text::all_space(pad),
        v.len() > 0,
        !text::is_space(v.last()),
    ensures
        listing::with_line(out, pad + "Scale: "@ + v) == (listing::Listed {
            scale: Some(v),
            ..out
        }),
{
    reveal_strlit("Make: ");
    reveal_strlit("Model: ");
    reveal_strlit("Description: ");
    reveal_strlit("Scale: ");
    let t = "Scale: "@ + v;
    bare(pad, t);
    assert(pad + "Scale: "@ + v =~= pad + t);
    not_prefixed(t, "Make: "@, 0);
    not_prefixed(t, "Model: "@, 0);
    not_prefixed(t, "Description: "@, 0);
    text::prefix_and_rest(t, "Scale: "@);
    assert(t.skip(7) =~= v);
}

proof fn bare(pad: Seq<char>, t: Seq<char>)
    requires
        text::all_space(pad),
        t.len() > 0,
        !text::is_space(t[0]),
        !text::is_space(t.last()),
    ensures
        text::trimmed(pad + t) == t,
{
    let none = Seq::<char>::empty();
    text::trimming_leaves_the_core(pad, t, none);
    assert(pad + t + none =~= pad + t);
}

proof fn position_value(pad: Seq<char>, value: Seq<char>)
    requires
        text::all_space(pad),
        value.len() > 0,
        !text::is_space(value.last()),
    ensures
        ({
            let t = "Position: "@ + value;
            &&& text::trimmed(pad + "Position: "@ + value) == t
            &&& !text::has_prefix(t, "Make: "@)
            &&& !text::has_prefix(t, "Model: "@)
            &&& !text::has_prefix(t, "Description: "@)
            &&& !text::has_prefix(t, "Scale: "@)
            &&& text::has_prefix(t, "Position: "@)
            &&& listing::behind(t, "Position: "@) == value
        }),
{
    reveal_strlit("Make: ");
    reveal_strlit("Model: ");
    reveal_strlit("Description: ");
    reveal_strlit("Scale: ");
    reveal_strlit("Position: ");
    let t = "Position: "@ + value;
    assert(pad + "Position: "@ + value =~= pad + t);
    bare(pad, t);
    not_prefixed(t, "Make: "@, 0);
    not_prefixed(t, "Model: "@, 0);
    not_prefixed(t, "Description: "@, 0);
    not_prefixed(t, "Scale: "@, 0);
    text::prefix_and_rest(t, "Position: "@);
    assert(t.skip(10) =~= value);
}

/// Behind any white space, "Position: " and two texts around the only comma, with parentheses
/// around them or not, give the position: each coordinate is the number that its text writes
/// between white space, or 0 where it writes none.
pub proof fn position_line(
    out: listing::Listed,
    pad: Seq<char>,
    front: Seq<char>,
    a: Seq<char>,
    b: Seq<char>,
    back: Seq<char>,
)
    requires
        text::all_space(pad),
        forall|i: int| 0 <= i < front.len() ==> #[trigger] front[i] == '(' || front[i] == ')',
        forall|i: int| 0 <= i < back.len() ==> #[trigger] back[i] == '(' || back[i] == ')',
        !a.contains(','),
        !b.contains(','),
        a.len() > 0 ==> a[0] != '(' && a[0] != ')',
        b.len() > 0 ==> b.last() != '(' && b.last() != ')',
        back.len() == 0 && b.len() > 0 ==> !text::is_space(b.last()),
    ensures
        listing::with_line(out, pad + "Position: "@ + (front + (a + seq![','] + b) + back)) == (
        listing::Listed {
            x: text::int_or_zero(text::trimmed(a)),
            y: text::int_or_zero(text::trimmed(b)),
            ..out
        }),
{
    let core = a + seq![','] + b;
    let value = front + core + back;
    if back.len() > 0 {
        assert(value.last() == back[back.len() - 1]);
    } else if b.len() > 0 {
        assert(value.last() == b.last());
    } else {
        assert(value.last() == ',');
    }
    position_value(pad, value);
    if a.len() > 0 {
        assert(core[0] == a[0]);
    } else {
        assert(core[0] == ',');
    }
    if b.len() > 0 {
        assert(core.last() == b.last());
    } else {
        assert(core.last() == ',');
    }
    text::parens_around_disappear(front, core, back);
    text::halves_of_a_pair(a, ',', b);
}

/// Two numbers of 32 bits around a comma, with any white space beside it, are the position.
pub proof fn position_of_two_numbers(
    out: listing::Listed,
    pad: Seq<char>,
    x: int,
    before: Seq<char>,
    behind: Seq<char>,
    y: int,
)
    requires
        text::all_space(pad),
        text::all_space(before),
        text::all_space(behind),
        i32::MIN <= x <= i32::MAX,
        i32::MIN <= y <= i32::MAX,
    ensures
        listing::with_line(
            out,
            pad + "Position: "@ + (Seq::<char>::empty() + (text::number(x) + before + seq![','] + (
            behind + text::number(y))) + Seq::<char>::empty()),
        ) == (listing::Listed { x, y, ..out }),
{
    let none = Seq::<char>::empty();
    let a = text::number(x) + before;
    let b = behind + text::number(y);
    number_facts(x);
    number_facts(y);
    assert forall|i: int| 0 <= i < a.len() implies a[i] != ',' by {
        if i < text::number(x).len() {
            assert(a[i] == text::number(x)[i]);
        } else {
            assert(text::is_space(before[i - text::number(x).len()]));
        }
    }
    assert forall|i: int| 0 <= i < b.len() implies b[i] != ',' by {
        if i < behind.len() {
            assert(text::is_space(behind[i]));
        } else {
            assert(b[i] == text::number(y)[i - behind.len()]);
        }
    }
    assert(a[0] == text::number(x)[0]);
    assert(b.last() == text::number(y).last());
    position_line(out, pad, none, a, b, none);
    text::trimming_leaves_the_core(none, text::number(x), before);
    assert(none + text::number(x) + before =~= a);
    text::trimming_leaves_the_core(behind, text::number(y), none);
    assert(behind + text::number(y) + none =~= b);
    text::number_is_read_back(x);
    text::number_is_read_back(y);
}

/// A position without a comma, or with a second one, is none: it changes nothing.
pub proof fn position_without_two_parts(
    out: listing::Listed,
    pad: Seq<char>,
    front: Seq<char>,
    core: Seq<char>,
    back: Seq<char>,
)
    requires
        text::all_space(pad),
        forall|i: int| 0 <= i < front.len() ==> #[trigger] front[i] == '(' || front[i] == ')',
        forall|i: int| 0 <= i < back.len() ==> #[trigger] back[i] == '(' || back[i] == ')',
        core.len() > 0,
        core[0] != '(' && core[0] != ')',
        core.last() != '(' && core.last() != ')',
        back.len() == 0 ==> !text::is_space(core.last()),
        forall|a: Seq<char>, b: Seq<char>|
            core == #[trigger] (a + seq![','] + b) ==> a.contains(',') || b.contains(','),
    ensures
        listing::with_line(out, pad + "Position: "@ + (front + core + back)) == out,
{
    let value = front + core + back;
    if back.len() > 0 {
        assert(value.last() == back[back.len() - 1]);
    } else {
        assert(value.last() == core.last());
    }
    position_value(pad, value);
    text::parens_around_disappear(front, core, back);
    text::halves_are_around_the_only_separator(core, ',');
    if let Some((a, b)) = text::halves(core, ',') {
        assert(core == a + seq![','] + b);
    }
}

proof fn number_facts(n: int)
    ensures
        text::number(n).len() > 0,
        forall|i: int|
            0 <= i < text::number(n).len() ==> ('0' <= #[trigger] text::number(n)[i] <= '9'
                || text::number(n)[i] == '-'),
        '0' <= text::number(n).last() <= '9',
{
    if n < 0 {
        text::digits_write_the_number((-n) as nat);
    } else {
        text::digits_write_the_number(n as nat);
    }
    text::characters_of_a_number(n, 0);
    assert forall|i: int| 0 <= i < text::number(n).len() implies ('0' <= #[trigger] text::number(
        n,
    )[i] <= '9' || text::number(n)[i] == '-') by {
        text::characters_of_a_number(n, i);
    }
}

/// A mode line, as far as it says more than its first word: that word and what follows it behind
/// white space, with a frequency in Hertz. No property starts like the word.
pub open spec fn is_mode_text(word: Seq<char>, rest: Seq<char>) -> bool {
    &&& word.len() > 0
    &&& word[0] != 'M' && word[0] != 'D' && word[0] != 'S' && word[0] != 'P'
    &&& forall|i: int| 0 <= i < word.len() ==> !text::is_space(#[trigger] word[i])
    &&& word.contains('x')
    &&& rest.len() > 0 ==> text::is_space(rest[0]) && !text::is_space(rest.last())
    &&& text::occurs(word + rest, "Hz"@)
}

proof fn mode_text_is_read(pad: Seq<char>, word: Seq<char>, rest: Seq<char>)
    requires
        text::all_space(pad),
        is_mode_text(word, rest),
    ensures
        ({
            let t = word + rest;
            &&& text::trimmed(pad + t) == t
            &&& listing::is_mode(t)
            &&& !text::has_prefix(t, "Make: "@)
            &&& !text::has_prefix(t, "Model: "@)
            &&& !text::has_prefix(t, "Description: "@)
            &&& !text::has_prefix(t, "Scale: "@)
            &&& !text::has_prefix(t, "Position: "@)
            &&& text::word_at_start(t) == word
        }),
{
    reveal_strlit("Make: ");
    reveal_strlit("Model: ");
    reveal_strlit("Description: ");
    reveal_strlit("Scale: ");
    reveal_strlit("Position: ");
    let t = word + rest;
    assert(t[0] == word[0]);
    if rest.len() > 0 {
        assert(t.last() == rest.last());
    } else {
        assert(t.last() == word[word.len() - 1]);
    }
    assert(!text::is_space(word[0]));
    bare(pad, t);
    not_prefixed(t, "Make: "@, 0);
    not_prefixed(t, "Model: "@, 0);
    not_prefixed(t, "Description: "@, 0);
    not_prefixed(t, "Scale: "@, 0);
    not_prefixed(t, "Position: "@, 0);
    text::word_ends_at_white_space(word, rest);
    let i = choose|i: int| 0 <= i < word.len() && word[i] == 'x';
    assert(t[i] == 'x');
}

/// A mode that is marked as the current one sets the resolution to its own two numbers, those on
/// either side of the only x in its first word, whatever was known before.
pub proof fn current_mode_sets_the_resolution(
    out: listing::Listed,
    pad: Seq<char>,
    a: Seq<char>,
    b: Seq<char>,
    rest: Seq<char>,
)
    requires
        text::all_space(pad),
        is_mode_text(a + seq!['x'] + b, rest),
        !a.contains('x'),
        !b.contains('x'),
        text::occurs(a + seq!['x'] + b + rest, "current"@),
    ensures
        ({
            let after = listing::with_line(out, pad + (a + seq!['x'] + b + rest));
            &&& after.width == text::int_or_zero(a)
            &&& after.height == text::int_or_zero(b)
        }),
{
    mode_text_is_read(pad, a + seq!['x'] + b, rest);
    text::halves_of_a_pair(a, 'x', b);
}

/// A mode that is not marked sets the resolution only where no width is known yet.
pub proof fn other_mode_sets_the_first_resolution(
    out: listing::Listed,
    pad: Seq<char>,
    a: Seq<char>,
    b: Seq<char>,
    rest: Seq<char>,
)
    requires
        text::all_space(pad),
        is_mode_text(a + seq!['x'] + b, rest),
        !a.contains('x'),
        !b.contains('x'),
        !text::occurs(a + seq!['x'] + b + rest, "current"@),
    ensures
        ({
            let after = listing::with_line(out, pad + (a + seq!['x'] + b + rest));
            &&& out.width == 0 ==> after.width == text::int_or_zero(a) && after.height
                == text::int_or_zero(b)
            &&& out.width != 0 ==> after.width == out.width && after.height == out.height
        }),
{
    mode_text_is_read(pad, a + seq!['x'] + b, rest);
    text::halves_of_a_pair(a, 'x', b);
}

/// A mode whose first word has a second x says nothing of the resolution.
pub proof fn mode_without_two_numbers(
    out: listing::Listed,
    pad: Seq<char>,
    a: Seq<char>,
    b: Seq<char>,
    rest: Seq<char>,
)
    requires
        text::all_space(pad),
        is_mode_text(a + seq!['x'] + b, rest),
        b.contains('x'),
    ensures
        ({
            let after = listing::with_line(out, pad + (a + seq!['x'] + b + rest));
            after.width == out.width && after.height == out.height
        }),
{
    let word = a + seq!['x'] + b;
    mode_text_is_read(pad, word, rest);
    text::halves_are_around_the_only_separator(word, 'x');
    if let Some((l, r)) = text::halves(word, 'x') {
        let j = choose|j: int| 0 <= j < b.len() && b[j] == 'x';
        let at = a.len() as int;
        assert(word[at] == 'x');
        assert(word[at + 1 + j] == 'x');
        let n = l.len() as int;
        if at < n {
            assert(l[at] == 'x');
        } else if at > n {
            assert(r[at - n - 1] == 'x');
        } else {
            assert(r[at + 1 + j - n - 1] == 'x');
        }
    }
}

/// A mode line changes the resolution and the rates of an output and nothing else.
pub proof fn modes_keep_the_rest(
    out: listing::Listed,
    pad: Seq<char>,
    word: Seq<char>,
    rest: Seq<char>,
)
    requires
        text::all_space(pad),
        is_mode_text(word, rest),
    ensures
        ({
            let after = listing::with_line(out, pad + (word + rest));
            &&& after.name == out.name
            &&& after.description == out.description
            &&& after.make == out.make
            &&& after.model == out.model
            &&& after.scale == out.scale
            &&& after.x == out.x
            &&& after.y == out.y
            &&& after.enabled == out.enabled
            &&& after.rates.len() == out.rates.len() || after.rates.len() == out.rates.len() + 1
            &&& after.rates.take(out.rates.len() as int) == out.rates
        }),
{
    mode_text_is_read(pad, word, rest);
    let after = listing::with_line(out, pad + (word + rest));
    assert(after.rates.take(out.rates.len() as int) =~= out.rates);
}

/// The rate of a mode is what stands between "@ " and "Hz", without the white space around it and
/// whatever it is; it is added to the rates with the mark of its mode.
pub proof fn mode_adds_its_rate(
    out: listing::Listed,
    pad: Seq<char>,
    word: Seq<char>,
    front: Seq<char>,
    rate: Seq<char>,
    back: Seq<char>,
    tail: Seq<char>,
)
    requires
        text::all_space(pad),
        text::all_space(front),
        text::all_space(back),
        is_mode_text(word, seq![' ', '@', ' '] + front + rate + back + seq!['H', 'z'] + tail),
        !word.contains('H'),
        !word.contains('@'),
        rate.len() > 0,
        !rate.contains('H'),
        !rate.contains('@'),
        !text::is_space(rate[0]) && !text::is_space(rate.last()),
    ensures
        ({
            let t = word + (seq![' ', '@', ' '] + front + rate + back + seq!['H', 'z'] + tail);
            listing::with_line(out, pad + t).rates == out.rates.push(
                (text::occurs(t, "current"@), rate),
            )
        }),
{
    let rest = seq![' ', '@', ' '] + front + rate + back + seq!['H', 'z'] + tail;
    mode_text_is_read(pad, word, rest);
    rate_is_found(word, front, rate, back, tail);
    assert(word + seq![' ', '@', ' '] + front + rate + back + seq!['H', 'z'] + tail =~= word + rest);
}

proof fn rate_is_found(
    word: Seq<char>,
    front: Seq<char>,
    rate: Seq<char>,
    back: Seq<char>,
    tail: Seq<char>,
)
    requires
        text::all_space(front),
        text::all_space(back),
        !word.contains('H'),
        !word.contains('@'),
        rate.len() > 0,
        !rate.contains('H'),
        !rate.contains('@'),
        !text::is_space(rate[0]) && !text::is_space(rate.last()),
    ensures
        listing::rate_text(
            word + seq![' ', '@', ' '] + front + rate + back + seq!['H', 'z'] + tail,
        ) == Some(rate),
{
    reveal_strlit("Hz");
    reveal_strlit("@ ");
    let space = seq![' '];
    let value = front + rate + back;
    let before = (word + space) + "@ "@ + value;
    let t = before + "Hz"@ + tail;
    assert(word + seq![' ', '@', ' '] + front + rate + back + seq!['H', 'z'] + tail =~= t);
    let p = before.len() as int;
    let q = word.len() as int + 1;
    assert forall|i: int| 0 <= i < value.len() implies #[trigger] value[i] != 'H' && value[i]
        != '@' by {
        if i < front.len() {
            assert(text::is_space(front[i]));
        } else if i < front.len() + rate.len() {
            assert(value[i] == rate[i - front.len()]);
            assert(rate.contains(rate[i - front.len()]));
        } else {
            assert(value[i] == back[i - front.len() - rate.len()]);
            assert(text::is_space(back[i - front.len() - rate.len()]));
        }
    }
    assert forall|i: int| 0 <= i < before.len() implies #[trigger] before[i] != 'H' && (before[i]
        == '@' ==> i == q) by {
        if i < word.len() {
            assert(before[i] == word[i]);
            assert(word.contains(word[i]));
        } else if i >= q + 2 {
            assert(before[i] == value[i - q - 2]);
        }
    }
    text::middle_part_occurs(before, "Hz"@, tail);
    text::first_from_is_first(t, "Hz"@, 0);
    let first = text::first_from(t, "Hz"@, 0)->0;
    text::standing_is_letter_by_letter(t, "Hz"@, first);
    assert(t[first + 0] == "Hz"@[0]);
    if first < p {
        assert(t[first] == before[first]);
    }
    assert(first == p);
    assert(t.take(p) =~= before);
    text::middle_part_occurs(word + space, "@ "@, value);
    text::last_upto_is_last(before, "@ "@, p);
    let last = text::last_upto(before, "@ "@, p)->0;
    text::standing_is_letter_by_letter(before, "@ "@, last);
    assert(before[last + 0] == "@ "@[0]);
    assert(last == q);
    assert(before.skip(q + 2) =~= value);
    text::trimming_leaves_the_core(front, rate, back);
}

/// A mode without "@ " has no rate to add.
pub proof fn mode_without_a_rate(
    out: listing::Listed,
    pad: Seq<char>,
    word: Seq<char>,
    rest: Seq<char>,
)
    requires
        text::all_space(pad),
        is_mode_text(word, rest),
        !(word + rest).contains('@'),
    ensures
        listing::with_line(out, pad + (word + rest)).rates == out.rates,
{
    reveal_strlit("@ ");
    let t = word + rest;
    mode_text_is_read(pad, word, rest);
    text::first_from_is_first(t, "Hz"@, 0);
    if let Some(hz) = text::first_from(t, "Hz"@, 0) {
        let before = t.take(hz);
        text::last_upto_is_last(before, "@ "@, before.len() as int);
        if let Some(at) = text::last_upto(before, "@ "@, before.len() as int) {
            text::standing_is_letter_by_letter(before, "@ "@, at);
            assert(before[at + 0] == "@ "@[0]);
            assert(t[at] == '@');
        }
    }
}

/// After a block of lines the resolution is that of the last mode marked as the current one, where
/// there is one.
pub proof fn last_current_mode_decides(
    header: Seq<char>,
    lines: Seq<Seq<char>>,
    i: int,
    pad: Seq<char>,
    a: Seq<char>,
    b: Seq<char>,
    rest: Seq<char>,
)
    requires
        listing::is_header(header),
        forall|k: int| 0 <= k < lines.len() ==> !listing::is_header(#[trigger] lines[k]),
        0 <= i < lines.len(),
        text::all_space(pad),
        is_mode_text(a + seq!['x'] + b, rest),
        !a.contains('x'),
        !b.contains('x'),
        text::occurs(a + seq!['x'] + b + rest, "current"@),
        lines[i] == pad + (a + seq!['x'] + b + rest),
        text::int_or_zero(a) != 0,
        forall|k: int|
            i < k < lines.len() ==> !text::occurs(
                text::trimmed(#[trigger] lines[k]),
                "current"@,
            ),
    ensures
        listing::listed_in(seq![header] + lines).len() == 1,
        listing::listed_in(seq![header] + lines)[0].width == text::int_or_zero(a),
        listing::listed_in(seq![header] + lines)[0].height == text::int_or_zero(b),
    decreases lines.len(),
{
    let block = seq![header] + lines;
    let front = lines.drop_last();
    assert(block.drop_last() =~= seq![header] + front);
    assert(block.last() == lines.last());
    assert(!listing::is_header(lines[lines.len() - 1]));
    assert forall|k: int| 0 <= k < front.len() implies !listing::is_header(#[trigger] front[k]) by {
        assert(front[k] == lines[k]);
    }
    block_has_one_output(header, front);
    let above = listing::listed_in(seq![header] + front);
    if i == lines.len() - 1 {
        current_mode_sets_the_resolution(above.last(), pad, a, b, rest);
    } else {
        assert forall|k: int| i < k < front.len() implies !text::occurs(
            text::trimmed(#[trigger] front[k]),
            "current"@,
        ) by {
            assert(front[k] == lines[k]);
        }
        last_current_mode_decides(header, front, i, pad, a, b, rest);
        assert(!text::occurs(text::trimmed(lines[lines.len() - 1]), "current"@));
        listing::other_modes_keep_the_resolution(above.last(), lines.last());
    }
}

/// A header with lines below it that are none is one output: the one that the header starts, read
/// on line by line.
pub proof fn block_has_one_output(header: Seq<char>, lines: Seq<Seq<char>>)
    requires
        listing::is_header(header),
        forall|k: int| 0 <= k < lines.len() ==> !listing::is_header(#[trigger] lines[k]),
    ensures
        listing::listed_in(seq![header] + lines).len() == 1,
        lines.len() == 0 ==> listing::listed_in(seq![header] + lines)[0] == listing::headed(header),
        lines.len() > 0 ==> listing::listed_in(seq![header] + lines)[0] == listing::with_line(
            listing::listed_in(seq![header] + lines.drop_last())[0],
            lines.last(),
        ),
    decreases lines.len(),
{
    let block = seq![header] + lines;
    if lines.len() == 0 {
        assert(block =~= seq![header]);
        assert(block.drop_last() =~= Seq::<Seq<char>>::empty());
        assert(listing::listed_in(block.drop_last()).len() == 0);
        assert(block.last() == header);
    } else {
        let front = lines.drop_last();
        assert(block.drop_last() =~= seq![header] + front);
        assert(block.last() == lines.last());
        assert(!listing::is_header(lines[lines.len() - 1]));
        assert forall|k: int| 0 <= k < front.len() implies !listing::is_header(
            #[trigger] front[k],
        ) by {
            assert(front[k] == lines[k]);
        }
        block_has_one_output(header, front);
    }
}

/// A header is a line that does not start with a space and is not blank.
pub proof fn headers_are_not_indented(line: Seq<char>, k: int)
    requires
        0 <= k < line.len(),
    ensures
        line[0] == ' ' ==> !listing::is_header(line),
        line[0] != ' ' && !text::is_space(line[k]) ==> listing::is_header(line),
        text::all_space(line) ==> !listing::is_header(line),
{
    text::trimming_leaves_something(line);
}

/// The name of an output is the first word of its header, whatever it is, without the colons
/// behind it; the rest of the header tells only whether the output is disabled, and nothing else
/// is known of the output yet.
pub proof fn header_gives_the_name(
    pad: Seq<char>,
    name: Seq<char>,
    colons: nat,
    rest: Seq<char>,
)
    requires
        text::all_space(pad),
        name.len() > 0,
        forall|i: int| 0 <= i < name.len() ==> !text::is_space(#[trigger] name[i]),
        name.last() != ':',
        rest.len() > 0 ==> text::is_space(rest[0]) && !text::is_space(rest.last()),
    ensures
        ({
            let t = name + text::row_of(':', colons) + rest;
            let out = listing::headed(pad + t);
            &&& out.name == name
            &&& out.enabled <==> !text::occurs(t, "disabled"@)
            &&& out.description.len() == 0 && out.make.len() == 0 && out.model.len() == 0
            &&& out.width == 0 && out.height == 0 && out.x == 0 && out.y == 0
            &&& out.scale is None && out.rates.len() == 0
        }),
{
    let word = name + text::row_of(':', colons);
    let t = word + rest;
    assert(t[0] == name[0]);
    assert(!text::is_space(name[0]));
    if rest.len() > 0 {
        assert(t.last() == rest.last());
    } else if colons > 0 {
        assert(t.last() == ':');
    } else {
        assert(t.last() == name[name.len() - 1]);
    }
    bare(pad, t);
    assert forall|i: int| 0 <= i < word.len() implies !text::is_space(#[trigger] word[i]) by {
        if i < name.len() {
            assert(word[i] == name[i]);
        } else {
            assert(word[i] == ':');
        }
    }
    text::word_ends_at_white_space(word, rest);
    text::trailing_copies_disappear(name, ':', colons);
}

/// A line that is none of the properties and no mode disables the output exactly if it says so,
/// and changes nothing else.
pub proof fn other_lines_only_disable(out: listing::Listed, line: Seq<char>)
    requires
        ({
            let t = text::trimmed(line);
            &&& t.len() > 0 ==> t[0] != 'M' && t[0] != 'S' && t[0] != 'P'
            &&& !text::has_prefix(t, "Description: "@)
            &&& !t.contains('x')
        }),
    ensures
        ({
            let t = text::trimmed(line);
            let says = t == "Disabled"@ || text::occurs(t, "disabled"@);
            &&& says ==> listing::with_line(out, line) == (listing::Listed { enabled: false, ..out })
            &&& !says ==> listing::with_line(out, line) == out
        }),
{
    reveal_strlit("Make: ");
    reveal_strlit("Model: ");
    reveal_strlit("Scale: ");
    reveal_strlit("Position: ");
    let t = text::trimmed(line);
    not_prefixed(t, "Make: "@, 0);
    not_prefixed(t, "Model: "@, 0);
    not_prefixed(t, "Scale: "@, 0);
    not_prefixed(t, "Position: "@, 0);
}

/// Blank lines change nothing.
pub proof fn blank_lines_change_nothing(out: listing::Listed, line: Seq<char>)
    requires
        text::all_space(line),
    ensures
        listing::with_line(out, line) == out,
{
    reveal_strlit("Description: ");
    reveal_strlit("Disabled");
    reveal_strlit("disabled");
    text::trimming_leaves_something(line);
    let t = text::trimmed(line);
    not_prefixed(t, "Description: "@, 0);
    other_lines_only_disable(out, line);
    if text::occurs(t, "disabled"@) {
        let i = choose|i: int| text::occurs_at(t, "disabled"@, i);
    }
}

/// A further line at the end of a listing, ended by a line feed with a carriage return before it
/// or without, starts a further output, where it is a header, or is read into the last one; the
/// outputs above stay as they are.
pub proof fn further_line(text: Seq<char>, line: Seq<char>, carriage_return: bool)
    requires
        text.len() > 0 ==> text.last() == '\n',
        !text.contains('\x1b'),
        !line.contains('\x1b'),
        !line.contains('\n'),
        line.len() > 0 ==> line.last() != '\r',
    ensures
        ({
            let above = listing::listing(text);
            let end = if carriage_return {
                seq!['\r', '\n']
            } else {
                seq!['\n']
            };
            let all = listing::listing(text + (line + end));
            &&& listing::is_header(line) ==> all == above.push(listing::headed(line))
            &&& !listing::is_header(line) && above.len() == 0 ==> all.len() == 0
            &&& !listing::is_header(line) && above.len() > 0 ==> all == above.drop_last().push(
                listing::with_line(above.last(), line),
            )
        }),
{
    let none = Seq::<char>::empty();
    let body = if carriage_return {
        line.push('\r')
    } else {
        line
    };
    let end = body + seq!['\n'];
    let given = if carriage_return {
        seq!['\r', '\n']
    } else {
        seq!['\n']
    };
    assert(line + given =~= end);
    let whole = text + end;
    assert forall|i: int| 0 <= i < whole.len() implies whole[i] != '\x1b' by {
        if i < text.len() {
            assert(text.contains(text[i]));
        } else if i < text.len() + line.len() {
            assert(whole[i] == line[i - text.len()]);
            assert(line.contains(line[i - text.len()]));
        }
    }
    ansi::plain_text_is_kept(text);
    ansi::plain_text_is_kept(whole);
    text::lines_of_two_texts(text, end);
    assert(end =~= body + seq!['\n'] + none);
    assert forall|i: int| 0 <= i < body.len() implies body[i] != '\n' by {
        if i < line.len() {
            assert(line.contains(line[i]));
        }
    }
    text::line_feed_ends_a_line(body, none);
    assert(body.drop_last() =~= line || !carriage_return);
    assert(text::lines_of(none).len() == 0);
    assert(text::lines_of(end) =~= seq![line]);
    one_line_more(text::lines_of(text), line);
    assert(text::lines_of(whole) =~= text::lines_of(text).push(line));
}

/// The last line needs no line feed.
pub proof fn last_line_needs_no_line_feed(text: Seq<char>, line: Seq<char>)
    requires
        text.len() > 0 ==> text.last() == '\n',
        !text.contains('\x1b'),
        !line.contains('\x1b'),
        !line.contains('\n'),
        line.len() > 0,
    ensures
        ({
            let above = listing::listing(text);
            let all = listing::listing(text + line);
            &&& listing::is_header(line) ==> all == above.push(listing::headed(line))
            &&& !listing::is_header(line) && above.len() == 0 ==> all.len() == 0
            &&& !listing::is_header(line) && above.len() > 0 ==> all == above.drop_last().push(
                listing::with_line(above.last(), line),
            )
        }),
{
    let whole = text + line;
    assert forall|i: int| 0 <= i < whole.len() implies whole[i] != '\x1b' by {
        if i < text.len() {
            assert(text.contains(text[i]));
        } else {
            assert(line.contains(line[i - text.len()]));
        }
    }
    ansi::plain_text_is_kept(text);
    ansi::plain_text_is_kept(whole);
    text::lines_of_two_texts(text, line);
    text::text_without_line_feed_is_one_line(line);
    one_line_more(text::lines_of(text), line);
    assert(text::lines_of(whole) =~= text::lines_of(text).push(line));
}

proof fn one_line_more(lines: Seq<Seq<char>>, line: Seq<char>)
    ensures
        ({
            let above = listing::listed_in(lines);
            let all = listing::listed_in(lines.push(line));
            &&& listing::is_header(line) ==> all == above.push(listing::headed(line))
            &&& !listing::is_header(line) && above.len() == 0 ==> all.len() == 0
            &&& !listing::is_header(line) && above.len() > 0 ==> all == above.drop_last().push(
                listing::with_line(above.last(), line),
            )
        }),
{
    assert(lines.push(line).drop_last() =~= lines);
}

/// An empty listing shows no output.
pub proof fn empty_listing(text: Seq<char>)
    requires
        text.len() == 0,
    ensures
        listing::listing(text).len() == 0,
{
    ansi::plain_text_is_kept(text);
}

} // verus!
