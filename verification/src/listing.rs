//! The listing of outputs that `cosmic-randr list` prints.

use vstd::prelude::*;
use vstd::slice::slice_subrange;

use crate::ansi;
use crate::ansi::strip_chars;
use crate::text;
use crate::text::{
    chomp_return, contains, find, find_char, first_word, matches_at, parse_int_or_zero, rfind,
    split_pair, strip_prefix, to_chars, to_text, trim, trim_parens, trim_trailing,
};

verus! {

/// What the listing says of one output. The scale and the refresh rates are decimal fractions,
/// which stay as they are written.
pub struct RawOutput {
    pub name: String,
    pub description: String,
    pub make: String,
    pub model: String,
    pub width: i32,
    pub height: i32,
    pub scale: Option<String>,
    pub rates: Vec<RateText>,
    pub x: i32,
    pub y: i32,
    pub enabled: bool,
}

/// The refresh rate that the listing writes for one mode, in Hertz.
pub struct RateText {
    /// Whether the mode is marked as the current one.
    pub current: bool,
    pub text: String,
}

/// The contents of a `RawOutput`.
#[verifier::ext_equal]
pub ghost struct Listed {
    pub name: Seq<char>,
    pub description: Seq<char>,
    pub make: Seq<char>,
    pub model: Seq<char>,
    pub width: int,
    pub height: int,
    pub scale: Option<Seq<char>>,
    pub rates: Seq<(bool, Seq<char>)>,
    pub x: int,
    pub y: int,
    pub enabled: bool,
}

impl View for RateText {
    type V = (bool, Seq<char>);

    open spec fn view(&self) -> (bool, Seq<char>) {
        (self.current, self.text@)
    }
}

impl View for RawOutput {
    type V = Listed;

    open spec fn view(&self) -> Listed {
        Listed {
            name: self.name@,
            description: self.description@,
            make: self.make@,
            model: self.model@,
            width: self.width as int,
            height: self.height as int,
            scale: match self.scale {
                Some(s) => Some(s@),
                None => None,
            },
            rates: self.rates@.map_values(|r: RateText| r@),
            x: self.x as int,
            y: self.y as int,
            enabled: self.enabled,
        }
    }
}

/// A line that starts an output: it is not indented by a space and not blank.
pub open spec fn is_header(line: Seq<char>) -> bool {
    !(line.len() > 0 && line[0] == ' ') && text::trimmed(line).len() > 0
}

/// The output that a header line starts: its first word, without colons at the end, is the name.
pub open spec fn headed(line: Seq<char>) -> Listed {
    let t = text::trimmed(line);
    Listed {
        name: text::without_trailing(text::word_at_start(t), ':'),
        description: Seq::empty(),
        make: Seq::empty(),
        model: Seq::empty(),
        width: 0,
        height: 0,
        scale: None,
        rates: Seq::empty(),
        x: 0,
        y: 0,
        enabled: !text::occurs(t, "disabled"@),
    }
}

/// What follows `prefix` in `s`.
pub open spec fn behind(s: Seq<char>, prefix: Seq<char>) -> Seq<char> {
    s.skip(prefix.len() as int)
}

/// The position, written as two integers around one comma, in parentheses or not.
pub open spec fn with_position(out: Listed, value: Seq<char>) -> Listed {
    match text::halves(text::without_parens(value), ',') {
        Some((a, b)) => Listed {
            x: text::int_or_zero(text::trimmed(a)),
            y: text::int_or_zero(text::trimmed(b)),
            ..out
        },
        None => out,
    }
}

/// A line that lists a mode, such as `1920x1080 @ 60.056 Hz (current)`.
pub open spec fn is_mode(t: Seq<char>) -> bool {
    t.contains('x') && text::occurs(t, "Hz"@)
}

/// The refresh rate as a mode line writes it: what stands between the last `@ ` before the first
/// `Hz` and that `Hz`.
pub open spec fn rate_text(t: Seq<char>) -> Option<Seq<char>> {
    match text::first_from(t, "Hz"@, 0) {
        None => None,
        Some(hz) => {
            let before = t.take(hz);
            match text::last_upto(before, "@ "@, before.len() as int) {
                None => None,
                Some(at) => Some(text::trimmed(before.skip(at + "@ "@.len()))),
            }
        },
    }
}

/// The resolution of a mode line, taken over where the mode is the current one or no width is
/// known yet.
pub open spec fn with_resolution(out: Listed, t: Seq<char>) -> Listed {
    match text::halves(text::word_at_start(t), 'x') {
        Some((w, h)) => if text::occurs(t, "current"@) || out.width == 0 {
            Listed {
                width: text::int_or_zero(w),
                height: text::int_or_zero(h),
                ..out
            }
        } else {
            out
        },
        None => out,
    }
}

/// The refresh rate of a mode line, added to those seen so far.
pub open spec fn with_rate(out: Listed, t: Seq<char>) -> Listed {
    match rate_text(t) {
        Some(rate) => Listed {
            rates: out.rates.push((text::occurs(t, "current"@), rate)),
            ..out
        },
        None => out,
    }
}

/// What a line that is no header adds to the output above it.
pub open spec fn with_line(out: Listed, line: Seq<char>) -> Listed {
    let t = text::trimmed(line);
    if text::has_prefix(t, "Make: "@) {
        Listed { make: behind(t, "Make: "@), ..out }
    } else if text::has_prefix(t, "Model: "@) {
        Listed { model: behind(t, "Model: "@), ..out }
    } else if text::has_prefix(t, "Description: "@) {
        Listed { description: behind(t, "Description: "@), ..out }
    } else if text::has_prefix(t, "Scale: "@) {
        Listed { scale: Some(behind(t, "Scale: "@)), ..out }
    } else if text::has_prefix(t, "Position: "@) {
        with_position(out, behind(t, "Position: "@))
    } else if is_mode(t) {
        with_rate(with_resolution(out, t), t)
    } else if t == "Disabled"@ || text::occurs(t, "disabled"@) {
        Listed { enabled: false, ..out }
    } else {
        out
    }
}

/// The outputs that a row of lines lists: each header starts one, every other line belongs to
/// the output above it, and lines above the first header belong to none.
pub open spec fn listed_in(lines: Seq<Seq<char>>) -> Seq<Listed>
    decreases lines.len(),
{
    if lines.len() == 0 {
        Seq::empty()
    } else {
        let above = listed_in(lines.drop_last());
        let line = lines.last();
        if is_header(line) {
            above.push(headed(line))
        } else if above.len() > 0 {
            above.drop_last().push(with_line(above.last(), line))
        } else {
            above
        }
    }
}

/// The outputs that a listing shows, colored or not.
pub open spec fn listing(text: Seq<char>) -> Seq<Listed> {
    listed_in(text::lines_of(ansi::plain(text)))
}

fn start_output(t: &[char], Ghost(line): Ghost<Seq<char>>) -> (r: RawOutput)
    requires
        t@ == text::trimmed(line),
    ensures
        r@ == headed(line),
{
    let word = first_word(t);
    let name = trim_trailing(word, ':');
    let disabled = to_chars("disabled");
    let enabled = !contains(t, disabled.as_slice());
    let r = RawOutput {
        name: to_text(name),
        description: String::new(),
        make: String::new(),
        model: String::new(),
        width: 0,
        height: 0,
        scale: None,
        rates: Vec::new(),
        x: 0,
        y: 0,
        enabled,
    };
    assert(r@.rates =~= Seq::<(bool, Seq<char>)>::empty());
    r
}

fn read_mode(out: RawOutput, t: &[char]) -> (r: RawOutput)
    ensures
        r@ == with_rate(with_resolution(out@, t@), t@),
{
    let mut out = out;
    let ghost before = out@;
    let current_mark = to_chars("current");
    let current = contains(t, current_mark.as_slice());
    let word = first_word(t);
    match split_pair(word, 'x') {
        Some((w, h)) => {
            if current || out.width == 0 {
                out.width = parse_int_or_zero(w);
                out.height = parse_int_or_zero(h);
            }
        },
        None => {},
    }
    assert(out@ == with_resolution(before, t@));
    let hz = to_chars("Hz");
    match find(t, hz.as_slice()) {
        Some(hz_at) => {
            proof {
                text::first_from_is_first(t@, "Hz"@, 0);
            }
            let front = slice_subrange(t, 0, hz_at);
            assert(front@ =~= t@.take(hz_at as int));
            let at = to_chars("@ ");
            match rfind(front, at.as_slice()) {
                Some(at_pos) => {
                    proof {
                        text::last_upto_is_last(front@, "@ "@, front@.len() as int);
                    }
                    let from: usize = at_pos + at.len();
                    let rate = slice_subrange(front, from, front.len());
                    assert(rate@ =~= front@.skip(from as int));
                    let text = to_text(trim(rate));
                    let ghost old_rates = out@.rates;
                    out.rates.push(RateText { current, text });
                    assert(out@.rates =~= old_rates.push((current, text@)));
                },
                None => {},
            }
        },
        None => {},
    }
    out
}

fn read_line(out: RawOutput, t: &[char], Ghost(line): Ghost<Seq<char>>) -> (r: RawOutput)
    requires
        t@ == text::trimmed(line),
    ensures
        r@ == with_line(out@, line),
{
    let mut out = out;
    let make = to_chars("Make: ");
    if let Some(value) = strip_prefix(t, make.as_slice()) {
        out.make = to_text(value);
        return out;
    }
    let model = to_chars("Model: ");
    if let Some(value) = strip_prefix(t, model.as_slice()) {
        out.model = to_text(value);
        return out;
    }
    let description = to_chars("Description: ");
    if let Some(value) = strip_prefix(t, description.as_slice()) {
        out.description = to_text(value);
        return out;
    }
    let scale = to_chars("Scale: ");
    if let Some(value) = strip_prefix(t, scale.as_slice()) {
        out.scale = Some(to_text(value));
        return out;
    }
    let position = to_chars("Position: ");
    if let Some(value) = strip_prefix(t, position.as_slice()) {
        match split_pair(trim_parens(value), ',') {
            Some((a, b)) => {
                out.x = parse_int_or_zero(trim(a));
                out.y = parse_int_or_zero(trim(b));
            },
            None => {},
        }
        return out;
    }
    let hz = to_chars("Hz");
    let cross = find_char(t, 'x', 0);
    proof {
        text::position_from_is_first(t@, 'x', 0);
    }
    assert(cross is Some <==> t@.contains('x'));
    if cross.is_some() && contains(t, hz.as_slice()) {
        return read_mode(out, t);
    }
    let disabled_word = to_chars("Disabled");
    let disabled = to_chars("disabled");
    let alone: bool = t.len() == disabled_word.len() && matches_at(t, disabled_word.as_slice(), 0);
    assert(alone <==> t@ == "Disabled"@) by {
        assert(t@.subrange(0, t@.len() as int) =~= t@);
    }
    if alone || contains(t, disabled.as_slice()) {
        out.enabled = false;
    }
    out
}

/// Reads the listing that `cosmic-randr list` prints.
pub fn parse_cosmic_randr_output(text: &str) -> (r: Vec<RawOutput>)
    ensures
        r@.map_values(|o: RawOutput| o@) == listing(text@),
{
    let chars = to_chars(text);
    let clean = strip_chars(chars.as_slice());
    let s = clean.as_slice();
    let n: usize = s.len();
    let mut outputs: Vec<RawOutput> = Vec::new();
    let mut pos: usize = 0;
    let ghost mut done: Seq<Seq<char>> = Seq::empty();
    assert(s@.skip(0) =~= s@);
    assert(outputs@.map_values(|o: RawOutput| o@) =~= Seq::<Listed>::empty());
    while pos < n
        invariant
            pos <= n == s@.len(),
            s@ == ansi::plain(text@),
            text::lines_of(s@) =~= done + text::lines_of(s@.skip(pos as int)),
            outputs@.map_values(|o: RawOutput| o@) == listed_in(done),
        decreases n - pos,
    {
        let rest = slice_subrange(s, pos, n);
        assert(rest@ =~= s@.skip(pos as int));
        let ghost old_pos = pos;
        let line: &[char] = match find_char(rest, '\n', 0) {
            Some(end) => {
                let whole = slice_subrange(rest, 0, end);
                assert(whole@ =~= rest@.take(end as int));
                pos = pos + end + 1;
                assert(rest@.skip(end + 1) =~= s@.skip(pos as int));
                chomp_return(whole)
            },
            None => {
                pos = n;
                assert(s@.skip(n as int) =~= Seq::<char>::empty());
                rest
            },
        };
        proof {
            assert(text::lines_of(rest@) =~= seq![line@] + text::lines_of(
                s@.skip(pos as int),
            ));
            let now = done.push(line@);
            assert(now.drop_last() =~= done);
            assert(done + (seq![line@] + text::lines_of(s@.skip(pos as int))) =~= now
                + text::lines_of(s@.skip(pos as int)));
        }
        let t = trim(line);
        let indented: bool = line.len() > 0 && line[0] == ' ';
        let ghost before = outputs@.map_values(|o: RawOutput| o@);
        if !indented && t.len() > 0 {
            let started = start_output(t, Ghost(line@));
            outputs.push(started);
            assert(outputs@.map_values(|o: RawOutput| o@) =~= before.push(headed(line@)));
        } else {
            match outputs.pop() {
                Some(out) => {
                    assert(out@ == before.last());
                    let changed = read_line(out, t, Ghost(line@));
                    outputs.push(changed);
                    assert(outputs@.map_values(|o: RawOutput| o@) =~= before.drop_last().push(
                        with_line(before.last(), line@),
                    ));
                },
                None => {
                    assert(outputs@.map_values(|o: RawOutput| o@) =~= before);
                },
            }
        }
        proof {
            done = done.push(line@);
        }
    }
    assert(s@.skip(n as int) =~= Seq::<char>::empty());
    assert(text::lines_of(s@) =~= done);
    outputs
}

// ---- Laws ----

/// Colors do not matter: a listing shows the same outputs with its escape sequences and without.
pub proof fn colors_do_not_matter(text: Seq<char>)
    ensures
        listing(ansi::plain(text)) == listing(text),
{
    ansi::stripping_is_idempotent(text);
}

/// The listing shows exactly one output for each header line.
pub proof fn one_output_per_header(lines: Seq<Seq<char>>)
    ensures
        listed_in(lines).len() == lines.filter(|l: Seq<char>| is_header(l)).len(),
    decreases lines.len(),
{
    reveal(Seq::filter);
    if lines.len() > 0 {
        one_output_per_header(lines.drop_last());
    }
}

/// Outputs listed further up do not change what a header and the lines below it say.
pub proof fn outputs_are_independent(above: Seq<Seq<char>>, below: Seq<Seq<char>>)
    requires
        below.len() > 0,
        is_header(below[0]),
    ensures
        listed_in(above + below) == listed_in(above) + listed_in(below),
    decreases below.len(),
{
    let all = above + below;
    assert(all.drop_last() =~= above + below.drop_last());
    assert(all.last() == below.last());
    if below.len() == 1 {
        assert(below.drop_last() =~= Seq::<Seq<char>>::empty());
        assert(above + below.drop_last() =~= above);
        assert(listed_in(below.drop_last()) =~= Seq::<Listed>::empty());
        assert(below.last() == below[0]);
        assert(listed_in(below) =~= seq![headed(below[0])]);
        assert(listed_in(all) =~= listed_in(above) + listed_in(below));
    } else {
        outputs_are_independent(above, below.drop_last());
        let b = listed_in(below.drop_last());
        one_output_for_a_headed_block(below.drop_last());
        let a = listed_in(above);
        assert((a + b).drop_last() =~= a + b.drop_last());
        assert((a + b).last() == b.last());
        assert(listed_in(all) =~= a + listed_in(below));
    }
}

proof fn one_output_for_a_headed_block(lines: Seq<Seq<char>>)
    requires
        lines.len() > 0,
        is_header(lines[0]),
    ensures
        listed_in(lines).len() > 0,
    decreases lines.len(),
{
    if lines.len() == 1 {
        assert(lines.last() == lines[0]);
    } else {
        assert(lines.drop_last()[0] == lines[0]);
        one_output_for_a_headed_block(lines.drop_last());
    }
}

/// Lines below a header keep the output's name, and none of them enables it again.
pub proof fn lines_keep_the_name(out: Listed, line: Seq<char>)
    ensures
        with_line(out, line).name == out.name,
        with_line(out, line).enabled ==> out.enabled,
{
}

/// Once a resolution is known, only a mode that is marked as the current one changes it.
pub proof fn other_modes_keep_the_resolution(out: Listed, line: Seq<char>)
    requires
        out.width != 0,
        !text::occurs(text::trimmed(line), "current"@),
    ensures
        with_line(out, line).width == out.width,
        with_line(out, line).height == out.height,
{
}

/// A row of lines without a header lists nothing.
pub proof fn lines_above_the_first_header_list_nothing(lines: Seq<Seq<char>>)
    requires
        forall|i: int| 0 <= i < lines.len() ==> !is_header(#[trigger] lines[i]),
    ensures
        listed_in(lines).len() == 0,
    decreases lines.len(),
{
    if lines.len() > 0 {
        assert(!is_header(lines[lines.len() - 1]));
        assert forall|i: int| 0 <= i < lines.drop_last().len() implies !is_header(
            #[trigger] lines.drop_last()[i],
        ) by {
            assert(lines.drop_last()[i] == lines[i]);
        }
        lines_above_the_first_header_list_nothing(lines.drop_last());
    }
}

} // verus!
