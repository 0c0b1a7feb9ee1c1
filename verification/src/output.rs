//! The detected outputs, and which of them are the XR glasses and the primary monitor.

use vstd::prelude::*;

use crate::ieee::{Double, DOUBLE_ONE};
use crate::listing;
use crate::listing::{RateText, RawOutput};
use crate::text;
use crate::text::{contains, to_chars};

verus! {

// ---- Outputs ----

/// Information about a detected output.
#[derive(Debug)]
pub struct OutputInfo {
    pub name: String,
    pub description: String,
    pub make: String,
    pub model: String,
    pub width: i32,
    pub height: i32,
    pub refresh_mhz: i32,
    pub scale: Double,
    pub x: i32,
    pub y: i32,
    pub enabled: bool,
}

/// The numbers that the decimal fractions of one output write.
pub struct OutputNumbers {
    /// The scale; `None` where none is written or what is written is no number.
    pub scale: Option<Double>,
    /// For each refresh rate, in the order of the listing, the rate in thousandths of a Hertz;
    /// `None` where what is written is no number.
    pub rates: Vec<Option<i32>>,
}

/// The refresh rate that a row of modes leaves: a rate that can be read replaces the one before
/// it where its mode is the current one or the one before it is 0.
pub open spec fn refresh_of(modes: Seq<(bool, Seq<char>)>, rates: Seq<Option<i32>>) -> i32
    recommends
        modes.len() == rates.len(),
    decreases modes.len(),
{
    if modes.len() == 0 {
        0
    } else {
        let before = refresh_of(modes.drop_last(), rates.drop_last());
        match rates.last() {
            Some(rate) => if modes.last().0 || before == 0 {
                rate
            } else {
                before
            },
            None => before,
        }
    }
}

/// The output `out` says what `listed` and the numbers say; a scale that is missing is 1.
pub open spec fn resolves_to(
    listed: listing::Listed,
    scale: Option<Double>,
    rates: Seq<Option<i32>>,
    out: OutputInfo,
) -> bool {
    &&& out.name@ == listed.name
    &&& out.description@ == listed.description
    &&& out.make@ == listed.make
    &&& out.model@ == listed.model
    &&& out.width == listed.width
    &&& out.height == listed.height
    &&& out.refresh_mhz == refresh_of(listed.rates, rates)
    &&& out.scale == (match scale {
        Some(s) => s,
        None => (Double { bits: DOUBLE_ONE }),
    })
    &&& out.x == listed.x
    &&& out.y == listed.y
    &&& out.enabled == listed.enabled
}

impl RawOutput {
    /// The output with its decimal fractions read.
    pub fn resolve(&self, numbers: &OutputNumbers) -> (r: OutputInfo)
        requires
            numbers.rates@.len() == self.rates@.len(),
        ensures
            resolves_to(self@, numbers.scale, numbers.rates@, r),
    {
        let n: usize = self.rates.len();
        let mut refresh_mhz: i32 = 0;
        let mut i: usize = 0;
        let ghost modes = self@.rates;
        let ghost rates = numbers.rates@;
        while i < n
            invariant
                i <= n == self.rates@.len(),
                n == rates.len(),
                rates == numbers.rates@,
                modes == self.rates@.map_values(|r: RateText| r@),
                refresh_mhz == refresh_of(modes.take(i as int), rates.take(i as int)),
            decreases n - i,
        {
            proof {
                assert(modes.take(i + 1).drop_last() =~= modes.take(i as int));
                assert(rates.take(i + 1).drop_last() =~= rates.take(i as int));
                assert(modes.take(i + 1).last() == self.rates@[i as int]@);
            }
            match numbers.rates[i] {
                Some(rate) => {
                    if self.rates[i].current || refresh_mhz == 0 {
                        refresh_mhz = rate;
                    }
                },
                None => {},
            }
            i = i + 1;
        }
        assert(modes.take(n as int) =~= modes);
        assert(rates.take(n as int) =~= rates);
        OutputInfo {
            name: self.name.clone(),
            description: self.description.clone(),
            make: self.make.clone(),
            model: self.model.clone(),
            width: self.width,
            height: self.height,
            refresh_mhz,
            scale: match numbers.scale {
                Some(s) => s,
                None => Double { bits: DOUBLE_ONE },
            },
            x: self.x,
            y: self.y,
            enabled: self.enabled,
        }
    }
}

/// The lowercase form of a text, as `str::to_lowercase` gives it.
pub uninterp spec fn lowercased(s: Seq<char>) -> Seq<char>;

/// `c`, or its lowercase form where it is an ASCII capital.
pub open spec fn ascii_lower(c: char) -> char {
    if 'A' <= c <= 'Z' {
        ((c as u32 + 32) as u32) as char
    } else {
        c
    }
}

/// `c`, or its uppercase form where it is an ASCII small letter.
pub open spec fn ascii_upper(c: char) -> char {
    if 'a' <= c <= 'z' {
        ((c as u32 - 32) as u32) as char
    } else {
        c
    }
}

pub open spec fn lower_all(s: Seq<char>) -> Seq<char> {
    s.map_values(|c: char| ascii_lower(c))
}

pub open spec fn all_ascii(s: Seq<char>) -> bool {
    forall|i: int| 0 <= i < s.len() ==> (#[trigger] s[i]) as u32 <= 0x7f
}

/// `str::to_lowercase` maps a text to its lowercase form, which depends on the text alone. A
/// text of ASCII characters keeps its length and every character but the capitals, which become
/// the small letters. What becomes of other characters is not said.
pub assume_specification[ str::to_lowercase ](s: &str) -> (r: String)
    ensures
        r@ == lowercased(s@),
        all_ascii(s@) ==> r@ == lower_all(s@),
;

/// One of the four texts holds `pattern`.
pub open spec fn any_holds(
    name: Seq<char>,
    description: Seq<char>,
    make: Seq<char>,
    model: Seq<char>,
    pattern: Seq<char>,
) -> bool {
    ||| text::occurs(name, pattern)
    ||| text::occurs(description, pattern)
    ||| text::occurs(make, pattern)
    ||| text::occurs(model, pattern)
}

/// Whether one of the four texts holds `pattern`, letter for letter.
pub fn any_contains(name: &str, description: &str, make: &str, model: &str, pattern: &str) -> (r:
    bool)
    ensures
        r == any_holds(name@, description@, make@, model@, pattern@),
{
    let p = to_chars(pattern);
    let a = to_chars(name);
    if contains(a.as_slice(), p.as_slice()) {
        return true;
    }
    let b = to_chars(description);
    if contains(b.as_slice(), p.as_slice()) {
        return true;
    }
    let c = to_chars(make);
    if contains(c.as_slice(), p.as_slice()) {
        return true;
    }
    let d = to_chars(model);
    contains(d.as_slice(), p.as_slice())
}

/// `pattern` stands in one of the output's texts, upper and lower case taken for the same; the
/// empty pattern stands in none.
pub open spec fn edid_match(o: OutputInfo, pattern: Seq<char>) -> bool {
    pattern.len() > 0 && any_holds(
        lowercased(o.name@),
        lowercased(o.description@),
        lowercased(o.make@),
        lowercased(o.model@),
        lowercased(pattern),
    )
}

/// `edid_match` with the ASCII letters alone taken in both cases.
pub open spec fn ascii_match(o: OutputInfo, pattern: Seq<char>) -> bool {
    pattern.len() > 0 && any_holds(
        lower_all(o.name@),
        lower_all(o.description@),
        lower_all(o.make@),
        lower_all(o.model@),
        lower_all(pattern),
    )
}

pub open spec fn ascii_output(o: OutputInfo) -> bool {
    all_ascii(o.name@) && all_ascii(o.description@) && all_ascii(o.make@) && all_ascii(o.model@)
}

impl Clone for OutputInfo {
    fn clone(&self) -> (r: Self)
        ensures
            r == *self,
    {
        OutputInfo {
            name: self.name.clone(),
            description: self.description.clone(),
            make: self.make.clone(),
            model: self.model.clone(),
            width: self.width,
            height: self.height,
            refresh_mhz: self.refresh_mhz,
            scale: self.scale,
            x: self.x,
            y: self.y,
            enabled: self.enabled,
        }
    }
}

impl OutputInfo {
    /// The number of pixels, 0 or less where a side is.
    pub open spec fn pixels(self) -> int {
        self.width * self.height
    }

    /// Whether the output matches the given EDID search string, in either case.
    pub fn matches_edid(&self, pattern: &str) -> (r: bool)
        ensures
            r == edid_match(*self, pattern@),
            ascii_output(*self) && all_ascii(pattern@) ==> r == ascii_match(*self, pattern@),
    {
        if pattern.is_empty() {
            return false;
        }
        let p = pattern.to_lowercase();
        let name = self.name.as_str().to_lowercase();
        let description = self.description.as_str().to_lowercase();
        let make = self.make.as_str().to_lowercase();
        let model = self.model.as_str().to_lowercase();
        any_contains(
            name.as_str(),
            description.as_str(),
            make.as_str(),
            model.as_str(),
            p.as_str(),
        )
    }

    /// The total number of pixels, by which the largest output is told.
    pub fn pixel_count(&self) -> (r: i64)
        ensures
            r == self.pixels(),
            r == self.width * self.height,
    {
        let w: i64 = self.width as i64;
        let h: i64 = self.height as i64;
        assert(-0x4000_0000_0000_0000 <= w * h <= 0x4000_0000_0000_0000) by (nonlinear_arith)
            requires
                -0x8000_0000 <= w <= 0x7fff_ffff,
                -0x8000_0000 <= h <= 0x7fff_ffff,
        ;
        w * h
    }
}

// ---- Choosing the primary monitor and the glasses ----

/// Why the two outputs could not be told.
#[derive(Debug)]
pub enum OutputError {
    /// No enabled output matches the search string for the glasses.
    NoXrOutput { pattern: String },
    /// No other enabled output matches the search string for the primary monitor.
    NoPrimaryMatch { pattern: String },
    /// No other output is enabled.
    NoPrimary,
}

/// For each output, whether `pattern` stands in one of its texts.
pub open spec fn hits_of(outputs: Seq<OutputInfo>, pattern: Seq<char>) -> Seq<bool> {
    Seq::new(outputs.len(), |k: int| edid_match(outputs[k], pattern))
}

/// An output that can be the monitor beside glasses of the given name; `hit` tells whether it
/// matches the search string, where there is one.
pub open spec fn can_be_primary(
    o: OutputInfo,
    hit: bool,
    by_match: bool,
    xr_name: Seq<char>,
) -> bool {
    o.enabled && o.name@ != xr_name && (by_match ==> hit)
}

/// The glasses are the first enabled output that matches.
pub open spec fn is_xr(outputs: Seq<OutputInfo>, hits: Seq<bool>, i: int) -> bool {
    &&& 0 <= i < outputs.len()
    &&& outputs[i].enabled && hits[i]
    &&& forall|k: int| 0 <= k < i ==> !((#[trigger] outputs[k]).enabled && hits[k])
}

/// The primary monitor is the first output that can be where a search string is given, and else
/// the one with the most pixels, the last of them where several have as many.
pub open spec fn is_primary(
    outputs: Seq<OutputInfo>,
    hits: Seq<bool>,
    by_match: bool,
    xr_name: Seq<char>,
    j: int,
) -> bool {
    &&& 0 <= j < outputs.len()
    &&& can_be_primary(outputs[j], hits[j], by_match, xr_name)
    &&& forall|k: int|
        0 <= k < outputs.len() && k != j && can_be_primary(
            #[trigger] outputs[k],
            hits[k],
            by_match,
            xr_name,
        ) ==> if by_match {
            j < k
        } else if k < j {
            outputs[k].pixels() <= outputs[j].pixels()
        } else {
            outputs[k].pixels() < outputs[j].pixels()
        }
}

pub open spec fn no_xr(outputs: Seq<OutputInfo>, hits: Seq<bool>) -> bool {
    forall|k: int| 0 <= k < outputs.len() ==> !((#[trigger] outputs[k]).enabled && hits[k])
}

pub open spec fn no_primary(
    outputs: Seq<OutputInfo>,
    hits: Seq<bool>,
    by_match: bool,
    xr_name: Seq<char>,
) -> bool {
    forall|k: int|
        0 <= k < outputs.len() ==> !can_be_primary(
            #[trigger] outputs[k],
            hits[k],
            by_match,
            xr_name,
        )
}

/// What a search for the glasses and the primary monitor comes to, by the places of the outputs.
#[derive(Debug, Clone, Copy, PartialEq, Eq, Structural)]
pub enum Selection {
    Found { primary: usize, xr: usize },
    NoXr,
    NoPrimary,
}

/// `s` is the outcome of a search, given which outputs match either search string.
pub open spec fn selected(
    outputs: Seq<OutputInfo>,
    xr_hits: Seq<bool>,
    primary_hits: Seq<bool>,
    by_match: bool,
    s: Selection,
) -> bool {
    match s {
        Selection::Found { primary, xr } => {
            &&& is_xr(outputs, xr_hits, xr as int)
            &&& is_primary(
                outputs,
                primary_hits,
                by_match,
                outputs[xr as int].name@,
                primary as int,
            )
        },
        Selection::NoXr => no_xr(outputs, xr_hits),
        Selection::NoPrimary => exists|i: int| #[trigger]
            is_xr(outputs, xr_hits, i) && no_primary(
                outputs,
                primary_hits,
                by_match,
                outputs[i].name@,
            ),
    }
}

/// The outcome of a search for the primary monitor and the glasses.
pub open spec fn found(
    outputs: Seq<OutputInfo>,
    xr_match: Seq<char>,
    primary_match: Seq<char>,
    r: Result<(OutputInfo, OutputInfo), OutputError>,
) -> bool {
    exists|s: Selection|
        selected(
            outputs,
            hits_of(outputs, xr_match),
            hits_of(outputs, primary_match),
            primary_match.len() > 0,
            s,
        ) && #[trigger] tells(outputs, xr_match, primary_match, s, r)
}

/// `r` tells of the selection: the two outputs, or what was looked for in vain.
pub open spec fn tells(
    outputs: Seq<OutputInfo>,
    xr_match: Seq<char>,
    primary_match: Seq<char>,
    s: Selection,
    r: Result<(OutputInfo, OutputInfo), OutputError>,
) -> bool {
    match s {
        Selection::Found { primary, xr } => r == Ok::<(OutputInfo, OutputInfo), OutputError>(
            (outputs[primary as int], outputs[xr as int]),
        ),
        Selection::NoXr => {
            &&& r matches Err(OutputError::NoXrOutput { pattern })
            &&& pattern@ == xr_match
        },
        Selection::NoPrimary => if primary_match.len() > 0 {
            &&& r matches Err(OutputError::NoPrimaryMatch { pattern })
            &&& pattern@ == primary_match
        } else {
            r == Err::<(OutputInfo, OutputInfo), OutputError>(OutputError::NoPrimary)
        },
    }
}

fn select_xr(outputs: &Vec<OutputInfo>, hits: &Vec<bool>) -> (r: Option<usize>)
    requires
        hits@.len() == outputs@.len(),
    ensures
        match r {
            Some(i) => is_xr(outputs@, hits@, i as int),
            None => no_xr(outputs@, hits@),
        },
{
    let mut i: usize = 0;
    while i < outputs.len()
        invariant
            i <= outputs@.len() == hits@.len(),
            forall|k: int| 0 <= k < i ==> !((#[trigger] outputs@[k]).enabled && hits@[k]),
        decreases outputs@.len() - i,
    {
        if outputs[i].enabled && hits[i] {
            return Some(i);
        }
        i = i + 1;
    }
    None
}

fn select_primary(
    outputs: &Vec<OutputInfo>,
    hits: &Vec<bool>,
    by_match: bool,
    xr_name: &String,
) -> (r: Option<usize>)
    requires
        hits@.len() == outputs@.len(),
    ensures
        match r {
            Some(j) => is_primary(outputs@, hits@, by_match, xr_name@, j as int),
            None => no_primary(outputs@, hits@, by_match, xr_name@),
        },
{
    let mut best: Option<usize> = None;
    let mut most: i64 = 0;
    let mut i: usize = 0;
    while i < outputs.len()
        invariant
            i <= outputs@.len() == hits@.len(),
            by_match ==> best is None,
            match best {
                Some(j) => {
                    &&& is_primary(
                        outputs@.take(i as int),
                        hits@,
                        by_match,
                        xr_name@,
                        j as int,
                    )
                    &&& most == outputs@[j as int].pixels()
                },
                None => no_primary(outputs@.take(i as int), hits@, by_match, xr_name@),
            },
        decreases outputs@.len() - i,
    {
        let ghost seen = outputs@.take(i as int);
        let ghost next = outputs@.take(i + 1);
        assert(forall|k: int| 0 <= k < i ==> #[trigger] next[k] == seen[k]);
        let same: bool = outputs[i].name == *xr_name;
        if outputs[i].enabled && !same {
            if by_match {
                if hits[i] {
                    assert forall|k: int|
                        0 <= k < outputs@.len() && k != i && can_be_primary(
                            #[trigger] outputs@[k],
                            hits@[k],
                            by_match,
                            xr_name@,
                        ) implies i < k by {
                        if k < i {
                            assert(seen[k] == outputs@[k]);
                        }
                    }
                    return Some(i);
                }
            } else {
                let count: i64 = outputs[i].pixel_count();
                match best {
                    Some(_) => {
                        if count >= most {
                            best = Some(i);
                            most = count;
                        }
                    },
                    None => {
                        best = Some(i);
                        most = count;
                    },
                }
            }
        }
        i = i + 1;
    }
    assert(outputs@.take(outputs@.len() as int) =~= outputs@);
    best
}

/// Chooses the glasses and the primary monitor, given which outputs match either search string
/// and whether there is one for the monitor.
pub fn select_outputs(
    outputs: &Vec<OutputInfo>,
    xr_hits: &Vec<bool>,
    primary_hits: &Vec<bool>,
    by_match: bool,
) -> (r: Selection)
    requires
        xr_hits@.len() == outputs@.len(),
        primary_hits@.len() == outputs@.len(),
    ensures
        selected(outputs@, xr_hits@, primary_hits@, by_match, r),
{
    match select_xr(outputs, xr_hits) {
        None => Selection::NoXr,
        Some(xr) => match select_primary(outputs, primary_hits, by_match, &outputs[xr].name) {
            Some(primary) => Selection::Found { primary, xr },
            None => Selection::NoPrimary,
        },
    }
}

/// `outputs` are the outputs of a listing, with the numbers that its decimal fractions write.
pub open spec fn detected(
    listed: Seq<RawOutput>,
    numbers: Seq<OutputNumbers>,
    outputs: Seq<OutputInfo>,
) -> bool {
    &&& outputs.len() == listed.len()
    &&& forall|i: int|
        0 <= i < listed.len() ==> resolves_to(
            listed[i]@,
            numbers[i].scale,
            numbers[i].rates@,
            #[trigger] outputs[i],
        )
}

/// The detected outputs.
pub struct OutputManager {
    pub outputs: Vec<OutputInfo>,
}

impl OutputManager {
    /// A manager that knows no output yet.
    pub fn new_standalone() -> (r: Self)
        ensures
            r.outputs@.len() == 0,
    {
        OutputManager { outputs: Vec::new() }
    }

    /// Whether the outputs still have to be detected.
    pub fn needs_detection(&self) -> (r: bool)
        ensures
            r == (self.outputs@.len() == 0),
    {
        self.outputs.len() == 0
    }

    /// Takes over the outputs of a listing, given the numbers that its decimal fractions write.
    pub fn detect_outputs(&mut self, listed: &Vec<RawOutput>, numbers: &Vec<OutputNumbers>)
        requires
            listed@.len() == numbers@.len(),
            forall|i: int|
                0 <= i < listed@.len() ==> (#[trigger] numbers@[i]).rates@.len()
                    == listed@[i].rates@.len(),
        ensures
            detected(listed@, numbers@, final(self).outputs@),
            final(self).outputs@.len() == listed@.len(),
            forall|i: int|
                0 <= i < listed@.len() ==> resolves_to(
                    listed@[i]@,
                    numbers@[i].scale,
                    numbers@[i].rates@,
                    #[trigger] final(self).outputs@[i],
                ),
    {
        let n: usize = listed.len();
        let mut outputs: Vec<OutputInfo> = Vec::new();
        let mut i: usize = 0;
        while i < n
            invariant
                i <= n == listed@.len(),
                n == numbers@.len(),
                outputs@.len() == i,
                forall|k: int|
                    0 <= k < listed@.len() ==> (#[trigger] numbers@[k]).rates@.len()
                        == listed@[k].rates@.len(),
                forall|k: int|
                    0 <= k < i ==> resolves_to(
                        listed@[k]@,
                        numbers@[k].scale,
                        numbers@[k].rates@,
                        #[trigger] outputs@[k],
                    ),
            decreases n - i,
        {
            let out = listed[i].resolve(&numbers[i]);
            outputs.push(out);
            i = i + 1;
        }
        self.outputs = outputs;
    }

    /// For each output, whether it matches the search string.
    fn hits(&self, pattern: &str) -> (r: Vec<bool>)
        ensures
            r@ == hits_of(self.outputs@, pattern@),
    {
        let mut r: Vec<bool> = Vec::new();
        let mut i: usize = 0;
        while i < self.outputs.len()
            invariant
                i <= self.outputs@.len(),
                r@ =~= hits_of(self.outputs@, pattern@).take(i as int),
            decreases self.outputs@.len() - i,
        {
            r.push(self.outputs[i].matches_edid(pattern));
            i = i + 1;
        }
        assert(r@ =~= hits_of(self.outputs@, pattern@));
        r
    }

    /// Finds the primary monitor and the glasses, in this order, among the detected outputs.
    pub fn find_outputs(&self, xr_match: &str, primary_match: &str) -> (r: Result<
        (OutputInfo, OutputInfo),
        OutputError,
    >)
        ensures
            found(self.outputs@, xr_match@, primary_match@, r),
    {
        let xr_hits = self.hits(xr_match);
        let primary_hits = self.hits(primary_match);
        let by_match: bool = !primary_match.is_empty();
        let s = select_outputs(&self.outputs, &xr_hits, &primary_hits, by_match);
        let r = match s {
            Selection::Found { primary, xr } => Ok(
                (self.outputs[primary].clone(), self.outputs[xr].clone()),
            ),
            Selection::NoXr => Err(OutputError::NoXrOutput { pattern: xr_match.to_owned() }),
            Selection::NoPrimary => {
                if by_match {
                    Err(OutputError::NoPrimaryMatch { pattern: primary_match.to_owned() })
                } else {
                    Err(OutputError::NoPrimary)
                }
            },
        };
        assert(tells(self.outputs@, xr_match@, primary_match@, s, r));
        r
    }
}

// ---- Laws ----

/// The search decides: given which outputs match, one selection alone is right.
pub proof fn selection_is_unique(
    outputs: Seq<OutputInfo>,
    xr_hits: Seq<bool>,
    primary_hits: Seq<bool>,
    by_match: bool,
    a: Selection,
    b: Selection,
)
    requires
        selected(outputs, xr_hits, primary_hits, by_match, a),
        selected(outputs, xr_hits, primary_hits, by_match, b),
    ensures
        a == b,
{
    let i = xr_of(outputs, xr_hits, primary_hits, by_match, a);
    let k = xr_of(outputs, xr_hits, primary_hits, by_match, b);
    if !no_xr(outputs, xr_hits) {
        if i < k {
            assert(!(outputs[i].enabled && xr_hits[i]));
        }
        if k < i {
            assert(!(outputs[k].enabled && xr_hits[k]));
        }
        let name = outputs[i].name@;
        if let Selection::Found { primary, .. } = a {
            assert(can_be_primary(
                outputs[primary as int],
                primary_hits[primary as int],
                by_match,
                name,
            ));
        }
        if let Selection::Found { primary, .. } = b {
            assert(can_be_primary(
                outputs[primary as int],
                primary_hits[primary as int],
                by_match,
                name,
            ));
        }
    }
}

/// The glasses that a selection goes by, where there are any.
proof fn xr_of(
    outputs: Seq<OutputInfo>,
    xr_hits: Seq<bool>,
    primary_hits: Seq<bool>,
    by_match: bool,
    s: Selection,
) -> (i: int)
    requires
        selected(outputs, xr_hits, primary_hits, by_match, s),
    ensures
        no_xr(outputs, xr_hits) <==> s == Selection::NoXr,
        s == Selection::NoXr || is_xr(outputs, xr_hits, i),
        s is Found ==> i == s->xr,
        s == Selection::NoPrimary ==> no_primary(
            outputs,
            primary_hits,
            by_match,
            outputs[i].name@,
        ),
{
    match s {
        Selection::Found { primary, xr } => xr as int,
        Selection::NoXr => 0,
        Selection::NoPrimary => choose|i: int| #[trigger]
            is_xr(outputs, xr_hits, i) && no_primary(
                outputs,
                primary_hits,
                by_match,
                outputs[i].name@,
            ),
    }
}

/// A search finds both outputs exactly if some enabled output matches the search string for the
/// glasses and, beside the first such output, some other can be the monitor.
pub proof fn search_succeeds_when_it_can(
    outputs: Seq<OutputInfo>,
    xr_match: Seq<char>,
    primary_match: Seq<char>,
    r: Result<(OutputInfo, OutputInfo), OutputError>,
)
    requires
        found(outputs, xr_match, primary_match, r),
    ensures
        r is Ok <==> exists|i: int| #[trigger]
            is_xr(outputs, hits_of(outputs, xr_match), i) && !no_primary(
                outputs,
                hits_of(outputs, primary_match),
                primary_match.len() > 0,
                outputs[i].name@,
            ),
{
    let xr_hits = hits_of(outputs, xr_match);
    let primary_hits = hits_of(outputs, primary_match);
    let by_match = primary_match.len() > 0;
    let s = choose|s: Selection|
        selected(outputs, xr_hits, primary_hits, by_match, s) && #[trigger] tells(
            outputs,
            xr_match,
            primary_match,
            s,
            r,
        );
    let i = xr_of(outputs, xr_hits, primary_hits, by_match, s);
    assert forall|k: int| #[trigger] is_xr(outputs, xr_hits, k) && s != Selection::NoXr implies k
        == i by {
        if k < i {
            assert(!(outputs[k].enabled && xr_hits[k]));
        }
        if i < k {
            assert(!(outputs[i].enabled && xr_hits[i]));
        }
    }
    if let Selection::Found { primary, .. } = s {
        assert(can_be_primary(
            outputs[primary as int],
            primary_hits[primary as int],
            by_match,
            outputs[i].name@,
        ));
    }
}

/// The two outputs that a search finds are enabled and have different names, the glasses match
/// their search string, and the monitor matches its own or has at least as many pixels as every
/// other enabled output beside the glasses.
pub proof fn found_outputs_are_suitable(
    outputs: Seq<OutputInfo>,
    xr_match: Seq<char>,
    primary_match: Seq<char>,
    primary: OutputInfo,
    xr: OutputInfo,
)
    requires
        found(outputs, xr_match, primary_match, Ok((primary, xr))),
    ensures
        primary.enabled && xr.enabled,
        primary.name@ != xr.name@,
        edid_match(xr, xr_match),
        primary_match.len() > 0 ==> edid_match(primary, primary_match),
        primary_match.len() == 0 ==> forall|k: int|
            0 <= k < outputs.len() && (#[trigger] outputs[k]).enabled && outputs[k].name@
                != xr.name@ ==> outputs[k].pixels() <= primary.pixels(),
{
    let xr_hits = hits_of(outputs, xr_match);
    let primary_hits = hits_of(outputs, primary_match);
    let by_match = primary_match.len() > 0;
    let s = choose|s: Selection|
        selected(outputs, xr_hits, primary_hits, by_match, s) && #[trigger] tells(
            outputs,
            xr_match,
            primary_match,
            s,
            Ok((primary, xr)),
        );
    let i = xr_of(outputs, xr_hits, primary_hits, by_match, s);
    assert(xr == outputs[i]);
    if primary_match.len() == 0 {
        assert forall|k: int|
            0 <= k < outputs.len() && (#[trigger] outputs[k]).enabled && outputs[k].name@
                != xr.name@ implies outputs[k].pixels() <= primary.pixels() by {
            assert(can_be_primary(outputs[k], primary_hits[k], by_match, outputs[i].name@));
        }
    }
}

/// A search string finds the same ASCII outputs in upper and in lower case.
pub proof fn ascii_match_ignores_case(o: OutputInfo, pattern: Seq<char>)
    ensures
        ascii_match(o, pattern.map_values(|c: char| ascii_upper(c))) == ascii_match(o, pattern),
        ascii_match(o, lower_all(pattern)) == ascii_match(o, pattern),
{
    assert(lower_all(pattern.map_values(|c: char| ascii_upper(c))) =~= lower_all(pattern));
    assert(lower_all(lower_all(pattern)) =~= lower_all(pattern));
}

/// A rate other than 0 of a mode that is marked as the current one decides the refresh rate,
/// where no later mode is marked so and has a rate that can be read.
pub proof fn current_rate_decides(
    modes: Seq<(bool, Seq<char>)>,
    rates: Seq<Option<i32>>,
    i: int,
    rate: i32,
)
    requires
        modes.len() == rates.len(),
        0 <= i < modes.len(),
        modes[i].0,
        rates[i] == Some(rate),
        rate != 0,
        forall|k: int| i < k < modes.len() && (#[trigger] modes[k]).0 ==> rates[k] is None,
    ensures
        refresh_of(modes, rates) == rate,
    decreases modes.len(),
{
    let n = modes.len() - 1;
    if i < n {
        let front = modes.drop_last();
        assert forall|k: int| i < k < front.len() && (#[trigger] front[k]).0 implies (
        rates.drop_last()[k]) is None by {
            assert(modes[k].0);
        }
        current_rate_decides(front, rates.drop_last(), i, rate);
        assert(modes[n].0 ==> rates[n] is None);
    }
}

/// Without a mode that is marked as the current one, the first rate that can be read and is not
/// 0 decides.
pub proof fn first_rate_decides(
    modes: Seq<(bool, Seq<char>)>,
    rates: Seq<Option<i32>>,
    i: int,
    rate: i32,
)
    requires
        modes.len() == rates.len(),
        0 <= i < modes.len(),
        forall|k: int| 0 <= k < modes.len() ==> !(#[trigger] modes[k]).0,
        rates[i] == Some(rate),
        rate != 0,
        forall|k: int|
            0 <= k < i ==> (#[trigger] rates[k] is None || rates[k] == Some(0i32)),
    ensures
        refresh_of(modes, rates) == rate,
    decreases modes.len(),
{
    let front = modes.drop_last();
    let read = rates.drop_last();
    assert(forall|k: int| 0 <= k < front.len() ==> front[k] == modes[k]);
    assert(forall|k: int| 0 <= k < read.len() ==> read[k] == rates[k]);
    let n = modes.len() - 1;
    assert(!modes[n].0);
    if i < n {
        first_rate_decides(front, read, i, rate);
    } else {
        no_rate_so_far(front, read);
    }
}

/// Where no rate can be read, or none but 0, the refresh rate is 0.
pub proof fn no_rate_so_far(modes: Seq<(bool, Seq<char>)>, rates: Seq<Option<i32>>)
    requires
        modes.len() == rates.len(),
        forall|k: int|
            0 <= k < modes.len() ==> (#[trigger] rates[k] is None || rates[k] == Some(0i32)),
    ensures
        refresh_of(modes, rates) == 0,
    decreases modes.len(),
{
    if modes.len() > 0 {
        let read = rates.drop_last();
        assert(forall|k: int| 0 <= k < read.len() ==> read[k] == rates[k]);
        no_rate_so_far(modes.drop_last(), read);
        assert(rates[modes.len() - 1] is None || rates[modes.len() - 1] == Some(0i32));
    }
}

/// The outputs that are detected are those of the listing, in its order: each says what the
/// listing says of it, and has the scale that is written, or 1.
pub proof fn detected_outputs_are_those_listed(
    listed: Seq<RawOutput>,
    numbers: Seq<OutputNumbers>,
    outputs: Seq<OutputInfo>,
    i: int,
)
    requires
        detected(listed, numbers, outputs),
        0 <= i < listed.len(),
    ensures
        outputs.len() == listed.len(),
        outputs[i].name@ == listed[i].name@,
        outputs[i].description@ == listed[i].description@,
        outputs[i].make@ == listed[i].make@,
        outputs[i].model@ == listed[i].model@,
        outputs[i].width == listed[i].width,
        outputs[i].height == listed[i].height,
        outputs[i].x == listed[i].x,
        outputs[i].y == listed[i].y,
        outputs[i].enabled == listed[i].enabled,
        numbers[i].scale matches Some(s) ==> outputs[i].scale == s,
        numbers[i].scale is None ==> outputs[i].scale.bits == 0x3ff0_0000_0000_0000,
        outputs[i].refresh_mhz == refresh_of(
            listed[i].rates@.map_values(|r: RateText| (r.current, r.text@)),
            numbers[i].rates@,
        ),
{
    assert(resolves_to(listed[i]@, numbers[i].scale, numbers[i].rates@, outputs[i]));
    assert(listed[i].rates@.map_values(|r: RateText| (r.current, r.text@))
        =~= listed[i].rates@.map_values(|r: RateText| r@));
}

/// A pattern is found in four texts exactly if one of them, no matter which, is the pattern with
/// anything before and behind it.
pub proof fn pattern_is_found_anywhere(
    name: Seq<char>,
    description: Seq<char>,
    make: Seq<char>,
    model: Seq<char>,
    pattern: Seq<char>,
)
    ensures
        any_holds(name, description, make, model, pattern) <==> exists|a: Seq<char>, b: Seq<char>|
            {
                let t = #[trigger] (a + pattern + b);
                t == name || t == description || t == make || t == model
            },
{
    text::what_occurs_is_a_middle_part(name, pattern);
    text::what_occurs_is_a_middle_part(description, pattern);
    text::what_occurs_is_a_middle_part(make, pattern);
    text::what_occurs_is_a_middle_part(model, pattern);
    if any_holds(name, description, make, model, pattern) {
        if text::occurs(name, pattern) {
            let (a, b) = choose|a: Seq<char>, b: Seq<char>| name == #[trigger] (a + pattern + b);
        } else if text::occurs(description, pattern) {
            let (a, b) = choose|a: Seq<char>, b: Seq<char>|
                description == #[trigger] (a + pattern + b);
        } else if text::occurs(make, pattern) {
            let (a, b) = choose|a: Seq<char>, b: Seq<char>| make == #[trigger] (a + pattern + b);
        } else {
            let (a, b) = choose|a: Seq<char>, b: Seq<char>| model == #[trigger] (a + pattern + b);
        }
    }
}

/// An output matches a search string that is not empty exactly if the lowercase form of its name,
/// its description, its make or its model is the lowercase form of the string with anything before
/// and behind it; it never matches the empty one.
pub proof fn search_string_matches_anywhere(o: OutputInfo, pattern: Seq<char>)
    ensures
        pattern.len() == 0 ==> !edid_match(o, pattern),
        pattern.len() > 0 ==> (edid_match(o, pattern) <==> exists|a: Seq<char>, b: Seq<char>|
            {
                let t = #[trigger] (a + lowercased(pattern) + b);
                t == lowercased(o.name@) || t == lowercased(o.description@) || t == lowercased(
                    o.make@,
                ) || t == lowercased(o.model@)
            }),
{
    pattern_is_found_anywhere(
        lowercased(o.name@),
        lowercased(o.description@),
        lowercased(o.make@),
        lowercased(o.model@),
        lowercased(pattern),
    );
}

/// An output one of whose ASCII texts holds the search string, with anything before and behind it,
/// matches it.
pub proof fn text_with_the_search_string_matches(
    o: OutputInfo,
    a: Seq<char>,
    pattern: Seq<char>,
    b: Seq<char>,
)
    requires
        pattern.len() > 0,
        o.name@ == a + pattern + b || o.description@ == a + pattern + b || o.make@ == a + pattern
            + b || o.model@ == a + pattern + b,
    ensures
        ascii_match(o, pattern),
{
    assert(lower_all(a + pattern + b) =~= lower_all(a) + lower_all(pattern) + lower_all(b));
    pattern_is_found_anywhere(
        lower_all(o.name@),
        lower_all(o.description@),
        lower_all(o.make@),
        lower_all(o.model@),
        lower_all(pattern),
    );
}

/// An ASCII match is one in lowercase: the string stands in one of the texts with each capital
/// letter of both taken for the small letter 32 places on, and every other character for itself.
pub proof fn ascii_match_is_in_lowercase(o: OutputInfo, pattern: Seq<char>, s: Seq<char>, i: int)
    requires
        0 <= i < s.len(),
    ensures
        pattern.len() == 0 ==> !ascii_match(o, pattern),
        lower_all(s).len() == s.len(),
        'A' <= s[i] <= 'Z' ==> lower_all(s)[i] as u32 == s[i] as u32 + 32,
        !('A' <= s[i] <= 'Z') ==> lower_all(s)[i] == s[i],
        pattern.len() > 0 ==> (ascii_match(o, pattern) <==> exists|a: Seq<char>, b: Seq<char>|
            {
                let t = #[trigger] (a + lower_all(pattern) + b);
                t == lower_all(o.name@) || t == lower_all(o.description@) || t == lower_all(
                    o.make@,
                ) || t == lower_all(o.model@)
            }),
{
    pattern_is_found_anywhere(
        lower_all(o.name@),
        lower_all(o.description@),
        lower_all(o.make@),
        lower_all(o.model@),
        lower_all(pattern),
    );
}

/// The glasses that a search finds are the first enabled output that matches their search string.
/// The monitor is another enabled output: the first that matches its own search string, or, where
/// that is empty, one that has more pixels than every such output behind it and no fewer than
/// every such output before it.
pub proof fn search_finds_the_right_outputs(
    outputs: Seq<OutputInfo>,
    xr_match: Seq<char>,
    primary_match: Seq<char>,
    primary: OutputInfo,
    xr: OutputInfo,
) -> (p: (int, int))
    requires
        found(outputs, xr_match, primary_match, Ok((primary, xr))),
    ensures
        ({
            let (i, j) = p;
            &&& 0 <= i < outputs.len() && xr == outputs[i]
            &&& outputs[i].enabled && edid_match(outputs[i], xr_match)
            &&& forall|k: int|
                0 <= k < i && (#[trigger] outputs[k]).enabled ==> !edid_match(outputs[k], xr_match)
            &&& 0 <= j < outputs.len() && primary == outputs[j]
            &&& outputs[j].enabled && outputs[j].name@ != xr.name@
            &&& primary_match.len() > 0 ==> edid_match(outputs[j], primary_match) && forall|k: int|
                0 <= k < j && (#[trigger] outputs[k]).enabled && outputs[k].name@ != xr.name@
                    ==> !edid_match(outputs[k], primary_match)
            &&& primary_match.len() == 0 ==> forall|k: int|
                0 <= k < outputs.len() && (#[trigger] outputs[k]).enabled && outputs[k].name@
                    != xr.name@ ==> {
                    &&& k < j ==> outputs[k].width * outputs[k].height <= outputs[j].width
                        * outputs[j].height
                    &&& k > j ==> outputs[k].width * outputs[k].height < outputs[j].width
                        * outputs[j].height
                }
        }),
{
    let xr_hits = hits_of(outputs, xr_match);
    let primary_hits = hits_of(outputs, primary_match);
    let by_match = primary_match.len() > 0;
    let s = choose|s: Selection|
        selected(outputs, xr_hits, primary_hits, by_match, s) && #[trigger] tells(
            outputs,
            xr_match,
            primary_match,
            s,
            Ok((primary, xr)),
        );
    let i = s->xr as int;
    let j = s->primary as int;
    assert forall|k: int| 0 <= k < i && (#[trigger] outputs[k]).enabled implies !edid_match(
        outputs[k],
        xr_match,
    ) by {
        assert(!(outputs[k].enabled && xr_hits[k]));
    }
    assert forall|k: int|
        0 <= k < outputs.len() && k != j && (#[trigger] outputs[k]).enabled && outputs[k].name@
            != xr.name@ && (by_match ==> edid_match(outputs[k], primary_match)) implies if by_match {
        j < k
    } else if k < j {
        outputs[k].width * outputs[k].height <= outputs[j].width * outputs[j].height
    } else {
        outputs[k].width * outputs[k].height < outputs[j].width * outputs[j].height
    } by {
        assert(can_be_primary(outputs[k], primary_hits[k], by_match, outputs[i].name@));
    }
    (i, j)
}

/// A search fails for want of glasses exactly if no enabled output matches their search string,
/// and else for want of a monitor if none is left beside the glasses; the error names the string
/// that was looked for in vain.
pub proof fn vain_searches_say_what_is_missing(
    outputs: Seq<OutputInfo>,
    xr_match: Seq<char>,
    primary_match: Seq<char>,
    e: OutputError,
)
    requires
        found(outputs, xr_match, primary_match, Err(e)),
    ensures
        e matches OutputError::NoXrOutput { pattern } ==> pattern@ == xr_match && forall|k: int|
            0 <= k < outputs.len() && (#[trigger] outputs[k]).enabled ==> !edid_match(
                outputs[k],
                xr_match,
            ),
        !(e is NoXrOutput) ==> exists|i: int|
            {
                &&& 0 <= i < outputs.len()
                &&& (#[trigger] outputs[i]).enabled && edid_match(outputs[i], xr_match)
                &&& forall|k: int|
                    0 <= k < outputs.len() && (#[trigger] outputs[k]).enabled && outputs[k].name@
                        != outputs[i].name@ ==> primary_match.len() > 0 && !edid_match(
                        outputs[k],
                        primary_match,
                    )
            },
        e matches OutputError::NoPrimaryMatch { pattern } ==> pattern@ == primary_match
            && primary_match.len() > 0,
        e is NoPrimary ==> primary_match.len() == 0,
{
    let xr_hits = hits_of(outputs, xr_match);
    let primary_hits = hits_of(outputs, primary_match);
    let by_match = primary_match.len() > 0;
    let r: Result<(OutputInfo, OutputInfo), OutputError> = Err(e);
    let s = choose|s: Selection|
        selected(outputs, xr_hits, primary_hits, by_match, s) && #[trigger] tells(
            outputs,
            xr_match,
            primary_match,
            s,
            r,
        );
    let i = xr_of(outputs, xr_hits, primary_hits, by_match, s);
    if s == Selection::NoXr {
        assert forall|k: int| 0 <= k < outputs.len() && (#[trigger] outputs[k]).enabled implies
            !edid_match(outputs[k], xr_match) by {
            assert(!(outputs[k].enabled && xr_hits[k]));
        }
    } else {
        assert(outputs[i].enabled && xr_hits[i]);
        assert forall|k: int|
            0 <= k < outputs.len() && (#[trigger] outputs[k]).enabled && outputs[k].name@
                != outputs[i].name@ implies primary_match.len() > 0 && !edid_match(
            outputs[k],
            primary_match,
        ) by {
            assert(!can_be_primary(outputs[k], primary_hits[k], by_match, outputs[i].name@));
        }
    }
}

/// A further mode takes over the refresh rate where its rate can be read and it is marked as the
/// current one or no rate but 0 is known; otherwise the refresh rate stays.
pub proof fn further_mode(
    modes: Seq<(bool, Seq<char>)>,
    rates: Seq<Option<i32>>,
    current: bool,
    text: Seq<char>,
    rate: Option<i32>,
)
    requires
        modes.len() == rates.len(),
    ensures
        ({
            let before = refresh_of(modes, rates);
            let after = refresh_of(modes.push((current, text)), rates.push(rate));
            &&& rate is Some && (current || before == 0) ==> after == rate->0
            &&& rate is None || (!current && before != 0) ==> after == before
            &&& modes.len() == 0 ==> before == 0
        }),
{
    assert(modes.push((current, text)).drop_last() =~= modes);
    assert(rates.push(rate).drop_last() =~= rates);
}

} // verus!
