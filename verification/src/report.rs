//! What the program tells its user: the list of outputs, and why something failed.

use vstd::prelude::*;

use crate::capture::CaptureError;
use crate::output::{OutputError, OutputInfo, OutputManager};
use crate::pose::{PoseError, MIN_SHM_SIZE};
use crate::text;
use crate::text::{push_integer, push_natural};

verus! {

/// The decimal fractions of one output as they are to be shown.
pub struct OutputFigures {
    /// The refresh rate in Hertz.
    pub refresh: String,
    pub scale: String,
}

/// The entry of the output at place `i` in the list.
pub open spec fn entry(
    i: int,
    o: OutputInfo,
    refresh: Seq<char>,
    scale: Seq<char>,
) -> Seq<char> {
    "  ["@ + text::number(i) + "] "@ + o.name@ + " — "@ + o.make@ + " "@ + o.model@
        + "\n      Resolution: "@ + text::number(o.width as int) + "x"@ + text::number(
        o.height as int,
    ) + " @ "@ + refresh + "Hz\n      Position: ("@ + text::number(o.x as int) + ", "@
        + text::number(o.y as int) + ")  Scale: "@ + scale + "x  "@ + (if o.enabled {
        "ENABLED"@
    } else {
        "disabled"@
    }) + "\n\n"@
}

/// The entries of the first `count` outputs.
pub open spec fn entries(
    outputs: Seq<OutputInfo>,
    figures: Seq<OutputFigures>,
    count: int,
) -> Seq<char>
    decreases count,
{
    if count <= 0 {
        Seq::empty()
    } else {
        entries(outputs, figures, count - 1) + entry(
            count - 1,
            outputs[count - 1],
            figures[count - 1].refresh@,
            figures[count - 1].scale@,
        )
    }
}

/// The heading above the entries: a title over a rule.
pub open spec fn heading() -> Seq<char> {
    "Detected outputs:\n"@ + text::row_of('-', 70) + "\n"@
}

/// The list of the given outputs.
pub open spec fn whole_list(outputs: Seq<OutputInfo>, figures: Seq<OutputFigures>) -> Seq<char> {
    heading() + entries(outputs, figures, outputs.len() as int)
}

fn push_entry(list: &mut String, i: usize, o: &OutputInfo, figures: &OutputFigures)
    ensures
        final(list)@ == old(list)@ + entry(i as int, *o, figures.refresh@, figures.scale@),
{
    let mut r = "  [".to_owned();
    push_natural(&mut r, i as u64);
    r.append("] ");
    r.append(o.name.as_str());
    r.append(" — ");
    r.append(o.make.as_str());
    r.append(" ");
    r.append(o.model.as_str());
    r.append("\n      Resolution: ");
    push_integer(&mut r, o.width);
    r.append("x");
    push_integer(&mut r, o.height);
    r.append(" @ ");
    r.append(figures.refresh.as_str());
    r.append("Hz\n      Position: (");
    push_integer(&mut r, o.x);
    r.append(", ");
    push_integer(&mut r, o.y);
    r.append(")  Scale: ");
    r.append(figures.scale.as_str());
    r.append("x  ");
    if o.enabled {
        r.append("ENABLED");
    } else {
        r.append("disabled");
    }
    r.append("\n\n");
    list.append(r.as_str());
}

impl OutputManager {
    /// The list of all detected outputs.
    pub fn list_outputs(&self, figures: &Vec<OutputFigures>) -> (r: String)
        requires
            figures@.len() == self.outputs@.len(),
        ensures
            r@ == whole_list(self.outputs@, figures@),
            r@ == heading() + entries(self.outputs@, figures@, self.outputs@.len() as int),
    {
        let mut list = "Detected outputs:\n".to_owned();
        let ghost title = list@;
        let mut k: usize = 0;
        while k < 70
            invariant
                k <= 70,
                list@ =~= title + text::row_of('-', k as nat),
            decreases 70 - k,
        {
            list.push('-');
            k = k + 1;
        }
        list.append("\n");
        let mut i: usize = 0;
        assert(heading() + entries(self.outputs@, figures@, 0) =~= heading());
        while i < self.outputs.len()
            invariant
                i <= self.outputs@.len() == figures@.len(),
                list@ == heading() + entries(self.outputs@, figures@, i as int),
            decreases self.outputs@.len() - i,
        {
            let ghost before = list@;
            push_entry(&mut list, i, &self.outputs[i], &figures[i]);
            assert(list@ =~= heading() + entries(self.outputs@, figures@, i + 1));
            i = i + 1;
        }
        list
    }
}

impl OutputError {
    /// What the user is told.
    pub fn message(&self) -> (r: String)
        ensures
            r@ == (match *self {
                OutputError::NoXrOutput { pattern } => "No XR output found matching '"@ + pattern@
                    + "'. Use --list-outputs to see available displays.\nMake sure your XR glasses are connected and detected as a display."@,
                OutputError::NoPrimaryMatch { pattern } => "No primary output found matching '"@
                    + pattern@ + "'"@,
                OutputError::NoPrimary =>
                    "No primary output found. You need at least two displays (your monitor + the XR glasses)."@,
            }),
    {
        match self {
            OutputError::NoXrOutput { pattern } => {
                let mut r = "No XR output found matching '".to_owned();
                r.append(pattern.as_str());
                r.append(
                    "'. Use --list-outputs to see available displays.\nMake sure your XR glasses are connected and detected as a display.",
                );
                r
            },
            OutputError::NoPrimaryMatch { pattern } => {
                let mut r = "No primary output found matching '".to_owned();
                r.append(pattern.as_str());
                r.append("'");
                r
            },
            OutputError::NoPrimary => {
                "No primary output found. You need at least two displays (your monitor + the XR glasses).".to_owned()
            },
        }
    }
}

impl PoseError {
    /// What the user is told.
    pub fn message(&self) -> (r: String)
        ensures
            self matches PoseError::TooSmall { len } && r@ == "Shared memory too small: "@
                + text::digits(len as nat) + " bytes (expected >= "@ + text::digits(
                MIN_SHM_SIZE as nat,
            ) + ")"@,
    {
        match self {
            PoseError::TooSmall { len } => {
                let mut r = "Shared memory too small: ".to_owned();
                push_natural(&mut r, *len as u64);
                r.append(" bytes (expected >= ");
                push_natural(&mut r, MIN_SHM_SIZE as u64);
                r.append(")");
                r
            },
        }
    }
}

impl CaptureError {
    /// What the user is told.
    pub fn message(&self) -> (r: String)
        ensures
            r@ == (match *self {
                CaptureError::NotInitialized => "Capture not initialized"@,
                CaptureError::InvalidMagic => "Capture SHM has invalid magic"@,
                CaptureError::EmptyPixels => "Capture SHM pixel data is empty"@,
            }),
    {
        match self {
            CaptureError::NotInitialized => "Capture not initialized".to_owned(),
            CaptureError::InvalidMagic => "Capture SHM has invalid magic".to_owned(),
            CaptureError::EmptyPixels => "Capture SHM pixel data is empty".to_owned(),
        }
    }
}

// ---- Laws ----

proof fn entries_grow(
    outputs: Seq<OutputInfo>,
    figures: Seq<OutputFigures>,
    k: int,
    count: int,
)
    requires
        0 <= k <= count,
    ensures
        entries(outputs, figures, k).len() <= entries(outputs, figures, count).len(),
        entries(outputs, figures, count).take(entries(outputs, figures, k).len() as int)
            == entries(outputs, figures, k),
    decreases count,
{
    let all = entries(outputs, figures, count);
    let part = entries(outputs, figures, k);
    if k == count {
        assert(all.take(part.len() as int) =~= part);
    } else {
        entries_grow(outputs, figures, k, count - 1);
        let front = entries(outputs, figures, count - 1);
        assert(all.take(part.len() as int) =~= front.take(part.len() as int));
    }
}

/// The list is the title over a rule of 70 dashes and below it the entries of all outputs, in
/// their order and with nothing between them: each is the part of the list between the entries
/// before it and those up to it.
pub proof fn list_has_every_output(
    outputs: Seq<OutputInfo>,
    figures: Seq<OutputFigures>,
    k: int,
)
    requires
        0 <= k < outputs.len(),
    ensures
        ({
            let list = whole_list(outputs, figures);
            let title = "Detected outputs:\n"@;
            let start = title.len() + 71;
            let from = start + entries(outputs, figures, k).len();
            let upto = start + entries(outputs, figures, k + 1).len();
            &&& from <= upto <= list.len()
            &&& list.take(title.len() as int) == title
            &&& forall|i: int| 0 <= i < 70 ==> list[#[trigger] (title.len() + i)] == '-'
            &&& entries(outputs, figures, 0).len() == 0
            &&& list.subrange(from as int, upto as int) == entry(
                k,
                outputs[k],
                figures[k].refresh@,
                figures[k].scale@,
            )
            &&& list.len() == start + entries(outputs, figures, outputs.len() as int).len()
        }),
{
    reveal_strlit("\n");
    let n = outputs.len() as int;
    let title = "Detected outputs:\n"@;
    let list = whole_list(outputs, figures);
    let start = title.len() + 71;
    assert(heading().len() == start);
    assert(list.take(title.len() as int) =~= title);
    entries_grow(outputs, figures, k + 1, n);
    entries_grow(outputs, figures, k, k + 1);
    let all = entries(outputs, figures, n);
    let before = entries(outputs, figures, k);
    let upto = entries(outputs, figures, k + 1);
    let e = entry(k, outputs[k], figures[k].refresh@, figures[k].scale@);
    assert(upto == before + e);
    assert(list.subrange((start + before.len()) as int, (start + upto.len()) as int)
        =~= all.take(upto.len() as int).skip(before.len() as int));
    assert(upto.skip(before.len() as int) =~= e);
}

/// An entry has three lines and a blank one: the place, the name, the make and the model; the
/// resolution and the refresh rate; the position, the scale and whether the output is enabled.
pub proof fn entry_has_three_lines(
    i: int,
    o: OutputInfo,
    refresh: Seq<char>,
    scale: Seq<char>,
)
    ensures
        ({
            let what = "  ["@ + text::number(i) + "] "@ + o.name@ + " — "@ + o.make@ + " "@
                + o.model@;
            let size = "\n      Resolution: "@ + text::number(o.width as int) + "x"@ + text::number(
                o.height as int,
            ) + " @ "@ + refresh;
            let place = "Hz\n      Position: ("@ + text::number(o.x as int) + ", "@ + text::number(
                o.y as int,
            ) + ")  Scale: "@ + scale + "x  "@;
            &&& o.enabled ==> entry(i, o, refresh, scale) == what + size + place + "ENABLED"@
                + "\n\n"@
            &&& !o.enabled ==> entry(i, o, refresh, scale) == what + size + place + "disabled"@
                + "\n\n"@
        }),
{
    let what = "  ["@ + text::number(i) + "] "@ + o.name@ + " — "@ + o.make@ + " "@ + o.model@;
    let size = "\n      Resolution: "@ + text::number(o.width as int) + "x"@ + text::number(
        o.height as int,
    ) + " @ "@ + refresh;
    let place = "Hz\n      Position: ("@ + text::number(o.x as int) + ", "@ + text::number(
        o.y as int,
    ) + ")  Scale: "@ + scale + "x  "@;
    let mark = if o.enabled {
        "ENABLED"@
    } else {
        "disabled"@
    };
    let one = what + "\n      Resolution: "@ + text::number(o.width as int) + "x"@ + text::number(
        o.height as int,
    ) + " @ "@ + refresh;
    assert(one =~= what + size);
    let two = one + "Hz\n      Position: ("@ + text::number(o.x as int) + ", "@ + text::number(
        o.y as int,
    ) + ")  Scale: "@ + scale + "x  "@;
    assert(two =~= one + place);
    assert(entry(i, o, refresh, scale) == two + mark + "\n\n"@);
}

} // verus!
