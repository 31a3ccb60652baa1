//! The decisions and texts of the command-line front-end: the disk table,
//! the risk labels, the safety gate before flashing, the typed confirmation,
//! and the single-line progress bar.
use vstd::prelude::*;
use crate::disk::{risk_of, Disk, Risk};
use crate::error::Error;
use crate::flash::ProgressEvent;
use crate::text::{chars_of, dec, push_char, push_dec, push_str, string_of, trim, trim_str};

verus! {

/// The label shown for each risk class.
pub open spec fn risk_text(r: Risk) -> Seq<char> {
    match r {
        Risk::System => "SYSTEM  <-- do NOT use"@,
        Risk::Internal => "internal disk"@,
        Risk::Removable => "external/USB (expected)"@,
    }
}

/// The label shown for a risk class.
pub fn risk_label(r: Risk) -> (s: &'static str)
    ensures
        s@ == risk_text(r),
{
    match r {
        Risk::System => "SYSTEM  <-- do NOT use",
        Risk::Internal => "internal disk",
        Risk::Removable => "external/USB (expected)",
    }
}

/// `s` cut to at most `max` characters: when it is longer, its first
/// `max - 1` characters (none when `max` is 0) followed by an ellipsis.
pub open spec fn truncated(s: Seq<char>, max: nat) -> Seq<char> {
    if s.len() <= max {
        s
    } else {
        s.take(if max == 0 {
            0int
        } else {
            max - 1
        }).push('…')
    }
}

/// Shortens `s` to fit a table column of `max` characters.
pub fn truncate(s: &str, max: usize) -> (r: String)
    ensures
        r@ == truncated(s@, max as nat),
{
    let cs = chars_of(s);
    if cs.len() <= max {
        return string_of(cs.as_slice());
    }
    let keep = if max == 0 {
        0
    } else {
        max - 1
    };
    let mut r = String::new();
    let mut i: usize = 0;
    while i < keep
        invariant
            keep < cs@.len(),
            i <= keep,
            r@ == cs@.take(i as int),
        decreases keep - i,
    {
        push_char(&mut r, cs[i]);
        i = i + 1;
        assert(r@ =~= cs@.take(i as int));
    }
    push_char(&mut r, '…');
    r
}

/// `s` padded with spaces on the right to `width` characters, as
/// `format!("{:<width$}")` pads it.
pub open spec fn pad_right(s: Seq<char>, width: nat) -> Seq<char> {
    if s.len() >= width {
        s
    } else {
        s + Seq::new((width - s.len()) as nat, |i: int| ' ')
    }
}

/// `s` padded with spaces on the left to `width` characters, as
/// `format!("{:>width$}")` pads it.
pub open spec fn pad_left(s: Seq<char>, width: nat) -> Seq<char> {
    if s.len() >= width {
        s
    } else {
        Seq::new((width - s.len()) as nat, |i: int| ' ') + s
    }
}

/// Appends `n` copies of `c`.
fn push_repeat(s: &mut String, c: char, n: usize)
    ensures
        final(s)@ == old(s)@ + Seq::new(n as nat, |i: int| c),
{
    let ghost start = s@;
    let mut i: usize = 0;
    while i < n
        invariant
            i <= n,
            s@ == start + Seq::new(i as nat, |k: int| c),
        decreases n - i,
    {
        push_char(s, c);
        i = i + 1;
        assert(s@ =~= start + Seq::new(i as nat, |k: int| c));
    }
}

/// Appends `t` padded on the right to `width` characters.
fn push_padded_right(s: &mut String, t: &str, width: usize)
    ensures
        final(s)@ == old(s)@ + pad_right(t@, width as nat),
{
    let n = t.unicode_len();
    push_str(s, t);
    if n < width {
        push_repeat(s, ' ', width - n);
    }
}

/// Appends `t` padded on the left to `width` characters.
fn push_padded_left(s: &mut String, t: &str, width: usize)
    ensures
        final(s)@ == old(s)@ + pad_left(t@, width as nat),
{
    let n = t.unicode_len();
    if n < width {
        push_repeat(s, ' ', width - n);
    }
    push_str(s, t);
}

/// The header line of the disk table.
pub open spec fn table_header() -> Seq<char> {
    pad_right("ID"@, 10) + " "@ + pad_right("MODEL"@, 28) + " "@ + pad_left("SIZE"@, 11) + " "@
        + pad_right("BUS"@, 10) + " TYPE"@
}

/// One line of the disk table: id, model (shortened to 28 characters), the
/// rendered size `size`, bus (shortened to 10 characters) and risk label, in
/// aligned columns.
pub open spec fn table_row(d: Disk, size: Seq<char>) -> Seq<char> {
    pad_right(d.id@, 10) + " "@ + pad_right(truncated(d.model@, 28), 28) + " "@ + pad_left(
        size,
        11,
    ) + " "@ + pad_right(truncated(d.bus@, 10), 10) + " "@ + risk_text(
        risk_of(d.system, d.internal, d.removable),
    )
}

/// The header line of the disk table.
pub fn list_header() -> (s: String)
    ensures
        s@ == table_header(),
{
    let mut s = String::new();
    push_padded_right(&mut s, "ID", 10);
    push_str(&mut s, " ");
    push_padded_right(&mut s, "MODEL", 28);
    push_str(&mut s, " ");
    push_padded_left(&mut s, "SIZE", 11);
    push_str(&mut s, " ");
    push_padded_right(&mut s, "BUS", 10);
    push_str(&mut s, " TYPE");
    s
}

/// One line of the disk table for `d`, whose capacity renders as `size`.
pub fn list_row(d: &Disk, size: &str) -> (s: String)
    ensures
        s@ == table_row(*d, size@),
{
    let mut s = String::new();
    push_padded_right(&mut s, d.id.as_str(), 10);
    push_str(&mut s, " ");
    let model = truncate(d.model.as_str(), 28);
    push_padded_right(&mut s, model.as_str(), 28);
    push_str(&mut s, " ");
    push_padded_left(&mut s, size, 11);
    push_str(&mut s, " ");
    let bus = truncate(d.bus.as_str(), 10);
    push_padded_right(&mut s, bus.as_str(), 10);
    push_str(&mut s, " ");
    push_str(&mut s, risk_label(d.risk()));
    s
}

/// The model shown for a disk: "(unknown)" when the OS gave none.
pub open spec fn model_text(model: Seq<char>) -> Seq<char> {
    if model.len() == 0 {
        "(unknown)"@
    } else {
        model
    }
}

/// The description of the target drive printed before flashing or verifying;
/// its capacity renders as `size`.
pub open spec fn target_text(d: Disk, size: Seq<char>) -> Seq<char> {
    "\nTarget drive:\n  ID:    "@ + d.id@ + "\n  Model: "@ + model_text(d.model@) + "\n  Size:  "@
        + size + "\n  Bus:   "@ + d.bus@ + "\n  Type:  "@ + risk_text(
        risk_of(d.system, d.internal, d.removable),
    ) + "\n"@
}

/// The description of the target drive, whose capacity renders as `size`.
pub fn describe_target(d: &Disk, size: &str) -> (s: String)
    ensures
        s@ == target_text(*d, size@),
{
    let mut s = String::from_str("\nTarget drive:\n  ID:    ");
    push_str(&mut s, d.id.as_str());
    push_str(&mut s, "\n  Model: ");
    if d.model.unicode_len() == 0 {
        push_str(&mut s, "(unknown)");
    } else {
        push_str(&mut s, d.model.as_str());
    }
    push_str(&mut s, "\n  Size:  ");
    push_str(&mut s, size);
    push_str(&mut s, "\n  Bus:   ");
    push_str(&mut s, d.bus.as_str());
    push_str(&mut s, "\n  Type:  ");
    push_str(&mut s, risk_label(d.risk()));
    push_str(&mut s, "\n");
    s
}

/// The refusal for writing to a system disk.
pub open spec fn system_refusal(id: Seq<char>) -> Seq<char> {
    "'"@ + id
        + "' is a SYSTEM disk (it holds your operating system). Refusing to write. This is almost certainly the wrong drive."@
}

/// The refusal for writing to an internal disk without `--force`.
pub open spec fn internal_refusal(id: Seq<char>) -> Seq<char> {
    "'"@ + id
        + "' is an INTERNAL disk, not an external/USB drive. The PS5 drive is normally in a USB enclosure. If you are certain, re-run with --force."@
}

/// The safety gate before flashing: the system disk is refused
/// unconditionally, an internal disk unless `force` is set; removable disks
/// pass.
pub fn check_target(d: &Disk, force: bool) -> (r: Result<(), Error>)
    ensures
        risk_of(d.system, d.internal, d.removable) == Risk::System ==> (r matches Err(
            Error::Other(m),
        ) && m@ == system_refusal(d.id@)),
        risk_of(d.system, d.internal, d.removable) == Risk::Internal && !force ==> (r matches Err(
            Error::Other(m),
        ) && m@ == internal_refusal(d.id@)),
        r is Ok <==> (risk_of(d.system, d.internal, d.removable) == Risk::Removable || (risk_of(
            d.system,
            d.internal,
            d.removable,
        ) == Risk::Internal && force)),
{
    match d.risk() {
        Risk::System => {
            let mut m = String::from_str("'");
            push_str(&mut m, d.id.as_str());
            push_str(
                &mut m,
                "' is a SYSTEM disk (it holds your operating system). Refusing to write. This is almost certainly the wrong drive.",
            );
            Err(Error::Other(m))
        },
        Risk::Internal => {
            if force {
                Ok(())
            } else {
                let mut m = String::from_str("'");
                push_str(&mut m, d.id.as_str());
                push_str(
                    &mut m,
                    "' is an INTERNAL disk, not an external/USB drive. The PS5 drive is normally in a USB enclosure. If you are certain, re-run with --force.",
                );
                Err(Error::Other(m))
            }
        },
        Risk::Removable => Ok(()),
    }
}

/// The typed confirmation: the line the user typed, trimmed, must be the
/// disk id; anything else aborts.
pub fn check_confirmation(line: &str, id: &str) -> (r: Result<(), Error>)
    ensures
        r is Ok <==> trim(line@) == id@,
        r matches Err(e) ==> (e matches Error::Other(m) && m@ == "aborted by user"@),
{
    let t = trim_str(line);
    let id_owned = String::from_str(id);
    if t == id_owned {
        Ok(())
    } else {
        Err(Error::Other(String::from_str("aborted by user")))
    }
}

/// The percentage shown for `done` of `total` bytes: 100 when the total is 0.
pub open spec fn percent(done: u64, total: u64) -> int {
    if total == 0 {
        100
    } else {
        (done * 100) as int / total as int
    }
}

/// The bar line drawn for stage `stage` at `pct` percent: a carriage return,
/// the stage, 20 cells of `#` (one per 5 percent) and spaces, and the
/// percentage right-aligned in 3 columns.
pub open spec fn bar_text(stage: Seq<char>, pct: int) -> Seq<char> {
    let filled = (pct / 5) as nat;
    "\r"@ + stage + " ["@ + Seq::new(filled, |i: int| '#') + Seq::new(
        (20 - filled) as nat,
        |i: int| ' ',
    ) + "] "@ + pad_left(dec(pct as nat), 3) + "%"@
}

/// The bar `before`, given `done` of `total` bytes, became `after` and drew
/// `out`: the stage stays, the percentage is remembered, and the bar is
/// redrawn only when the percentage changed.
pub open spec fn shows_progress(
    before: ProgressBar,
    done: u64,
    total: u64,
    after: ProgressBar,
    out: Seq<char>,
) -> bool {
    &&& after.stage == before.stage
    &&& after.last_pct == percent(done, total)
    &&& out == (if percent(done, total) != before.last_pct {
        bar_text(before.stage@, percent(done, total))
    } else {
        Seq::empty()
    })
}

/// A repeated percentage is never redrawn: after the bar showed `done` of
/// `total`, showing the same progress again draws nothing and leaves the
/// bar as it was.
pub proof fn lemma_repeated_progress_not_redrawn(
    b0: ProgressBar,
    b1: ProgressBar,
    b2: ProgressBar,
    out1: Seq<char>,
    out2: Seq<char>,
    done: u64,
    total: u64,
)
    requires
        shows_progress(b0, done, total, b1, out1),
        shows_progress(b1, done, total, b2, out2),
    ensures
        out2.len() == 0,
        b2.stage == b1.stage,
        b2.last_pct == b1.last_pct,
{
}

/// Minimal single-line progress bar: what it shows for each progress event,
/// given the stage it is in and the percentage it last drew.
pub struct ProgressBar {
    pub stage: String,
    pub last_pct: i32,
}

impl ProgressBar {
    pub fn new() -> (b: ProgressBar)
        ensures
            b.stage@ == Seq::<char>::empty(),
            b.last_pct == -1,
    {
        ProgressBar { stage: String::new(), last_pct: -1 }
    }

    /// Takes in a progress event and returns the text to write to the
    /// terminal for it. A new stage ends the previous stage's line, starts
    /// its own line and forgets the percentage drawn; progress redraws the bar
    /// only when the percentage changed. The bar has 20 cells, so a
    /// percentage of 105 or more cannot be drawn.
    pub fn handle(&mut self, ev: &ProgressEvent) -> (out: String)
        requires
            *ev matches ProgressEvent::Progress { done, total } ==> done * 100 <= u64::MAX && (
            total != 0 ==> (done * 100) / (total as int) < 105),
        ensures
            match *ev {
                ProgressEvent::Stage(s) => {
                    &&& final(self).stage@ == s@
                    &&& final(self).last_pct == -1
                    &&& out@ == (if old(self).stage@.len() > 0 {
                        "\n"@
                    } else {
                        Seq::empty()
                    }) + s@ + " ... "@
                },
                ProgressEvent::Progress { done, total } => shows_progress(
                    *old(self),
                    done,
                    total,
                    *final(self),
                    out@,
                ),
            },
    {
        match ev {
            ProgressEvent::Stage(s) => {
                let mut out = String::new();
                if self.stage.unicode_len() > 0 {
                    push_str(&mut out, "\n");
                }
                self.stage = String::from_str(s);
                self.last_pct = -1;
                push_str(&mut out, s);
                push_str(&mut out, " ... ");
                out
            },
            ProgressEvent::Progress { done, total } => {
                let pct: u64 = if *total == 0 {
                    100
                } else {
                    (*done * 100) / *total
                };
                assert(pct < 105);
                let pct = pct as i32;
                let mut out = String::new();
                if pct != self.last_pct {
                    self.last_pct = pct;
                    let filled = (pct / 5) as usize;
                    push_str(&mut out, "\r");
                    push_str(&mut out, self.stage.as_str());
                    push_str(&mut out, " [");
                    push_repeat(&mut out, '#', filled);
                    push_repeat(&mut out, ' ', 20 - filled);
                    push_str(&mut out, "] ");
                    let mut num = String::new();
                    push_dec(&mut num, pct as u64);
                    push_padded_left(&mut out, num.as_str(), 3);
                    push_str(&mut out, "%");
                } else {
                    self.last_pct = pct;
                }
                out
            },
        }
    }

    /// The text that ends the bar's line.
    pub fn finish(&mut self) -> (out: String)
        ensures
            out@ == "\n"@,
            *final(self) == *old(self),
    {
        String::from_str("\n")
    }
}

} // verus!
