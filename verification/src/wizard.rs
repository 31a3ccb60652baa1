//! The step-by-step wizard of the graphical front-end, as a state machine:
//! which screen is shown, which disk is selected, what the confirmation
//! boxes say, and how the flash running in the background is followed. The
//! front-end draws the state and hands user actions and background messages
//! to it.
use vstd::prelude::*;
use crate::disk::{risk_of, Disk, Risk};
use crate::error::{error_message, Error};
use crate::text::push_str;

verus! {

/// The screens of the wizard.
#[derive(Clone, Copy, PartialEq, Eq, Structural, Debug)]
pub enum Screen {
    Intro,
    Select,
    Confirm,
    Working,
    Done,
    Failed,
}

/// A message from the background flash.
pub enum Msg {
    /// A new stage started.
    Stage(String),
    /// `done` of `total` bytes are through.
    Progress { done: u64, total: u64 },
    /// Flash and verification succeeded.
    Finished,
    /// The flash failed with this message.
    Failed(String),
}

/// The wizard's state.
pub struct Wizard {
    pub screen: Screen,
    pub disks: Vec<Disk>,
    pub selected: Option<usize>,
    pub refresh_error: Option<String>,
    pub confirm_understood: bool,
    pub confirm_correct: bool,
    pub stage: String,
    /// Bytes done and total of the current stage: the bar shows the fraction
    /// done/total, full when the total is 0.
    pub progress: (u64, u64),
    /// Whether a background flash is being followed.
    pub running: bool,
    pub error: Option<String>,
}

/// The disk the selection points at, if it points at one.
pub open spec fn selected_disk(w: Wizard) -> Option<Disk> {
    match w.selected {
        Some(i) => if i < w.disks@.len() {
            Some(w.disks@[i as int])
        } else {
            None
        },
        None => None,
    }
}

/// Flashing is refused for the system disk.
pub open spec fn blocked(d: Disk) -> bool {
    risk_of(d.system, d.internal, d.removable) == Risk::System
}

/// The "Flash now" button is enabled: a disk is selected, it is not the
/// system disk, and both confirmation boxes are ticked.
pub open spec fn ready(w: Wizard) -> bool {
    match selected_disk(w) {
        Some(d) => !blocked(d) && w.confirm_correct && w.confirm_understood,
        None => false,
    }
}

/// The label shown next to a disk in the list, per risk class.
pub open spec fn risk_badge_text(r: Risk) -> Seq<char> {
    match r {
        Risk::Removable => "USB / external"@,
        Risk::Internal => "internal disk"@,
        Risk::System => "SYSTEM, do not use"@,
    }
}

/// The warning shown on the confirmation screen, per risk class.
pub open spec fn confirm_warning_text(r: Risk) -> Seq<char> {
    match r {
        Risk::System => "This is a SYSTEM disk. The tool will NOT write to it. Go back and pick your external NVMe."@,
        Risk::Internal => "This is an internal disk, not a USB drive. This is probably the wrong choice. Go back unless you are absolutely sure."@,
        Risk::Removable => "The first 2 MB of this drive will be ERASED and replaced with the enabler image. This cannot be undone."@,
    }
}

/// The line shown for a disk in the list, whose capacity renders as `size`.
pub open spec fn row_text(d: Disk, size: Seq<char>) -> Seq<char> {
    d.id@ + "   "@ + (if d.model@.len() == 0 {
        "(unknown model)"@
    } else {
        d.model@
    }) + "   ·   "@ + size + "   ·   "@ + d.bus@
}

/// The label and colour (red, green, blue) shown next to a disk.
pub fn risk_badge(r: Risk) -> (b: (&'static str, (u8, u8, u8)))
    ensures
        b.0@ == risk_badge_text(r),
        b.1 == (match r {
            Risk::Removable => (80u8, 200u8, 120u8),
            Risk::Internal => (230u8, 170u8, 60u8),
            Risk::System => (230u8, 90u8, 90u8),
        }),
{
    match r {
        Risk::Removable => ("USB / external", (80, 200, 120)),
        Risk::Internal => ("internal disk", (230, 170, 60)),
        Risk::System => ("SYSTEM, do not use", (230, 90, 90)),
    }
}

/// The warning shown on the confirmation screen.
pub fn confirm_warning(r: Risk) -> (s: &'static str)
    ensures
        s@ == confirm_warning_text(r),
{
    match r {
        Risk::System => "This is a SYSTEM disk. The tool will NOT write to it. Go back and pick your external NVMe.",
        Risk::Internal => "This is an internal disk, not a USB drive. This is probably the wrong choice. Go back unless you are absolutely sure.",
        Risk::Removable => "The first 2 MB of this drive will be ERASED and replaced with the enabler image. This cannot be undone.",
    }
}

/// The line shown for a disk in the list, whose capacity renders as `size`.
pub fn row(d: &Disk, size: &str) -> (s: String)
    ensures
        s@ == row_text(*d, size@),
{
    let mut s = String::new();
    push_str(&mut s, d.id.as_str());
    push_str(&mut s, "   ");
    if d.model.unicode_len() == 0 {
        push_str(&mut s, "(unknown model)");
    } else {
        push_str(&mut s, d.model.as_str());
    }
    push_str(&mut s, "   ·   ");
    push_str(&mut s, size);
    push_str(&mut s, "   ·   ");
    push_str(&mut s, d.bus.as_str());
    s
}

impl Wizard {
    /// The wizard as it opens: the intro screen, nothing listed or selected.
    pub fn new() -> (w: Wizard)
        ensures
            w.screen == Screen::Intro,
            w.disks@.len() == 0,
            w.selected is None,
            w.refresh_error is None,
            !w.confirm_understood,
            !w.confirm_correct,
            w.stage@ == Seq::<char>::empty(),
            w.progress == (0u64, 1u64),
            !w.running,
            w.error is None,
    {
        Wizard {
            screen: Screen::Intro,
            disks: Vec::new(),
            selected: None,
            refresh_error: None,
            confirm_understood: false,
            confirm_correct: false,
            stage: String::new(),
            progress: (0, 1),
            running: false,
            error: None,
        }
    }

    /// Takes in a fresh disk listing: the selection is dropped; on success the
    /// list is replaced, on failure it is emptied and the error kept to show.
    pub fn refresh(&mut self, listing: Result<Vec<Disk>, Error>)
        ensures
            *final(self) == (Wizard {
                disks: final(self).disks,
                selected: None,
                refresh_error: final(self).refresh_error,
                ..*old(self)
            }),
            match listing {
                Ok(d) => final(self).disks@ == d@ && final(self).refresh_error is None,
                Err(e) => final(self).disks@.len() == 0 && (final(self).refresh_error matches Some(
                    m,
                ) && m@ == error_message(e)),
            },
    {
        self.selected = None;
        match listing {
            Ok(d) => {
                self.disks = d;
                self.refresh_error = None;
            },
            Err(e) => {
                self.disks = Vec::new();
                self.refresh_error = Some(e.message());
            },
        }
    }

    /// "Start" on the intro screen, "Flash another drive" on the success
    /// screen and "Back to drive list" on the failure screen: take in a fresh
    /// listing and show the drive list.
    pub fn show_drive_list(&mut self, listing: Result<Vec<Disk>, Error>)
        ensures
            *final(self) == (Wizard {
                screen: Screen::Select,
                disks: final(self).disks,
                selected: None,
                refresh_error: final(self).refresh_error,
                ..*old(self)
            }),
            match listing {
                Ok(d) => final(self).disks@ == d@ && final(self).refresh_error is None,
                Err(e) => final(self).disks@.len() == 0 && (final(self).refresh_error matches Some(
                    m,
                ) && m@ == error_message(e)),
            },
    {
        self.refresh(listing);
        self.screen = Screen::Select;
    }

    /// A click on the disk at `index` in the list selects it.
    pub fn select(&mut self, index: usize)
        requires
            index < old(self).disks@.len(),
        ensures
            *final(self) == (Wizard { selected: Some(index), ..*old(self) }),
    {
        self.selected = Some(index);
    }

    /// "Back" on the drive list returns to the intro screen.
    pub fn back_to_intro(&mut self)
        ensures
            *final(self) == (Wizard { screen: Screen::Intro, ..*old(self) }),
    {
        self.screen = Screen::Intro;
    }

    /// "Next" on the drive list, enabled only with a selection: clears both
    /// confirmation boxes and shows the confirmation screen. Without a
    /// selection nothing changes.
    pub fn next_to_confirm(&mut self)
        ensures
            old(self).selected is Some ==> *final(self) == (Wizard {
                screen: Screen::Confirm,
                confirm_correct: false,
                confirm_understood: false,
                ..*old(self)
            }),
            old(self).selected is None ==> *final(self) == *old(self),
    {
        if self.selected.is_some() {
            self.confirm_understood = false;
            self.confirm_correct = false;
            self.screen = Screen::Confirm;
        }
    }

    /// The disk the confirmation screen is about. When the selection does not
    /// point at a listed disk, the wizard goes back to the drive list.
    pub fn confirm_target(&mut self) -> (d: Option<&Disk>)
        ensures
            match d {
                Some(x) => selected_disk(*old(self)) == Some(*x) && *final(self) == *old(self),
                None => selected_disk(*old(self)) is None && *final(self) == (Wizard {
                    screen: Screen::Select,
                    ..*old(self)
                }),
            },
    {
        match self.selected {
            Some(i) => {
                if i < self.disks.len() {
                    return Some(&self.disks[i]);
                }
            },
            None => {},
        }
        self.screen = Screen::Select;
        None
    }

    /// A click on one of the confirmation boxes; the boxes are disabled for
    /// the system disk.
    pub fn set_confirmation(&mut self, correct: bool, understood: bool)
        ensures
            match selected_disk(*old(self)) {
                Some(d) => if blocked(d) {
                    *final(self) == *old(self)
                } else {
                    *final(self) == (Wizard {
                        confirm_correct: correct,
                        confirm_understood: understood,
                        ..*old(self)
                    })
                },
                None => *final(self) == *old(self),
            },
    {
        let allowed = match self.selected {
            Some(i) => i < self.disks.len() && self.disks[i].risk() != Risk::System,
            None => false,
        };
        if allowed {
            self.confirm_correct = correct;
            self.confirm_understood = understood;
        }
    }

    /// Whether "Flash now" is enabled (see `ready`).
    pub fn can_flash(&self) -> (b: bool)
        ensures
            b == ready(*self),
    {
        match self.selected {
            Some(i) => i < self.disks.len() && self.disks[i].risk() != Risk::System
                && self.confirm_correct && self.confirm_understood,
            None => false,
        }
    }

    /// "Back" on the confirmation screen returns to the drive list.
    pub fn back_to_list(&mut self)
        ensures
            *final(self) == (Wizard { screen: Screen::Select, ..*old(self) }),
    {
        self.screen = Screen::Select;
    }

    /// Starts following a flash of the selected disk: switches to the working
    /// screen (stage "Starting", nothing done yet, no error, following the
    /// background flash) and returns the index of the disk to flash. Without
    /// a selection nothing changes. The selection must point at a listed disk.
    pub fn begin_flash(&mut self) -> (r: Option<usize>)
        requires
            old(self).selected matches Some(i) ==> i < old(self).disks@.len(),
        ensures
            old(self).selected is Some ==> r == old(self).selected && final(self).stage@
                == "Starting"@ && *final(self) == (Wizard {
                screen: Screen::Working,
                stage: final(self).stage,
                progress: (0u64, 1u64),
                error: None,
                running: true,
                ..*old(self)
            }),
            old(self).selected is None ==> r is None && *final(self) == *old(self),
    {
        let idx = match self.selected {
            Some(i) => i,
            None => {
                return None;
            },
        };
        self.progress = (0, 1);
        self.stage = String::from_str("Starting");
        self.error = None;
        self.screen = Screen::Working;
        self.running = true;
        Some(idx)
    }

    /// "Flash now": the button is enabled only when the wizard is ready (see
    /// `ready`); then the flash begins (see `begin_flash`). Otherwise nothing
    /// changes and no flash starts.
    pub fn flash_now(&mut self) -> (r: Option<usize>)
        ensures
            ready(*old(self)) ==> r == old(self).selected && final(self).stage@ == "Starting"@
                && *final(self) == (Wizard {
                screen: Screen::Working,
                stage: final(self).stage,
                progress: (0u64, 1u64),
                error: None,
                running: true,
                ..*old(self)
            }),
            !ready(*old(self)) ==> r is None && *final(self) == *old(self),
    {
        if !self.can_flash() {
            return None;
        }
        self.begin_flash()
    }

    /// Takes in a message from the background flash: a stage or progress is
    /// shown; success or failure ends the flash and shows its screen.
    pub fn receive(&mut self, m: Msg)
        ensures
            match m {
                Msg::Stage(s) => *final(self) == (Wizard { stage: s, ..*old(self) }),
                Msg::Progress { done, total } => *final(self) == (Wizard {
                    progress: (done, total),
                    ..*old(self)
                }),
                Msg::Finished => *final(self) == (Wizard {
                    screen: Screen::Done,
                    running: false,
                    ..*old(self)
                }),
                Msg::Failed(e) => *final(self) == (Wizard {
                    screen: Screen::Failed,
                    running: false,
                    error: Some(e),
                    ..*old(self)
                }),
            },
    {
        match m {
            Msg::Stage(s) => {
                self.stage = s;
            },
            Msg::Progress { done, total } => {
                self.progress = (done, total);
            },
            Msg::Finished => {
                self.running = false;
                self.screen = Screen::Done;
            },
            Msg::Failed(e) => {
                self.error = Some(e);
                self.running = false;
                self.screen = Screen::Failed;
            },
        }
    }
}

/// The wizard never starts a flash on the system disk: whenever "Flash now"
/// (`flash_now`, whose outcome `r` on the wizard `before` is what its
/// contract says) hands out a disk, that disk is listed, is not the system
/// disk, and both confirmation boxes were ticked.
pub proof fn lemma_never_flashes_system_disk(before: Wizard, r: Option<usize>)
    requires
        ready(before) ==> r == before.selected,
        !ready(before) ==> r is None,
        r is Some,
    ensures
        r->0 < before.disks@.len(),
        !blocked(before.disks@[r->0 as int]),
        before.confirm_correct && before.confirm_understood,
{
}

} // verus!
