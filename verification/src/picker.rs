//! The picker session: which request may open picker windows, when they may
//! be shown, which toast may hide, and the labels of the windows involved.
//!
//! Requests are numbered by a generation counter. A request stays current
//! until the session is closed or a new request starts a new session; work
//! done for a request that is no longer current is dropped.

use vstd::prelude::*;
use crate::text::{decimal, push_decimal, starts_with};

verus! {

/// Where a pick was started from.
#[derive(Clone, Copy, PartialEq, Eq, Debug)]
pub enum PickerSource {
    Shortcut,
    MainButton,
    Tray,
}

impl PickerSource {
    /// Only a pick started from the main window's button minimizes (and later
    /// restores) the main window.
    pub fn changes_main_window(self) -> (res: bool)
        ensures
            res == (self == PickerSource::MainButton),
    {
        match self {
            PickerSource::MainButton => true,
            _ => false,
        }
    }
}

/// The next value of a wrapping 64-bit counter.
pub open spec fn next_count(g: u64) -> u64 {
    if g == u64::MAX { 0 } else { (g + 1) as u64 }
}

/// The state shared by the picker windows, the main window and the toast.
#[derive(Clone, Copy, PartialEq, Eq, Debug)]
pub struct PickerSession {
    /// Number of the current request.
    pub generation: u64,
    /// Number of the latest toast.
    pub toast_generation: u64,
    /// A session is open (picker windows exist or are being made).
    pub picking: bool,
    /// The main window is to be minimized once a picker window shows.
    pub minimize_main_when_ready: bool,
    /// Every picker window of the current session has its capture.
    pub capture_setup_done: bool,
    /// The system prompt for screen recording was already shown.
    pub permission_requested: bool,
}

/// How a session's setup ended.
#[derive(Clone, Copy, PartialEq, Eq, Debug)]
pub enum SetupOutcome {
    Done,
    PermissionMissing,
    Failed,
}

/// What to do once a session's setup has ended.
#[derive(Clone, Copy, PartialEq, Eq, Debug)]
pub struct FinishAction {
    /// Close the picker windows and drop their captures.
    pub close_pickers: bool,
    /// Bring the main window back.
    pub show_main: bool,
    /// Tell the main window that screen recording permission is missing.
    pub report_permission: bool,
}

/// Whether a picker window may show itself.
#[derive(Clone, Copy, PartialEq, Eq, Debug)]
pub enum ReadyDecision {
    /// No capture exists for the window.
    NoCapture,
    /// The session is still being set up.
    NotReady,
    /// Show the window; minimize the main window first when asked.
    Show { minimize_main: bool },
}

/// The session after a new request; the request's number.
pub open spec fn after_next_request(s: PickerSession) -> (PickerSession, u64) {
    if s.picking {
        (s, s.generation)
    } else {
        let g = next_count(s.generation);
        (PickerSession { generation: g, ..s }, g)
    }
}

/// The session after its windows were closed.
pub open spec fn after_close(s: PickerSession) -> PickerSession {
    PickerSession {
        generation: next_count(s.generation),
        picking: false,
        minimize_main_when_ready: false,
        capture_setup_done: false,
        ..s
    }
}

/// The session after an attempt to start request `request`, and whether it started.
pub open spec fn after_begin(s: PickerSession, request: u64) -> (PickerSession, bool) {
    if request != s.generation || s.picking {
        (s, false)
    } else {
        (PickerSession { picking: true, capture_setup_done: false, ..s }, true)
    }
}

/// The session after the setup of `request` ended, and what to do next.
pub open spec fn after_finish(
    s: PickerSession,
    request: u64,
    source: PickerSource,
    outcome: SetupOutcome,
) -> (PickerSession, FinishAction) {
    match outcome {
        SetupOutcome::Done => (
            if request == s.generation { PickerSession { capture_setup_done: true, ..s } } else { s },
            FinishAction { close_pickers: false, show_main: false, report_permission: false },
        ),
        SetupOutcome::PermissionMissing => (
            after_close(s),
            FinishAction {
                close_pickers: true,
                show_main: true,
                report_permission: source != PickerSource::MainButton,
            },
        ),
        SetupOutcome::Failed => (
            after_close(s),
            FinishAction {
                close_pickers: true,
                show_main: source == PickerSource::MainButton,
                report_permission: false,
            },
        ),
    }
}

/// The session after a picker window asked whether it may show, and the answer.
pub open spec fn after_ready_check(s: PickerSession, has_capture: bool) -> (PickerSession, ReadyDecision) {
    if !has_capture {
        (s, ReadyDecision::NoCapture)
    } else if !s.capture_setup_done {
        (s, ReadyDecision::NotReady)
    } else {
        (
            PickerSession { minimize_main_when_ready: false, ..s },
            ReadyDecision::Show { minimize_main: s.minimize_main_when_ready },
        )
    }
}

/// The session after numbering a new toast, and the toast's number.
pub open spec fn after_next_toast(s: PickerSession) -> (PickerSession, u64) {
    let t = next_count(s.toast_generation);
    (PickerSession { toast_generation: t, ..s }, t)
}

/// The session after claiming the screen recording prompt, and whether this
/// was the first claim.
pub open spec fn after_claim_prompt(s: PickerSession) -> (PickerSession, bool) {
    (PickerSession { permission_requested: true, ..s }, !s.permission_requested)
}

fn next_u64(g: u64) -> (n: u64)
    ensures
        n == next_count(g),
{
    if g == u64::MAX { 0 } else { g + 1 }
}

impl PickerSession {
    /// A session with nothing picked yet.
    pub fn new() -> (s: PickerSession)
        ensures
            s.generation == 0 && s.toast_generation == 0,
            !s.picking && !s.minimize_main_when_ready,
            !s.capture_setup_done && !s.permission_requested,
    {
        PickerSession {
            generation: 0,
            toast_generation: 0,
            picking: false,
            minimize_main_when_ready: false,
            capture_setup_done: false,
            permission_requested: false,
        }
    }

    /// Numbers a new pick request. While a session is open the request joins it.
    pub fn next_request(&mut self) -> (request: u64)
        ensures
            (*final(self), request) == after_next_request(*old(self)),
    {
        if self.picking {
            return self.generation;
        }
        self.generation = next_u64(self.generation);
        self.generation
    }

    /// Whether `request` is still the current request.
    pub fn is_current(&self, request: u64) -> (res: bool)
        ensures
            res == (request == self.generation),
    {
        request == self.generation
    }

    /// Ends the session: every earlier request becomes stale.
    pub fn close(&mut self)
        ensures
            *final(self) == after_close(*old(self)),
    {
        self.generation = next_u64(self.generation);
        self.minimize_main_when_ready = false;
        self.capture_setup_done = false;
        self.picking = false;
    }

    /// Starts the session of `request` unless it is stale or a session is open.
    pub fn begin(&mut self, request: u64) -> (started: bool)
        ensures
            (*final(self), started) == after_begin(*old(self), request),
    {
        if request != self.generation || self.picking {
            return false;
        }
        self.picking = true;
        self.capture_setup_done = false;
        true
    }

    /// Asks that the main window be minimized once a picker window shows.
    pub fn minimize_main_once_ready(&mut self)
        ensures
            *final(self) == (PickerSession { minimize_main_when_ready: true, ..*old(self) }),
    {
        self.minimize_main_when_ready = true;
    }

    /// Records how the setup of `request` ended and says what to do next.
    pub fn finish(&mut self, request: u64, source: PickerSource, outcome: SetupOutcome) -> (action:
        FinishAction)
        ensures
            (*final(self), action) == after_finish(*old(self), request, source, outcome),
    {
        match outcome {
            SetupOutcome::Done => {
                if request == self.generation {
                    self.capture_setup_done = true;
                }
                FinishAction { close_pickers: false, show_main: false, report_permission: false }
            },
            SetupOutcome::PermissionMissing => {
                self.close();
                FinishAction {
                    close_pickers: true,
                    show_main: true,
                    report_permission: !source.changes_main_window(),
                }
            },
            SetupOutcome::Failed => {
                self.close();
                FinishAction {
                    close_pickers: true,
                    show_main: source.changes_main_window(),
                    report_permission: false,
                }
            },
        }
    }

    /// Whether a picker window that has (or lacks) a capture may show itself.
    pub fn ready_check(&mut self, has_capture: bool) -> (decision: ReadyDecision)
        ensures
            (*final(self), decision) == after_ready_check(*old(self), has_capture),
    {
        if !has_capture {
            return ReadyDecision::NoCapture;
        }
        if !self.capture_setup_done {
            return ReadyDecision::NotReady;
        }
        let minimize_main = self.minimize_main_when_ready;
        self.minimize_main_when_ready = false;
        ReadyDecision::Show { minimize_main }
    }

    /// Numbers a new toast.
    pub fn next_toast(&mut self) -> (toast: u64)
        ensures
            (*final(self), toast) == after_next_toast(*old(self)),
    {
        self.toast_generation = next_u64(self.toast_generation);
        self.toast_generation
    }

    /// Whether `toast` is the latest toast (only the latest one hides itself).
    pub fn is_latest_toast(&self, toast: u64) -> (res: bool)
        ensures
            res == (toast == self.toast_generation),
    {
        toast == self.toast_generation
    }

    /// Claims the one-time system prompt for screen recording; true the first time.
    pub fn claim_permission_prompt(&mut self) -> (first: bool)
        ensures
            (*final(self), first) == after_claim_prompt(*old(self)),
    {
        let first = !self.permission_requested;
        self.permission_requested = true;
        first
    }
}


/// `picker-N`, the label of the picker window on the N-th display.
pub open spec fn picker_label_text(index: nat) -> Seq<char> {
    "picker-"@ + decimal(index)
}

/// `copied-toast-N`, the label of the N-th toast window.
pub open spec fn toast_label_text(toast: nat) -> Seq<char> {
    "copied-toast-"@ + decimal(toast)
}

/// Whether `label` names a picker window (it starts with `picker-`).
pub open spec fn names_picker(label: Seq<char>) -> bool {
    "picker-"@.len() <= label.len() && label.subrange(0, "picker-"@.len() as int) == "picker-"@
}

/// Whether `label` names a toast window (it starts with `copied-toast-`).
pub open spec fn names_toast(label: Seq<char>) -> bool {
    "copied-toast-"@.len() <= label.len() && label.subrange(0, "copied-toast-"@.len() as int)
        == "copied-toast-"@
}

/// The label of the picker window on display `index`.
pub fn picker_label(index: u64) -> (label: String)
    ensures
        label@ == picker_label_text(index as nat),
{
    let mut label = String::from_str("picker-");
    push_decimal(&mut label, index);
    label
}

/// The label of toast number `toast`.
pub fn toast_label(toast: u64) -> (label: String)
    ensures
        label@ == toast_label_text(toast as nat),
{
    let mut label = String::from_str("copied-toast-");
    push_decimal(&mut label, toast);
    label
}

/// Whether `label` names a picker window.
pub fn is_picker_label(label: &str) -> (res: bool)
    ensures
        res == names_picker(label@),
{
    starts_with(label, "picker-")
}

/// Whether `label` names a toast window.
pub fn is_toast_label(label: &str) -> (res: bool)
    ensures
        res == names_toast(label@),
{
    starts_with(label, "copied-toast-")
}

/// The top-left corner of a toast of width `toast_width` on a display with
/// bounds `(x, y, width, height)`: centred horizontally, 68% of the height
/// down, that offset saturated at `i32::MAX`.
///
/// The offset is `(height as f64 * 0.68) as i32`: for every `u32` height the
/// `f64` product lies within `2^-21` above `68 * height / 100`, so its whole
/// part is that quotient's.
pub open spec fn toast_corner(bounds: (i32, i32, u32, u32), toast_width: u32) -> (int, int) {
    let (x, y, width, height) = bounds;
    let free = if width >= toast_width { width - toast_width } else { 0 };
    let down = if (height * 68) / 100 > i32::MAX { i32::MAX as int } else { (height * 68) / 100 };
    (x + free / 2, y + down)
}

/// Where a toast of width `toast_width` goes on a display with the given bounds.
pub fn toast_origin(bounds: (i32, i32, u32, u32), toast_width: u32) -> (corner: (i32, i32))
    requires
        bounds.0 + (if bounds.2 >= toast_width { bounds.2 - toast_width } else { 0 }) / 2
            <= i32::MAX,
        bounds.1 + (if (bounds.3 * 68) / 100 > i32::MAX { i32::MAX as int } else { (bounds.3 * 68) / 100 })
            <= i32::MAX,
    ensures
        (corner.0 as int, corner.1 as int) == toast_corner(bounds, toast_width),
{
    let (x, y, width, height) = bounds;
    let free = width.saturating_sub(toast_width);
    let left = x as i64 + (free / 2) as i64;
    let exact = (height as u64 * 68) / 100;
    let down = if exact > i32::MAX as u64 { i32::MAX as u64 } else { exact };
    let top = y as i64 + down as i64;
    (left as i32, top as i32)
}


/// Closing a session makes every request issued before it stale.
pub proof fn close_makes_requests_stale(s: PickerSession)
    ensures
        after_close(s).generation != s.generation,
        !after_close(s).picking,
        !after_close(s).capture_setup_done,
{
}

/// While a session is open, new requests join it: they get the current
/// number and change nothing.
pub proof fn requests_join_an_open_session(s: PickerSession)
    requires
        s.picking,
    ensures
        after_next_request(s) == (s, s.generation),
{
}

/// A new request made while no session is open is current and can start one.
pub proof fn fresh_request_starts(s: PickerSession)
    requires
        !s.picking,
    ensures
        ({
            let (s1, request) = after_next_request(s);
            &&& request != s.generation
            &&& after_begin(s1, request).1
        }),
{
}

/// A request opens at most one session: once started, starting it again fails.
pub proof fn a_request_starts_once(s: PickerSession, request: u64)
    requires
        after_begin(s, request).1,
    ensures
        !after_begin(after_begin(s, request).0, request).1,
{
}

/// Picker windows never show before the setup of the current request is
/// done: right after a session starts they are told to wait, and a setup that
/// ends for a stale request does not make them ready.
pub proof fn windows_wait_for_setup(s: PickerSession, request: u64, stale: u64, source: PickerSource)
    requires
        after_begin(s, request).1,
        stale != request,
    ensures
        after_ready_check(after_begin(s, request).0, true).1 == ReadyDecision::NotReady,
        after_ready_check(
            after_finish(after_begin(s, request).0, stale, source, SetupOutcome::Done).0,
            true,
        ).1 == ReadyDecision::NotReady,
        after_ready_check(
            after_finish(after_begin(s, request).0, request, source, SetupOutcome::Done).0,
            true,
        ).1 is Show,
{
}

/// The main window is minimized at most once per request to do so.
pub proof fn main_minimized_once(s: PickerSession)
    requires
        s.capture_setup_done,
    ensures
        ({
            let (s1, d1) = after_ready_check(s, true);
            let (s2, d2) = after_ready_check(s1, true);
            &&& d2 == ReadyDecision::Show { minimize_main: false }
            &&& d1 == ReadyDecision::Show { minimize_main: s.minimize_main_when_ready }
        }),
{
}

/// A failed setup always closes the session, and the main window comes back
/// when the pick started from it or when screen permission is missing; the
/// missing permission is reported to the main window exactly when the pick
/// did not start from the main window's button (which shows its own guide).
pub proof fn failures_close_the_session(s: PickerSession, request: u64, source: PickerSource)
    ensures
        after_finish(s, request, source, SetupOutcome::Failed).1.close_pickers,
        !after_finish(s, request, source, SetupOutcome::Failed).0.picking,
        after_finish(s, request, source, SetupOutcome::Failed).1.show_main == (source
            == PickerSource::MainButton),
        after_finish(s, request, source, SetupOutcome::PermissionMissing).1.close_pickers,
        after_finish(s, request, source, SetupOutcome::PermissionMissing).1.show_main,
        !after_finish(s, request, source, SetupOutcome::PermissionMissing).0.picking,
        after_finish(s, request, source, SetupOutcome::PermissionMissing).1.report_permission == (
        source != PickerSource::MainButton),
        !after_finish(s, request, source, SetupOutcome::Failed).1.report_permission,
{
}

/// Picker labels are recognised as picker windows and never as toasts, and
/// toast labels the other way round, so closing one kind spares the other.
pub proof fn labels_are_told_apart(index: nat, toast: nat)
    ensures
        names_picker(picker_label_text(index)),
        !names_toast(picker_label_text(index)),
        names_toast(toast_label_text(toast)),
        !names_picker(toast_label_text(toast)),
{
    reveal_strlit("picker-");
    reveal_strlit("copied-toast-");
    let p = picker_label_text(index);
    let t = toast_label_text(toast);
    assert(p.subrange(0, 7) =~= "picker-"@);
    assert(t.subrange(0, 13) =~= "copied-toast-"@);
    assert(p[0] == 'p');
    assert(t[0] == 'c');
    if 13 <= p.len() {
        assert(p.subrange(0, 13)[0] != "copied-toast-"@[0]);
    }
    assert(t.subrange(0, 7)[0] != "picker-"@[0]);
}

/// Only the latest toast hides itself: numbering a new toast supersedes the
/// previous one.
pub proof fn new_toast_supersedes(s: PickerSession)
    ensures
        ({
            let (s1, t1) = after_next_toast(s);
            let (s2, t2) = after_next_toast(s1);
            &&& t2 == s2.toast_generation
            &&& t1 != s2.toast_generation
        }),
{
}

/// The screen recording prompt is shown at most once per run: every claim
/// after the first is refused.
pub proof fn permission_prompt_once(s: PickerSession)
    ensures
        !after_claim_prompt(after_claim_prompt(s).0).1,
{
}

} // verus!
