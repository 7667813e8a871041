//! Interface state that the application's decisions act on: menus, tabs, the
//! preferences dialog and the device status panel.

use vstd::prelude::*;
use crate::common::config::BindingId;
use crate::text::{string_views, chars_of, chars_equal, parse_u32_chars, parse_unsigned};

verus! {

/// The drop-down menus of the menu bar.
#[derive(Debug, Clone, Copy, PartialEq, Eq, Structural)]
pub enum MenuId {
    File,
    View,
}

/// The tabs of the right-hand panel.
#[derive(Debug, Clone, Copy, PartialEq, Eq, Structural)]
pub enum RightTab {
    Layers,
    Job,
}

impl Default for RightTab {
    fn default() -> (r: Self)
        ensures
            r == RightTab::Layers,
    {
        RightTab::Layers
    }
}

/// The tabs of the preferences dialog.
#[derive(Debug, Clone, Copy, PartialEq, Eq, Structural)]
pub enum PrefTab {
    Visual,
    Bindings,
}

impl Default for PrefTab {
    fn default() -> (r: Self)
        ensures
            r == PrefTab::Visual,
    {
        PrefTab::Visual
    }
}

/// Runtime state of the preferences dialog.
#[derive(Debug, Clone, Copy)]
pub struct PreferencesState {
    pub tab: PrefTab,
    /// When `Some(id)`, the dialog waits for the next key press to set that
    /// binding.
    pub capturing: Option<BindingId>,
}

impl Default for PreferencesState {
    fn default() -> (r: Self)
        ensures
            r.tab == PrefTab::Visual,
            r.capturing is None,
    {
        PreferencesState { tab: PrefTab::Visual, capturing: None }
    }
}

/// The open menu after the menu `id` was clicked: clicking the open menu
/// closes it, clicking another opens that one.
pub open spec fn toggled(open: Option<MenuId>, id: MenuId) -> Option<MenuId> {
    if open == Some(id) {
        None
    } else {
        Some(id)
    }
}

/// The open menu after the menu `id` was clicked.
pub fn toggle_menu(open: Option<MenuId>, id: MenuId) -> (r: Option<MenuId>)
    ensures
        r == toggled(open, id),
{
    match open {
        Some(m) => {
            if m == id {
                None
            } else {
                Some(id)
            }
        },
        None => Some(id),
    }
}

/// Clicking a menu twice, starting from no open menu or from that menu,
/// leaves the menu bar as it was.
pub proof fn lemma_toggle_twice(open: Option<MenuId>, id: MenuId)
    requires
        open is None || open == Some(id),
    ensures
        toggled(toggled(open, id), id) == open,
{
}

/// The open menu after any message: a click on menu `id`
/// (`clicked == Some(id)`) toggles it; every other message closes the open
/// menu.
pub fn menu_after_message(open: Option<MenuId>, clicked: Option<MenuId>) -> (r: Option<MenuId>)
    ensures
        r == match clicked {
            Some(id) => toggled(open, id),
            None => None,
        },
{
    match clicked {
        Some(id) => toggle_menu(open, id),
        None => None,
    }
}

/// The selected layer after the layer at `removed` was removed and
/// `remaining` layers are left: none when no layer is left, otherwise the
/// one before the removed position (the first, when the first was removed).
pub fn selected_after_removal(removed: usize, remaining: usize) -> (r: Option<usize>)
    ensures
        r == if remaining == 0 {
            None::<usize>
        } else if removed == 0 {
            Some(0usize)
        } else {
            Some((removed - 1) as usize)
        },
{
    if remaining == 0 {
        None
    } else if removed == 0 {
        Some(0)
    } else {
        Some(removed - 1)
    }
}

/// The baud rates the device-settings dialog offers.
pub open spec fn baud_choices() -> Seq<Seq<char>> {
    seq!["9600"@, "19200"@, "38400"@, "57600"@, "115200"@, "230400"@]
}

/// The baud rates the device-settings dialog offers.
pub fn baud_options() -> (r: Vec<String>)
    ensures
        string_views(r@) == baud_choices(),
{
    let mut v: Vec<String> = Vec::new();
    v.push("9600".to_owned());
    v.push("19200".to_owned());
    v.push("38400".to_owned());
    v.push("57600".to_owned());
    v.push("115200".to_owned());
    v.push("230400".to_owned());
    assert(string_views(v@) =~= baud_choices());
    v
}

/// The baud rate of a choice: its decimal value, or 115200 when it does not
/// parse as a `u32`.
pub fn baud_from_choice(choice: &str) -> (r: u32)
    ensures
        r as nat == match parse_unsigned(choice@, 10, u32::MAX as nat) {
            Some(v) => v,
            None => 115200,
        },
{
    let c: Vec<char> = chars_of(choice);
    match parse_u32_chars(&c) {
        Some(v) => v,
        None => 115200,
    }
}

/// The entry a pick list shows as selected: the current value, when the list
/// offers it.
pub fn selected_entry(options: &Vec<String>, current: &str) -> (r: Option<String>)
    ensures
        match r {
            Some(s) => s@ == current@ && string_views(options@).contains(current@),
            None => !string_views(options@).contains(current@),
        },
{
    let cur: Vec<char> = chars_of(current);
    let ghost views = string_views(options@);
    let mut k: usize = 0;
    while k < options.len()
        invariant
            k <= options@.len(),
            cur@ == current@,
            views == string_views(options@),
            forall|j: int| 0 <= j < k ==> views[j] != current@,
        decreases options@.len() - k,
    {
        let o: Vec<char> = chars_of(options[k].as_str());
        if chars_equal(&o, &cur) {
            assert(views[k as int] == current@);
            return Some(current.to_owned());
        }
        k = k + 1;
    }
    None
}

/// The profile picked by name: the first profile with that name, or the
/// first profile when none has it.
pub fn profile_index_by_name(names: &Vec<String>, chosen: &str) -> (r: usize)
    ensures
        (exists|j: int| 0 <= j < names@.len() && names@[j]@ == chosen@) ==> {
            &&& r < names@.len()
            &&& names@[r as int]@ == chosen@
            &&& forall|j: int| 0 <= j < r ==> names@[j]@ != chosen@
        },
        !(exists|j: int| 0 <= j < names@.len() && names@[j]@ == chosen@) ==> r == 0,
{
    let want: Vec<char> = chars_of(chosen);
    let mut k: usize = 0;
    while k < names.len()
        invariant
            k <= names@.len(),
            want@ == chosen@,
            forall|j: int| 0 <= j < k ==> names@[j]@ != chosen@,
        decreases names@.len() - k,
    {
        let n: Vec<char> = chars_of(names[k].as_str());
        if chars_equal(&n, &want) {
            return k;
        }
        k = k + 1;
    }
    0
}

/// The number of lines beyond which the device log is trimmed.
pub const DEVICE_LOG_LIMIT: usize = 500;

/// The number of oldest lines dropped when the device log is trimmed.
pub const DEVICE_LOG_TRIM: usize = 100;

/// A device log after a received line was appended: past the limit, the
/// oldest lines are dropped.
pub open spec fn capped_log(log: Seq<Seq<char>>) -> Seq<Seq<char>> {
    if log.len() > DEVICE_LOG_LIMIT {
        log.skip(DEVICE_LOG_TRIM as int)
    } else {
        log
    }
}

/// Appends a received line to the device log and trims the log past its
/// limit.
pub fn push_log_line(log: &mut Vec<String>, line: String)
    ensures
        string_views(final(log)@) == capped_log(string_views(old(log)@).push(line@)),
{
    let ghost before = string_views(log@);
    log.push(line);
    assert(string_views(log@) =~= before.push(line@));
    if log.len() > DEVICE_LOG_LIMIT {
        let ghost full = log@;
        let rest: Vec<String> = log.split_off(DEVICE_LOG_TRIM);
        *log = rest;
        assert(string_views(log@) =~= string_views(full).skip(DEVICE_LOG_TRIM as int));
    }
}

/// A log that was within its limit stays within it after a received line.
pub proof fn lemma_log_stays_bounded(log: Seq<Seq<char>>, line: Seq<char>)
    requires
        log.len() <= DEVICE_LOG_LIMIT,
    ensures
        capped_log(log.push(line)).len() <= DEVICE_LOG_LIMIT,
{
}

/// What a device driver reports to the status panel (the position report is
/// handled apart).
pub enum StatusEvent {
    Connected,
    Disconnected,
    LineReceived(String),
    JobProgress(u8),
    JobFinished(bool),
    Message(String),
}

/// The status panel: connection, log, job progress and the status line.
pub struct DeviceStatus {
    pub connected: bool,
    pub log: Vec<String>,
    pub job_progress: Option<u8>,
    pub status: String,
}

/// The status line after a job ended.
pub open spec fn finished_status(ok: bool) -> Seq<char> {
    if ok {
        "Job finished successfully"@
    } else {
        "Job finished with errors"@
    }
}

impl DeviceStatus {
    /// Applies a driver report.
    pub fn apply(&mut self, event: StatusEvent)
        ensures
            match event {
                StatusEvent::Connected => {
                    &&& final(self).connected
                    &&& string_views(final(self).log@) == string_views(old(self).log@).push(
                        "Connected"@,
                    )
                    &&& final(self).job_progress == old(self).job_progress
                    &&& final(self).status@ == old(self).status@
                },
                StatusEvent::Disconnected => {
                    &&& !final(self).connected
                    &&& string_views(final(self).log@) == string_views(old(self).log@).push(
                        "Disconnected"@,
                    )
                    &&& final(self).job_progress == old(self).job_progress
                    &&& final(self).status@ == old(self).status@
                },
                StatusEvent::LineReceived(line) => {
                    &&& final(self).connected == old(self).connected
                    &&& string_views(final(self).log@) == capped_log(
                        string_views(old(self).log@).push(line@),
                    )
                    &&& final(self).job_progress == old(self).job_progress
                    &&& final(self).status@ == old(self).status@
                },
                StatusEvent::JobProgress(pct) => {
                    &&& final(self).connected == old(self).connected
                    &&& final(self).log@ == old(self).log@
                    &&& final(self).job_progress == Some(pct)
                    &&& final(self).status@ == old(self).status@
                },
                StatusEvent::JobFinished(ok) => {
                    &&& final(self).connected == old(self).connected
                    &&& final(self).log@ == old(self).log@
                    &&& final(self).job_progress is None
                    &&& final(self).status@ == finished_status(ok)
                },
                StatusEvent::Message(msg) => {
                    &&& final(self).connected == old(self).connected
                    &&& string_views(final(self).log@) == string_views(old(self).log@).push(
                        msg@,
                    )
                    &&& final(self).job_progress == old(self).job_progress
                    &&& final(self).status@ == msg@
                },
            },
    {
        let ghost before = string_views(self.log@);
        match event {
            StatusEvent::Connected => {
                self.connected = true;
                self.log.push("Connected".to_owned());
                assert(string_views(self.log@) =~= before.push("Connected"@));
            },
            StatusEvent::Disconnected => {
                self.connected = false;
                self.log.push("Disconnected".to_owned());
                assert(string_views(self.log@) =~= before.push("Disconnected"@));
            },
            StatusEvent::LineReceived(line) => {
                push_log_line(&mut self.log, line);
            },
            StatusEvent::JobProgress(pct) => {
                self.job_progress = Some(pct);
            },
            StatusEvent::JobFinished(ok) => {
                self.job_progress = None;
                self.status = if ok {
                    "Job finished successfully".to_owned()
                } else {
                    "Job finished with errors".to_owned()
                };
            },
            StatusEvent::Message(msg) => {
                let copy: String = msg.clone();
                self.log.push(copy);
                assert(string_views(self.log@) =~= before.push(msg@));
                self.status = msg;
            },
        }
    }
}

} // verus!
