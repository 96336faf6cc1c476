//! Reactions to the desktop around the widgets: the tray menu, power and
//! display changes, and the log file.

use vstd::prelude::*;
use crate::text::concat3;

verus! {

/// What a tray menu entry asks for.
#[derive(Debug, Clone, Copy, PartialEq, Eq, Structural)]
pub enum MenuAction {
    /// Leave the application.
    Quit,
    /// Show or hide the management window.
    Toggle,
    /// Reload every widget.
    Reload,
    /// An entry the application does not know.
    Ignore,
}

/// What the tray menu entry with id `id` asks for.
pub fn menu_action(id: &str) -> (a: MenuAction)
    ensures
        id@ == "quit"@ ==> a == MenuAction::Quit,
        id@ == "toggle"@ ==> a == MenuAction::Toggle,
        id@ == "reload"@ ==> a == MenuAction::Reload,
        id@ != "quit"@ && id@ != "toggle"@ && id@ != "reload"@ ==> a == MenuAction::Ignore,
{
    proof {
        reveal_strlit("quit");
        reveal_strlit("toggle");
        reveal_strlit("reload");
        assert("quit"@[0] != "toggle"@[0]);
        assert("quit"@[0] != "reload"@[0]);
        assert("toggle"@[0] != "reload"@[0]);
    }
    let s = id.to_string();
    if s == "quit".to_string() {
        MenuAction::Quit
    } else if s == "toggle".to_string() {
        MenuAction::Toggle
    } else if s == "reload".to_string() {
        MenuAction::Reload
    } else {
        MenuAction::Ignore
    }
}

/// What toggling the management window does.
#[derive(Debug, Clone, Copy, PartialEq, Eq, Structural)]
pub enum ToggleAction {
    Hide,
    ShowAndFocus,
}

/// Toggling hides a visible window and shows and focuses a hidden one.
pub fn toggle_action(visible: bool) -> (a: ToggleAction)
    ensures
        visible ==> a == ToggleAction::Hide,
        !visible ==> a == ToggleAction::ShowAndFocus,
{
    if visible {
        ToggleAction::Hide
    } else {
        ToggleAction::ShowAndFocus
    }
}

/// The window message that reports a power event.
pub const WM_POWERBROADCAST: u32 = 0x0218;

/// The window message that reports a change of the display.
pub const WM_DISPLAYCHANGE: u32 = 0x007E;

/// The power event of resuming on its own.
pub const PBT_APMRESUMEAUTOMATIC: u32 = 0x0012;

/// The power event of resuming after the user's action.
pub const PBT_APMRESUMESUSPEND: u32 = 0x0007;

/// What the power listener does with a window message.
#[derive(Debug, Clone, Copy, PartialEq, Eq, Structural)]
pub enum PowerAction {
    /// Refresh the widget windows after `delay_ms` milliseconds and answer `answer`.
    Refresh { delay_ms: u64, answer: isize },
    /// Pass the message to the default window procedure.
    Default,
}

/// What the power listener does with message `msg` whose parameter, cut to
/// 32 bits, is `event`: a resume refreshes the widgets after 150 ms and
/// answers 1, a display change after 50 ms and answers 0.
pub fn power_action(msg: u32, event: u32) -> (a: PowerAction)
    ensures
        msg == WM_POWERBROADCAST && (event == PBT_APMRESUMEAUTOMATIC || event == PBT_APMRESUMESUSPEND) ==> a
            == (PowerAction::Refresh { delay_ms: 150, answer: 1 }),
        msg == WM_DISPLAYCHANGE ==> a == (PowerAction::Refresh { delay_ms: 50, answer: 0 }),
        msg != WM_DISPLAYCHANGE && !(msg == WM_POWERBROADCAST && (event == PBT_APMRESUMEAUTOMATIC || event
            == PBT_APMRESUMESUSPEND)) ==> a == PowerAction::Default,
{
    if msg == WM_POWERBROADCAST && (event == PBT_APMRESUMEAUTOMATIC || event == PBT_APMRESUMESUSPEND) {
        return PowerAction::Refresh { delay_ms: 150, answer: 1 };
    }
    if msg == WM_DISPLAYCHANGE {
        return PowerAction::Refresh { delay_ms: 50, answer: 0 };
    }
    PowerAction::Default
}

/// The windows a refresh nudges: every window but the management window `main`, in order.
pub open spec fn refreshed_windows(labels: Seq<Seq<char>>) -> Seq<Seq<char>> {
    labels.filter(|l: Seq<char>| l != "main"@)
}

/// The windows a refresh nudges.
pub fn refresh_targets(labels: &Vec<String>) -> (r: Vec<String>)
    ensures
        r@.map_values(|s: String| s@) == refreshed_windows(labels@.map_values(|s: String| s@)),
        forall|i: int| 0 <= i < labels.len() && labels@[i]@ != "main"@ ==> r@.map_values(|s: String| s@).contains(
            #[trigger] labels@[i]@,
        ),
        forall|k: int| 0 <= k < r.len() ==> (#[trigger] r@[k])@ != "main"@ && labels@.map_values(|s: String| s@).contains(
            r@[k]@,
        ),
{
    proof {
        lemma_refresh_every_other_window(labels@.map_values(|s: String| s@));
    }
    let ghost lv = labels@.map_values(|s: String| s@);
    let main = "main".to_string();
    let mut r: Vec<String> = Vec::new();
    let mut i: usize = 0;
    while i < labels.len()
        invariant
            i <= labels.len(),
            main@ == "main"@,
            lv == labels@.map_values(|s: String| s@),
            r@.map_values(|s: String| s@) == lv.take(i as int).filter(|l: Seq<char>| l != "main"@),
        decreases labels.len() - i,
    {
        proof {
            assert(lv.take(i + 1) == lv.take(i as int).push(lv[i as int]));
            lv.take(i as int).lemma_filter_push(lv[i as int], |l: Seq<char>| l != "main"@);
        }
        if labels[i] != main {
            let ghost before = r@;
            r.push(labels[i].clone());
            assert(r@.map_values(|s: String| s@) == before.map_values(|s: String| s@).push(lv[i as int]));
        }
        i = i + 1;
    }
    assert(lv.take(labels.len() as int) == lv);
    proof {
        assert forall|i: int| 0 <= i < labels.len() && labels@[i]@ != "main"@ implies r@.map_values(
            |s: String| s@,
        ).contains(#[trigger] labels@[i]@) by {
            assert(lv[i] == labels@[i]@);
        }
        assert forall|k: int| 0 <= k < r.len() implies (#[trigger] r@[k])@ != "main"@ && lv.contains(r@[k]@) by {
            assert(r@.map_values(|s: String| s@)[k] == r@[k]@);
        }
    }
    r
}

/// A refresh nudges every window but `main`, and nothing else: each label
/// other than `main` is among the refreshed windows, and each refreshed
/// window is a label of the input other than `main`.
pub proof fn lemma_refresh_every_other_window(labels: Seq<Seq<char>>)
    ensures
        forall|i: int| 0 <= i < labels.len() && labels[i] != "main"@ ==> refreshed_windows(labels).contains(
            #[trigger] labels[i],
        ),
        forall|k: int| 0 <= k < refreshed_windows(labels).len() ==> #[trigger] refreshed_windows(labels)[k]
            != "main"@ && labels.contains(refreshed_windows(labels)[k]),
{
    broadcast use vstd::seq_lib::group_filter_ensures;
    let p = |l: Seq<char>| l != "main"@;
    let out = refreshed_windows(labels);
    assert forall|i: int| 0 <= i < labels.len() && labels[i] != "main"@ implies out.contains(#[trigger] labels[i]) by {
        labels.lemma_filter_contains(p, i);
    }
    assert forall|k: int| 0 <= k < out.len() implies #[trigger] out[k] != "main"@ && labels.contains(out[k]) by {
        labels.lemma_filter_pred(p, k);
        assert(out.contains(out[k]));
        labels.lemma_filter_contains_rev(p, out[k]);
    }
}

/// The size a window is nudged to before being set back: one pixel larger each way.
pub fn nudged_size(width: u32, height: u32) -> (r: (u32, u32))
    requires
        width < u32::MAX,
        height < u32::MAX,
    ensures
        r.0 == width + 1,
        r.1 == height + 1,
{
    (width + 1, height + 1)
}

/// The largest size a log file reaches before it is started afresh.
pub const MAX_LOG_SIZE: u64 = 5 * 1024 * 1024;

/// A log line: `[time] [category] message`.
pub fn log_line(timestamp: &str, category: &str, message: &str) -> (r: String)
    ensures
        r@ == "["@ + timestamp@ + "] ["@ + category@ + "] "@ + message@,
{
    let head = concat3("[", timestamp, "] [");
    let middle = concat3(head.as_str(), category, "] ");
    crate::text::concat2(middle.as_str(), message)
}

/// Whether a log file of `len` bytes is removed before the next line.
pub fn log_needs_restart(len: u64) -> (b: bool)
    ensures
        b == (len > MAX_LOG_SIZE),
{
    len > MAX_LOG_SIZE
}

} // verus!
