//! Decisions of the application shell: the daily update clock, the tray menu
//! and tray clicks, a hidden start, and setting the desktop background on each
//! operating system.
use vstd::prelude::*;
use crate::text::str_eq;
use vstd::arithmetic::div_mod::lemma_fundamental_div_mod_converse;

verus! {

/// What the background clock does on one tick.
#[derive(Clone, Copy, Debug, PartialEq, Eq, Structural)]
pub struct ClockTick {
    /// Ask the window to update the wallpaper now.
    pub emit_update: bool,
    /// Seconds to sleep before the next tick.
    pub sleep_secs: u64,
}

/// The daily update fires at 06:00; after firing the clock sleeps past that
/// minute, otherwise it looks again in half a minute.
pub open spec fn spec_clock_tick(hour: u32, minute: u32) -> ClockTick {
    if hour == 6 && minute == 0 {
        ClockTick { emit_update: true, sleep_secs: 61 }
    } else {
        ClockTick { emit_update: false, sleep_secs: 30 }
    }
}

/// One tick of the background clock at local time `hour:minute`.
pub fn clock_tick(hour: u32, minute: u32) -> (t: ClockTick)
    ensures
        t == spec_clock_tick(hour, minute),
{
    if hour == 6 && minute == 0 {
        ClockTick { emit_update: true, sleep_secs: 61 }
    } else {
        ClockTick { emit_update: false, sleep_secs: 30 }
    }
}

/// After the update fires, the next tick falls in a later minute, so the
/// update fires once per day; every other tick comes again within a minute,
/// so the minute of 06:00 is not missed.
pub proof fn lemma_clock_fires_once(hour: u32, minute: u32)
    ensures
        spec_clock_tick(hour, minute).emit_update ==> spec_clock_tick(hour, minute).sleep_secs > 60,
        !spec_clock_tick(hour, minute).emit_update ==> spec_clock_tick(hour, minute).sleep_secs
            < 60,
{
}

/// Hour of the day of a clock reading `t`, in seconds since a local midnight.
pub open spec fn hour_of(t: int) -> int {
    (t / 3600) % 24
}

/// Minute of the hour of a clock reading `t`, in seconds since a local midnight.
pub open spec fn minute_of(t: int) -> int {
    (t / 60) % 60
}

/// The tick of the clock loop at reading `t`.
pub open spec fn tick_at(t: int) -> ClockTick {
    spec_clock_tick(hour_of(t) as u32, minute_of(t) as u32)
}

/// Pass `i` of the clock loop sleeps as its tick says and takes less than
/// half a minute more before the next reading.
pub open spec fn pass_ok(times: Seq<int>, i: int) -> bool {
    &&& tick_at(times[i]).sleep_secs <= times[i + 1] - times[i]
    &&& times[i + 1] - times[i] < tick_at(times[i]).sleep_secs + 30
}

/// `times` are the readings of successive passes of the clock loop, in
/// seconds since a local midnight, on a clock that is not set back.
pub open spec fn clock_run(times: Seq<int>) -> bool {
    &&& forall|i: int| 0 <= i < times.len() ==> #[trigger] times[i] >= 0
    &&& forall|i: int| 0 <= i < times.len() - 1 ==> #[trigger] pass_ok(times, i)
}

/// The reading `t` falls in the minute of 06:00 of day `day`.
pub open spec fn in_update_minute(t: int, day: nat) -> bool {
    86400 * day + 21600 <= t < 86400 * day + 21660
}

proof fn lemma_update_minute_clock(t: int, day: nat)
    requires
        in_update_minute(t, day),
    ensures
        hour_of(t) == 6,
        minute_of(t) == 0,
{
    let h: int = 24 * day as int + 6;
    lemma_fundamental_div_mod_converse(t, 3600, h, t - 3600 * h);
    lemma_fundamental_div_mod_converse(h, 24, day as int, 6);
    let m: int = 1440 * day as int + 360;
    lemma_fundamental_div_mod_converse(t, 60, m, t - 60 * m);
    lemma_fundamental_div_mod_converse(m, 60, h, 0);
}

proof fn lemma_before_update_minute_clock(t: int, day: nat)
    requires
        86400 * day + 21600 - 91 < t < 86400 * day + 21600,
    ensures
        hour_of(t) == 5,
{
    let h: int = 24 * day as int + 5;
    lemma_fundamental_div_mod_converse(t, 3600, h, t - 3600 * h);
    lemma_fundamental_div_mod_converse(h, 24, day as int, 5);
}

proof fn lemma_readings_increase(times: Seq<int>, a: int, b: int)
    requires
        clock_run(times),
        0 <= a <= b < times.len(),
    ensures
        times[a] <= times[b],
    decreases b - a,
{
    if a < b {
        lemma_readings_increase(times, a, b - 1);
        assert(pass_ok(times, b - 1));
    }
}

proof fn lemma_reaches_update_minute(times: Seq<int>, day: nat, k: int)
    requires
        clock_run(times),
        0 <= k < times.len(),
        times[k] < 86400 * day + 21600,
        times.last() >= 86400 * day + 21660,
    ensures
        exists|i: int| k < i < times.len() && #[trigger] in_update_minute(times[i], day),
    decreases times.len() - k,
{
    assert(k + 1 < times.len());
    assert(pass_ok(times, k));
    if times[k + 1] >= 86400 * day + 21600 {
        lemma_before_update_minute_clock(times[k], day);
        assert(in_update_minute(times[k + 1], day));
    } else {
        lemma_reaches_update_minute(times, day, k + 1);
    }
}

/// The daily update fires exactly once on each day the clock loop runs
/// through 06:00: some reading falls in the minute of 06:00 and fires the
/// update, no two readings fall in that minute, and no reading fires the
/// update at another time of day.
pub proof fn lemma_clock_fires_once_a_day(times: Seq<int>, day: nat)
    requires
        clock_run(times),
        times.len() > 0,
        times[0] < 86400 * day + 21600,
        times.last() >= 86400 * day + 21660,
    ensures
        exists|i: int|
            0 <= i < times.len() && #[trigger] in_update_minute(times[i], day) && tick_at(
                times[i],
            ).emit_update,
        forall|i: int, j: int|
            0 <= i < times.len() && 0 <= j < times.len() && #[trigger] in_update_minute(times[i], day)
                && #[trigger] in_update_minute(times[j], day) ==> i == j,
        forall|i: int|
            0 <= i < times.len() && #[trigger] tick_at(times[i]).emit_update ==> hour_of(times[i])
                == 6 && minute_of(times[i]) == 0,
{
    lemma_reaches_update_minute(times, day, 0);
    let w = choose|i: int| 0 < i < times.len() && #[trigger] in_update_minute(times[i], day);
    lemma_update_minute_clock(times[w], day);
    assert forall|i: int, j: int|
        0 <= i < times.len() && 0 <= j < times.len() && #[trigger] in_update_minute(times[i], day)
            && #[trigger] in_update_minute(times[j], day) implies i == j by {
        if i < j {
            lemma_update_minute_clock(times[i], day);
            assert(pass_ok(times, i));
            lemma_readings_increase(times, i + 1, j);
        } else if j < i {
            lemma_update_minute_clock(times[j], day);
            assert(pass_ok(times, j));
            lemma_readings_increase(times, j + 1, i);
        }
    }
}

/// A choice in the tray menu.
#[derive(Clone, Copy, Debug, PartialEq, Eq, Structural)]
pub enum MenuCommand {
    /// Leave the application.
    Quit,
    /// Show and focus the control window.
    ShowWindow,
    /// Update the wallpaper now.
    UpdateNow,
    /// An id the menu does not hold.
    Ignore,
}

/// The command of the tray menu item with id `id`.
pub open spec fn spec_menu_command(id: Seq<char>) -> MenuCommand {
    if id == "quit"@ {
        MenuCommand::Quit
    } else if id == "show"@ {
        MenuCommand::ShowWindow
    } else if id == "update_now"@ {
        MenuCommand::UpdateNow
    } else {
        MenuCommand::Ignore
    }
}

/// The command of the tray menu item with id `id`.
pub fn menu_command(id: &str) -> (c: MenuCommand)
    ensures
        c == spec_menu_command(id@),
{
    if str_eq(id, "quit") {
        MenuCommand::Quit
    } else if str_eq(id, "show") {
        MenuCommand::ShowWindow
    } else if str_eq(id, "update_now") {
        MenuCommand::UpdateNow
    } else {
        MenuCommand::Ignore
    }
}

/// A click on the tray icon shows the window only on the press of the left
/// button, not on its release nor for another button.
pub fn tray_click_shows_window(left_button: bool, pressed: bool) -> (b: bool)
    ensures
        b == (left_button && pressed),
{
    left_button && pressed
}

/// The command-line arguments ask for a hidden start (as autostart does).
pub open spec fn spec_launched_hidden(args: Seq<Seq<char>>) -> bool {
    exists|i: int| 0 <= i < args.len() && args[i] == "--hidden"@
}

/// The command-line arguments ask for a hidden start.
pub fn launched_hidden(args: &Vec<String>) -> (b: bool)
    ensures
        b == spec_launched_hidden(args@.map_values(|a: String| a@)),
{
    let ghost views = args@.map_values(|a: String| a@);
    let mut i: usize = 0;
    while i < args.len()
        invariant
            views == args@.map_values(|a: String| a@),
            i <= args.len(),
            forall|k: int| 0 <= k < i ==> views[k] != "--hidden"@,
        decreases args.len() - i,
    {
        if str_eq(args[i].as_str(), "--hidden") {
            assert(views[i as int] == "--hidden"@);
            return true;
        }
        i = i + 1;
    }
    false
}

/// The AppleScript that sets the picture at `path` on every desktop.
pub open spec fn spec_desktop_script(path: Seq<char>) -> Seq<char> {
    "tell application \"System Events\" to set picture of every desktop to POSIX file \""@ + path
        + "\""@
}

/// The AppleScript that sets the picture at `path` on every desktop.
pub fn desktop_script(path: &str) -> (s: String)
    ensures
        s@ == spec_desktop_script(path@),
{
    let mut s = "tell application \"System Events\" to set picture of every desktop to POSIX file \"".to_owned();
    s.append(path);
    s.append("\"");
    s
}

/// The outcome of setting the Windows background, from the error of the call
/// that sets it, if any.
pub fn windows_wallpaper_outcome(failure: Option<String>) -> (res: Result<String, String>)
    ensures
        match failure {
            None => res matches Ok(m) && m@ == "Windows 系统壁纸已成功更新"@,
            Some(e) => res matches Err(m) && m@ == "设置 Windows 壁纸失败: "@ + e@,
        },
{
    match failure {
        None => Ok("Windows 系统壁纸已成功更新".to_owned()),
        Some(e) => {
            let mut m = "设置 Windows 壁纸失败: ".to_owned();
            m.append(e.as_str());
            Err(m)
        },
    }
}

/// The outcome of setting the macOS background: the script could not be run
/// (with this error), or it ran and succeeded or was refused.
pub fn macos_wallpaper_outcome(run: Result<bool, String>) -> (res: Result<String, String>)
    ensures
        match run {
            Ok(true) => res matches Ok(m) && m@ == "Mac 系统壁纸已成功更新"@,
            Ok(false) => res matches Err(m) && m@ == "AppleScript 权限被拒绝"@,
            Err(e) => res matches Err(m) && m@ == "执行 AppleScript 失败: "@ + e@,
        },
{
    match run {
        Ok(true) => Ok("Mac 系统壁纸已成功更新".to_owned()),
        Ok(false) => Err("AppleScript 权限被拒绝".to_owned()),
        Err(e) => {
            let mut m = "执行 AppleScript 失败: ".to_owned();
            m.append(e.as_str());
            Err(m)
        },
    }
}

/// The outcome on an operating system whose background the tool cannot set.
pub fn unsupported_wallpaper_outcome() -> (res: Result<String, String>)
    ensures
        res matches Err(m) && m@ == "暂不支持该操作系统的壁纸自动设置"@,
{
    Err("暂不支持该操作系统的壁纸自动设置".to_owned())
}

} // verus!
