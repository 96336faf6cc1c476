//! Starting the widgets with Windows through a service: which mode a
//! process starts in, how the service is asked for, the command lines it
//! uses and how it answers the service manager.

use vstd::prelude::*;
use crate::text::{chars_of, concat2, concat3};

verus! {

/// The argument that runs the process as the service.
pub const SERVICE_ARG: &'static str = "--winwidgets-service";

/// The argument that installs the service.
pub const INSTALL_ARG: &'static str = "--winwidgets-install-service";

/// The argument that removes the service.
pub const REMOVE_ARG: &'static str = "--winwidgets-remove-service";

/// The UTF-16 code units of one character.
pub open spec fn utf16_units(c: char) -> Seq<u16> {
    let v = c as u32;
    if v < 0x10000 {
        seq![v as u16]
    } else {
        let w = (v - 0x10000) as u32;
        seq![(0xD800 + w / 1024) as u16, (0xDC00 + w % 1024) as u16]
    }
}

/// The UTF-16 encoding of `s`.
pub open spec fn utf16(s: Seq<char>) -> Seq<u16>
    decreases s.len(),
{
    if s.len() == 0 {
        Seq::empty()
    } else {
        utf16(s.drop_last()) + utf16_units(s.last())
    }
}

/// The UTF-16 encoding of `value` followed by a terminating zero, as the
/// Windows API takes strings.
pub fn wide(value: &str) -> (r: Vec<u16>)
    ensures
        r@ == utf16(value@).push(0),
{
    let v = chars_of(value);
    let mut r: Vec<u16> = Vec::new();
    let mut i: usize = 0;
    while i < v.len()
        invariant
            i <= v.len(),
            v@ == value@,
            r@ == utf16(v@.take(i as int)),
        decreases v.len() - i,
    {
        assert(v@.take(i + 1).drop_last() == v@.take(i as int));
        assert(v@.take(i + 1).last() == v@[i as int]);
        let c = v[i];
        let code = c as u32;
        let ghost before = r@;
        if code < 0x10000 {
            r.push(code as u16);
            assert(r@ == before + utf16_units(c));
        } else {
            proof {
                vstd::utf8::char_is_scalar(c);
            }
            assert(code <= 0x10FFFF);
            let w = code - 0x10000;
            r.push((0xD800 + w / 1024) as u16);
            r.push((0xDC00 + w % 1024) as u16);
            assert(r@ == before + utf16_units(c));
        }
        i = i + 1;
    }
    assert(v@.take(v.len() as int) == v@);
    r.push(0);
    r
}

/// How the process was asked to start.
#[derive(Debug, Clone, PartialEq, Eq)]
pub enum ServiceMode {
    /// Run as the service.
    RunService,
    /// Install the service, then exit.
    InstallService,
    /// Remove the service, then exit.
    RemoveService,
    /// Start the widgets.
    Normal,
}

/// The mode the arguments `args` ask for: running the service comes first,
/// then installing, then removing.
pub open spec fn mode_of(args: Seq<Seq<char>>) -> ServiceMode {
    if args.contains(SERVICE_ARG@) {
        ServiceMode::RunService
    } else if args.contains(INSTALL_ARG@) {
        ServiceMode::InstallService
    } else if args.contains(REMOVE_ARG@) {
        ServiceMode::RemoveService
    } else {
        ServiceMode::Normal
    }
}

/// Whether `args` holds `x`.
fn has_arg(args: &Vec<String>, x: &str) -> (b: bool)
    ensures
        b == args@.map_values(|a: String| a@).contains(x@),
{
    let ghost av = args@.map_values(|a: String| a@);
    let target = x.to_string();
    let mut i: usize = 0;
    while i < args.len()
        invariant
            i <= args.len(),
            target@ == x@,
            av == args@.map_values(|a: String| a@),
            forall|j: int| 0 <= j < i ==> av[j] != x@,
        decreases args.len() - i,
    {
        if args[i] == target {
            assert(av[i as int] == x@);
            return true;
        }
        i = i + 1;
    }
    false
}

/// The mode the command-line arguments ask for.
pub fn service_mode(args: &Vec<String>) -> (m: ServiceMode)
    ensures
        m == mode_of(args@.map_values(|a: String| a@)),
{
    if has_arg(args, SERVICE_ARG) {
        ServiceMode::RunService
    } else if has_arg(args, INSTALL_ARG) {
        ServiceMode::InstallService
    } else if has_arg(args, REMOVE_ARG) {
        ServiceMode::RemoveService
    } else {
        ServiceMode::Normal
    }
}

/// How switching the start with Windows on or off is carried out.
#[derive(Debug, Clone, Copy, PartialEq, Eq, Structural)]
pub enum EnableAction {
    /// This process already runs elevated to install: install here.
    InstallHere,
    /// This process already runs elevated to remove: remove here.
    RemoveHere,
    /// Start an elevated copy with the install argument.
    ElevateInstall,
    /// Start an elevated copy with the remove argument.
    ElevateRemove,
}

/// How switching the start with Windows to `enabled` is carried out by a
/// process started with `args`.
pub fn enable_action(enabled: bool, args: &Vec<String>) -> (a: EnableAction)
    ensures
        enabled && args@.map_values(|a: String| a@).contains(INSTALL_ARG@) ==> a == EnableAction::InstallHere,
        enabled && !args@.map_values(|a: String| a@).contains(INSTALL_ARG@) ==> a
            == EnableAction::ElevateInstall,
        !enabled && args@.map_values(|a: String| a@).contains(REMOVE_ARG@) ==> a == EnableAction::RemoveHere,
        !enabled && !args@.map_values(|a: String| a@).contains(REMOVE_ARG@) ==> a
            == EnableAction::ElevateRemove,
{
    if enabled {
        if has_arg(args, INSTALL_ARG) {
            EnableAction::InstallHere
        } else {
            EnableAction::ElevateInstall
        }
    } else {
        if has_arg(args, REMOVE_ARG) {
            EnableAction::RemoveHere
        } else {
            EnableAction::ElevateRemove
        }
    }
}

/// The decimal digit of `d`.
pub open spec fn digit_char(d: int) -> char {
    if d == 0 { '0' } else if d == 1 { '1' } else if d == 2 { '2' } else if d == 3 { '3' } else if d == 4 { '4' }
    else if d == 5 { '5' } else if d == 6 { '6' } else if d == 7 { '7' } else if d == 8 { '8' } else { '9' }
}

/// The decimal digits of `n`.
pub open spec fn decimal_digits(n: nat) -> Seq<char>
    decreases n,
{
    if n < 10 {
        seq![digit_char(n as int)]
    } else {
        decimal_digits(n / 10).push(digit_char((n % 10) as int))
    }
}

/// `n` written in decimal, with a minus sign when negative.
pub open spec fn decimal(n: int) -> Seq<char> {
    if n < 0 {
        seq!['-'] + decimal_digits((-n) as nat)
    } else {
        decimal_digits(n as nat)
    }
}

/// The decimal digit of `d`.
fn digit(d: u64) -> (c: char)
    requires
        d < 10,
    ensures
        c == digit_char(d as int),
{
    if d == 0 { '0' } else if d == 1 { '1' } else if d == 2 { '2' } else if d == 3 { '3' } else if d == 4 { '4' }
    else if d == 5 { '5' } else if d == 6 { '6' } else if d == 7 { '7' } else if d == 8 { '8' } else { '9' }
}

/// The decimal digits of `n`.
fn decimal_digits_of(n: u64) -> (r: Vec<char>)
    ensures
        r@ == decimal_digits(n as nat),
    decreases n,
{
    if n < 10 {
        let mut r = Vec::new();
        r.push(digit(n));
        r
    } else {
        let mut r = decimal_digits_of(n / 10);
        r.push(digit(n % 10));
        r
    }
}

/// `n` written in decimal (`isize::to_string`).
pub fn decimal_text(n: isize) -> (s: String)
    ensures
        s@ == decimal(n as int),
{
    let magnitude: u64 = if n < 0 {
        if n == isize::MIN {
            (isize::MAX as u64) + 1
        } else {
            (-n) as u64
        }
    } else {
        n as u64
    };
    let digits = decimal_digits_of(magnitude);
    let mut out: Vec<char> = Vec::new();
    if n < 0 {
        out.push('-');
    }
    let mut i: usize = 0;
    while i < digits.len()
        invariant
            i <= digits.len(),
            out@ == (if n < 0 { seq!['-'] } else { Seq::<char>::empty() }) + digits@.take(i as int),
        decreases digits.len() - i,
    {
        out.push(digits[i]);
        assert(digits@.take(i + 1) == digits@.take(i as int).push(digits@[i as int]));
        i = i + 1;
    }
    assert(digits@.take(digits.len() as int) == digits@);
    crate::text::string_of(&out, 0, out.len())
}

/// The outcome of asking the shell to start an elevated copy, from the
/// value `ShellExecuteW` returned: values up to 32 report a failure.
pub fn elevation_outcome(code: isize) -> (r: Result<(), String>)
    ensures
        code > 32 ==> r is Ok,
        code <= 32 ==> (r matches Err(e) && e@ == "ShellExecuteW failed: "@ + decimal(code as int)),
{
    if code <= 32 {
        let d = decimal_text(code);
        return Err(concat2("ShellExecuteW failed: ", d.as_str()));
    }
    Ok(())
}

/// The command line the service manager starts the service with.
pub fn service_command_line(exe: &str) -> (r: String)
    ensures
        r@ == "\""@ + exe@ + "\" "@ + SERVICE_ARG@,
{
    let head = concat3("\"", exe, "\" ");
    concat2(head.as_str(), SERVICE_ARG)
}

/// The command line the service starts the widgets with in the user's session.
pub fn session_command_line(exe: &str) -> (r: String)
    ensures
        r@ == "\""@ + exe@ + "\""@,
{
    concat3("\"", exe, "\"")
}

/// The service control code that stops the service.
pub const SERVICE_CONTROL_STOP: u32 = 1;

/// The service control code that reports a change of session.
pub const SERVICE_CONTROL_SESSIONCHANGE: u32 = 14;

/// The session change that reports a user logging on.
pub const WTS_SESSION_LOGON: u32 = 5;

/// What the service does on a control request.
#[derive(Debug, Clone, Copy, PartialEq, Eq, Structural)]
pub enum ControlAction {
    /// Report stopping, then stopped, and exit.
    Stop,
    /// Start the widgets in the session that became active.
    LaunchInSession,
    /// Nothing.
    Ignore,
}

/// What the service does on the control request `control` with event `event_type`.
pub fn control_action(control: u32, event_type: u32) -> (a: ControlAction)
    ensures
        control == SERVICE_CONTROL_STOP ==> a == ControlAction::Stop,
        control == SERVICE_CONTROL_SESSIONCHANGE && event_type == WTS_SESSION_LOGON ==> a
            == ControlAction::LaunchInSession,
        control != SERVICE_CONTROL_STOP && !(control == SERVICE_CONTROL_SESSIONCHANGE && event_type
            == WTS_SESSION_LOGON) ==> a == ControlAction::Ignore,
{
    if control == SERVICE_CONTROL_STOP {
        ControlAction::Stop
    } else if control == SERVICE_CONTROL_SESSIONCHANGE && event_type == WTS_SESSION_LOGON {
        ControlAction::LaunchInSession
    } else {
        ControlAction::Ignore
    }
}

/// Whether a console session is attached: `WTSGetActiveConsoleSessionId`
/// answers `u32::MAX` when there is none.
pub fn has_console_session(session_id: u32) -> (b: bool)
    ensures
        b == (session_id != u32::MAX),
{
    session_id != u32::MAX
}

} // verus!
