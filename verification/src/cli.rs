//! How the compositor is started.

use crate::backend::ShojiWMBackend;
use crate::strings::{push_u128, same_text};
use vstd::prelude::*;

verus! {

/// What the command line and the environment ask for.
#[derive(Clone, Copy, Debug, PartialEq, Eq, Structural)]
pub struct CliArgs {
    pub tty: bool,
    pub log_off: bool,
    pub no_log_rotate: bool,
}

/// One of the arguments is the given one.
pub open spec fn is_given(args: Seq<String>, wanted: Seq<char>) -> bool {
    exists|i: int| 0 <= i < args.len() && (#[trigger] args[i])@ == wanted
}

fn has_argument(args: &Vec<String>, wanted: &str) -> (given: bool)
    ensures
        given == is_given(args@, wanted@),
{
    let mut i: usize = 0;
    while i < args.len()
        invariant
            i <= args@.len(),
            forall|k: int| 0 <= k < i ==> (#[trigger] args@[k])@ != wanted@,
        decreases args@.len() - i,
    {
        if same_text(args[i].as_str(), wanted) {
            return true;
        }
        i += 1;
    }
    false
}

/// A variable of the environment says no.
pub open spec fn is_off(value: Option<Seq<char>>) -> bool {
    value matches Some(value) && (value == "off"@ || value == "0"@)
}

/// Whether a variable of the environment says no.
pub fn says_off(value: Option<&str>) -> (off: bool)
    ensures
        off == is_off(
            match value {
                Some(value) => Some(value@),
                None => None,
            },
        ),
{
    match value {
        Some(value) => same_text(value, "off") || same_text(value, "0"),
        None => false,
    }
}

/// A variable of the environment switches debugging on.
pub open spec fn is_on(value: Option<Seq<char>>) -> bool {
    value matches Some(value) && value != "0"@ && value.len() > 0
}

/// Whether a variable of the environment switches debugging on: it is there, not empty, and not
/// `0`.
pub fn debug_enabled(value: Option<&str>) -> (on: bool)
    ensures
        on == is_on(
            match value {
                Some(value) => Some(value@),
                None => None,
            },
        ),
{
    match value {
        Some(value) => !same_text(value, "0") && !value.is_empty(),
        None => false,
    }
}

impl CliArgs {
    /// What the arguments and the variables of the environment ask for.
    pub open spec fn asked_for(
        args: Seq<String>,
        log: Option<Seq<char>>,
        log_rotate: Option<Seq<char>>,
    ) -> CliArgs {
        CliArgs {
            tty: is_given(args, "--tty"@),
            log_off: is_given(args, "--log-off"@) || is_off(log),
            no_log_rotate: is_given(args, "--no-log-rotate"@) || is_off(log_rotate),
        }
    }

    /// The backend that is asked for.
    pub open spec fn chosen_backend(&self) -> ShojiWMBackend {
        if self.tty {
            ShojiWMBackend::TTY
        } else {
            ShojiWMBackend::WInit
        }
    }

    /// The last log is kept under another name.
    pub open spec fn keeps_last_log(&self, latest_exists: bool) -> bool {
        !self.log_off && !self.no_log_rotate && latest_exists
    }

    /// Reads the arguments behind the program's name, and the variables that turn logging and the
    /// rotation of logs off.
    pub fn parse(args: &Vec<String>, log: Option<&str>, log_rotate: Option<&str>) -> (parsed: CliArgs)
        ensures
            parsed == CliArgs::asked_for(
                args@,
                match log {
                    Some(value) => Some(value@),
                    None => None,
                },
                match log_rotate {
                    Some(value) => Some(value@),
                    None => None,
                },
            ),
    {
        CliArgs {
            tty: has_argument(args, "--tty"),
            log_off: has_argument(args, "--log-off") || says_off(log),
            no_log_rotate: has_argument(args, "--no-log-rotate") || says_off(log_rotate),
        }
    }

    /// The backend that is asked for.
    pub fn backend(&self) -> (backend: ShojiWMBackend)
        ensures
            backend == self.chosen_backend(),
    {
        if self.tty {
            ShojiWMBackend::TTY
        } else {
            ShojiWMBackend::WInit
        }
    }

    /// Whether the last log is kept under another name.
    pub fn rotates_log(&self, latest_exists: bool) -> (rotates: bool)
        ensures
            rotates == self.keeps_last_log(latest_exists),
    {
        !self.log_off && !self.no_log_rotate && latest_exists
    }
}

/// The name under which the last log is kept: the time of the start in milliseconds.
pub fn rolled_log_name(startup_timestamp_millis: u128) -> (name: String)
    ensures
        name@ == crate::strings::digits(startup_timestamp_millis as nat) + ".log"@,
{
    let mut name = String::new();
    push_u128(&mut name, startup_timestamp_millis);
    name.append(".log");
    assert(name@ =~= crate::strings::digits(startup_timestamp_millis as nat) + ".log"@);
    name
}

/// Logs of different starts never share a name.
pub proof fn law_rolled_logs_differ(a: u128, b: u128)
    requires
        crate::strings::digits(a as nat) + ".log"@ == crate::strings::digits(b as nat) + ".log"@,
    ensures
        a == b,
{
    let (da, db) = (crate::strings::digits(a as nat), crate::strings::digits(b as nat));
    let (wa, wb) = (da + ".log"@, db + ".log"@);
    assert(wa.len() == wb.len());
    assert(da.len() == db.len());
    assert(wa.take(da.len() as int) =~= da);
    assert(wb.take(db.len() as int) =~= db);
    assert(crate::strings::decimal(a as int) == da);
    assert(crate::strings::decimal(b as int) == db);
    crate::strings::law_decimal_is_injective(a as int, b as int);
}

/// Each switch counts on its own: an argument turns on what it names and nothing else, wherever it stands, and so
/// does its variable. Without both, nothing is asked for, and the compositor runs in a window.
pub proof fn law_switches_count_on_their_own(
    args: Seq<String>,
    log: Option<Seq<char>>,
    log_rotate: Option<Seq<char>>,
    i: int,
)
    requires
        0 <= i < args.len(),
    ensures
        ({
            let asked = CliArgs::asked_for(args, log, log_rotate);
            &&& args[i]@ == "--tty"@ ==> asked.tty && asked.chosen_backend() == ShojiWMBackend::TTY
            &&& args[i]@ == "--log-off"@ ==> asked.log_off
            &&& args[i]@ == "--no-log-rotate"@ ==> asked.no_log_rotate
            &&& log == Some("off"@) || log == Some("0"@) ==> asked.log_off
            &&& log_rotate == Some("off"@) || log_rotate == Some("0"@) ==> asked.no_log_rotate
            &&& asked.tty ==> exists|k: int|
                0 <= k < args.len() && (#[trigger] args[k])@ == "--tty"@
            &&& asked.log_off && log is None ==> exists|k: int|
                0 <= k < args.len() && (#[trigger] args[k])@ == "--log-off"@
            &&& asked.no_log_rotate && log_rotate is None ==> exists|k: int|
                0 <= k < args.len() && (#[trigger] args[k])@ == "--no-log-rotate"@
            &&& !asked.tty ==> asked.chosen_backend() == ShojiWMBackend::WInit
        }),
        CliArgs::asked_for(Seq::empty(), None, None) == (CliArgs {
            tty: false,
            log_off: false,
            no_log_rotate: false,
        }),
{
    let none = Seq::<String>::empty();
    assert(!is_given(none, "--tty"@) && !is_given(none, "--log-off"@) && !is_given(
        none,
        "--no-log-rotate"@,
    ));
}

/// The last log is kept exactly if there is one, and neither logging nor the keeping of logs is off.
pub proof fn law_last_log_is_kept(args: CliArgs)
    ensures
        !args.keeps_last_log(false),
        args.log_off || args.no_log_rotate ==> !args.keeps_last_log(true),
        !args.log_off && !args.no_log_rotate ==> args.keeps_last_log(true),
{
}

/// A variable that is missing, empty or `0` leaves debugging off, and any other text turns it on.
pub proof fn law_debugging_is_turned_on(value: Seq<char>)
    ensures
        !is_on(None),
        !is_on(Some("0"@)),
        value.len() == 0 ==> !is_on(Some(value)),
        value.len() > 0 && value != "0"@ ==> is_on(Some(value)),
{
}

} // verus!
