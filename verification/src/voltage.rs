//! Source-voltage limits: the range of the hardware and the operator's ceiling.

use vstd::prelude::*;

use crate::error::ControllerError;
use crate::text::{chars_of, parse_u16, trim_chars};

verus! {

/// Lowest source voltage of the PPK2 (millivolts). The device can only supply within
/// its window; a request outside it is rejected, never clamped.
pub const VDD_MIN_MV: u16 = 800;

/// Highest source voltage of the PPK2 (millivolts).
pub const VDD_HW_MAX_MV: u16 = 5000;

/// Default source-voltage safety ceiling (mV) when the operator sets none. 3300
/// mV (3.3 V) is the most common logic level, so it's the safe-by-default cap;
/// raise it via `--max-voltage-mv` / `PPK2_MAX_VOLTAGE_MV` for 5 V parts.
pub const DEFAULT_MAX_VOLTAGE_MV: u16 = 3300;

/// Whether `mv` may be applied under the ceiling: it is within the range of the
/// hardware and no higher than the ceiling.
pub open spec fn allowed(mv: u16, ceiling_mv: u16) -> bool {
    VDD_MIN_MV <= mv <= VDD_HW_MAX_MV && mv <= ceiling_mv
}

/// What checking `mv` against the limits gives.
pub open spec fn voltage_check(mv: u16, ceiling_mv: u16) -> Result<(), ControllerError> {
    if mv < VDD_MIN_MV {
        Err(ControllerError::BelowMinimum { mv })
    } else if mv > VDD_HW_MAX_MV {
        Err(ControllerError::AboveHardwareMaximum { mv })
    } else if mv > ceiling_mv {
        Err(ControllerError::AboveCeiling { mv, ceiling_mv })
    } else {
        Ok(())
    }
}

/// Reject a source voltage that is out of the PPK2's range, or above the
/// operator-configured safety ceiling, rather than silently clamping it.
pub fn validate_voltage(mv: u16, ceiling_mv: u16) -> (r: Result<(), ControllerError>)
    ensures
        r == voltage_check(mv, ceiling_mv),
        r is Ok <==> allowed(mv, ceiling_mv),
{
    if mv < VDD_MIN_MV {
        return Err(ControllerError::BelowMinimum { mv });
    }
    if mv > VDD_HW_MAX_MV {
        return Err(ControllerError::AboveHardwareMaximum { mv });
    }
    if mv > ceiling_mv {
        return Err(ControllerError::AboveCeiling { mv, ceiling_mv });
    }
    Ok(())
}

/// The command-line option that sets the ceiling.
pub open spec fn ceiling_flag() -> Seq<char> {
    "--max-voltage-mv"@
}

/// The option with its value attached begins so.
pub open spec fn ceiling_prefix() -> Seq<char> {
    "--max-voltage-mv="@
}

/// The value of the ceiling option that the arguments leave in force, given that
/// `current` was in force before them. The option's value is the argument after it
/// or follows an equals sign; the last option on the line wins, and one at the very
/// end, with no argument after it, takes back what came before.
pub open spec fn ceiling_option(args: Seq<String>, current: Option<Seq<char>>) -> Option<Seq<char>>
    decreases args.len(),
{
    if args.len() == 0 {
        current
    } else if args[0]@ == ceiling_flag() {
        if args.len() == 1 {
            None
        } else {
            ceiling_option(args.skip(2), Some(args[1]@))
        }
    } else if ceiling_prefix().is_prefix_of(args[0]@) {
        ceiling_option(args.skip(1), Some(args[0]@.skip(ceiling_prefix().len() as int)))
    } else {
        ceiling_option(args.skip(1), current)
    }
}

/// The text that sets the ceiling: the command line takes precedence over the
/// environment.
pub open spec fn ceiling_text(args: Seq<String>, env: Option<String>) -> Option<Seq<char>> {
    match ceiling_option(args, None) {
        Some(text) => Some(text),
        None => match env {
            Some(text) => Some(text@),
            None => None,
        },
    }
}

/// `mv`, brought into the range of the hardware.
pub open spec fn clamped(mv: u16) -> u16 {
    if mv < VDD_MIN_MV {
        VDD_MIN_MV
    } else if mv > VDD_HW_MAX_MV {
        VDD_HW_MAX_MV
    } else {
        mv
    }
}

/// What follows the prefix in `text`, if `text` begins with it.
fn strip_prefix(text: &str, prefix: &str) -> (r: Option<String>)
    ensures
        r matches Some(rest) ==> prefix@.is_prefix_of(text@) && rest@ == text@.skip(
            prefix@.len() as int,
        ),
        r is None ==> !prefix@.is_prefix_of(text@),
{
    let t = chars_of(text);
    let p = chars_of(prefix);
    if t.len() < p.len() {
        return None;
    }
    let mut i: usize = 0;
    while i < p.len()
        invariant
            t@ == text@,
            p@ == prefix@,
            i <= p@.len() <= t@.len(),
            forall|j: int| 0 <= j < i ==> p@[j] == t@[j],
        decreases p@.len() - i,
    {
        if t[i] != p[i] {
            assert(text@.take(prefix@.len() as int)[i as int] != prefix@[i as int]);
            return None;
        }
        i = i + 1;
    }
    assert(prefix@ =~= text@.subrange(0, prefix@.len() as int));
    let mut rest = String::new();
    assert(text@.subrange(i as int, i as int) =~= Seq::<char>::empty());
    while i < t.len()
        invariant
            t@ == text@,
            p@ == prefix@,
            p@.len() <= i <= t@.len(),
            rest@ == text@.subrange(prefix@.len() as int, i as int),
        decreases t@.len() - i,
    {
        rest.push(t[i]);
        assert(rest@ =~= text@.subrange(prefix@.len() as int, i + 1));
        i = i + 1;
    }
    assert(rest@ =~= text@.skip(prefix@.len() as int));
    Some(rest)
}

/// The value of the ceiling option on the command line.
fn find_ceiling_option(args: &Vec<String>) -> (r: Option<String>)
    ensures
        ceiling_option(args@, None) == (match r {
            Some(text) => Some(text@),
            None => None,
        }),
{
    let mut cli: Option<String> = None;
    let mut i: usize = 0;
    let flag: String = "--max-voltage-mv".to_owned();
    assert(args@.skip(0) =~= args@);
    while i < args.len()
        invariant
            i <= args@.len(),
            flag@ == ceiling_flag(),
            ceiling_option(args@, None) == ceiling_option(
                args@.skip(i as int),
                match cli {
                    Some(text) => Some(text@),
                    None => None,
                },
            ),
        decreases args@.len() - i,
    {
        let ghost rest = args@.skip(i as int);
        assert(rest.skip(1) =~= args@.skip(i + 1));
        if args[i] == flag {
            if i + 1 == args.len() {
                return None;
            }
            assert(rest.skip(2) =~= args@.skip(i + 2));
            cli = Some(args[i + 1].clone());
            i = i + 2;
        } else {
            match strip_prefix(args[i].as_str(), "--max-voltage-mv=") {
                Some(value) => {
                    cli = Some(value);
                },
                None => {},
            }
            i = i + 1;
        }
    }
    cli
}

/// Resolve the source-voltage safety ceiling (mV) from the command-line arguments
/// (without the program's name) and the `PPK2_MAX_VOLTAGE_MV` environment variable:
/// `--max-voltage-mv <N>` (or `--max-voltage-mv=<N>`) takes precedence over the
/// variable; absent both, it defaults to [`DEFAULT_MAX_VOLTAGE_MV`]. The result is
/// clamped into the hardware range so it can never widen it.
pub fn resolve_max_voltage_mv(args: &Vec<String>, env: Option<String>) -> (r: Result<
    u16,
    ControllerError,
>)
    ensures
        match ceiling_text(args@, env) {
            None => r == Ok::<u16, ControllerError>(DEFAULT_MAX_VOLTAGE_MV),
            Some(text) => match crate::text::u16_value(crate::text::trimmed(text)) {
                Some(mv) => r == Ok::<u16, ControllerError>(clamped(mv)),
                None => r matches Err(ControllerError::InvalidMaxVoltage { text: t }) && t@ == text,
            },
        },
        r matches Ok(mv) ==> VDD_MIN_MV <= mv <= VDD_HW_MAX_MV,
        match r {
            Ok(mv) => ceiling_of(args@, env) == Ok::<u16, Seq<char>>(mv),
            Err(e) => ceiling_of(args@, env) == Err::<u16, Seq<char>>(e->InvalidMaxVoltage_text@),
        },
{
    let raw: Option<String> = match find_ceiling_option(args) {
        Some(text) => Some(text),
        None => env,
    };
    let mv: u16 = match raw {
        Some(text) => {
            let trimmed = trim_chars(text.as_str());
            match parse_u16(&trimmed) {
                Some(mv) => mv,
                None => {
                    return Err(ControllerError::InvalidMaxVoltage { text });
                },
            }
        },
        None => DEFAULT_MAX_VOLTAGE_MV,
    };
    if mv < VDD_MIN_MV {
        Ok(VDD_MIN_MV)
    } else if mv > VDD_HW_MAX_MV {
        Ok(VDD_HW_MAX_MV)
    } else {
        Ok(mv)
    }
}

/// An option on the command line decides alone: whatever the environment holds, the
/// same text sets the ceiling.
pub proof fn lemma_command_line_wins(args: Seq<String>, env: Option<String>, other: Option<String>)
    requires
        ceiling_option(args, None) is Some,
    ensures
        ceiling_text(args, env) == ceiling_text(args, other),
{
}

/// The ceiling that the command line and the environment set, or the text that is no
/// number of millivolts.
pub open spec fn ceiling_of(args: Seq<String>, env: Option<String>) -> Result<u16, Seq<char>> {
    match ceiling_text(args, env) {
        None => Ok(DEFAULT_MAX_VOLTAGE_MV),
        Some(text) => match crate::text::u16_value(crate::text::trimmed(text)) {
            Some(mv) => Ok(clamped(mv)),
            None => Err(text),
        },
    }
}

/// A voltage is allowed from 800 mV on, up to 5000 mV and no higher than the ceiling, and
/// the check says so: below, above the hardware or above the ceiling, in this order.
pub proof fn lemma_limits(mv: u16, ceiling_mv: u16)
    ensures
        allowed(mv, ceiling_mv) <==> 800 <= mv && mv <= 5000 && mv <= ceiling_mv,
        voltage_check(mv, ceiling_mv) == if mv < 800 {
            Err::<(), ControllerError>(ControllerError::BelowMinimum { mv })
        } else if mv > 5000 {
            Err(ControllerError::AboveHardwareMaximum { mv })
        } else if mv > ceiling_mv {
            Err(ControllerError::AboveCeiling { mv, ceiling_mv })
        } else {
            Ok(())
        },
{
}

/// The ceiling never lies outside the range of the hardware: a number within it is taken
/// as it is, and one outside as the nearer end. Where neither the command line nor the
/// environment sets it, it is 3300 mV, and a text that is no number is an error.
pub proof fn lemma_ceiling(args: Seq<String>, env: Option<String>)
    ensures
        ceiling_of(args, env) matches Ok(mv) ==> 800 <= mv <= 5000,
        ceiling_text(args, env) is None ==> ceiling_of(args, env) == Ok::<u16, Seq<char>>(3300),
        ceiling_text(args, env) matches Some(text) ==> match crate::text::u16_value(
            crate::text::trimmed(text),
        ) {
            None => ceiling_of(args, env) == Err::<u16, Seq<char>>(text),
            Some(n) => {
                &&& 800 <= n <= 5000 ==> ceiling_of(args, env) == Ok::<u16, Seq<char>>(n)
                &&& n < 800 ==> ceiling_of(args, env) == Ok::<u16, Seq<char>>(800)
                &&& n > 5000 ==> ceiling_of(args, env) == Ok::<u16, Seq<char>>(5000)
            },
        },
{
}

/// The environment counts where the command line has no option, and only there.
pub proof fn lemma_ceiling_sources(args: Seq<String>, env: Option<String>)
    ensures
        ceiling_option(args, None) matches Some(text) ==> ceiling_text(args, env) == Some(text),
        ceiling_option(args, None) is None ==> match env {
            Some(text) => ceiling_text(args, env) == Some(text@),
            None => ceiling_text(args, env) is None,
        },
{
}

/// How the command line is read, from its start: `--max-voltage-mv` takes the argument
/// after it, `--max-voltage-mv=` what follows the sign, and either takes the place of
/// what was in force; at the very end, with no argument after it, the option takes back
/// what was in force; any other argument leaves it.
pub proof fn lemma_ceiling_option(args: Seq<String>, current: Option<Seq<char>>)
    ensures
        args.len() == 0 ==> ceiling_option(args, current) == current,
        args.len() == 1 && args[0]@ == "--max-voltage-mv"@ ==> ceiling_option(args, current)
            is None,
        args.len() >= 2 && args[0]@ == "--max-voltage-mv"@ ==> ceiling_option(args, current)
            == ceiling_option(args.skip(2), Some(args[1]@)),
        forall|value: Seq<char>|
            args.len() >= 1 && args[0]@ == #[trigger] ("--max-voltage-mv="@ + value)
                ==> ceiling_option(args, current) == ceiling_option(args.skip(1), Some(value)),
        args.len() >= 1 && args[0]@ != "--max-voltage-mv"@ && !(
        "--max-voltage-mv="@.is_prefix_of(args[0]@)) ==> ceiling_option(args, current)
            == ceiling_option(args.skip(1), current),
{
    reveal_strlit("--max-voltage-mv");
    reveal_strlit("--max-voltage-mv=");
    let p = "--max-voltage-mv="@;
    assert forall|value: Seq<char>|
        args.len() >= 1 && args[0]@ == #[trigger] (p + value) implies ceiling_option(args, current)
        == ceiling_option(args.skip(1), Some(value)) by {
        let a = args[0]@;
        assert(a.len() >= 17);
        assert(a.skip(17) =~= value);
        assert(p =~= a.subrange(0, 17));
    }
}

/// Arguments that have nothing to do with the option leave what was in force.
pub proof fn lemma_other_arguments(args: Seq<String>, current: Option<Seq<char>>)
    requires
        forall|i: int|
            0 <= i < args.len() ==> (#[trigger] args[i])@ != "--max-voltage-mv"@ && !(
            "--max-voltage-mv="@.is_prefix_of(args[i]@)),
    ensures
        ceiling_option(args, current) == current,
    decreases args.len(),
{
    if args.len() > 0 {
        let rest = args.skip(1);
        assert forall|i: int| 0 <= i < rest.len() implies (#[trigger] rest[i])@
            != "--max-voltage-mv"@ && !("--max-voltage-mv="@.is_prefix_of(rest[i]@)) by {
            assert(rest[i] == args[i + 1]);
        }
        assert(args[0]@ != "--max-voltage-mv"@);
        lemma_other_arguments(rest, current);
    }
}

} // verus!
