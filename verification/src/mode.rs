//! Measurement modes.

use vstd::prelude::*;

use crate::error::ControllerError;
use crate::text::chars_of;

verus! {

/// How the PPK2 measures.
#[derive(Clone, Copy, Debug, PartialEq, Eq, Structural)]
pub enum MeasurementMode {
    /// An external supply feeds the DUT; the PPK2 is an inline meter.
    Ampere,
    /// The PPK2 supplies the DUT.
    Source,
}

/// `c`, in lower case where it is an ASCII letter.
pub open spec fn lower(c: char) -> char {
    if 'A' as u32 <= c as u32 <= 'Z' as u32 {
        ((c as u32) + 32) as char
    } else {
        c
    }
}

/// `s`, in lower case where it is made of ASCII letters.
pub open spec fn lowered(s: Seq<char>) -> Seq<char> {
    s.map_values(|c: char| lower(c))
}

/// The mode that a name stands for, in whatever case it is written.
pub open spec fn mode_of(s: Seq<char>) -> Option<MeasurementMode> {
    let name = lowered(s);
    if name == "ampere"@ || name == "amp"@ || name == "a"@ {
        Some(MeasurementMode::Ampere)
    } else if name == "source"@ || name == "s"@ {
        Some(MeasurementMode::Source)
    } else {
        None
    }
}

fn lower_char(c: char) -> (r: char)
    ensures
        r == lower(c),
{
    let u: u32 = c as u32;
    if 'A' as u32 <= u && u <= 'Z' as u32 {
        let b: u8 = (u + 32) as u8;
        b as char
    } else {
        c
    }
}

fn lower_string(s: &str) -> (r: String)
    ensures
        r@ == lowered(s@),
{
    let chars = chars_of(s);
    let mut r = String::new();
    let mut i: usize = 0;
    while i < chars.len()
        invariant
            i <= chars@.len(),
            chars@ == s@,
            r@ == lowered(s@).take(i as int),
        decreases chars@.len() - i,
    {
        r.push(lower_char(chars[i]));
        assert(r@ =~= lowered(s@).take(i + 1));
        i = i + 1;
    }
    assert(lowered(s@).take(s@.len() as int) =~= lowered(s@));
    r
}

impl MeasurementMode {
    /// Read a mode from its name: `ampere`, `amp` or `a`, `source` or `s`, in any
    /// case.
    pub fn parse(text: &str) -> (r: Result<MeasurementMode, ControllerError>)
        ensures
            match mode_of(text@) {
                Some(mode) => r == Ok::<MeasurementMode, ControllerError>(mode),
                None => r matches Err(ControllerError::UnknownMode { text: t }) && t@ == text@,
            },
    {
        let name = lower_string(text);
        if name == "ampere".to_owned() || name == "amp".to_owned() || name == "a".to_owned() {
            Ok(MeasurementMode::Ampere)
        } else if name == "source".to_owned() || name == "s".to_owned() {
            Ok(MeasurementMode::Source)
        } else {
            Err(ControllerError::UnknownMode { text: text.to_owned() })
        }
    }

    /// The mode's name.
    pub open spec fn label(self) -> Seq<char> {
        match self {
            MeasurementMode::Ampere => "Ampere"@,
            MeasurementMode::Source => "Source"@,
        }
    }

    /// The mode's name.
    pub fn name(self) -> (r: String)
        ensures
            r@ == self.label(),
    {
        match self {
            MeasurementMode::Ampere => "Ampere".to_owned(),
            MeasurementMode::Source => "Source".to_owned(),
        }
    }
}

/// A mode's name reads back as the mode.
pub proof fn lemma_mode_reads_back(mode: MeasurementMode)
    ensures
        mode_of(mode.label()) == Some(mode),
{
    reveal_strlit("Ampere");
    reveal_strlit("Source");
    reveal_strlit("ampere");
    reveal_strlit("source");
    reveal_strlit("amp");
    reveal_strlit("a");
    reveal_strlit("s");
    assert(lowered("Ampere"@) =~= "ampere"@);
    assert(lowered("Source"@) =~= "source"@);
    assert("ampere"@.len() != "source"@.len() || "ampere"@[0] != "source"@[0]);
}

/// Whether two characters are the same but for the case of an ASCII letter, the second
/// being in lower case.
pub open spec fn same_letter(c: char, small: char) -> bool {
    c == small || ('A' as u32 <= c as u32 <= 'Z' as u32 && small == ((c as u32) + 32) as char)
}

/// Whether `s` is that name, in whatever case it is written.
pub open spec fn is_name(s: Seq<char>, name: Seq<char>) -> bool {
    s.len() == name.len() && forall|i: int|
        0 <= i < s.len() ==> same_letter(#[trigger] s[i], name[i])
}

/// A name in lower case is what a text is in lower case exactly where it is that name.
proof fn lemma_lowered(s: Seq<char>, name: Seq<char>)
    requires
        forall|i: int| 0 <= i < name.len() ==> 'a' as u32 <= (#[trigger] name[i]) as u32 <= 'z' as u32,
    ensures
        lowered(s) == name <==> is_name(s, name),
{
    if lowered(s) == name {
        assert forall|i: int| 0 <= i < s.len() implies same_letter(#[trigger] s[i], name[i]) by {
            assert(lowered(s)[i] == lower(s[i]));
        }
    }
    if is_name(s, name) {
        assert forall|i: int| 0 <= i < s.len() implies lowered(s)[i] == name[i] by {
            assert(same_letter(s[i], name[i]));
            assert('a' as u32 <= name[i] as u32 <= 'z' as u32);
        }
        assert(lowered(s) =~= name);
    }
}

/// A text names the ampere mode where it is `ampere`, `amp` or `a`, and the source mode
/// where it is `source` or `s`, in whatever case it is written; any other names none.
pub proof fn lemma_mode_names(s: Seq<char>)
    ensures
        mode_of(s) == Some(MeasurementMode::Ampere) <==> is_name(s, "ampere"@) || is_name(
            s,
            "amp"@,
        ) || is_name(s, "a"@),
        mode_of(s) == Some(MeasurementMode::Source) <==> is_name(s, "source"@) || is_name(s, "s"@),
{
    reveal_strlit("ampere");
    reveal_strlit("amp");
    reveal_strlit("a");
    reveal_strlit("source");
    reveal_strlit("s");
    lemma_lowered(s, "ampere"@);
    lemma_lowered(s, "amp"@);
    lemma_lowered(s, "a"@);
    lemma_lowered(s, "source"@);
    lemma_lowered(s, "s"@);
    assert("ampere"@[0] != "source"@[0]);
    assert("a"@[0] != "s"@[0]);
}

/// The names under which the modes are told.
pub proof fn lemma_labels()
    ensures
        MeasurementMode::Ampere.label() == "Ampere"@,
        MeasurementMode::Source.label() == "Source"@,
{
}

} // verus!
