//! Digital channels: trigger patterns and the packed state of the eight pins.

use vstd::prelude::*;

use crate::error::ControllerError;
use crate::text::trim_chars;

verus! {

/// The level of one digital channel, or what a trigger asks of it.
#[derive(Clone, Copy, Debug, PartialEq, Eq, Structural)]
pub enum Level {
    /// Low.
    Low,
    /// High.
    High,
    /// Either level.
    Either,
}

/// The level that a character of a trigger pattern stands for.
pub open spec fn level_of(c: char) -> Option<Level> {
    if c == '1' || c == 'H' || c == 'h' {
        Some(Level::High)
    } else if c == '0' || c == 'L' || c == 'l' {
        Some(Level::Low)
    } else if c == 'X' || c == 'x' || c == '.' || c == '*' {
        Some(Level::Either)
    } else {
        None
    }
}

/// Whether every character before position `n` stands for a level.
pub open spec fn levels_before(s: Seq<char>, n: int) -> bool {
    forall|i: int| 0 <= i < n ==> level_of(#[trigger] s[i]) is Some
}

/// What parsing the trimmed pattern `s` must give.
pub open spec fn parses_to(s: Seq<char>, r: Result<[Level; 8], ControllerError>) -> bool {
    match r {
        Ok(levels) => {
            &&& s.len() == 8
            &&& forall|i: int| 0 <= i < 8 ==> Some(#[trigger] levels@[i]) == level_of(s[i])
        },
        Err(ControllerError::TriggerLength { len }) => s.len() != 8 && len == s.len(),
        Err(ControllerError::TriggerChar { c, position }) => {
            &&& s.len() == 8
            &&& position < 8
            &&& levels_before(s, position as int)
            &&& c == s[position as int]
            &&& level_of(c) is None
        },
        Err(_) => false,
    }
}

/// The position of the first character from `i` on that stands for no level.
pub open spec fn first_bad(s: Seq<char>, i: int) -> int
    decreases s.len() - i,
{
    if i >= s.len() || level_of(s[i]) is None {
        i
    } else {
        first_bad(s, i + 1)
    }
}

/// The result of parsing the trimmed pattern `s`.
pub open spec fn trigger_result(s: Seq<char>) -> Result<[Level; 8], ControllerError> {
    if s.len() != 8 {
        Err(ControllerError::TriggerLength { len: s.len() as usize })
    } else if first_bad(s, 0) < 8 {
        Err(
            ControllerError::TriggerChar {
                c: s[first_bad(s, 0)],
                position: first_bad(s, 0) as usize,
            },
        )
    } else {
        Ok(
            [
                level_of(s[0])->0,
                level_of(s[1])->0,
                level_of(s[2])->0,
                level_of(s[3])->0,
                level_of(s[4])->0,
                level_of(s[5])->0,
                level_of(s[6])->0,
                level_of(s[7])->0,
            ],
        )
    }
}

proof fn lemma_first_bad(s: Seq<char>, i: int, n: int)
    requires
        0 <= i <= n <= s.len(),
        levels_before(s, n),
        n < s.len() ==> level_of(s[n]) is None,
    ensures
        first_bad(s, i) == n,
    decreases n - i,
{
    if i < n {
        assert(level_of(s[i]) is Some);
        lemma_first_bad(s, i + 1, n);
    }
}

/// The result of parsing is determined by the pattern.
proof fn lemma_parse_determined(s: Seq<char>, r: Result<[Level; 8], ControllerError>)
    requires
        parses_to(s, r),
    ensures
        r == trigger_result(s),
{
    match r {
        Ok(levels) => {
            assert forall|i: int| 0 <= i < 8 implies level_of(#[trigger] s[i]) is Some by {
                assert(Some(levels@[i]) == level_of(s[i]));
            }
            lemma_first_bad(s, 0, 8);
            assert(levels@[0] == level_of(s[0])->0);
            assert(levels@[1] == level_of(s[1])->0);
            assert(levels@[2] == level_of(s[2])->0);
            assert(levels@[3] == level_of(s[3])->0);
            assert(levels@[4] == level_of(s[4])->0);
            assert(levels@[5] == level_of(s[5])->0);
            assert(levels@[6] == level_of(s[6])->0);
            assert(levels@[7] == level_of(s[7])->0);
            let expected = trigger_result(s)->Ok_0;
            assert(levels =~= expected);
        },
        Err(ControllerError::TriggerChar { c, position }) => {
            lemma_first_bad(s, 0, position as int);
        },
        Err(_) => {},
    }
}

fn char_level(c: char) -> (r: Option<Level>)
    ensures
        r == level_of(c),
{
    match c {
        '1' | 'H' | 'h' => Some(Level::High),
        '0' | 'L' | 'l' => Some(Level::Low),
        'X' | 'x' | '.' | '*' => Some(Level::Either),
        _ => None,
    }
}

/// Parse an 8-character trigger pattern into per-pin levels. Position 0 (leftmost)
/// is D0. Accepts `1`/`H`/`h` = high, `0`/`L`/`l` = low, `X`/`x`/`.`/`*` = either.
/// White space around the pattern is ignored. Of several characters that stand for
/// no level, the leftmost is reported.
pub fn parse_trigger(pattern: &str) -> (r: Result<[Level; 8], ControllerError>)
    ensures
        parses_to(crate::text::trimmed(pattern@), r),
        r == trigger_result(crate::text::trimmed(pattern@)),
{
    let r = parse_chars(&trim_chars(pattern));
    proof {
        lemma_parse_determined(crate::text::trimmed(pattern@), r);
    }
    r
}

fn parse_chars(chars: &Vec<char>) -> (r: Result<[Level; 8], ControllerError>)
    ensures
        parses_to(chars@, r),
{
    if chars.len() != 8 {
        return Err(ControllerError::TriggerLength { len: chars.len() });
    }
    let mut levels: [Level; 8] = [Level::Either; 8];
    let mut i: usize = 0;
    while i < 8
        invariant
            i <= 8,
            chars@.len() == 8,
            forall|j: int| 0 <= j < i ==> Some(#[trigger] levels@[j]) == level_of(chars@[j]),
        decreases 8 - i,
    {
        match char_level(chars[i]) {
            Some(level) => {
                levels[i] = level;
            },
            None => {
                assert(levels_before(chars@, i as int)) by {
                    assert forall|j: int| 0 <= j < i implies level_of(#[trigger] chars@[j]) is Some by {
                        assert(Some(levels@[j]) == level_of(chars@[j]));
                    }
                }
                return Err(ControllerError::TriggerChar { c: chars[i], position: i });
            },
        }
        i = i + 1;
    }
    Ok(levels)
}

/// What an optional pattern asks for.
pub open spec fn trigger_option(t: Option<Seq<char>>) -> Result<
    Option<[Level; 8]>,
    ControllerError,
> {
    match t {
        Some(p) => match trigger_result(crate::text::trimmed(p)) {
            Ok(levels) => Ok(Some(levels)),
            Err(e) => Err(e),
        },
        None => Ok(None),
    }
}

/// Parse an optional trigger string into pin levels, or `None`.
pub fn trigger_arg(t: &Option<String>) -> (r: Result<Option<[Level; 8]>, ControllerError>)
    ensures
        r == trigger_option(
            match t {
                Some(p) => Some(p@),
                None => None,
            },
        ),
{
    match t {
        Some(p) => match parse_trigger(p.as_str()) {
            Ok(levels) => Ok(Some(levels)),
            Err(e) => Err(e),
        },
        None => Ok(None),
    }
}

/// The character that stands for a level: 1=high, 0=low, X=either.
pub open spec fn level_char(level: Level) -> char {
    match level {
        Level::High => '1',
        Level::Low => '0',
        Level::Either => 'X',
    }
}

/// The pattern that stands for eight levels.
pub open spec fn pattern_of(levels: Seq<Level>) -> Seq<char> {
    levels.map_values(|l: Level| level_char(l))
}

/// Render a trigger pattern back to an 8-char string (D0 leftmost): 1=high, 0=low,
/// X=either.
pub fn trigger_to_string(levels: &[Level; 8]) -> (r: String)
    ensures
        r@ == pattern_of(levels@),
{
    let mut s = String::new();
    let mut i: usize = 0;
    while i < 8
        invariant
            i <= 8,
            s@ == pattern_of(levels@).take(i as int),
        decreases 8 - i,
    {
        let c: char = match levels[i] {
            Level::High => '1',
            Level::Low => '0',
            Level::Either => 'X',
        };
        s.push(c);
        assert(s@ =~= pattern_of(levels@).take(i + 1));
        i = i + 1;
    }
    assert(pattern_of(levels@).take(8) =~= pattern_of(levels@));
    s
}

/// Whether pin `i` is high in a packed pin state.
pub open spec fn pin_high(pins: u8, i: int) -> bool {
    pins & (1u8 << (i as u8)) != 0
}

/// Whether pin `i` is high in a packed pin state.
pub fn pin_is_high(pins: u8, i: usize) -> (r: bool)
    requires
        i < 8,
    ensures
        r == pin_high(pins, i as int),
{
    pins & (1u8 << (i as u8)) != 0
}

/// The mask of bit `i`, where that pin is high.
pub open spec fn pin_mask(levels: Seq<Level>, i: int) -> u8 {
    if levels[i] == Level::High {
        1u8 << (i as u8)
    } else {
        0
    }
}

/// The packed state in which exactly the pins at high level have their bit set.
pub open spec fn packed(levels: Seq<Level>) -> u8 {
    pin_mask(levels, 0) | pin_mask(levels, 1) | pin_mask(levels, 2) | pin_mask(levels, 3)
        | pin_mask(levels, 4) | pin_mask(levels, 5) | pin_mask(levels, 6) | pin_mask(levels, 7)
}

/// A bit of the packed state is set exactly where that pin is at high level.
pub proof fn lemma_packed_bits(levels: Seq<Level>, i: int)
    requires
        0 <= i < 8,
    ensures
        pin_high(packed(levels), i) <==> levels[i] == Level::High,
{
    let a = pin_mask(levels, 0);
    let b = pin_mask(levels, 1);
    let c = pin_mask(levels, 2);
    let d = pin_mask(levels, 3);
    let e = pin_mask(levels, 4);
    let f = pin_mask(levels, 5);
    let g = pin_mask(levels, 6);
    let h = pin_mask(levels, 7);
    let k = i as u8;
    let p = packed(levels);
    assert((p & (1u8 << k) != 0) == if k == 0 {
        a != 0
    } else if k == 1 {
        b != 0
    } else if k == 2 {
        c != 0
    } else if k == 3 {
        d != 0
    } else if k == 4 {
        e != 0
    } else if k == 5 {
        f != 0
    } else if k == 6 {
        g != 0
    } else {
        h != 0
    }) by (bit_vector)
        requires
            k < 8,
            p == a | b | c | d | e | f | g | h,
            a == 0 || a == 1u8 << 0u8,
            b == 0 || b == 1u8 << 1u8,
            c == 0 || c == 1u8 << 2u8,
            d == 0 || d == 1u8 << 3u8,
            e == 0 || e == 1u8 << 4u8,
            f == 0 || f == 1u8 << 5u8,
            g == 0 || g == 1u8 << 6u8,
            h == 0 || h == 1u8 << 7u8,
    ;
    assert(1u8 << 0u8 != 0 && 1u8 << 1u8 != 0 && 1u8 << 2u8 != 0 && 1u8 << 3u8 != 0 && 1u8 << 4u8
        != 0 && 1u8 << 5u8 != 0 && 1u8 << 6u8 != 0 && 1u8 << 7u8 != 0) by (bit_vector);
}

/// Pack the levels of the logic port into a bitmask (bit i = D`i` high).
pub fn pins_to_byte(levels: &[Level; 8]) -> (r: u8)
    ensures
        r == packed(levels@),
        forall|i: int| 0 <= i < 8 ==> (#[trigger] pin_high(r, i) <==> levels@[i] == Level::High),
{
    let mut b: u8 = 0;
    let mut i: usize = 0;
    assert forall|j: int| 0 <= j < 8 implies !pin_high(b, j) by {
        let k = j as u8;
        assert(0u8 & (1u8 << k) == 0) by (bit_vector);
    }
    while i < 8
        invariant
            i <= 8,
            forall|j: int| 0 <= j < i ==> (#[trigger] pin_high(b, j) <==> levels@[j] == Level::High),
            forall|j: int| i <= j < 8 ==> !#[trigger] pin_high(b, j),
        decreases 8 - i,
    {
        if levels[i] == Level::High {
            let ghost before = b;
            b = b | (1u8 << (i as u8));
            assert forall|j: int| 0 <= j < 8 implies pin_high(b, j) == (j == i || pin_high(
                before,
                j,
            )) by {
                let k = j as u8;
                let m = i as u8;
                assert(k < 8 && m < 8 ==> ((before | (1u8 << m)) & (1u8 << k) != 0 <==> (k == m
                    || before & (1u8 << k) != 0))) by (bit_vector);
            }
        }
        i = i + 1;
    }
    proof {
        assert forall|j: int| 0 <= j < 8 implies pin_high(b, j) == #[trigger] pin_high(
            packed(levels@),
            j,
        ) by {
            lemma_packed_bits(levels@, j);
        }
        lemma_pins_determine_byte(b, packed(levels@));
    }
    b
}

/// Two packed states in which the same pins are high are the same, so a packed state
/// says no more and no less than which pins are high.
pub proof fn lemma_pins_determine_byte(a: u8, b: u8)
    requires
        forall|i: int| 0 <= i < 8 ==> pin_high(a, i) == #[trigger] pin_high(b, i),
    ensures
        a == b,
{
    assert(pin_high(a, 0) == pin_high(b, 0));
    assert(pin_high(a, 1) == pin_high(b, 1));
    assert(pin_high(a, 2) == pin_high(b, 2));
    assert(pin_high(a, 3) == pin_high(b, 3));
    assert(pin_high(a, 4) == pin_high(b, 4));
    assert(pin_high(a, 5) == pin_high(b, 5));
    assert(pin_high(a, 6) == pin_high(b, 6));
    assert(pin_high(a, 7) == pin_high(b, 7));
    assert(a == b) by (bit_vector)
        requires
            (a & (1u8 << 0u8) != 0) == (b & (1u8 << 0u8) != 0),
            (a & (1u8 << 1u8) != 0) == (b & (1u8 << 1u8) != 0),
            (a & (1u8 << 2u8) != 0) == (b & (1u8 << 2u8) != 0),
            (a & (1u8 << 3u8) != 0) == (b & (1u8 << 3u8) != 0),
            (a & (1u8 << 4u8) != 0) == (b & (1u8 << 4u8) != 0),
            (a & (1u8 << 5u8) != 0) == (b & (1u8 << 5u8) != 0),
            (a & (1u8 << 6u8) != 0) == (b & (1u8 << 6u8) != 0),
            (a & (1u8 << 7u8) != 0) == (b & (1u8 << 7u8) != 0),
    ;
}

/// Rendering a trigger and parsing the result gives the same levels back.
pub proof fn lemma_trigger_round_trip(
    levels: [Level; 8],
    r: Result<[Level; 8], ControllerError>,
)
    requires
        parses_to(crate::text::trimmed(pattern_of(levels@)), r),
    ensures
        r matches Ok(parsed) && parsed@ == levels@,
{
    let s = pattern_of(levels@);
    assert(s.len() == 8);
    assert(!crate::text::white_space(s[0]));
    assert(!crate::text::white_space(s.last()));
    assert(crate::text::trimmed(s) == s);
    assert(forall|i: int| 0 <= i < 8 ==> level_of(#[trigger] s[i]) == Some(levels@[i]));
    match r {
        Ok(parsed) => {
            assert(parsed@ =~= levels@) by {
                assert forall|i: int| 0 <= i < 8 implies parsed@[i] == levels@[i] by {
                    assert(level_of(s[i]) == Some(levels@[i]));
                }
            }
        },
        Err(ControllerError::TriggerChar { c, position }) => {
            assert(level_of(s[position as int]) == Some(levels@[position as int]));
        },
        Err(_) => {},
    }
}

/// A pin is high where its bit is set, the bit of D0 being the lowest.
pub proof fn lemma_pin_is_a_bit(pins: u8, i: int)
    requires
        0 <= i < 8,
    ensures
        pin_high(pins, i) <==> (pins as int / vstd::arithmetic::power2::pow2(i as nat) as int) % 2
            == 1,
{
    vstd::arithmetic::power2::lemma2_to64();
    assert((pins & (1u8 << 0u8) != 0) == (pins % 2 == 1)) by (bit_vector);
    assert((pins & (1u8 << 1u8) != 0) == ((pins / 2) % 2 == 1)) by (bit_vector);
    assert((pins & (1u8 << 2u8) != 0) == ((pins / 4) % 2 == 1)) by (bit_vector);
    assert((pins & (1u8 << 3u8) != 0) == ((pins / 8) % 2 == 1)) by (bit_vector);
    assert((pins & (1u8 << 4u8) != 0) == ((pins / 16) % 2 == 1)) by (bit_vector);
    assert((pins & (1u8 << 5u8) != 0) == ((pins / 32) % 2 == 1)) by (bit_vector);
    assert((pins & (1u8 << 6u8) != 0) == ((pins / 64) % 2 == 1)) by (bit_vector);
    assert((pins & (1u8 << 7u8) != 0) == ((pins / 128) % 2 == 1)) by (bit_vector);
    assert(pins as int / 1 == pins);
}

/// In the packed state the bit of a pin is set where that pin is at high level, the bit of
/// D0 being the lowest.
pub proof fn lemma_packed_by_bit(levels: Seq<Level>, i: int)
    requires
        0 <= i < 8,
    ensures
        (packed(levels) as int / vstd::arithmetic::power2::pow2(i as nat) as int) % 2 == if levels[i]
            == Level::High {
            1int
        } else {
            0int
        },
{
    lemma_packed_bits(levels, i);
    lemma_pin_is_a_bit(packed(levels), i);
}

} // verus!
