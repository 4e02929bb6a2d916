//! Finding the serial port on which a PPK2 takes commands.

use vstd::prelude::*;

use crate::error::ControllerError;
use crate::text::text_precedes;

verus! {

/// PPK2 USB vendor identifier (Nordic Semiconductor).
pub const PPK2_VID: u16 = 0x1915;

/// PPK2 USB product identifier.
pub const PPK2_PID: u16 = 0xc00a;

/// The PPK2 exposes two CDC-ACM interfaces with the same serial number; interface
/// 1 is the control/measurement port. Selecting by interface number (rather than
/// device path) is stable across USB re-enumeration.
pub const PPK2_CONTROL_INTERFACE: u8 = 1;

/// What the system knows of a USB serial port.
#[derive(Clone, Copy, Debug)]
pub struct UsbPort {
    pub vid: u16,
    pub pid: u16,
    pub interface: Option<u8>,
}

/// A serial port of the system. A port that is not on USB has no `usb`.
#[derive(Debug)]
pub struct PortInfo {
    pub port_name: String,
    pub usb: Option<UsbPort>,
}

/// A candidate port: its name and its USB interface number.
pub type Candidate = (Seq<char>, Option<u8>);

/// The candidates that a vector holds.
pub open spec fn candidates_view(c: Seq<(String, Option<u8>)>) -> Seq<Candidate> {
    c.map_values(|p: (String, Option<u8>)| (p.0@, p.1))
}

/// Whether some candidate is on the control interface.
pub open spec fn has_control(c: Seq<Candidate>) -> bool {
    exists|i: int| 0 <= i < c.len() && (#[trigger] c[i]).1 == Some(PPK2_CONTROL_INTERFACE)
}

/// Whether candidate `i` may be chosen: where some candidate is on the control
/// interface, only those that are.
pub open spec fn eligible(c: Seq<Candidate>, i: int) -> bool {
    has_control(c) ==> c[i].1 == Some(PPK2_CONTROL_INTERFACE)
}

/// Whether `r` is the control port among the candidates: the lowest-named of those
/// that may be chosen, and none where there is no candidate.
pub open spec fn is_control_port(c: Seq<Candidate>, r: Option<Seq<char>>) -> bool {
    match r {
        None => c.len() == 0,
        Some(name) => {
            &&& exists|i: int| 0 <= i < c.len() && eligible(c, i) && (#[trigger] c[i]).0 == name
            &&& forall|i: int|
                0 <= i < c.len() && eligible(c, i) ==> !crate::text::precedes(
                    (#[trigger] c[i]).0,
                    name,
                )
        },
    }
}

/// From candidate `(port_name, usb_interface)` pairs, pick the PPK2 control port:
/// prefer USB interface 1, else fall back to the lowest-named port.
pub fn select_control_port(candidates: Vec<(String, Option<u8>)>) -> (r: Option<String>)
    ensures
        is_control_port(
            candidates_view(candidates@),
            match r {
                Some(name) => Some(name@),
                None => None,
            },
        ),
{
    let n: usize = candidates.len();
    if n == 0 {
        return None;
    }
    let ghost c = candidates_view(candidates@);
    let mut best: usize = 0;
    let mut i: usize = 1;
    proof {
        assert(c.take(1)[0] == c[0]);
        crate::text::lemma_precedes_irreflexive(c[0].0);
    }
    while i < n
        invariant
            n == candidates@.len(),
            c == candidates_view(candidates@),
            best < i <= n,
            has_control(c.take(i as int)) ==> c[best as int].1 == Some(PPK2_CONTROL_INTERFACE),
            !has_control(c.take(i as int)) ==> c[best as int].1 != Some(PPK2_CONTROL_INTERFACE),
            forall|j: int|
                0 <= j < i && eligible(c.take(i as int), j) ==> !crate::text::precedes(
                    (#[trigger] c[j]).0,
                    c[best as int].0,
                ),
        decreases n - i,
    {
        let is_control: bool = match candidates[i].1 {
            Some(iface) => iface == PPK2_CONTROL_INTERFACE,
            None => false,
        };
        let best_control: bool = match candidates[best].1 {
            Some(iface) => iface == PPK2_CONTROL_INTERFACE,
            None => false,
        };
        let ghost before = c.take(i as int);
        let ghost after = c.take(i + 1);
        let ghost old_best = best as int;
        let lower: bool = text_precedes(candidates[i].0.as_str(), candidates[best].0.as_str());
        if (is_control && !best_control) || (is_control == best_control && lower) {
            best = i;
        }
        proof {
            assert(c[i as int] == (candidates@[i as int].0@, candidates@[i as int].1));
            assert(c[old_best] == (candidates@[old_best].0@, candidates@[old_best].1));
            assert(forall|j: int| 0 <= j < i ==> before[j] == #[trigger] after[j]);
            assert(after[i as int] == c[i as int]);
            if has_control(before) {
                let j = choose|j: int|
                    0 <= j < before.len() && (#[trigger] before[j]).1 == Some(
                        PPK2_CONTROL_INTERFACE,
                    );
                assert(after[j].1 == Some(PPK2_CONTROL_INTERFACE));
            }
            assert(has_control(after) <==> has_control(before) || is_control) by {
                if has_control(after) && !is_control {
                    let j = choose|j: int|
                        0 <= j < after.len() && (#[trigger] after[j]).1 == Some(
                            PPK2_CONTROL_INTERFACE,
                        );
                    assert(before[j].1 == Some(PPK2_CONTROL_INTERFACE));
                }
            }
            assert forall|j: int|
                0 <= j < i + 1 && eligible(after, j) implies !crate::text::precedes(
                (#[trigger] c[j]).0,
                c[best as int].0,
            ) by {
                crate::text::lemma_precedes_irreflexive(c[j].0);
                assert(after[j] == c[j]);
                if j < i {
                    assert(before[j] == c[j]);
                    if best == i && crate::text::precedes(c[j].0, c[i as int].0) {
                        if lower && is_control == best_control {
                            crate::text::lemma_precedes_transitive(
                                c[j].0,
                                c[i as int].0,
                                c[old_best].0,
                            );
                        } else {
                            assert(!has_control(before));
                            assert(before[j].1 != Some(PPK2_CONTROL_INTERFACE));
                        }
                    }
                }
            }
        }
        i = i + 1;
    }
    proof {
        assert(c.take(n as int) =~= c);
        assert(c[best as int] == (candidates@[best as int].0@, candidates@[best as int].1));
        assert(eligible(c, best as int));
    }
    Some(candidates[best].0.clone())
}

/// Whether a port belongs to a PPK2.
pub open spec fn is_ppk2(port: PortInfo) -> bool {
    port.usb matches Some(usb) && usb.vid == PPK2_VID && usb.pid == PPK2_PID
}

/// The ports that belong to a PPK2, in the order in which the system lists them.
pub open spec fn ppk2_candidates(ports: Seq<PortInfo>) -> Seq<Candidate>
    decreases ports.len(),
{
    if ports.len() == 0 {
        Seq::empty()
    } else if is_ppk2(ports.last()) {
        ppk2_candidates(ports.drop_last()).push(
            (ports.last().port_name@, ports.last().usb->0.interface),
        )
    } else {
        ppk2_candidates(ports.drop_last())
    }
}

/// Locate the PPK2's control serial port by USB VID:PID among the ports of the
/// system, disambiguating the two ACM interfaces in favour of the control one.
/// Unlike a fixed `/dev/ttyACM0`, this follows the device across a re-enumeration.
/// `ports` is `None` where the system could not list its ports.
pub fn discover_ppk2_port(ports: Option<&Vec<PortInfo>>) -> (r: Result<String, ControllerError>)
    ensures
        match ports {
            None => r == Err::<String, ControllerError>(ControllerError::PortEnumeration),
            Some(ports) => match r {
                Ok(name) => is_control_port(ppk2_candidates(ports@), Some(name@)),
                Err(e) => ppk2_candidates(ports@).len() == 0 && e == ControllerError::NoDevice,
            },
        },
{
    let ports: &Vec<PortInfo> = match ports {
        Some(ports) => ports,
        None => return Err(ControllerError::PortEnumeration),
    };
    let mut candidates: Vec<(String, Option<u8>)> = Vec::new();
    let mut i: usize = 0;
    assert(ports@.take(0) =~= Seq::<PortInfo>::empty());
    assert(candidates_view(candidates@) =~= Seq::<Candidate>::empty());
    while i < ports.len()
        invariant
            i <= ports@.len(),
            candidates_view(candidates@) == ppk2_candidates(ports@.take(i as int)),
        decreases ports@.len() - i,
    {
        let port = &ports[i];
        let ghost before = candidates@;
        assert(ports@.take(i + 1).drop_last() =~= ports@.take(i as int));
        match port.usb {
            Some(usb) => {
                if usb.vid == PPK2_VID && usb.pid == PPK2_PID {
                    candidates.push((port.port_name.clone(), usb.interface));
                    assert(candidates_view(candidates@) =~= candidates_view(before).push(
                        (port.port_name@, usb.interface),
                    ));
                }
            },
            None => {},
        }
        i = i + 1;
    }
    assert(ports@.take(ports@.len() as int) =~= ports@);
    match select_control_port(candidates) {
        Some(name) => Ok(name),
        None => Err(ControllerError::NoDevice),
    }
}

/// The choice depends only on which candidates there are, not on the order in which
/// the system lists them: two lists with the same candidates have the same control
/// port.
pub proof fn lemma_control_port_ignores_order(
    c1: Seq<Candidate>,
    r1: Option<Seq<char>>,
    c2: Seq<Candidate>,
    r2: Option<Seq<char>>,
)
    requires
        c1.to_set() == c2.to_set(),
        is_control_port(c1, r1),
        is_control_port(c2, r2),
    ensures
        r1 == r2,
{
    assert forall|i: int| 0 <= i < c1.len() implies c2.contains(#[trigger] c1[i]) by {
        assert(c1.to_set().contains(c1[i]));
    }
    assert forall|i: int| 0 <= i < c2.len() implies c1.contains(#[trigger] c2[i]) by {
        assert(c2.to_set().contains(c2[i]));
    }
    if has_control(c1) {
        let i = choose|i: int|
            0 <= i < c1.len() && (#[trigger] c1[i]).1 == Some(PPK2_CONTROL_INTERFACE);
        let j = choose|j: int| 0 <= j < c2.len() && c2[j] == c1[i];
        assert(c2[j].1 == Some(PPK2_CONTROL_INTERFACE));
    }
    if has_control(c2) {
        let i = choose|i: int|
            0 <= i < c2.len() && (#[trigger] c2[i]).1 == Some(PPK2_CONTROL_INTERFACE);
        let j = choose|j: int| 0 <= j < c1.len() && c1[j] == c2[i];
        assert(c1[j].1 == Some(PPK2_CONTROL_INTERFACE));
    }
    match (r1, r2) {
        (Some(n1), Some(n2)) => {
            let i1 = choose|i: int|
                0 <= i < c1.len() && eligible(c1, i) && (#[trigger] c1[i]).0 == n1;
            let i2 = choose|i: int|
                0 <= i < c2.len() && eligible(c2, i) && (#[trigger] c2[i]).0 == n2;
            let j2 = choose|j: int| 0 <= j < c2.len() && c2[j] == c1[i1];
            let j1 = choose|j: int| 0 <= j < c1.len() && c1[j] == c2[i2];
            assert(eligible(c2, j2) && eligible(c1, j1));
            if n1 != n2 {
                crate::text::lemma_precedes_total(n1, n2);
            }
        },
        (Some(n1), None) => {
            let i1 = choose|i: int|
                0 <= i < c1.len() && eligible(c1, i) && (#[trigger] c1[i]).0 == n1;
            assert(c2.contains(c1[i1]));
        },
        (None, Some(n2)) => {
            let i2 = choose|i: int|
                0 <= i < c2.len() && eligible(c2, i) && (#[trigger] c2[i]).0 == n2;
            assert(c1.contains(c2[i2]));
        },
        (None, None) => {},
    }
}

/// The candidates are the ports with the USB identifiers of the PPK2, 1915:c00a, each with
/// its name and its interface, and no other.
pub proof fn lemma_candidates(ports: Seq<PortInfo>, name: Seq<char>, interface: Option<u8>)
    ensures
        ppk2_candidates(ports).contains((name, interface)) <==> exists|j: int|
            0 <= j < ports.len() && (#[trigger] ports[j]).port_name@ == name && ports[j].usb == Some(
                UsbPort { vid: 0x1915, pid: 0xc00a, interface },
            ),
    decreases ports.len(),
{
    let c = (name, interface);
    let usb = Some(UsbPort { vid: 0x1915, pid: 0xc00a, interface });
    if ports.len() > 0 {
        let before = ports.drop_last();
        let last = ports.last();
        lemma_candidates(before, name, interface);
        let all = ppk2_candidates(ports);
        let some = ppk2_candidates(before);
        if all.contains(c) {
            let i = choose|i: int| 0 <= i < all.len() && all[i] == c;
            if i < some.len() {
                assert(some[i] == c);
                let j = choose|j: int|
                    0 <= j < before.len() && (#[trigger] before[j]).port_name@ == name
                        && before[j].usb == usb;
                assert(ports[j].port_name@ == name && ports[j].usb == usb);
            } else {
                assert(ports[ports.len() - 1].port_name@ == name);
            }
        }
        if exists|j: int|
            0 <= j < ports.len() && (#[trigger] ports[j]).port_name@ == name && ports[j].usb == usb {
            let j = choose|j: int|
                0 <= j < ports.len() && (#[trigger] ports[j]).port_name@ == name && ports[j].usb
                    == usb;
            if j < before.len() {
                assert(before[j].port_name@ == name && before[j].usb == usb);
                let i = choose|i: int| 0 <= i < some.len() && some[i] == c;
                assert(all[i] == c);
            } else {
                assert(all[all.len() - 1] == c);
            }
        }
    }
}

/// The control port is a candidate: one on interface 1 where there is any, and of those
/// that may be chosen the one whose name comes first. There is none only where there is
/// no candidate.
pub proof fn lemma_control_port(c: Seq<Candidate>, r: Option<Seq<char>>)
    requires
        is_control_port(c, r),
    ensures
        r is None <==> c.len() == 0,
        r matches Some(name) ==> ({
            let some = exists|i: int| 0 <= i < c.len() && (#[trigger] c[i]).1 == Some(1u8);
            &&& exists|i: int|
                0 <= i < c.len() && (#[trigger] c[i]).0 == name && (some ==> c[i].1 == Some(1u8))
            &&& forall|i: int|
                0 <= i < c.len() && (some ==> (#[trigger] c[i]).1 == Some(1u8)) && c[i].0 != name
                    ==> crate::text::precedes(name, c[i].0)
        }),
{
    match r {
        None => {},
        Some(name) => {
            let k = choose|i: int|
                0 <= i < c.len() && eligible(c, i) && (#[trigger] c[i]).0 == name;
            assert(c[k].0 == name);
            assert forall|i: int|
                0 <= i < c.len() && (has_control(c) ==> (#[trigger] c[i]).1 == Some(1u8)) && c[i].0
                    != name implies crate::text::precedes(name, c[i].0) by {
                assert(eligible(c, i));
                crate::text::lemma_precedes_total(c[i].0, name);
            }
        },
    }
}

} // verus!
