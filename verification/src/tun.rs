//! The virtual device: its kinds, its MTU and what it can fail with.

use crate::text::{chars_of, decimal, number, parse_number, push_decimal, texts};
use vstd::prelude::*;
use vstd::slice::slice_subrange;

verus! {

/// The least MTU of the virtual device.
pub const MIN_TUN_MTU: u16 = 1280;

#[derive(Debug, Clone, Copy, PartialEq, Eq, Structural)]
pub enum TunDeviceMode {
    Tun,
    Tap,
}

/// What a device can fail with; an error of the system comes in words.
#[derive(Debug, PartialEq, Eq)]
pub enum TunError {
    Io(String),
    NotFound,
    Config(String),
}

impl TunError {
    /// The message of the error.
    pub fn to_text(&self) -> (s: String)
        ensures
            s@ == match *self {
                TunError::Io(e) => "IO error: "@ + e@,
                TunError::NotFound => "Device not found"@,
                TunError::Config(e) => "Configuration error: "@ + e@,
            },
    {
        match self {
            TunError::Io(e) => "IO error: ".to_string().concat(e.as_str()),
            TunError::NotFound => "Device not found".to_string(),
            TunError::Config(e) => "Configuration error: ".to_string().concat(e.as_str()),
        }
    }
}

/// An MTU that is no less than the least one.
pub open spec fn mtu_floor(mtu: u16) -> u16 {
    if mtu < MIN_TUN_MTU {
        MIN_TUN_MTU
    } else {
        mtu
    }
}

/// Raises an MTU to the least one and leaves higher ones alone.
pub fn normalize_mtu(mtu: u16) -> (r: u16)
    ensures
        r == mtu_floor(mtu),
{
    if mtu < MIN_TUN_MTU {
        MIN_TUN_MTU
    } else {
        mtu
    }
}

/// Raising an MTU twice is raising it once, and never lowers it.
pub proof fn mtu_floor_is_stable(mtu: u16)
    ensures
        mtu_floor(mtu_floor(mtu)) == mtu_floor(mtu),
        mtu_floor(mtu) >= mtu,
        mtu_floor(mtu) >= MIN_TUN_MTU,
{
}

/// The name of a numbered device.
pub open spec fn is_numbered_device(name: Seq<char>) -> bool {
    name.len() >= 4 && name.subrange(0, 4) == "utun"@ && number(
        name.subrange(4, name.len() as int),
        usize::MAX as nat,
    ) is Some
}

/// The names to try for a device where devices are numbered, one after the other:
/// the given one, if it is such a name, and then those with two digits.
pub open spec fn names_to_try(name: Seq<char>) -> Seq<Seq<char>> {
    (if is_numbered_device(name) {
        seq![name]
    } else {
        Seq::empty()
    }) + Seq::new(90, |i: int| "utun"@ + decimal((10 + i) as nat))
}

/// The names to try for a device where devices are numbered.
pub fn device_names(name: &str) -> (r: Vec<String>)
    ensures
        texts(r@) == names_to_try(name@),
{
    let chars = chars_of(name);
    let n: usize = chars.len();
    let mut names: Vec<String> = Vec::new();
    let ghost mut given = Seq::<Seq<char>>::empty();
    if n >= 4 {
        let ghost front = name@.subrange(0, 4);
        let numbered = chars[0] == 'u' && chars[1] == 't' && chars[2] == 'u' && chars[3] == 'n';
        proof {
            reveal_strlit("utun");
            if numbered {
                assert(front =~= "utun"@);
            } else {
                assert(front[0] == chars@[0]);
                assert(front[1] == chars@[1]);
                assert(front[2] == chars@[2]);
                assert(front[3] == chars@[3]);
            }
        }
        let rest = slice_subrange(chars.as_slice(), 4, n);
        if numbered && parse_number(rest, usize::MAX as u64).is_some() {
            names.push(name.to_string());
            proof {
                given = seq![name@];
            }
        }
    }
    assert(texts(names@) =~= given);
    assert(is_numbered_device(name@) <==> given.len() == 1);
    for i in 0..90u64
        invariant
            texts(names@) == given + Seq::new(
                i as nat,
                |k: int| "utun"@ + decimal((10 + k) as nat),
            ),
    {
        let ghost before = names@;
        let mut next = "utun".to_string();
        push_decimal(&mut next, 10 + i);
        names.push(next);
        assert(texts(names@) =~= texts(before).push("utun"@ + decimal((10 + i) as nat)));
        assert(texts(names@) =~= given + Seq::new(
            (i + 1) as nat,
            |k: int| "utun"@ + decimal((10 + k) as nat),
        ));
    }
    assert(texts(names@) =~= names_to_try(name@));
    names
}

/// The name of a kind of device.
pub open spec fn mode_label(mode: TunDeviceMode) -> Seq<char> {
    match mode {
        TunDeviceMode::Tun => "tun"@,
        TunDeviceMode::Tap => "tap"@,
    }
}

pub fn device_mode_label(mode: TunDeviceMode) -> (s: &'static str)
    ensures
        s@ == mode_label(mode),
{
    match mode {
        TunDeviceMode::Tun => "tun",
        TunDeviceMode::Tap => "tap",
    }
}

/// An MTU is raised to the least one, 1280, and left alone otherwise.
pub proof fn small_mtus_are_raised(mtu: u16)
    ensures
        mtu_floor(mtu) >= mtu,
        mtu_floor(mtu) >= 1280,
        mtu >= 1280 ==> mtu_floor(mtu) == mtu,
        mtu < 1280 ==> mtu_floor(mtu) == 1280,
        mtu_floor(mtu_floor(mtu)) == mtu_floor(mtu),
{
}

/// A numbered name that is asked for is tried first; the names from ten to ninety-nine follow,
/// each once and in their order.
pub proof fn numbered_names_are_tried_in_turn(name: Seq<char>, n: int)
    requires
        10 <= n < 100,
    ensures
        is_numbered_device(name) ==> names_to_try(name).len() == 91 && names_to_try(name)[0] == name
            && names_to_try(name)[n - 9] == "utun"@ + decimal(n as nat),
        !is_numbered_device(name) ==> names_to_try(name).len() == 90 && names_to_try(name)[n - 10]
            == "utun"@ + decimal(n as nat),
{
}

} // verus!
