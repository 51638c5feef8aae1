//! What the daemon derives from its arguments: the options of the mount and
//! the permission bits of the nodes.

use vstd::prelude::*;
use crate::names::to_chars;

verus! {

/// An option of the mount.
#[derive(Clone, Copy, PartialEq, Eq, Debug, Structural)]
pub enum MountFlag {
    /// Mount read-only.
    ReadOnly,
    /// Unmount when the daemon ends.
    AutoUnmount,
    /// Let other users see the mount.
    AllowOther,
}

/// The options of the mount: always read-only; unmounted with the daemon and
/// open to other users unless auto unmounting is switched off.
pub open spec fn mount_flags(no_auto_unmount: bool) -> Seq<MountFlag> {
    if no_auto_unmount {
        seq![MountFlag::ReadOnly]
    } else {
        seq![MountFlag::ReadOnly, MountFlag::AutoUnmount, MountFlag::AllowOther]
    }
}

/// The options of the mount.
pub fn mount_options(no_auto_unmount: bool) -> (flags: Vec<MountFlag>)
    ensures
        flags@ == mount_flags(no_auto_unmount),
{
    let mut flags: Vec<MountFlag> = Vec::new();
    flags.push(MountFlag::ReadOnly);
    if !no_auto_unmount {
        flags.push(MountFlag::AutoUnmount);
        flags.push(MountFlag::AllowOther);
    }
    proof {
        assert(flags@ =~= mount_flags(no_auto_unmount));
    }
    flags
}

/// The value of an octal digit, or nothing for another character.
pub open spec fn octal_digit(c: char) -> Option<nat> {
    if c == '0' {
        Some(0)
    } else if c == '1' {
        Some(1)
    } else if c == '2' {
        Some(2)
    } else if c == '3' {
        Some(3)
    } else if c == '4' {
        Some(4)
    } else if c == '5' {
        Some(5)
    } else if c == '6' {
        Some(6)
    } else if c == '7' {
        Some(7)
    } else {
        None
    }
}

/// Whether `s` holds octal digits alone.
pub open spec fn all_octal(s: Seq<char>) -> bool {
    forall|i: int| 0 <= i < s.len() ==> octal_digit(#[trigger] s[i]) is Some
}

/// The number that the octal digits `s` stand for.
pub open spec fn octal_value(s: Seq<char>) -> nat
    decreases s.len(),
{
    if s.len() == 0 {
        0
    } else {
        8 * octal_value(s.drop_last()) + match octal_digit(s.last()) {
            Some(d) => d,
            None => 0,
        }
    }
}

/// The digits of a numeral: what follows its plus sign, where it has one.
pub open spec fn unsigned_part(s: Seq<char>) -> Seq<char> {
    if s.len() > 0 && s[0] == '+' {
        s.skip(1)
    } else {
        s
    }
}

/// The permission bits that an octal numeral stands for: the numeral is an
/// optional plus sign and at least one octal digit, and its value fits in 16
/// bits.
pub open spec fn mode_of(s: Seq<char>) -> Option<u16> {
    let digits = unsigned_part(s);
    if digits.len() > 0 && all_octal(digits) && octal_value(digits) <= u16::MAX {
        Some(octal_value(digits) as u16)
    } else {
        None
    }
}

/// A numeral is worth at least as much as each of its beginnings.
pub proof fn lemma_octal_value_grows(s: Seq<char>, i: int)
    requires
        0 <= i <= s.len(),
    ensures
        octal_value(s.take(i)) <= octal_value(s),
    decreases s.len() - i,
{
    if i < s.len() {
        lemma_octal_value_grows(s, i + 1);
        assert(s.take(i + 1).drop_last() == s.take(i));
    } else {
        assert(s.take(i) == s);
    }
}

/// The value of the octal digit `c`.
fn digit_value(c: char) -> (r: Option<u32>)
    ensures
        match r {
            Some(d) => octal_digit(c) == Some(d as nat),
            None => octal_digit(c) is None,
        },
{
    if c == '0' {
        Some(0)
    } else if c == '1' {
        Some(1)
    } else if c == '2' {
        Some(2)
    } else if c == '3' {
        Some(3)
    } else if c == '4' {
        Some(4)
    } else if c == '5' {
        Some(5)
    } else if c == '6' {
        Some(6)
    } else if c == '7' {
        Some(7)
    } else {
        None
    }
}

/// Reads the permission bits from their octal form.
pub fn parse_mode(mode: &str) -> (r: Option<u16>)
    ensures
        r == mode_of(mode@),
{
    let chars = to_chars(mode);
    let start: usize = if chars.len() > 0 && chars[0] == '+' {
        1
    } else {
        0
    };
    let ghost digits = unsigned_part(mode@);
    proof {
        assert(digits == chars@.skip(start as int));
    }
    if start == chars.len() {
        return None;
    }
    let mut value: u32 = 0;
    let mut i: usize = start;
    while i < chars.len()
        invariant
            start <= i <= chars.len(),
            digits == chars@.skip(start as int),
            digits == unsigned_part(mode@),
            digits.len() > 0,
            all_octal(digits.take(i - start)),
            value == octal_value(digits.take(i - start)),
            value <= u16::MAX,
        decreases chars.len() - i,
    {
        proof {
            let next = digits.take(i - start + 1);
            assert(next.drop_last() == digits.take(i - start));
            assert(next.last() == chars@[i as int]);
            lemma_octal_value_grows(digits, i - start + 1);
        }
        match digit_value(chars[i]) {
            Some(d) => {
                let next = value * 8 + d;
                if next > 0xffff {
                    return None;
                }
                value = next;
                proof {
                    let seen = digits.take(i - start + 1);
                    assert forall|k: int| 0 <= k < seen.len() implies octal_digit(
                        #[trigger] seen[k],
                    ) is Some by {
                        if k < i - start {
                            assert(seen[k] == digits.take(i - start)[k]);
                        }
                    }
                }
            },
            None => {
                proof {
                    assert(octal_digit(digits[i - start]) is None);
                }
                return None;
            },
        }
        i += 1;
    }
    proof {
        assert(digits.take(i - start) == digits);
    }
    Some(value as u16)
}

} // verus!
