//! Interpretation of user input: menu selections and numeric prompts.
//!
//! Reading from the console stays outside the library; these functions take
//! the bytes or numbers the console handed over and decide what they mean.

use vstd::arithmetic::div_mod::{lemma_fundamental_div_mod, lemma_mod_bound};
use vstd::prelude::*;

verus! {

/// The choices of the main menu.
#[derive(Clone, Copy, PartialEq, Eq, Structural, Debug)]
pub enum MainMenuOpt {
    SetClearCell,
    GeneratePattern,
    Play,
    SaveMap,
    LoadMap,
    Configuration,
    Exit,
    Unknown,
}

/// The meaning of a numeric main-menu selection.
pub open spec fn spec_main_menu(opt: u32) -> MainMenuOpt {
    if opt == 1 {
        MainMenuOpt::SetClearCell
    } else if opt == 2 {
        MainMenuOpt::GeneratePattern
    } else if opt == 3 {
        MainMenuOpt::Play
    } else if opt == 4 {
        MainMenuOpt::SaveMap
    } else if opt == 5 {
        MainMenuOpt::LoadMap
    } else if opt == 6 {
        MainMenuOpt::Configuration
    } else if opt == 99 {
        MainMenuOpt::Exit
    } else {
        MainMenuOpt::Unknown
    }
}

/// Maps a main-menu selection to its action.
pub fn main_menu(opt: u32) -> (r: MainMenuOpt)
    ensures
        r == spec_main_menu(opt),
{
    match opt {
        1 => MainMenuOpt::SetClearCell,
        2 => MainMenuOpt::GeneratePattern,
        3 => MainMenuOpt::Play,
        4 => MainMenuOpt::SaveMap,
        5 => MainMenuOpt::LoadMap,
        6 => MainMenuOpt::Configuration,
        99 => MainMenuOpt::Exit,
        _ => MainMenuOpt::Unknown,
    }
}

/// The choices of the configuration menu.
#[derive(Clone, Copy, PartialEq, Eq, Structural, Debug)]
pub enum ConfigMenuOpt {
    SetTickRate,
    InfiniteGame,
    SetMaxGenerations,
    SetMapSize,
    Exit,
    Unknown,
}

/// The meaning of a numeric configuration-menu selection.
pub open spec fn spec_config_menu(opt: u32) -> ConfigMenuOpt {
    if opt == 1 {
        ConfigMenuOpt::SetTickRate
    } else if opt == 2 {
        ConfigMenuOpt::InfiniteGame
    } else if opt == 3 {
        ConfigMenuOpt::SetMaxGenerations
    } else if opt == 4 {
        ConfigMenuOpt::SetMapSize
    } else if opt == 99 {
        ConfigMenuOpt::Exit
    } else {
        ConfigMenuOpt::Unknown
    }
}

/// Maps a configuration-menu selection to its action.
pub fn config_menu(opt: u32) -> (r: ConfigMenuOpt)
    ensures
        r == spec_config_menu(opt),
{
    match opt {
        1 => ConfigMenuOpt::SetTickRate,
        2 => ConfigMenuOpt::InfiniteGame,
        3 => ConfigMenuOpt::SetMaxGenerations,
        4 => ConfigMenuOpt::SetMapSize,
        99 => ConfigMenuOpt::Exit,
        _ => ConfigMenuOpt::Unknown,
    }
}

/// True for the bytes `'0'` through `'9'`.
pub open spec fn is_digit(b: u8) -> bool {
    48 <= b <= 57
}

/// True when every byte of `s` is a decimal digit.
pub open spec fn all_digits(s: Seq<u8>) -> bool {
    forall|i: int| 0 <= i < s.len() ==> is_digit(#[trigger] s[i])
}

/// The number the digit bytes of `s` spell, most significant first.
pub open spec fn digits_val(s: Seq<u8>) -> int
    decreases s.len(),
{
    if s.len() == 0 {
        0
    } else {
        digits_val(s.drop_last()) * 10 + (s.last() - 48)
    }
}

/// A byte string that spells a number no larger than `max`: nonempty, all
/// digits, within bound.
pub open spec fn valid_number(s: Seq<u8>, max: int) -> bool {
    s.len() >= 1 && all_digits(s) && digits_val(s) <= max
}

/// Once a digit prefix exceeds a bound of at least 5, the whole string
/// does too: each further byte at least multiplies by 10 and subtracts 48.
proof fn lemma_digits_val_grows(s: Seq<u8>, k: int, max: int)
    requires
        0 <= k <= s.len(),
        max >= 5,
        digits_val(s.take(k)) > max,
    ensures
        digits_val(s) > max,
    decreases s.len() - k,
{
    if k == s.len() {
        assert(s.take(k) =~= s);
    } else {
        assert(s.take(k + 1).drop_last() =~= s.take(k));
        assert(s.take(k + 1).last() == s[k]);
        assert(digits_val(s.take(k + 1)) == digits_val(s.take(k)) * 10 + (s[k] - 48));
        assert(digits_val(s.take(k)) * 10 >= digits_val(s.take(k)) + 45);
        lemma_digits_val_grows(s, k + 1, max);
    }
}

/// Parses an unsigned decimal number, rejecting anything that is empty,
/// holds a non-digit, or exceeds the machine range.
fn parse_u64(s: &Vec<u8>) -> (r: Option<u64>)
    ensures
        r is Some <==> valid_number(s@, u64::MAX as int),
        r matches Some(v) ==> v as int == digits_val(s@),
{
    let n = s.len();
    if n == 0 {
        return None;
    }
    let mut val: u64 = 0;
    let mut i: usize = 0;
    while i < n
        invariant
            n == s@.len(),
            i <= n,
            all_digits(s@.take(i as int)),
            val as int == digits_val(s@.take(i as int)),
        decreases n - i,
    {
        let b = s[i];
        if b < 48 || b > 57 {
            proof {
                assert(!is_digit(s@[i as int]));
            }
            return None;
        }
        let d = b - 48;
        proof {
            assert(s@.take(i as int + 1).drop_last() =~= s@.take(i as int));
            assert(s@.take(i as int + 1).last() == s@[i as int]);
            assert forall|k: int| 0 <= k < i + 1 implies is_digit(#[trigger] s@.take(
                i as int + 1,
            )[k]) by {
                assert(s@.take(i as int + 1)[k] == s@[k]);
                if k < i {
                    assert(s@.take(i as int)[k] == s@[k]);
                }
            }
            lemma_fundamental_div_mod((u64::MAX - d) as int, 10);
            lemma_mod_bound((u64::MAX - d) as int, 10);
        }
        if val > (u64::MAX - d as u64) / 10 {
            proof {
                lemma_digits_val_grows(s@, i as int + 1, u64::MAX as int);
            }
            return None;
        }
        val = val * 10 + d as u64;
        i = i + 1;
    }
    proof {
        assert(s@.take(n as int) =~= s@);
    }
    Some(val)
}

/// Interprets one line of input for an unsigned size prompt. With the
/// abort feature on, the single byte `q` aborts and stands for
/// `(0, aborted)`; otherwise a valid number is the value, and anything
/// else asks for another try.
pub fn get_usize(input: &Vec<u8>, abort_feature: bool) -> (r: Option<(usize, bool)>)
    ensures
        (abort_feature && input@ == seq![113u8]) ==> r == Some((0usize, true)),
        !(abort_feature && input@ == seq![113u8]) ==> {
            &&& valid_number(input@, usize::MAX as int) ==> (r matches Some(p) && p.1 == false
                && p.0 as int == digits_val(input@))
            &&& !valid_number(input@, usize::MAX as int) ==> r is None
        },
{
    if abort_feature && input.len() == 1 && input[0] == 113 {
        proof {
            assert(input@ =~= seq![113u8]);
        }
        return Some((0, true));
    }
    proof {
        if input@ == seq![113u8] {
            assert(!is_digit(input@[0]));
        }
    }
    match parse_u64(input) {
        Some(v) => {
            if v <= usize::MAX as u64 {
                Some((v as usize, false))
            } else {
                None
            }
        },
        None => None,
    }
}

/// Interprets one line of input for a `u32` prompt: a valid number in
/// range is the value, anything else asks for another try.
pub fn get_u32(input: &Vec<u8>) -> (r: Option<u32>)
    ensures
        r is Some <==> valid_number(input@, u32::MAX as int),
        r matches Some(v) ==> v as int == digits_val(input@),
{
    match parse_u64(input) {
        Some(v) => {
            if v <= u32::MAX as u64 {
                Some(v as u32)
            } else {
                None
            }
        },
        None => None,
    }
}

} // verus!
