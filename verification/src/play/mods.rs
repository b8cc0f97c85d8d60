//! Mods by name.
use rosu_mods::GameModsLegacy;
use vstd::prelude::*;
use vstd::string::{StrSliceExecFns, StringExecFns};
use vstd::utf8::is_ascii_chars;

use crate::play::rng::{drawn_optional, drawn_place, SimpleRng};
use crate::play::text::{
    ascii_lower, is_space, is_space_of, lower_characters, lowercase, stands_at, word_stands,
};

verus! {

/// A mod that plays are generated with.
#[derive(Clone, Copy, Debug, PartialEq, Eq, Structural)]
pub enum ModOption {
    NoMod,
    NoFail,
    Easy,
    Hidden,
    HardRock,
    SuddenDeath,
    DoubleTime,
    Relax,
    HalfTime,
    Nightcore,
    Flashlight,
    SpunOut,
    Autopilot,
    Perfect,
    Mirror,
}

/// The bits of the mods, in the order of their numbers.
pub open spec fn bits_at(i: int) -> u32 {
    seq![
        0u32,
        0x1,
        0x2,
        0x8,
        0x10,
        0x20,
        0x40,
        0x80,
        0x100,
        0x240,
        0x400,
        0x1000,
        0x2000,
        0x4020,
        0x4000_0000,
    ][i]
}

/// The constants of `rosu_mods::GameModsLegacy` by number, and their `bits`: each
/// mod is one bit, but Nightcore comes with the bit of DoubleTime and Perfect with
/// that of SuddenDeath.
#[verifier::external_body]
fn legacy_bits(i: usize) -> (r: u32)
    requires
        i < 15,
    ensures
        r == bits_at(i as int),
{
    [
        GameModsLegacy::NoMod, GameModsLegacy::NoFail, GameModsLegacy::Easy,
        GameModsLegacy::Hidden, GameModsLegacy::HardRock, GameModsLegacy::SuddenDeath,
        GameModsLegacy::DoubleTime, GameModsLegacy::Relax, GameModsLegacy::HalfTime,
        GameModsLegacy::Nightcore, GameModsLegacy::Flashlight, GameModsLegacy::SpunOut,
        GameModsLegacy::Autopilot, GameModsLegacy::Perfect, GameModsLegacy::Mirror,
    ][i].bits()
}

/// `GameModsLegacy::union` of `rosu_mods`, on the bits of two sets of mods: the
/// bits of either.
#[verifier::external_body]
fn union(a: u32, b: u32) -> (r: u32)
    ensures
        r == a | b,
{
    GameModsLegacy::from_bits_retain(a).union(GameModsLegacy::from_bits_retain(b)).bits()
}

/// `GameModsLegacy::contains` of `rosu_mods`, on the bits of two sets of mods:
/// whether all bits of the second are bits of the first.
#[verifier::external_body]
fn contains(a: u32, b: u32) -> (r: bool)
    ensures
        r == (a & b == b),
{
    GameModsLegacy::from_bits_retain(a).contains(GameModsLegacy::from_bits_retain(b))
}

impl ModOption {
    /// The number of the mod.
    pub open spec fn number_of(self) -> int {
        match self {
            ModOption::NoMod => 0,
            ModOption::NoFail => 1,
            ModOption::Easy => 2,
            ModOption::Hidden => 3,
            ModOption::HardRock => 4,
            ModOption::SuddenDeath => 5,
            ModOption::DoubleTime => 6,
            ModOption::Relax => 7,
            ModOption::HalfTime => 8,
            ModOption::Nightcore => 9,
            ModOption::Flashlight => 10,
            ModOption::SpunOut => 11,
            ModOption::Autopilot => 12,
            ModOption::Perfect => 13,
            ModOption::Mirror => 14,
        }
    }

    /// The number of the mod.
    pub fn number(self) -> (r: usize)
        ensures
            r == self.number_of(),
            r < 15,
    {
        match self {
            ModOption::NoMod => 0,
            ModOption::NoFail => 1,
            ModOption::Easy => 2,
            ModOption::Hidden => 3,
            ModOption::HardRock => 4,
            ModOption::SuddenDeath => 5,
            ModOption::DoubleTime => 6,
            ModOption::Relax => 7,
            ModOption::HalfTime => 8,
            ModOption::Nightcore => 9,
            ModOption::Flashlight => 10,
            ModOption::SpunOut => 11,
            ModOption::Autopilot => 12,
            ModOption::Perfect => 13,
            ModOption::Mirror => 14,
        }
    }

    /// The bits of the mod.
    pub open spec fn bits_of(self) -> u32 {
        bits_at(self.number_of())
    }

    /// The bits of the mod.
    pub fn bits(self) -> (r: u32)
        ensures
            r == self.bits_of(),
    {
        legacy_bits(self.number())
    }

    /// The name of the mod.
    pub open spec fn name_of(self) -> &'static str {
        match self {
            ModOption::NoMod => "NoMod",
            ModOption::NoFail => "NoFail",
            ModOption::Easy => "Easy",
            ModOption::Hidden => "Hidden",
            ModOption::HardRock => "HardRock",
            ModOption::SuddenDeath => "SuddenDeath",
            ModOption::DoubleTime => "DoubleTime",
            ModOption::Relax => "Relax",
            ModOption::HalfTime => "HalfTime",
            ModOption::Nightcore => "Nightcore",
            ModOption::Flashlight => "Flashlight",
            ModOption::SpunOut => "SpunOut",
            ModOption::Autopilot => "Autopilot",
            ModOption::Perfect => "Perfect",
            ModOption::Mirror => "Mirror",
        }
    }

    /// The name of the mod.
    pub fn name(self) -> (r: &'static str)
        ensures
            r@ == self.name_of()@,
    {
        match self {
            ModOption::NoMod => "NoMod",
            ModOption::NoFail => "NoFail",
            ModOption::Easy => "Easy",
            ModOption::Hidden => "Hidden",
            ModOption::HardRock => "HardRock",
            ModOption::SuddenDeath => "SuddenDeath",
            ModOption::DoubleTime => "DoubleTime",
            ModOption::Relax => "Relax",
            ModOption::HalfTime => "HalfTime",
            ModOption::Nightcore => "Nightcore",
            ModOption::Flashlight => "Flashlight",
            ModOption::SpunOut => "SpunOut",
            ModOption::Autopilot => "Autopilot",
            ModOption::Perfect => "Perfect",
            ModOption::Mirror => "Mirror",
        }
    }
}

/// The words that stand for mods: of two that fit, the earlier one counts.
pub open spec fn word_at(i: int) -> (&'static str, ModOption) {
    seq![
        ("suddendeath", ModOption::SuddenDeath),
        ("suddende", ModOption::SuddenDeath),
        ("perfect", ModOption::Perfect),
        ("autopilot", ModOption::Autopilot),
        ("flashlight", ModOption::Flashlight),
        ("hardrock", ModOption::HardRock),
        ("doubletime", ModOption::DoubleTime),
        ("nightcore", ModOption::Nightcore),
        ("halftime", ModOption::HalfTime),
        ("nofail", ModOption::NoFail),
        ("spunout", ModOption::SpunOut),
        ("mirror", ModOption::Mirror),
        ("relax", ModOption::Relax),
        ("hidden", ModOption::Hidden),
        ("easy", ModOption::Easy),
        ("hr", ModOption::HardRock),
        ("hd", ModOption::Hidden),
        ("nf", ModOption::NoFail),
        ("ez", ModOption::Easy),
        ("fl", ModOption::Flashlight),
        ("so", ModOption::SpunOut),
        ("nc", ModOption::Nightcore),
        ("dt", ModOption::DoubleTime),
        ("ht", ModOption::HalfTime),
        ("rx", ModOption::Relax),
        ("ap", ModOption::Autopilot),
        ("sd", ModOption::SuddenDeath),
        ("pf", ModOption::Perfect),
        ("mr", ModOption::Mirror),
    ][i]
}

/// The words that stand for mods: of two that fit, the earlier one counts.
fn word(i: usize) -> (r: (&'static str, ModOption))
    requires
        i < 29,
    ensures
        r.0@ == word_at(i as int).0@,
        r.1 == word_at(i as int).1,
{
    match i {
        0 => ("suddendeath", ModOption::SuddenDeath),
        1 => ("suddende", ModOption::SuddenDeath),
        2 => ("perfect", ModOption::Perfect),
        3 => ("autopilot", ModOption::Autopilot),
        4 => ("flashlight", ModOption::Flashlight),
        5 => ("hardrock", ModOption::HardRock),
        6 => ("doubletime", ModOption::DoubleTime),
        7 => ("nightcore", ModOption::Nightcore),
        8 => ("halftime", ModOption::HalfTime),
        9 => ("nofail", ModOption::NoFail),
        10 => ("spunout", ModOption::SpunOut),
        11 => ("mirror", ModOption::Mirror),
        12 => ("relax", ModOption::Relax),
        13 => ("hidden", ModOption::Hidden),
        14 => ("easy", ModOption::Easy),
        15 => ("hr", ModOption::HardRock),
        16 => ("hd", ModOption::Hidden),
        17 => ("nf", ModOption::NoFail),
        18 => ("ez", ModOption::Easy),
        19 => ("fl", ModOption::Flashlight),
        20 => ("so", ModOption::SpunOut),
        21 => ("nc", ModOption::Nightcore),
        22 => ("dt", ModOption::DoubleTime),
        23 => ("ht", ModOption::HalfTime),
        24 => ("rx", ModOption::Relax),
        25 => ("ap", ModOption::Autopilot),
        26 => ("sd", ModOption::SuddenDeath),
        27 => ("pf", ModOption::Perfect),
        _ => ("mr", ModOption::Mirror),
    }
}

/// The first of the words from number `i` on that stands in `s` from place `from`
/// on.
pub open spec fn first_word_of(s: Seq<char>, from: nat, i: int) -> Option<int>
    decreases 29 - i,
{
    if i >= 29 {
        None
    } else if stands_at(s, from, word_at(i).0@) {
        Some(i)
    } else {
        first_word_of(s, from, i + 1)
    }
}

/// The mods that a text stands for from place `from` on: words one after the
/// other and nothing else.
pub open spec fn mods_from(s: Seq<char>, from: nat) -> Option<Seq<ModOption>>
    decreases s.len() - from,
{
    if from >= s.len() {
        Some(seq![])
    } else {
        match first_word_of(s, from, 0) {
            Some(i) => {
                let (name, option) = word_at(i);
                if name@.len() == 0 || from + name@.len() > s.len() {
                    None
                } else {
                    match mods_from(s, from + name@.len()) {
                        Some(rest) => Some(seq![option] + rest),
                        None => None,
                    }
                }
            },
            None => None,
        }
    }
}

/// Whether a character counts in a list of mods: white space and separators do
/// not.
pub open spec fn counts(c: char) -> bool {
    !is_space_of(c) && c != '+' && c != ',' && c != '/'
}

/// What counts of a text in ASCII, in lower case.
pub open spec fn plain(s: Seq<char>) -> Seq<char> {
    s.map_values(|c: char| ascii_lower(c)).filter(|c: char| counts(c))
}

/// The names of mods, one after the other.
pub open spec fn joined(mods: Seq<ModOption>) -> Seq<char>
    decreases mods.len(),
{
    if mods.len() == 0 {
        seq![]
    } else if mods.len() == 1 {
        mods[0].name_of()@
    } else {
        joined(mods.drop_last()) + " + "@ + mods.last().name_of()@
    }
}

/// The bits of mods, all together.
pub open spec fn all_bits(mods: Seq<ModOption>) -> u32
    decreases mods.len(),
{
    if mods.len() == 0 {
        0
    } else {
        all_bits(mods.drop_last()) | mods.last().bits_of()
    }
}

/// What a text in lower case, without what does not count, says of mods: their
/// names and their bits.
pub open spec fn read_mods_of(s: Seq<char>) -> Option<(Seq<char>, u32)> {
    if s.len() == 0 {
        None
    } else if s == "nomod"@ || s == "nm"@ {
        Some(("NoMod"@, 0))
    } else {
        match mods_from(s, 0) {
            Some(mods) => Some((joined(mods), all_bits(mods))),
            None => None,
        }
    }
}

/// The names of mods, one after the other.
fn join_names(mods: &Vec<ModOption>) -> (r: String)
    ensures
        r@ == joined(mods@),
{
    let mut out = String::new();
    let mut i: usize = 0;
    proof {
        assert(mods@.take(0) =~= seq![]);
    }
    while i < mods.len()
        invariant
            i <= mods@.len(),
            out@ == joined(mods@.take(i as int)),
        decreases mods@.len() - i,
    {
        proof {
            let next = mods@.take(i + 1);
            assert(next.drop_last() =~= mods@.take(i as int));
            assert(next.last() == mods@[i as int]);
            if i == 0 {
                assert(Seq::<char>::empty() + mods@[0].name_of()@ =~= mods@[0].name_of()@);
            }
        }
        if i > 0 {
            out.append(" + ");
        }
        out.append(mods[i].name());
        i = i + 1;
    }
    proof {
        assert(mods@.take(i as int) =~= mods@);
    }
    out
}

/// The first of the words that stands in a text from place `from` on.
fn first_word(s: &Vec<char>, from: usize) -> (r: Option<usize>)
    requires
        from <= s@.len(),
    ensures
        match first_word_of(s@, from as nat, 0) {
            Some(i) => r == Some(i as usize) && 0 <= i < 29 && stands_at(
                s@,
                from as nat,
                word_at(i).0@,
            ),
            None => r is None,
        },
{
    let mut i: usize = 0;
    while i < 29
        invariant
            i <= 29,
            from <= s@.len(),
            first_word_of(s@, from as nat, 0) == first_word_of(s@, from as nat, i as int),
        decreases 29 - i,
    {
        if word_stands(s, from, word(i).0) {
            return Some(i);
        }
        i = i + 1;
    }
    None
}

/// What a text in lower case, without what does not count, says of mods: their
/// names and their bits.
pub fn read_mods(s: &Vec<char>) -> (r: Option<(String, u32)>)
    ensures
        match read_mods_of(s@) {
            Some((names, bits)) => r matches Some((list, mods)) && list@ == names && mods == bits,
            None => r is None,
        },
{
    if s.len() == 0 {
        return None;
    }
    let nomod: bool = s.len() == "nomod".unicode_len() && word_stands(s, 0, "nomod");
    let nm: bool = s.len() == "nm".unicode_len() && word_stands(s, 0, "nm");
    proof {
        if s@.len() == "nomod"@.len() {
            assert(s@.subrange(0, s@.len() as int) =~= s@);
        }
        if s@.len() == "nm"@.len() {
            assert(s@.subrange(0, s@.len() as int) =~= s@);
        }
    }
    if nomod || nm {
        let mut list = String::new();
        list.append("NoMod");
        proof {
            assert(list@ =~= "NoMod"@);
        }
        return Some((list, ModOption::NoMod.bits()));
    }
    let mut mods: Vec<ModOption> = Vec::new();
    let mut bits: u32 = ModOption::NoMod.bits();
    let mut from: usize = 0;
    proof {
        assert(mods@ + mods_from(s@, 0).unwrap_or(seq![]) =~= mods_from(s@, 0).unwrap_or(seq![]));
    }
    while from < s.len()
        invariant
            from <= s@.len(),
            0 < s@.len(),
            s@ != "nomod"@,
            s@ != "nm"@,
            bits == all_bits(mods@),
            match mods_from(s@, from as nat) {
                Some(rest) => mods_from(s@, 0) == Some(mods@ + rest),
                None => mods_from(s@, 0) is None,
            },
        decreases s@.len() - from,
    {
        let ghost rest = mods_from(s@, from as nat);
        match first_word(s, from) {
            Some(i) => {
                let (name, option) = word(i);
                let n: usize = name.unicode_len();
                if n == 0 {
                    return None;
                }
                let ghost before = mods@;
                bits = union(bits, option.bits());
                mods.push(option);
                from = from + n;
                proof {
                    assert(mods@.drop_last() =~= before);
                    match mods_from(s@, from as nat) {
                        Some(later) => {
                            assert(before + (seq![option] + later) =~= mods@ + later);
                        },
                        None => {},
                    }
                }
            },
            None => {
                return None;
            },
        }
    }
    proof {
        assert(mods@ + Seq::<ModOption>::empty() =~= mods@);
    }
    Some((join_names(&mods), bits))
}

/// What a text says of mods, in upper or lower case: their names and their bits.
pub fn parse_mods(input: &str) -> (r: Option<(String, u32)>)
    ensures
        match read_mods_of(lowercase(input@).filter(|c: char| counts(c))) {
            Some((names, bits)) => r matches Some((list, mods)) && list@ == names && mods == bits,
            None => r is None,
        },
        is_ascii_chars(input@) ==> match read_mods_of(plain(input@)) {
            Some((names, bits)) => r matches Some((list, mods)) && list@ == names && mods == bits,
            None => r is None,
        },
{
    let lower = lower_characters(input);
    let ghost p = |c: char| counts(c);
    let mut s: Vec<char> = Vec::new();
    let mut i: usize = 0;
    proof {
        reveal(Seq::filter);
        assert(lower@.take(0) =~= seq![]);
    }
    while i < lower.len()
        invariant
            i <= lower@.len(),
            p == (|c: char| counts(c)),
            s@ == lower@.take(i as int).filter(p),
        decreases lower@.len() - i,
    {
        let c: char = lower[i];
        proof {
            reveal(Seq::filter);
            assert(lower@.take(i + 1).drop_last() =~= lower@.take(i as int));
        }
        if !is_space(c) && c != '+' && c != ',' && c != '/' {
            s.push(c);
        }
        i = i + 1;
    }
    proof {
        assert(lower@.take(i as int) =~= lower@);
    }
    read_mods(&s)
}

/// The mods that change the speed, one of which is always drawn.
pub open spec fn speed_mods() -> Seq<ModOption> {
    seq![ModOption::NoMod, ModOption::DoubleTime, ModOption::Nightcore, ModOption::HalfTime]
}

/// The mods that change the difficulty.
pub open spec fn difficulty_mods() -> Seq<ModOption> {
    seq![ModOption::Easy, ModOption::HardRock]
}

/// The mods that change what is seen.
pub open spec fn visual_mods() -> Seq<ModOption> {
    seq![ModOption::Hidden, ModOption::Flashlight, ModOption::Mirror]
}

/// The mods that help.
pub open spec fn utility_mods() -> Seq<ModOption> {
    seq![ModOption::NoFail, ModOption::SpunOut]
}

/// The mods that take over tapping or aiming.
pub open spec fn special_mods() -> Seq<ModOption> {
    seq![ModOption::Relax, ModOption::Autopilot]
}

/// The mods that end a play early.
pub open spec fn endurance_mods() -> Seq<ModOption> {
    seq![ModOption::SuddenDeath, ModOption::Perfect]
}

/// One mod of each group, or none where there need not be one.
pub struct Picks {
    pub speed: ModOption,
    pub difficulty: Option<ModOption>,
    pub visual: Option<ModOption>,
    pub utility: Option<ModOption>,
    pub special: Option<ModOption>,
    pub endurance: Option<ModOption>,
}

/// A list of mods with one more, where there is one and, if it is `unless`, the
/// list does not contain `other`.
pub open spec fn with_mod(
    mods: Seq<ModOption>,
    more: Option<ModOption>,
    unless: Option<(ModOption, ModOption)>,
) -> Seq<ModOption> {
    match more {
        Some(option) => match unless {
            Some((alone, other)) => if option == alone && all_bits(mods) & other.bits_of()
                == other.bits_of() {
                mods
            } else {
                mods.push(option)
            },
            None => mods.push(option),
        },
        None => mods,
    }
}

impl Picks {
    /// The mods that were picked, the one for the speed first. Autopilot does not
    /// go with Relax, nor Perfect with SuddenDeath.
    pub open spec fn mods_of(self) -> Seq<ModOption> {
        let a = with_mod(seq![self.speed], self.difficulty, None);
        let b = with_mod(a, self.visual, None);
        let c = with_mod(b, self.utility, None);
        let d = with_mod(c, self.special, Some((ModOption::Autopilot, ModOption::Relax)));
        with_mod(d, self.endurance, Some((ModOption::Perfect, ModOption::SuddenDeath)))
    }

    /// The mods that were picked, the one for the speed first.
    pub fn mods(&self) -> (r: Vec<ModOption>)
        ensures
            r@ == self.mods_of(),
    {
        let mut mods: Vec<ModOption> = Vec::new();
        mods.push(self.speed);
        proof {
            assert(mods@ =~= seq![self.speed]);
        }
        add_mod(&mut mods, self.difficulty, None);
        add_mod(&mut mods, self.visual, None);
        add_mod(&mut mods, self.utility, None);
        add_mod(&mut mods, self.special, Some((ModOption::Autopilot, ModOption::Relax)));
        add_mod(&mut mods, self.endurance, Some((ModOption::Perfect, ModOption::SuddenDeath)));
        mods
    }
}

/// The bits of mods, all together.
fn bits_together(mods: &Vec<ModOption>) -> (r: u32)
    ensures
        r == all_bits(mods@),
{
    let mut bits: u32 = ModOption::NoMod.bits();
    let mut i: usize = 0;
    proof {
        assert(mods@.take(0) =~= seq![]);
    }
    while i < mods.len()
        invariant
            i <= mods@.len(),
            bits == all_bits(mods@.take(i as int)),
        decreases mods@.len() - i,
    {
        proof {
            assert(mods@.take(i + 1).drop_last() =~= mods@.take(i as int));
        }
        bits = union(bits, mods[i].bits());
        i = i + 1;
    }
    proof {
        assert(mods@.take(i as int) =~= mods@);
    }
    bits
}

/// Puts one more mod into a list, where there is one and, if it is the first of
/// `unless`, the list does not contain the second.
fn add_mod(
    mods: &mut Vec<ModOption>,
    more: Option<ModOption>,
    unless: Option<(ModOption, ModOption)>,
)
    ensures
        final(mods)@ == with_mod(old(mods)@, more, unless),
{
    match more {
        Some(option) => {
            let excluded: bool = match unless {
                Some((alone, other)) => option == alone && contains(
                    bits_together(mods),
                    other.bits(),
                ),
                None => false,
            };
            if !excluded {
                mods.push(option);
            }
        },
        None => {},
    }
}

/// The names of mods as they are shown: none at all is NoMod.
pub open spec fn shown(mods: Seq<ModOption>) -> Seq<char> {
    let named = mods.filter(|option: ModOption| option != ModOption::NoMod);
    if named.len() == 0 {
        "NoMod"@
    } else {
        joined(named)
    }
}

/// The names of mods as they are shown: none at all is NoMod.
fn show(mods: &Vec<ModOption>) -> (r: String)
    ensures
        r@ == shown(mods@),
{
    let ghost p = |option: ModOption| option != ModOption::NoMod;
    let mut named: Vec<ModOption> = Vec::new();
    let mut i: usize = 0;
    proof {
        reveal(Seq::filter);
        assert(mods@.take(0) =~= seq![]);
    }
    while i < mods.len()
        invariant
            i <= mods@.len(),
            p == (|option: ModOption| option != ModOption::NoMod),
            named@ == mods@.take(i as int).filter(p),
        decreases mods@.len() - i,
    {
        proof {
            reveal(Seq::filter);
            assert(mods@.take(i + 1).drop_last() =~= mods@.take(i as int));
        }
        if mods[i] != ModOption::NoMod {
            named.push(mods[i]);
        }
        i = i + 1;
    }
    proof {
        assert(mods@.take(i as int) =~= mods@);
    }
    if named.len() == 0 {
        let mut out = String::new();
        out.append("NoMod");
        proof {
            assert(out@ =~= "NoMod"@);
        }
        out
    } else {
        join_names(&named)
    }
}

/// The entry of a list that was drawn.
pub open spec fn entry(mods: Seq<ModOption>, place: Option<u32>) -> Option<ModOption> {
    match place {
        Some(place) => Some(mods[place as int]),
        None => None,
    }
}

/// The mods that are drawn from a state, and the state after that.
pub open spec fn drawn_picks(x: u64) -> (Picks, u64) {
    let (speed, a) = drawn_place(x, 4);
    let (difficulty, b) = drawn_optional(a, 2);
    let (visual, c) = drawn_optional(b, 3);
    let (utility, d) = drawn_optional(c, 2);
    let (special, e) = drawn_optional(d, 2);
    let (endurance, f) = drawn_optional(e, 2);
    (
        Picks {
            speed: speed_mods()[speed as int],
            difficulty: entry(difficulty_mods(), difficulty),
            visual: entry(visual_mods(), visual),
            utility: entry(utility_mods(), utility),
            special: entry(special_mods(), special),
            endurance: entry(endurance_mods(), endurance),
        },
        f,
    )
}

/// Draws one of some mods or none.
fn draw_mod(rng: &mut SimpleRng, mods: &Vec<ModOption>) -> (r: Option<ModOption>)
    requires
        0 < mods@.len(),
    ensures
        ({
            let (place, next) = drawn_optional(old(rng).0, mods@.len());
            &&& r == entry(mods@, place)
            &&& final(rng).0 == next
        }),
{
    match rng.choose_optional(mods.as_slice()) {
        Some(option) => Some(*option),
        None => None,
    }
}

/// Draws mods.
pub fn draw_picks(rng: &mut SimpleRng) -> (r: Picks)
    ensures
        (r, final(rng).0) == drawn_picks(old(rng).0),
{
    let speeds = vec![
        ModOption::NoMod,
        ModOption::DoubleTime,
        ModOption::Nightcore,
        ModOption::HalfTime,
    ];
    let difficulties = vec![ModOption::Easy, ModOption::HardRock];
    let visuals = vec![ModOption::Hidden, ModOption::Flashlight, ModOption::Mirror];
    let utilities = vec![ModOption::NoFail, ModOption::SpunOut];
    let specials = vec![ModOption::Relax, ModOption::Autopilot];
    let endurances = vec![ModOption::SuddenDeath, ModOption::Perfect];
    proof {
        assert(speeds@ =~= speed_mods());
        assert(difficulties@ =~= difficulty_mods());
        assert(visuals@ =~= visual_mods());
        assert(utilities@ =~= utility_mods());
        assert(specials@ =~= special_mods());
        assert(endurances@ =~= endurance_mods());
    }
    let speed: ModOption = *rng.choose_one(speeds.as_slice());
    let difficulty = draw_mod(rng, &difficulties);
    let visual = draw_mod(rng, &visuals);
    let utility = draw_mod(rng, &utilities);
    let special = draw_mod(rng, &specials);
    let endurance = draw_mod(rng, &endurances);
    Picks { speed, difficulty, visual, utility, special, endurance }
}

/// Draws mods: their names as they are shown, and their bits.
pub fn build_random_mod_combo(rng: &mut SimpleRng) -> (r: (String, u32))
    ensures
        ({
            let (picks, next) = drawn_picks(old(rng).0);
            &&& r.0@ == shown(picks.mods_of())
            &&& r.1 == all_bits(picks.mods_of())
            &&& final(rng).0 == next
        }),
{
    let picks = draw_picks(rng);
    let mods = picks.mods();
    (show(&mods), bits_together(&mods))
}

} // verus!
