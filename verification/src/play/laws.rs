//! What holds of mods, whatever they are.
use vstd::prelude::*;

use crate::play::mods::{
    all_bits, counts, drawn_picks, first_word_of, joined, mods_from, plain, read_mods_of,
    shown, with_mod, word_at, ModOption,
};
use crate::play::text::{ascii_lower, stands_at};

verus! {

/// Some mods together have the bits of each.
pub proof fn law_mods_have_the_bits_of_each(mods: Seq<ModOption>, i: int)
    requires
        0 <= i < mods.len(),
    ensures
        all_bits(mods) & mods[i].bits_of() == mods[i].bits_of(),
    decreases mods.len(),
{
    let rest = all_bits(mods.drop_last());
    let last = mods.last().bits_of();
    let bits = mods[i].bits_of();
    if i < mods.len() - 1 {
        law_mods_have_the_bits_of_each(mods.drop_last(), i);
        assert((rest | last) & bits == bits) by (bit_vector)
            requires
                rest & bits == bits,
        ;
    } else {
        assert((rest | last) & last == last) by (bit_vector);
    }
}

/// Mods that are drawn go together: each is of a later group than the one before,
/// so that there is one for the speed at most, and none of Easy with HardRock,
/// Relax with Autopilot or SuddenDeath with Perfect.
pub proof fn law_drawn_mods_go_together(x: u64, i: int, j: int)
    requires
        0 <= i < j < drawn_picks(x).0.mods_of().len(),
    ensures
        ({
            let mods = drawn_picks(x).0.mods_of();
            group(mods[i]) < group(mods[j])
        }),
{
    let (picks, _) = drawn_picks(x);
    lemma_groups(x);
    let a = seq![picks.speed];
    let b = with_mod(a, picks.difficulty, None);
    let c = with_mod(b, picks.visual, None);
    let d = with_mod(c, picks.utility, None);
    let e = with_mod(
        d,
        picks.special,
        Some((ModOption::Autopilot, ModOption::Relax)),
    );
    let f = with_mod(
        e,
        picks.endurance,
        Some((ModOption::Perfect, ModOption::SuddenDeath)),
    );
    assert(rising(a, 0));
    assert(rising(b, 1));
    assert(rising(c, 2));
    assert(rising(d, 3));
    assert(rising(e, 4));
    assert(rising(f, 5));
}

/// The group of a mod: of each group one mod at most is drawn.
pub open spec fn group(option: ModOption) -> int {
    match option {
        ModOption::NoMod => 0,
        ModOption::DoubleTime => 0,
        ModOption::Nightcore => 0,
        ModOption::HalfTime => 0,
        ModOption::Easy => 1,
        ModOption::HardRock => 1,
        ModOption::Hidden => 2,
        ModOption::Flashlight => 2,
        ModOption::Mirror => 2,
        ModOption::NoFail => 3,
        ModOption::SpunOut => 3,
        ModOption::Relax => 4,
        ModOption::Autopilot => 4,
        ModOption::SuddenDeath => 5,
        ModOption::Perfect => 5,
    }
}

/// Whether the groups of some mods rise, up to `last`.
spec fn rising(mods: Seq<ModOption>, last: int) -> bool {
    &&& forall|i: int, j: int|
        0 <= i < j < mods.len() ==> group(#[trigger] mods[i]) < group(#[trigger] mods[j])
    &&& forall|i: int| 0 <= i < mods.len() ==> group(#[trigger] mods[i]) <= last
}

/// Each mod that is drawn is of its group.
proof fn lemma_groups(x: u64)
    ensures
        ({
            let (picks, _) = drawn_picks(x);
            &&& group(picks.speed) == 0
            &&& picks.difficulty matches Some(option) ==> group(option) == 1
            &&& picks.visual matches Some(option) ==> group(option) == 2
            &&& picks.utility matches Some(option) ==> group(option) == 3
            &&& picks.special matches Some(option) ==> group(option) == 4
            &&& picks.endurance matches Some(option) ==> group(option) == 5
        }),
{
}

/// The word that a mod is written as.
pub open spec fn word_number(option: ModOption) -> int {
    match option {
        ModOption::SuddenDeath => 0,
        ModOption::Perfect => 2,
        ModOption::Autopilot => 3,
        ModOption::Flashlight => 4,
        ModOption::HardRock => 5,
        ModOption::DoubleTime => 6,
        ModOption::Nightcore => 7,
        ModOption::HalfTime => 8,
        ModOption::NoFail => 9,
        ModOption::SpunOut => 10,
        ModOption::Mirror => 11,
        ModOption::Relax => 12,
        ModOption::Hidden => 13,
        ModOption::Easy => 14,
        ModOption::NoMod => 0,
    }
}

/// Some mods, written as words one after the other.
pub open spec fn written(mods: Seq<ModOption>) -> Seq<char>
    decreases mods.len(),
{
    if mods.len() == 0 {
        seq![]
    } else {
        written(mods.drop_last()) + word_at(word_number(mods.last())).0@
    }
}

/// Whether no mod of a list is NoMod.
pub open spec fn all_named(mods: Seq<ModOption>) -> bool {
    forall|i: int| 0 <= i < mods.len() ==> #[trigger] mods[i] != ModOption::NoMod
}

/// The words one after the other start with the first.
proof fn lemma_written(mods: Seq<ModOption>)
    requires
        mods.len() > 0,
    ensures
        written(mods) == word_at(word_number(mods[0])).0@ + written(mods.drop_first()),
    decreases mods.len(),
{
    let rest = mods.drop_first();
    if mods.len() == 1 {
        assert(mods.drop_last() =~= seq![]);
        assert(rest =~= seq![]);
        assert(written(mods) =~= word_at(word_number(mods[0])).0@ + written(rest));
    } else {
        lemma_written(mods.drop_last());
        assert(mods.drop_last().drop_first() =~= rest.drop_last());
        assert(mods.drop_last()[0] == mods[0]);
        assert(rest.last() == mods.last());
        assert(written(mods) =~= word_at(word_number(mods[0])).0@ + written(rest));
    }
}

/// A word that stands somewhere begins with its letters there.
proof fn lemma_letters(s: Seq<char>, from: nat, word: Seq<char>)
    requires
        word.len() >= 3,
    ensures
        stands_at(s, from, word) ==> s[from as int] == word[0] && s[from as int + 1] == word[1]
            && s[from as int + 2] == word[2],
{
    if stands_at(s, from, word) {
        let part = s.subrange(from as int, (from + word.len()) as int);
        assert(part[0] == word[0] && part[1] == word[1] && part[2] == word[2]);
    }
}

/// The first word that stands where that of a mod stands is that word.
proof fn lemma_first_word(s: Seq<char>, from: nat, option: ModOption)
    requires
        option != ModOption::NoMod,
        stands_at(s, from, word_at(word_number(option)).0@),
    ensures
        first_word_of(s, from, 0) == Some(word_number(option)),
        word_at(word_number(option)).1 == option,
        word_at(word_number(option)).0@.len() >= 3,
{
    reveal_strlit("suddendeath");
    reveal_strlit("suddende");
    reveal_strlit("perfect");
    reveal_strlit("autopilot");
    reveal_strlit("flashlight");
    reveal_strlit("hardrock");
    reveal_strlit("doubletime");
    reveal_strlit("nightcore");
    reveal_strlit("halftime");
    reveal_strlit("nofail");
    reveal_strlit("spunout");
    reveal_strlit("mirror");
    reveal_strlit("relax");
    reveal_strlit("hidden");
    reveal_strlit("easy");
    lemma_letters(s, from, "suddendeath"@);
    lemma_letters(s, from, "suddende"@);
    lemma_letters(s, from, "perfect"@);
    lemma_letters(s, from, "autopilot"@);
    lemma_letters(s, from, "flashlight"@);
    lemma_letters(s, from, "hardrock"@);
    lemma_letters(s, from, "doubletime"@);
    lemma_letters(s, from, "nightcore"@);
    lemma_letters(s, from, "halftime"@);
    lemma_letters(s, from, "nofail"@);
    lemma_letters(s, from, "spunout"@);
    lemma_letters(s, from, "mirror"@);
    lemma_letters(s, from, "relax"@);
    lemma_letters(s, from, "hidden"@);
    lemma_letters(s, from, "easy"@);
    reveal_with_fuel(first_word_of, 16);
}

/// Words are read as the mods they stand for.
proof fn lemma_read(s: Seq<char>, from: nat, mods: Seq<ModOption>)
    requires
        all_named(mods),
        from <= s.len(),
        s.skip(from as int) == written(mods),
    ensures
        mods_from(s, from) == Some(mods),
    decreases mods.len(),
{
    if mods.len() == 0 {
        assert(s.skip(from as int).len() == 0);
        assert(mods =~= seq![]);
    } else {
        let word = word_at(word_number(mods[0])).0@;
        let rest = mods.drop_first();
        lemma_written(mods);
        assert(written(mods).len() == word.len() + written(rest).len());
        assert(s.skip(from as int).len() == s.len() - from);
        assert(from + word.len() <= s.len());
        assert(s.subrange(from as int, (from + word.len()) as int) =~= s.skip(from as int).take(
            word.len() as int,
        ));
        assert((word + written(rest)).take(word.len() as int) =~= word);
        lemma_first_word(s, from, mods[0]);
        assert(s.skip((from + word.len()) as int) =~= s.skip(from as int).skip(word.len() as int));
        assert((word + written(rest)).skip(word.len() as int) =~= written(rest));
        lemma_read(s, from + word.len(), rest);
        assert(seq![mods[0]] + rest =~= mods);
    }
}

/// Where all counts, all is kept.
proof fn lemma_all_count(s: Seq<char>)
    requires
        forall|i: int| 0 <= i < s.len() ==> counts(#[trigger] s[i]),
    ensures
        s.filter(|c: char| counts(c)) == s,
    decreases s.len(),
{
    reveal(Seq::filter);
    if s.len() > 0 {
        lemma_all_count(s.drop_last());
        assert(s.drop_last().push(s.last()) =~= s);
    } else {
        assert(s =~= seq![]);
    }
}

/// What counts of two texts together.
proof fn lemma_plain(a: Seq<char>, b: Seq<char>)
    ensures
        plain(a + b) == plain(a) + plain(b),
{
    let lower = |c: char| ascii_lower(c);
    assert((a + b).map_values(lower) =~= a.map_values(lower) + b.map_values(lower));
    Seq::filter_distributes_over_add(
        a.map_values(lower),
        b.map_values(lower),
        |c: char| counts(c),
    );
}

/// What counts of a name is its word.
proof fn lemma_plain_name(option: ModOption)
    requires
        option != ModOption::NoMod,
    ensures
        plain(option.name_of()@) == word_at(word_number(option)).0@,
{
    let name = option.name_of()@;
    let word = word_at(word_number(option)).0@;
    reveal_strlit("SuddenDeath");
    reveal_strlit("suddendeath");
    reveal_strlit("Perfect");
    reveal_strlit("perfect");
    reveal_strlit("Autopilot");
    reveal_strlit("autopilot");
    reveal_strlit("Flashlight");
    reveal_strlit("flashlight");
    reveal_strlit("HardRock");
    reveal_strlit("hardrock");
    reveal_strlit("DoubleTime");
    reveal_strlit("doubletime");
    reveal_strlit("Nightcore");
    reveal_strlit("nightcore");
    reveal_strlit("HalfTime");
    reveal_strlit("halftime");
    reveal_strlit("NoFail");
    reveal_strlit("nofail");
    reveal_strlit("SpunOut");
    reveal_strlit("spunout");
    reveal_strlit("Mirror");
    reveal_strlit("mirror");
    reveal_strlit("Relax");
    reveal_strlit("relax");
    reveal_strlit("Hidden");
    reveal_strlit("hidden");
    reveal_strlit("Easy");
    reveal_strlit("easy");
    let lower = |c: char| ascii_lower(c);
    assert(name.map_values(lower) =~= word);
    lemma_all_count(word);
}

/// What counts of the names of some mods is their words.
proof fn lemma_plain_names(mods: Seq<ModOption>)
    requires
        all_named(mods),
    ensures
        plain(joined(mods)) == written(mods),
    decreases mods.len(),
{
    reveal(Seq::filter);
    if mods.len() == 0 {
        assert(joined(mods).map_values(|c: char| ascii_lower(c)) =~= seq![]);
        assert(plain(joined(mods)) =~= written(mods));
    } else {
        let rest = mods.drop_last();
        let name = mods.last().name_of()@;
        lemma_plain_name(mods.last());
        if mods.len() == 1 {
            assert(rest =~= seq![]);
            assert(written(rest) =~= seq![]);
            assert(written(mods) =~= word_at(word_number(mods.last())).0@);
            assert(joined(mods) == name);
        } else {
            lemma_plain_names(rest);
            reveal_strlit(" + ");
            lemma_plain(joined(rest) + " + "@, name);
            lemma_plain(joined(rest), " + "@);
            let low = " + "@.map_values(|c: char| ascii_lower(c));
            assert(low =~= " + "@);
            low.lemma_all_neg_filter_empty(|c: char| counts(c));
            assert(plain(" + "@) =~= seq![]);
            assert(written(rest) + Seq::<char>::empty() =~= written(rest));
            assert(joined(mods) == joined(rest) + " + "@ + name);
        }
    }
}

/// The names of some mods, as they are written out, are read as these mods.
pub proof fn law_names_read_back(mods: Seq<ModOption>)
    requires
        mods.len() > 0,
        all_named(mods),
    ensures
        read_mods_of(plain(joined(mods))) == Some((joined(mods), all_bits(mods))),
{
    let s = written(mods);
    lemma_plain_names(mods);
    assert(s.skip(0) =~= s);
    lemma_read(s, 0, mods);
    lemma_written(mods);
    let word = word_at(word_number(mods[0])).0@;
    assert(s.subrange(0, word.len() as int) =~= word);
    lemma_first_word(s, 0, mods[0]);
    lemma_letters(s, 0, word);
    reveal_strlit("nomod");
    reveal_strlit("nm");
    reveal_strlit("suddendeath");
    reveal_strlit("suddende");
    reveal_strlit("perfect");
    reveal_strlit("autopilot");
    reveal_strlit("flashlight");
    reveal_strlit("hardrock");
    reveal_strlit("doubletime");
    reveal_strlit("nightcore");
    reveal_strlit("halftime");
    reveal_strlit("nofail");
    reveal_strlit("spunout");
    reveal_strlit("mirror");
    reveal_strlit("relax");
    reveal_strlit("hidden");
    reveal_strlit("easy");
}

/// NoMod adds no bits.
proof fn lemma_bits_of_named(mods: Seq<ModOption>)
    ensures
        all_bits(mods.filter(|option: ModOption| option != ModOption::NoMod)) == all_bits(mods),
        all_named(mods.filter(|option: ModOption| option != ModOption::NoMod)),
    decreases mods.len(),
{
    let p = |option: ModOption| option != ModOption::NoMod;
    reveal(Seq::filter);
    if mods.len() > 0 {
        let rest = mods.drop_last();
        lemma_bits_of_named(rest);
        if mods.last() == ModOption::NoMod {
            let bits = all_bits(rest);
            assert(bits | 0u32 == bits) by (bit_vector);
        } else {
            assert(mods.filter(p) == rest.filter(p).push(mods.last()));
            assert(mods.filter(p).drop_last() =~= rest.filter(p));
        }
    }
}

/// What is shown of some mods can be given in their place: it is read as the same
/// names and bits.
pub proof fn law_shown_mods_read_back(mods: Seq<ModOption>)
    ensures
        read_mods_of(plain(shown(mods))) == Some((shown(mods), all_bits(mods))),
{
    let named = mods.filter(|option: ModOption| option != ModOption::NoMod);
    lemma_bits_of_named(mods);
    if named.len() == 0 {
        reveal_strlit("NoMod");
        reveal_strlit("nomod");
        let lower = |c: char| ascii_lower(c);
        assert("NoMod"@.map_values(lower) =~= "nomod"@);
        lemma_all_count("nomod"@);
    } else {
        law_names_read_back(named);
    }
}

} // verus!
