use ccv3_pp::double::Double;
use ccv3_pp::play::args::{parse_accuracy, read_args, Decimals, Request, Setting, Stop};
use ccv3_pp::play::mods::{build_random_mod_combo, draw_picks, parse_mods, ModOption, Picks};
use ccv3_pp::play::rng::SimpleRng;
use ccv3_pp::play::text::{characters, lower_characters, parse_number, same_text};
use ccv3_pp::play::{Play, SpecificPlay};
use rosu_mods::GameModsLegacy;

fn soft(x: f64) -> Double {
    Double { bits: x.to_bits() }
}

fn hard(x: Double) -> f64 {
    f64::from_bits(x.bits)
}

fn decimal(s: &str) -> Option<Double> {
    s.parse().ok().map(soft)
}

fn read(args: &[&str]) -> Result<Request, Stop> {
    let list: Vec<String> = args.iter().map(|arg| arg.to_string()).collect();
    read_args(&Decimals { parse: decimal }, &list)
}

fn bits(mods: &[GameModsLegacy]) -> u32 {
    mods.iter().fold(0, |bits, item| bits | item.bits())
}

fn parsed(text: &str) -> Option<(String, u32)> {
    parse_mods(text)
}

#[test]
fn mods_are_read_by_name() {
    assert_eq!(
        parsed("HDDT"),
        Some((
            "Hidden + DoubleTime".to_string(),
            bits(&[GameModsLegacy::Hidden, GameModsLegacy::DoubleTime])
        ))
    );
    assert_eq!(
        parsed(" hd + Relax,ez/so "),
        Some((
            "Hidden + Relax + Easy + SpunOut".to_string(),
            bits(&[
                GameModsLegacy::Hidden,
                GameModsLegacy::Relax,
                GameModsLegacy::Easy,
                GameModsLegacy::SpunOut
            ])
        ))
    );
    assert_eq!(parsed("NoMod"), Some(("NoMod".to_string(), 0)));
    assert_eq!(parsed("nm"), Some(("NoMod".to_string(), 0)));
    assert_eq!(parsed(""), None);
    assert_eq!(parsed(" + "), None);
    assert_eq!(parsed("hdx"), None);
    assert_eq!(parsed("nmhd"), None);
    assert_eq!(parsed("\u{a0}HD\u{3000}"), Some(("Hidden".to_string(), 8)));
}

#[test]
fn every_word_stands_for_its_mod() {
    let words = [
        ("suddendeath", "SuddenDeath", GameModsLegacy::SuddenDeath),
        ("suddende", "SuddenDeath", GameModsLegacy::SuddenDeath),
        ("perfect", "Perfect", GameModsLegacy::Perfect),
        ("autopilot", "Autopilot", GameModsLegacy::Autopilot),
        ("flashlight", "Flashlight", GameModsLegacy::Flashlight),
        ("hardrock", "HardRock", GameModsLegacy::HardRock),
        ("doubletime", "DoubleTime", GameModsLegacy::DoubleTime),
        ("nightcore", "Nightcore", GameModsLegacy::Nightcore),
        ("halftime", "HalfTime", GameModsLegacy::HalfTime),
        ("nofail", "NoFail", GameModsLegacy::NoFail),
        ("spunout", "SpunOut", GameModsLegacy::SpunOut),
        ("mirror", "Mirror", GameModsLegacy::Mirror),
        ("relax", "Relax", GameModsLegacy::Relax),
        ("hidden", "Hidden", GameModsLegacy::Hidden),
        ("easy", "Easy", GameModsLegacy::Easy),
        ("hr", "HardRock", GameModsLegacy::HardRock),
        ("hd", "Hidden", GameModsLegacy::Hidden),
        ("nf", "NoFail", GameModsLegacy::NoFail),
        ("ez", "Easy", GameModsLegacy::Easy),
        ("fl", "Flashlight", GameModsLegacy::Flashlight),
        ("so", "SpunOut", GameModsLegacy::SpunOut),
        ("nc", "Nightcore", GameModsLegacy::Nightcore),
        ("dt", "DoubleTime", GameModsLegacy::DoubleTime),
        ("ht", "HalfTime", GameModsLegacy::HalfTime),
        ("rx", "Relax", GameModsLegacy::Relax),
        ("ap", "Autopilot", GameModsLegacy::Autopilot),
        ("sd", "SuddenDeath", GameModsLegacy::SuddenDeath),
        ("pf", "Perfect", GameModsLegacy::Perfect),
        ("mr", "Mirror", GameModsLegacy::Mirror),
    ];
    for (word, name, value) in words {
        assert_eq!(parsed(word), Some((name.to_string(), value.bits())), "{word}");
        assert_eq!(parsed(&word.to_uppercase()), Some((name.to_string(), value.bits())), "{word}");
    }
}

#[test]
fn mods_have_the_bits_of_the_game() {
    assert_eq!(ModOption::NoMod.bits(), GameModsLegacy::NoMod.bits());
    assert_eq!(ModOption::Nightcore.bits(), GameModsLegacy::Nightcore.bits());
    assert_eq!(ModOption::Perfect.bits(), GameModsLegacy::Perfect.bits());
    assert_eq!(ModOption::Mirror.bits(), GameModsLegacy::Mirror.bits());
    assert_eq!(ModOption::Mirror.name(), "Mirror");
}

#[test]
fn what_is_shown_reads_back() {
    let mut rng = SimpleRng::new(12345);
    for _ in 0..300 {
        let (names, bits) = build_random_mod_combo(&mut rng);
        assert_eq!(parsed(&names), Some((names.clone(), bits)));
    }
}

#[test]
fn drawn_mods_go_together() {
    let mut rng = SimpleRng::new(99);
    for _ in 0..300 {
        let mods = draw_picks(&mut rng).mods();
        let both = |a: ModOption, b: ModOption| mods.contains(&a) && mods.contains(&b);
        assert!(!both(ModOption::Easy, ModOption::HardRock));
        assert!(!both(ModOption::Relax, ModOption::Autopilot));
        assert!(!both(ModOption::SuddenDeath, ModOption::Perfect));
        assert!(!both(ModOption::DoubleTime, ModOption::HalfTime));
    }
}

#[test]
fn excluded_mods_are_left_out() {
    let picks = |special: Option<ModOption>, endurance: Option<ModOption>| Picks {
        speed: ModOption::NoMod,
        difficulty: Some(ModOption::Relax),
        visual: Some(ModOption::SuddenDeath),
        utility: None,
        special,
        endurance,
    };
    let all = picks(Some(ModOption::Autopilot), Some(ModOption::Perfect)).mods();
    assert_eq!(all, vec![ModOption::NoMod, ModOption::Relax, ModOption::SuddenDeath]);
    let all = picks(Some(ModOption::Relax), Some(ModOption::SuddenDeath)).mods();
    assert_eq!(all.len(), 5);
}

#[test]
fn random_numbers_follow_their_seed() {
    let mut rng = SimpleRng::new(1);
    assert_eq!(rng.next_u64(), 1_082_269_761);
    assert_eq!(rng.next_u64(), 1_152_992_998_833_853_505);
    let mut rng = SimpleRng::new(1);
    assert_eq!(rng.gen_range(10, 20), 10 + 1);
    assert_eq!(rng.gen_range(7, 7), 7);
    assert_eq!(rng.gen_range(9, 7), 9);
    let mut rng = SimpleRng::new(0);
    assert_eq!(rng.next_u64(), 0);
    assert_eq!(*SimpleRng::new(1).choose_one(&["a", "b", "c"]), "a");
    assert_eq!(SimpleRng::new(0).choose_optional(&["a", "b", "c"]), None);
    assert_eq!(SimpleRng::new(1).choose_optional(&["a", "b", "c"]), Some(&"c"));
}

#[test]
fn plays_are_drawn_in_turn() {
    let nothing = SpecificPlay::default();
    assert!(nothing.is_empty());
    let mut rng = SimpleRng::new(77);
    let mut again = SimpleRng::new(77);
    for _ in 0..200 {
        let play = Play::draw(&mut rng, &nothing, 900);
        let misses = again.gen_range(0, 61);
        let combo = if misses == 0 { 900 } else { again.gen_range(450, 901) };
        let accuracy = 90.0 + f64::from(again.gen_range(0, 1001)) / 100.0;
        assert_eq!((play.misses, play.combo, hard(play.accuracy)), (misses, combo, accuracy));
        assert!(play.misses <= 60 && play.combo <= 900);
    }
    let mut rng = SimpleRng::new(77);
    let play = Play::draw(&mut rng, &nothing, 0);
    assert!(play.misses <= 1);
}

#[test]
fn given_parts_of_plays_are_kept() {
    let given = SpecificPlay {
        mods: None,
        combo: Some(5),
        misses: Some(7),
        accuracy: Some(soft(95.42)),
    };
    assert!(!given.is_empty());
    let mut rng = SimpleRng::new(3);
    let play = Play::draw(&mut rng, &given, u32::MAX);
    assert_eq!((play.combo, play.misses, hard(play.accuracy)), (5, 7, 95.42));
    assert_eq!(rng.0, 3);
}

#[test]
fn command_lines_are_read() {
    let r = read(&["pp", "map.osu"]).unwrap();
    assert!(r.explicit.is_empty());
    assert_eq!((r.plays, r.seed), (5, None));
    let r = read(&[
        "pp", "map.osu", "1", "12345", "--mods", "HDDT", "--misses", "150", "--accuracy", "95.42%",
    ])
    .unwrap();
    assert_eq!((r.plays, r.seed), (1, Some(12345)));
    assert_eq!(r.explicit.misses, Some(150));
    assert_eq!(r.explicit.accuracy.map(hard), Some(95.42));
    assert_eq!(r.explicit.mods.map(|mods| mods.0), Some("Hidden + DoubleTime".to_string()));
    let r = read(&["pp", "map.osu", "--seed", "+9", "-m", "ez", "--combo", "3", "--plays", "8"])
        .unwrap();
    assert_eq!((r.plays, r.seed, r.explicit.combo), (8, Some(9), Some(3)));
    // The later of two settings counts.
    let r = read(&["pp", "map.osu", "3", "--plays", "4"]).unwrap();
    assert_eq!(r.plays, 4);
}

#[test]
fn command_lines_are_refused() {
    let stop = |args: &[&str]| read(args).err();
    assert_eq!(stop(&["pp"]), Some(Stop::NoMap));
    assert_eq!(stop(&["pp", "m", "-h"]), Some(Stop::Help));
    assert_eq!(stop(&["pp", "m", "--help", "--bad"]), Some(Stop::Help));
    for (option, setting, bad) in [
        ("--mods", Setting::Mods, "zz"),
        ("-m", Setting::Mods, ""),
        ("--combo", Setting::Combo, "-1"),
        ("--misses", Setting::Misses, "4294967296"),
        ("--accuracy", Setting::Accuracy, "100.1"),
        ("--plays", Setting::Plays, "1.5"),
        ("--seed", Setting::Seed, "18446744073709551616"),
    ] {
        assert_eq!(stop(&["pp", "m", option]), Some(Stop::Missing(setting)));
        assert_eq!(stop(&["pp", "m", option, bad]), Some(Stop::Invalid(setting, 3)));
    }
    assert_eq!(stop(&["pp", "m", "x"]), Some(Stop::Invalid(Setting::Plays, 2)));
    assert_eq!(stop(&["pp", "m", "1", "x"]), Some(Stop::Invalid(Setting::Seed, 3)));
    assert_eq!(stop(&["pp", "m", "1", "2", "3"]), Some(Stop::Unexpected(4)));
    assert_eq!(stop(&["pp", "m", "1", "--what"]), Some(Stop::Unknown(3)));
}

#[test]
fn accuracies_are_percentages() {
    let read = |s: &str| parse_accuracy(&Decimals { parse: decimal }, s).map(hard);
    assert_eq!(read("0"), Some(0.0));
    assert_eq!(read("100%"), Some(100.0));
    assert_eq!(read("98.5"), Some(98.5));
    assert_eq!(read("98.5%%"), None);
    assert_eq!(read("-1"), None);
    assert_eq!(read("NaN"), None);
    assert_eq!(read("%"), None);
    assert_eq!(read(""), None);
}

#[test]
fn numbers_are_read_as_decimal() {
    assert_eq!(parse_number("0", 10), Some(0));
    assert_eq!(parse_number("007", 10), Some(7));
    assert_eq!(parse_number("+10", 10), Some(10));
    assert_eq!(parse_number("11", 10), None);
    assert_eq!(parse_number("", 10), None);
    assert_eq!(parse_number("+", 10), None);
    assert_eq!(parse_number("1 ", 10), None);
    assert_eq!(parse_number("18446744073709551615", u64::MAX), Some(u64::MAX));
    assert_eq!(parse_number("99999999999999999999999", u64::MAX), None);
}

#[test]
fn letters_are_lowered() {
    let lower = |s: &str| lower_characters(s).into_iter().collect::<String>();
    assert_eq!(lower("HdDT-\u{c4}"), "hddt-\u{e4}");
    assert_eq!(characters("a\u{e9}"), vec!['a', '\u{e9}']);
    assert!(same_text("--seed", "--seed"));
    assert!(!same_text("--seeds", "--seed"));
}

#[test]
fn full_combos_of_the_longest_maps_are_kept() {
    let given = SpecificPlay { mods: None, combo: None, misses: Some(0), accuracy: None };
    let mut rng = SimpleRng::new(3);
    let play = Play::draw(&mut rng, &given, u32::MAX);
    assert_eq!((play.combo, play.misses), (u32::MAX, 0));
}
