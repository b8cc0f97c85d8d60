//! What is asked for on the command line.
use vstd::prelude::*;
use vstd::string::StrSliceExecFns;

use crate::double::Double;
use crate::operators::whole;
use crate::play::mods::{counts, parse_mods, read_mods_of};
use crate::play::text::{lowercase, number_of, parse_number, same_text};
use crate::play::SpecificPlay;
use crate::query::optional;
use crate::value::{exactly, Value};

verus! {

/// What can be set.
#[derive(Clone, Copy, Debug, PartialEq, Eq, Structural)]
pub enum Setting {
    Mods,
    Combo,
    Misses,
    Accuracy,
    Plays,
    Seed,
}

/// Why the arguments are read no further.
#[derive(Clone, Copy, Debug, PartialEq, Eq, Structural)]
pub enum Stop {
    /// There is no map.
    NoMap,
    /// Help was asked for.
    Help,
    /// The value of a setting is missing.
    Missing(Setting),
    /// The argument at a place is no value for a setting.
    Invalid(Setting, usize),
    /// The argument at a place is no option.
    Unknown(usize),
    /// The argument at a place is one too many.
    Unexpected(usize),
}

/// What is asked for.
#[derive(Debug)]
pub struct Request {
    pub explicit: SpecificPlay,
    /// How many plays to generate.
    pub plays: usize,
    /// Where random numbers start.
    pub seed: Option<u64>,
    /// How many arguments came without an option.
    pub positional: usize,
}

/// The same over values.
pub struct Reading {
    pub mods: Option<(Seq<char>, u32)>,
    pub combo: Option<u32>,
    pub misses: Option<u32>,
    pub accuracy: Option<Value>,
    pub plays: usize,
    pub seed: Option<u64>,
    pub positional: nat,
}

impl View for Request {
    type V = Reading;

    open spec fn view(&self) -> Reading {
        Reading {
            mods: match self.explicit.mods {
                Some((names, bits)) => Some((names@, bits)),
                None => None,
            },
            combo: self.explicit.combo,
            misses: self.explicit.misses,
            accuracy: optional(self.explicit.accuracy),
            plays: self.plays,
            seed: self.seed,
            positional: self.positional as nat,
        }
    }
}

/// A function that reads decimal numbers.
pub struct Decimals<P> {
    pub parse: P,
}

/// Whether `f` reads every text as `table` does.
pub open spec fn reads<P: Fn(&str) -> Option<Double>>(
    f: P,
    table: spec_fn(Seq<char>) -> Option<Value>,
) -> bool {
    forall|s: &str, r: Option<Double>| #[trigger]
        call_ensures(f, (s,), r) ==> optional(r) == table(s@)
}

impl<P: Fn(&str) -> Option<Double>> Decimals<P> {
    /// Whether the function takes every text and reads equal texts equally.
    pub open spec fn sound(self) -> bool {
        &&& forall|s: &str| call_requires(self.parse, (s,))
        &&& exists|table: spec_fn(Seq<char>) -> Option<Value>| reads(self.parse, table)
    }
}

impl<P: Fn(&str) -> Option<Double>> View for Decimals<P> {
    type V = spec_fn(Seq<char>) -> Option<Value>;

    open spec fn view(&self) -> spec_fn(Seq<char>) -> Option<Value> {
        choose|table: spec_fn(Seq<char>) -> Option<Value>| reads(self.parse, table)
    }
}

/// The accuracy that a text stands for, perhaps with a percent sign: from 0 to
/// 100.
pub open spec fn accuracy_of(
    table: spec_fn(Seq<char>) -> Option<Value>,
    s: Seq<char>,
) -> Option<Value> {
    let digits = if s.len() > 0 && s.last() == '%' {
        s.drop_last()
    } else {
        s
    };
    match table(digits) {
        Some(acc) => if exactly(0).at_most(acc) && acc.at_most(exactly(100)) {
            Some(acc)
        } else {
            None
        },
        None => None,
    }
}

/// The accuracy that a text stands for, perhaps with a percent sign: from 0 to
/// 100.
pub fn parse_accuracy<P: Fn(&str) -> Option<Double>>(decimals: &Decimals<P>, value: &str) -> (r:
    Option<Double>)
    requires
        decimals.sound(),
    ensures
        optional(r) == accuracy_of(decimals@, value@),
{
    let n: usize = value.unicode_len();
    let digits: &str = if n > 0 && value.get_char(n - 1) == '%' {
        value.substring_char(0, n - 1)
    } else {
        value
    };
    proof {
        if n > 0 {
            assert(value@.subrange(0, n - 1) =~= value@.drop_last());
        }
    }
    match (decimals.parse)(digits) {
        Some(acc) => if whole(0).at_most(acc) && acc.at_most(whole(100)) {
            Some(acc)
        } else {
            None
        },
        None => None,
    }
}

/// The setting that an option is for.
pub open spec fn setting_of(arg: Seq<char>) -> Option<Setting> {
    if arg == "--mods"@ || arg == "-m"@ {
        Some(Setting::Mods)
    } else if arg == "--combo"@ {
        Some(Setting::Combo)
    } else if arg == "--misses"@ {
        Some(Setting::Misses)
    } else if arg == "--accuracy"@ {
        Some(Setting::Accuracy)
    } else if arg == "--plays"@ {
        Some(Setting::Plays)
    } else if arg == "--seed"@ {
        Some(Setting::Seed)
    } else {
        None
    }
}

/// The setting that an option is for.
fn setting(arg: &str) -> (r: Option<Setting>)
    ensures
        r == setting_of(arg@),
{
    if same_text(arg, "--mods") || same_text(arg, "-m") {
        Some(Setting::Mods)
    } else if same_text(arg, "--combo") {
        Some(Setting::Combo)
    } else if same_text(arg, "--misses") {
        Some(Setting::Misses)
    } else if same_text(arg, "--accuracy") {
        Some(Setting::Accuracy)
    } else if same_text(arg, "--plays") {
        Some(Setting::Plays)
    } else if same_text(arg, "--seed") {
        Some(Setting::Seed)
    } else {
        None
    }
}

/// A request with a setting taken from a text, where the text is a value for it.
pub open spec fn set_of(
    table: spec_fn(Seq<char>) -> Option<Value>,
    reading: Reading,
    what: Setting,
    text: Seq<char>,
) -> Option<Reading> {
    match what {
        Setting::Mods => match read_mods_of(lowercase(text).filter(|c: char| counts(c))) {
            Some(mods) => Some(Reading { mods: Some(mods), ..reading }),
            None => None,
        },
        Setting::Combo => match number_of(text, u32::MAX as nat) {
            Some(n) => Some(Reading { combo: Some(n as u32), ..reading }),
            None => None,
        },
        Setting::Misses => match number_of(text, u32::MAX as nat) {
            Some(n) => Some(Reading { misses: Some(n as u32), ..reading }),
            None => None,
        },
        Setting::Accuracy => match accuracy_of(table, text) {
            Some(acc) => Some(Reading { accuracy: Some(acc), ..reading }),
            None => None,
        },
        Setting::Plays => match number_of(text, usize::MAX as nat) {
            Some(n) => Some(Reading { plays: n as usize, ..reading }),
            None => None,
        },
        Setting::Seed => match number_of(text, u64::MAX as nat) {
            Some(n) => Some(Reading { seed: Some(n as u64), ..reading }),
            None => None,
        },
    }
}

/// Takes a setting from a text, where the text is a value for it.
fn set<P: Fn(&str) -> Option<Double>>(
    decimals: &Decimals<P>,
    request: &mut Request,
    what: Setting,
    text: &str,
) -> (r: bool)
    requires
        decimals.sound(),
    ensures
        match set_of(decimals@, old(request)@, what, text@) {
            Some(reading) => r && final(request)@ == reading,
            None => !r,
        },
{
    match what {
        Setting::Mods => match parse_mods(text) {
            Some(mods) => {
                request.explicit.mods = Some(mods);
                true
            },
            None => false,
        },
        Setting::Combo => match parse_number(text, u32::MAX as u64) {
            Some(n) => {
                request.explicit.combo = Some(n as u32);
                true
            },
            None => false,
        },
        Setting::Misses => match parse_number(text, u32::MAX as u64) {
            Some(n) => {
                request.explicit.misses = Some(n as u32);
                true
            },
            None => false,
        },
        Setting::Accuracy => match parse_accuracy(decimals, text) {
            Some(acc) => {
                request.explicit.accuracy = Some(acc);
                true
            },
            None => false,
        },
        Setting::Plays => match parse_number(text, usize::MAX as u64) {
            Some(n) => {
                request.plays = n as usize;
                true
            },
            None => false,
        },
        Setting::Seed => match parse_number(text, u64::MAX) {
            Some(n) => {
                request.seed = Some(n);
                true
            },
            None => false,
        },
    }
}

/// The texts of some arguments.
pub open spec fn texts(args: Seq<String>) -> Seq<Seq<char>> {
    args.map_values(|s: String| s@)
}

/// What the arguments from place `i` on make of a request: options with their
/// values, and up to two values without, the number of plays and the seed.
pub open spec fn read_of(
    table: spec_fn(Seq<char>) -> Option<Value>,
    args: Seq<Seq<char>>,
    i: nat,
    reading: Reading,
) -> Result<Reading, Stop>
    decreases args.len() - i,
{
    if i >= args.len() {
        Ok(reading)
    } else if args[i as int] == "-h"@ || args[i as int] == "--help"@ {
        Err(Stop::Help)
    } else {
        match setting_of(args[i as int]) {
            Some(what) => if i + 1 >= args.len() {
                Err(Stop::Missing(what))
            } else {
                match set_of(table, reading, what, args[(i + 1) as int]) {
                    Some(next) => read_of(table, args, i + 2, next),
                    None => Err(Stop::Invalid(what, (i + 1) as usize)),
                }
            },
            None => if args[i as int].len() > 0 && args[i as int][0] == '-' {
                Err(Stop::Unknown(i as usize))
            } else if reading.positional >= 2 {
                Err(Stop::Unexpected(i as usize))
            } else {
                let what = if reading.positional == 0 {
                    Setting::Plays
                } else {
                    Setting::Seed
                };
                match set_of(table, reading, what, args[i as int]) {
                    Some(next) => read_of(
                        table,
                        args,
                        i + 1,
                        Reading { positional: reading.positional + 1, ..next },
                    ),
                    None => Err(Stop::Invalid(what, i as usize)),
                }
            },
        }
    }
}

/// What is asked for before any option: five plays, and nothing given.
pub open spec fn start_of() -> Reading {
    Reading {
        mods: None,
        combo: None,
        misses: None,
        accuracy: None,
        plays: 5,
        seed: None,
        positional: 0,
    }
}

/// What is asked for on a command line: after the program and the map, options
/// with their values, and up to two values without, the number of plays and the
/// seed.
pub fn read_args<P: Fn(&str) -> Option<Double>>(
    decimals: &Decimals<P>,
    args: &Vec<String>,
) -> (r: Result<Request, Stop>)
    requires
        decimals.sound(),
    ensures
        args@.len() < 2 ==> r == Err::<Request, Stop>(Stop::NoMap),
        args@.len() >= 2 ==> match read_of(decimals@, texts(args@), 2, start_of()) {
            Ok(reading) => r matches Ok(request) && request@ == reading,
            Err(stop) => r == Err::<Request, Stop>(stop),
        },
{
    if args.len() < 2 {
        return Err(Stop::NoMap);
    }
    let ghost all = texts(args@);
    let mut request = Request {
        explicit: SpecificPlay { mods: None, combo: None, misses: None, accuracy: None },
        plays: 5,
        seed: None,
        positional: 0,
    };
    let mut i: usize = 2;
    while i < args.len()
        invariant
            decimals.sound(),
            all == texts(args@),
            2 <= i <= args@.len(),
            request.positional <= 2,
            read_of(decimals@, all, 2, start_of()) == read_of(
                decimals@,
                all,
                i as nat,
                request@,
            ),
        decreases args@.len() - i,
    {
        let arg: &str = args[i].as_str();
        if same_text(arg, "-h") || same_text(arg, "--help") {
            return Err(Stop::Help);
        }
        match setting(arg) {
            Some(what) => {
                if args.len() - i < 2 {
                    return Err(Stop::Missing(what));
                }
                if !set(decimals, &mut request, what, args[i + 1].as_str()) {
                    return Err(Stop::Invalid(what, i + 1));
                }
                i = i + 2;
            },
            None => {
                if arg.unicode_len() > 0 && arg.get_char(0) == '-' {
                    return Err(Stop::Unknown(i));
                }
                if request.positional >= 2 {
                    return Err(Stop::Unexpected(i));
                }
                let what: Setting = if request.positional == 0 {
                    Setting::Plays
                } else {
                    Setting::Seed
                };
                if !set(decimals, &mut request, what, arg) {
                    return Err(Stop::Invalid(what, i));
                }
                request.positional = request.positional + 1;
                i = i + 1;
            },
        }
    }
    Ok(request)
}

} // verus!
