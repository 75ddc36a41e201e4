//! The LED demo runner: a demo board that runs small COR24 programs and shows an LED
//! register, with its own compact assembler and command-line options.

pub mod assembler;
pub mod machine;
pub mod program;

use vstd::prelude::*;
use crate::text::{chars_of, eq_str, string_of};

verus! {

/// Default emulation speed (instructions per second), calibrated so that a spin loop of
/// about 1000 iterations takes about half a second.
pub const DEFAULT_SPEED: u64 = 100_000;

/// LED counter demo with a spin-loop delay: counts 0-255 on the LEDs, forever.
pub const DEMO_SOURCE: &'static str = r#"
; LED Counter Demo with Spin Loop Delay
; Counts 0-255 on LEDs, loops forever

        push    fp
        mov     fp, sp
        add     sp, -3          ; allocate 1 word for counter

        la      r1, 0xFF0000    ; LED I/O address
        lc      r0, 0
        sw      r0, 0(fp)       ; counter = 0

main_loop:
        ; Write counter to LEDs
        lw      r0, 0(fp)       ; load counter
        sb      r0, 0(r1)       ; write to LEDs

        ; Spin loop delay
        ; ~15000 iterations, 3 instructions each = 45k instructions
        ; At 100k IPS default speed: ~0.45 seconds per LED change
        la      r2, 15000
delay:
        lc      r0, 1
        sub     r2, r0
        brt     delay

        ; Increment counter (wraps at 256)
        lw      r0, 0(fp)
        lc      r2, 1
        add     r0, r2
        sw      r0, 0(fp)

        bra     main_loop
"#;

/// The number an optional `+` and decimal digits denote, if it fits in a `u64`
/// (`str::parse::<u64>`).
pub open spec fn u64_parse(s: Seq<char>) -> Option<u64> {
    if s.len() == 0 || ((s[0] == '+' || s[0] == '-') && s.len() == 1) {
        None
    } else {
        let d = if s[0] == '+' {
            s.drop_first()
        } else {
            s
        };
        match crate::text::digits_value(d, 10) {
            Some(v) => if v <= u64::MAX {
                Some(v as u64)
            } else {
                None
            },
            None => None,
        }
    }
}

/// `str::parse::<u64>`: the value of an optional `+` and decimal digits, if it fits.
#[verifier::external_body]
fn parse_u64(s: &str) -> (r: Option<u64>)
    ensures
        r == u64_parse(s@),
{
    s.parse::<u64>().ok()
}

/// The command-line options: the command (`demo`, `run`, `assemble` or empty), the speed,
/// the text given for the time limit, and the file.
pub struct Options {
    pub command: String,
    pub speed: u64,
    pub time_text: Option<String>,
    pub file: Option<String>,
}

/// The options as plain values.
pub struct OptionsModel {
    pub command: Seq<char>,
    pub speed: u64,
    pub time_text: Option<Seq<char>>,
    pub file: Option<Seq<char>>,
}

/// The options before any argument is read.
pub open spec fn default_options() -> OptionsModel {
    OptionsModel { command: Seq::empty(), speed: DEFAULT_SPEED, time_text: None, file: None }
}

/// The options after reading the arguments from index `i` on, starting from `o`.
pub open spec fn options_from(args: Seq<Seq<char>>, i: int, o: OptionsModel) -> OptionsModel
    decreases args.len() - i,
{
    if i < 0 || i >= args.len() {
        o
    } else {
        let a = args[i];
        let has_next = i + 1 < args.len();
        if a == "--demo"@ {
            options_from(args, i + 1, OptionsModel { command: "demo"@, ..o })
        } else if a == "--run"@ {
            if has_next {
                options_from(args, i + 2, OptionsModel { command: "run"@, file: Some(args[i + 1]), ..o })
            } else {
                options_from(args, i + 1, OptionsModel { command: "run"@, ..o })
            }
        } else if a == "--assemble"@ {
            options_from(args, i + 1, OptionsModel { command: "assemble"@, ..o })
        } else if a == "--speed"@ || a == "-s"@ {
            if has_next {
                let speed = match u64_parse(args[i + 1]) {
                    Some(v) => v,
                    None => DEFAULT_SPEED,
                };
                options_from(args, i + 2, OptionsModel { speed, ..o })
            } else {
                options_from(args, i + 1, o)
            }
        } else if a == "--time"@ || a == "-t"@ {
            if has_next {
                options_from(args, i + 2, OptionsModel { time_text: Some(args[i + 1]), ..o })
            } else {
                options_from(args, i + 1, o)
            }
        } else if o.command.len() == 0 && !(a.len() > 0 && a[0] == '-') {
            options_from(args, i + 1, OptionsModel { file: Some(a), ..o })
        } else {
            options_from(args, i + 1, o)
        }
    }
}

/// Strings as character sequences.
pub open spec fn arg_views(v: Seq<String>) -> Seq<Seq<char>> {
    Seq::new(v.len(), |i: int| v[i]@)
}

/// The options as plain values.
pub open spec fn options_model(o: Options) -> OptionsModel {
    OptionsModel {
        command: o.command@,
        speed: o.speed,
        time_text: match o.time_text {
            Some(t) => Some(t@),
            None => None,
        },
        file: match o.file {
            Some(f) => Some(f@),
            None => None,
        },
    }
}

/// A copy of a string.
fn copy_string(s: &String) -> (r: String)
    ensures
        r@ == s@,
{
    string_of(&chars_of(s.as_str()))
}

/// Read the command line (the program name first, then the arguments).
pub fn parse_args(args: &Vec<String>) -> (r: Options)
    ensures
        options_model(r) == options_from(arg_views(args@), 1, default_options()),
{
    let ghost av = arg_views(args@);
    let mut o = Options { command: String::new(), speed: DEFAULT_SPEED, time_text: None, file: None };
    proof {
        assert(o.command@ =~= Seq::<char>::empty());
    }
    let mut i: usize = 1;
    while i < args.len()
        invariant
            1 <= i,
            av == arg_views(args@),
            options_from(av, 1, default_options()) == options_from(av, i as int, options_model(o)),
        decreases args@.len() - i,
    {
        let a = chars_of(args[i].as_str());
        let has_next = i + 1 < args.len();
        assert(av[i as int] == a@);
        if has_next {
            assert(av[i + 1] == args@[i + 1]@);
        }
        if eq_str(&a, "--demo") {
            o.command = "demo".to_owned();
        } else if eq_str(&a, "--run") {
            o.command = "run".to_owned();
            if has_next {
                o.file = Some(copy_string(&args[i + 1]));
                i += 1;
            }
        } else if eq_str(&a, "--assemble") {
            o.command = "assemble".to_owned();
        } else if eq_str(&a, "--speed") || eq_str(&a, "-s") {
            if has_next {
                o.speed = match parse_u64(args[i + 1].as_str()) {
                    Some(v) => v,
                    None => DEFAULT_SPEED,
                };
                i += 1;
            }
        } else if eq_str(&a, "--time") || eq_str(&a, "-t") {
            if has_next {
                o.time_text = Some(copy_string(&args[i + 1]));
                i += 1;
            }
        } else {
            let command_empty = o.command.as_str().is_empty();
            if command_empty && !(a.len() > 0 && a[0] == '-') {
                o.file = Some(copy_string(&args[i]));
            }
        }
        i += 1;
    }
    o
}

} // verus!
