//! The host application's own decisions: its options, how the command line
//! selects what to run, and when a new bitrate estimate is worth acting on.
//!
//! `annex` with no arguments creates a new desktop and streams it; `mirror`
//! streams the existing screen instead. The milestone harnesses `m0` to `m3`
//! each isolate one layer. An unrecognised argument is a mistake, not an
//! invitation to guess.

use crate::text::{chars_of, decimal, digit_char, digits, str_eq};
use vstd::prelude::*;

verus! {

/// The application's options.
#[derive(Debug, Clone, Copy, PartialEq, Eq, Structural)]
pub struct Options {
    /// Extend the desktop with a virtual display, rather than mirroring an
    /// existing screen.
    pub extend: bool,
    /// Let clients drive this Mac. Off unless asked for, by name.
    pub allow_input: bool,
    pub port: u16,
    pub fps: u32,
    pub bitrate_kbps: u32,
    /// Print the QR code to the terminal too.
    pub print_qr: bool,
    /// Ceiling on simultaneous viewers.
    pub max_clients: u64,
}

/// The default options: extend, view only, port 8787, 60 fps, 12 Mbit/s,
/// QR printed, at most four viewers.
pub open spec fn default_options() -> Options {
    Options {
        extend: true,
        allow_input: false,
        port: 8787,
        fps: 60,
        bitrate_kbps: 12_000,
        print_qr: true,
        max_clients: 4,
    }
}

impl Default for Options {
    fn default() -> (o: Self)
        ensures
            o == default_options(),
    {
        Options {
            extend: true,
            allow_input: false,
            port: 8787,
            fps: 60,
            bitrate_kbps: 12_000,
            print_qr: true,
            max_clients: 4,
        }
    }
}

/// Whether a new bitrate estimate differs from the current bitrate by more
/// than a twentieth of the ceiling, so the encoder is not reconfigured every
/// second for a rounding difference.
pub open spec fn bitrate_change_matters_spec(want: u32, current: u32, ceiling: u32) -> bool {
    (if want >= current { want - current } else { current - want }) * 20 > ceiling
}

/// The bitrate threshold: a new estimate is applied exactly when it differs
/// from the current bitrate by more than a twentieth of the ceiling
/// (rounded down), in either direction.
pub proof fn lemma_bitrate_threshold(want: u32, current: u32, ceiling: u32)
    ensures
        bitrate_change_matters_spec(want, current, ceiling) == ((if want >= current {
            want - current
        } else {
            current - want
        }) > ceiling / 20),
        bitrate_change_matters_spec(want, current, ceiling) == bitrate_change_matters_spec(current, want, ceiling),
        !bitrate_change_matters_spec(want, want, ceiling),
{
}

/// Whether a new bitrate estimate is worth applying.
pub fn bitrate_change_matters(want: u32, current: u32, ceiling: u32) -> (r: bool)
    requires
        (if want >= current { want - current } else { current - want }) * 20 <= u32::MAX,
    ensures
        r == bitrate_change_matters_spec(want, current, ceiling),
{
    let diff = if want >= current {
        want - current
    } else {
        current - want
    };
    diff * 20 > ceiling
}

/// The value of a decimal digit character.
pub open spec fn digit_value(c: char) -> Option<nat> {
    if c == '0' {
        Some(0)
    } else if c == '1' {
        Some(1)
    } else if c == '2' {
        Some(2)
    } else if c == '3' {
        Some(3)
    } else if c == '4' {
        Some(4)
    } else if c == '5' {
        Some(5)
    } else if c == '6' {
        Some(6)
    } else if c == '7' {
        Some(7)
    } else if c == '8' {
        Some(8)
    } else if c == '9' {
        Some(9)
    } else {
        None
    }
}

/// The value of a string of decimal digits.
pub open spec fn digits_value(s: Seq<char>) -> nat
    decreases s.len(),
{
    if s.len() == 0 {
        0
    } else {
        digits_value(s.drop_last()) * 10 + match digit_value(s.last()) {
            Some(d) => d,
            None => 0,
        }
    }
}

/// The text after an optional leading `+`.
pub open spec fn unsigned_body(s: Seq<char>) -> Seq<char> {
    if s.len() > 0 && s[0] == '+' {
        s.drop_first()
    } else {
        s
    }
}

/// Whether every character is a decimal digit.
pub open spec fn all_digits(b: Seq<char>) -> bool {
    forall|i: int| 0 <= i < b.len() ==> #[trigger] digit_value(b[i]) is Some
}

/// How an unsigned integer type no larger than `max` parses text: an
/// optional `+`, then one or more decimal digits, with a value that fits.
pub open spec fn parse_unsigned_spec(s: Seq<char>, max: nat) -> Option<nat> {
    let body = unsigned_body(s);
    if body.len() > 0 && all_digits(body) && digits_value(body) <= max {
        Some(digits_value(body))
    } else {
        None
    }
}

fn digit_of(c: char) -> (r: Option<u64>)
    ensures
        match r {
            Some(d) => digit_value(c) == Some(d as nat),
            None => digit_value(c) is None,
        },
{
    if c == '0' {
        Some(0)
    } else if c == '1' {
        Some(1)
    } else if c == '2' {
        Some(2)
    } else if c == '3' {
        Some(3)
    } else if c == '4' {
        Some(4)
    } else if c == '5' {
        Some(5)
    } else if c == '6' {
        Some(6)
    } else if c == '7' {
        Some(7)
    } else if c == '8' {
        Some(8)
    } else if c == '9' {
        Some(9)
    } else {
        None
    }
}

proof fn lemma_digits_value_grows(s: Seq<char>, k: int)
    requires
        0 <= k <= s.len(),
    ensures
        digits_value(s.take(k)) <= digits_value(s),
    decreases s.len() - k,
{
    if k < s.len() {
        lemma_digits_value_grows(s, k + 1);
        assert(s.take(k + 1).drop_last() =~= s.take(k));
    } else {
        assert(s.take(k) =~= s);
    }
}

/// Parses an unsigned decimal integer no larger than `max`, as `str::parse`
/// does for the unsigned integer types.
pub fn parse_unsigned(s: &str, max: u64) -> (r: Option<u64>)
    ensures
        match r {
            Some(v) => parse_unsigned_spec(s@, max as nat) == Some(v as nat),
            None => parse_unsigned_spec(s@, max as nat) is None,
        },
{
    let v = chars_of(s);
    let start: usize = if v.len() > 0 && v[0] == '+' {
        1
    } else {
        0
    };
    let ghost body = s@.skip(start as int);
    proof {
        if start == 1 {
            assert(body =~= s@.drop_first());
        } else {
            assert(body =~= s@);
        }
    }
    if v.len() - start == 0 {
        return None;
    }
    let mut value: u64 = 0;
    let mut overflow = false;
    let mut i: usize = start;
    while i < v.len()
        invariant
            v@ == s@,
            start <= i <= v@.len(),
            body == s@.skip(start as int),
            body == unsigned_body(s@),
            forall|j: int| 0 <= j < i - start ==> #[trigger] digit_value(body[j]) is Some,
            !overflow ==> value as nat == digits_value(body.take(i - start)) && value <= max,
            overflow ==> digits_value(body.take(i - start)) > max,
        decreases v.len() - i,
    {
        let d = match digit_of(v[i]) {
            Some(d) => d,
            None => {
                proof {
                    assert(body[i - start] == v@[i as int]);
                    assert(digit_value(body[i - start]) is None);
                    assert(!all_digits(body));
                }
                return None;
            },
        };
        proof {
            assert(body[i - start] == v@[i as int]);
            let t = body.take(i - start + 1);
            assert(t.drop_last() =~= body.take(i - start));
            assert(t.last() == v@[i as int]);
        }
        if !overflow {
            match value.checked_mul(10) {
                Some(m) => match m.checked_add(d) {
                    Some(n) => {
                        if n <= max {
                            value = n;
                        } else {
                            overflow = true;
                        }
                    },
                    None => {
                        overflow = true;
                    },
                },
                None => {
                    overflow = true;
                },
            }
        }
        i += 1;
    }
    proof {
        assert(body.take((i - start) as int) =~= body);
    }
    if overflow {
        None
    } else {
        Some(value)
    }
}

/// What the command line asks for.
#[derive(Debug, Clone, PartialEq, Eq)]
pub enum Command {
    /// Write the application iconset into a directory.
    EmitIconset(String),
    /// Show the usage text.
    Help,
    /// Run the application.
    Run(Options),
    /// Create a virtual display, hold it for a while, remove it.
    M0 { hold_secs: u64 },
    /// Capture frames of the virtual display to PNG, at a capture scale.
    M1 { frames: usize, scale: u32 },
    /// Encode frames of the virtual display to an H.264 file.
    M2 { frames: usize },
    /// Stream over WebRTC without the menu bar app.
    M3 { use_virtual: bool, port: u16 },
    /// An argument that names nothing.
    Unknown(String),
}

/// Whether an argument is a flag: it starts with `--`.
pub open spec fn is_flag(a: Seq<char>) -> bool {
    a.len() >= 2 && a[0] == '-' && a[1] == '-'
}

/// The arguments that are not flags, in order.
pub open spec fn positionals(args: Seq<Seq<char>>) -> Seq<Seq<char>>
    decreases args.len(),
{
    if args.len() == 0 {
        Seq::empty()
    } else if is_flag(args.last()) {
        positionals(args.drop_last())
    } else {
        positionals(args.drop_last()).push(args.last())
    }
}

/// The `k`-th positional argument, or the empty string.
pub open spec fn positional_at(args: Seq<Seq<char>>, k: int) -> Seq<char> {
    if 0 <= k < positionals(args).len() {
        positionals(args)[k]
    } else {
        Seq::empty()
    }
}

/// Whether `name` is one of the arguments.
pub open spec fn has_arg(args: Seq<Seq<char>>, name: Seq<char>) -> bool {
    exists|i: int| 0 <= i < args.len() && #[trigger] args[i] == name
}

/// The argument after the first occurrence of `name`, if both exist.
pub open spec fn value_after(args: Seq<Seq<char>>, name: Seq<char>) -> Option<Seq<char>> {
    if has_arg(args, name) {
        let i = choose|i: int|
            0 <= i < args.len() && #[trigger] args[i] == name && forall|j: int| 0 <= j < i ==> args[j] != name;
        if i + 1 < args.len() {
            Some(args[i + 1])
        } else {
            None
        }
    } else {
        None
    }
}

/// A number from an optional argument, or a default.
pub open spec fn number_or(a: Option<Seq<char>>, max: nat, default: nat) -> nat {
    match a {
        Some(s) => match parse_unsigned_spec(s, max) {
            Some(v) => v,
            None => default,
        },
        None => default,
    }
}

/// The command the arguments (without the program name) select. Flags are
/// recognised wherever they appear; the first non-flag argument selects the
/// mode.
pub open spec fn command_for(args: Seq<Seq<char>>, c: Command) -> bool {
    let arg1 = positional_at(args, 0);
    if has_arg(args, "--emit-iconset"@) {
        c matches Command::EmitIconset(dir) && dir@ == match value_after(args, "--emit-iconset"@) {
            Some(d) => d,
            None => "Annex.iconset"@,
        }
    } else if has_arg(args, "--help"@) || has_arg(args, "-h"@) || arg1 == "help"@ {
        c is Help
    } else if arg1.len() == 0 || arg1 == "mirror"@ || arg1 == "extend"@ {
        c == Command::Run(
            Options {
                extend: arg1 != "mirror"@,
                allow_input: has_arg(args, "--input"@),
                port: number_or(value_after(args, "--port"@), u16::MAX as nat, 8787) as u16,
                ..default_options()
            },
        )
    } else if arg1 == "m1"@ {
        c == Command::M1 {
            frames: number_or(Some(positional_at(args, 1)), usize::MAX as nat, 10) as usize,
            scale: number_or(Some(positional_at(args, 2)), u32::MAX as nat, 1) as u32,
        }
    } else if arg1 == "m2"@ {
        c == Command::M2 { frames: number_or(Some(positional_at(args, 1)), usize::MAX as nat, 60) as usize }
    } else if arg1 == "m3"@ {
        c == Command::M3 {
            use_virtual: positional_at(args, 1) == "virtual"@,
            port: number_or(Some(positional_at(args, 1)), u16::MAX as nat, 8787) as u16,
        }
    } else if arg1 != "m0"@ {
        c matches Command::Unknown(a) && a@ == arg1
    } else {
        c == Command::M0 { hold_secs: number_or(Some(positional_at(args, 1)), u64::MAX as nat, 20) as u64 }
    }
}

proof fn lemma_digit_char_value(d: nat)
    requires
        d < 10,
    ensures
        digit_value(digit_char(d)) == Some(d),
{
    if d == 0 {
    } else if d == 1 {
    } else if d == 2 {
    } else if d == 3 {
    } else if d == 4 {
    } else if d == 5 {
    } else if d == 6 {
    } else if d == 7 {
    } else if d == 8 {
    } else {
        assert(d == 9);
    }
}

/// The decimal digits of a number parse back to it.
proof fn lemma_decimal_parses(v: nat)
    ensures
        decimal(v).len() > 0,
        all_digits(decimal(v)),
        digits_value(decimal(v)) == v,
    decreases v,
{
    if v < 10 {
        lemma_digit_char_value(v);
        let d = decimal(v);
        assert(v % 16 == v);
        assert(d == seq![digit_char(v)]);
        assert(d.drop_last() =~= Seq::<char>::empty());
        assert(digits_value(d.drop_last()) == 0);
        assert(d.last() == digit_char(v));
        assert(digits_value(d) == 0 * 10 + v);
    } else {
        assert(v / 10 < v);
        lemma_decimal_parses(v / 10);
        lemma_digit_char_value(v % 10);
        let d = decimal(v);
        assert(d == digits(v / 10, 10).push(digit_char(v % 10)));
        assert(d.drop_last() =~= decimal(v / 10));
        assert forall|i: int| 0 <= i < d.len() implies #[trigger] digit_value(d[i]) is Some by {
            if i < d.len() - 1 {
                assert(d[i] == decimal(v / 10)[i]);
            }
        }
        assert(d.last() == digit_char(v % 10));
        assert(digits_value(d) == digits_value(decimal(v / 10)) * 10 + v % 10);
        assert(v == (v / 10) * 10 + v % 10);
    }
}

proof fn lemma_absent_of_three(args: Seq<Seq<char>>, name: Seq<char>)
    requires
        args.len() == 3,
        args[0] != name,
        args[1] != name,
        args[2] != name,
    ensures
        !has_arg(args, name),
{
    assert forall|i: int| 0 <= i < args.len() implies #[trigger] args[i] != name by {
        if i == 0 {
        } else if i == 1 {
        } else {
        }
    }
}

/// Any port the `u16` type holds can be chosen on the command line:
/// `mirror --port <p>` or `extend --port <p>`, with `p` in decimal, runs the
/// application on port `p`, mirroring or extending, with input off and the
/// other options at their defaults.
pub proof fn lemma_port_flag_sets_port(mode: Seq<char>, p: u16, c: Command)
    requires
        mode == "mirror"@ || mode == "extend"@,
        command_for(seq![mode, "--port"@, decimal(p as nat)], c),
    ensures
        c == Command::Run(Options { extend: mode == "extend"@, port: p, ..default_options() }),
{
    reveal_strlit("mirror");
    reveal_strlit("extend");
    reveal_strlit("--port");
    reveal_strlit("--emit-iconset");
    reveal_strlit("--help");
    reveal_strlit("-h");
    reveal_strlit("help");
    reveal_strlit("--input");
    reveal_strlit("m1");
    let v = decimal(p as nat);
    lemma_decimal_parses(p as nat);
    assert(digit_value(v[0]) is Some);
    assert(v[0] != '-' && v[0] != '+');
    let args = seq![mode, "--port"@, v];
    assert(args[0] == mode && args[1] == "--port"@ && args[2] == v);
    // No argument is any of the other flags: each of those starts with `-`,
    // and `--port` differs from `--help` in its third character.
    assert("--emit-iconset"@[0] == '-' && "--help"@[0] == '-' && "-h"@[0] == '-' && "--input"@[0] == '-');
    assert("--port"@.len() == 6 && "--port"@[2] == 'p' && "--help"@[2] == 'h');
    assert("--emit-iconset"@.len() == 14 && "-h"@.len() == 2 && "--input"@.len() == 7);
    assert(mode[0] != '-');
    assert(v[0] != '-');
    lemma_absent_of_three(args, "--emit-iconset"@);
    assert(args[1][2] != "--help"@[2]);
    lemma_absent_of_three(args, "--help"@);
    lemma_absent_of_three(args, "-h"@);
    lemma_absent_of_three(args, "--input"@);
    assert(!has_arg(args, "--emit-iconset"@));
    assert(!has_arg(args, "--help"@));
    assert(!has_arg(args, "-h"@));
    assert(!has_arg(args, "--input"@));
    // The positional arguments are the mode and the port's digits.
    assert(!is_flag(mode));
    assert(is_flag("--port"@));
    assert(!is_flag(v));
    assert(args.drop_last() =~= seq![mode, "--port"@]);
    assert(seq![mode, "--port"@].drop_last() =~= seq![mode]);
    assert(seq![mode].drop_last() =~= Seq::<Seq<char>>::empty());
    reveal_with_fuel(positionals, 4);
    assert(positionals(args) =~= seq![mode, v]);
    assert(positional_at(args, 0) == mode);
    // The value after `--port` is the port's digits.
    assert(has_arg(args, "--port"@));
    assert(args[0] != "--port"@);
    assert(args[2] != "--port"@) by {
        assert(v[0] != "--port"@[0]);
    }
    let k = choose|k: int|
        0 <= k < args.len() && #[trigger] args[k] == "--port"@ && forall|j: int| 0 <= j < k ==> args[j] != "--port"@;
    assert(0 <= k < args.len() && args[k] == "--port"@ && forall|j: int| 0 <= j < k ==> args[j] != "--port"@) by {
        assert(forall|j: int| 0 <= j < 1 ==> args[j] != "--port"@);
    }
    assert(k == 1);
    assert(value_after(args, "--port"@) == Some(v));
    assert(unsigned_body(v) == v);
    assert(parse_unsigned_spec(v, u16::MAX as nat) == Some(p as nat));
    assert(mode != "help"@);
    assert(mode.len() != 0);
}

/// The views of a list of arguments.
pub open spec fn arg_views(args: Seq<String>) -> Seq<Seq<char>> {
    args.map_values(|a: String| a@)
}

fn has_flag(args: &[String], name: &str) -> (r: bool)
    ensures
        r == has_arg(arg_views(args@), name@),
{
    let ghost av = arg_views(args@);
    let mut i: usize = 0;
    while i < args.len()
        invariant
            i <= args.len(),
            av == arg_views(args@),
            forall|j: int| 0 <= j < i ==> #[trigger] av[j] != name@,
        decreases args.len() - i,
    {
        if str_eq(args[i].as_str(), name) {
            proof {
                assert(av[i as int] == name@);
            }
            return true;
        }
        i += 1;
    }
    false
}

fn arg_value(args: &[String], name: &str) -> (r: Option<String>)
    ensures
        match r {
            Some(v) => value_after(arg_views(args@), name@) == Some(v@),
            None => value_after(arg_views(args@), name@) is None,
        },
{
    let ghost av = arg_views(args@);
    let mut i: usize = 0;
    while i < args.len()
        invariant
            i <= args.len(),
            av == arg_views(args@),
            forall|j: int| 0 <= j < i ==> #[trigger] av[j] != name@,
        decreases args.len() - i,
    {
        if str_eq(args[i].as_str(), name) {
            proof {
                assert(av[i as int] == name@);
                let k = choose|k: int|
                    0 <= k < av.len() && #[trigger] av[k] == name@ && forall|j: int| 0 <= j < k ==> av[j] != name@;
                if k < i {
                } else if k > i {
                    assert(av[i as int] != name@);
                }
                assert(k == i);
            }
            if i + 1 < args.len() {
                return Some(args[i + 1].clone());
            } else {
                return None;
            }
        }
        i += 1;
    }
    None
}

fn positional_args(args: &[String]) -> (r: Vec<String>)
    ensures
        arg_views(r@) == positionals(arg_views(args@)),
{
    let ghost av = arg_views(args@);
    let mut out: Vec<String> = Vec::new();
    let mut i: usize = 0;
    while i < args.len()
        invariant
            i <= args.len(),
            av == arg_views(args@),
            arg_views(out@) == positionals(av.take(i as int)),
        decreases args.len() - i,
    {
        let v = chars_of(args[i].as_str());
        let flag = v.len() >= 2 && v[0] == '-' && v[1] == '-';
        let ghost before = out@;
        proof {
            let t = av.take(i + 1);
            assert(t.drop_last() =~= av.take(i as int));
            assert(t.last() == args@[i as int]@);
        }
        if !flag {
            out.push(args[i].clone());
            proof {
                assert(arg_views(out@) =~= arg_views(before).push(args@[i as int]@));
            }
        }
        i += 1;
    }
    proof {
        assert(av.take(i as int) =~= av);
    }
    out
}

fn positional_or_empty(pos: &Vec<String>, k: usize) -> (r: String)
    ensures
        r@ == if k < pos@.len() {
            pos@[k as int]@
        } else {
            Seq::<char>::empty()
        },
{
    if k < pos.len() {
        pos[k].clone()
    } else {
        String::new()
    }
}

fn number_arg(a: &str, max: u64, default: u64) -> (r: u64)
    requires
        default <= max,
    ensures
        r as nat == number_or(Some(a@), max as nat, default as nat),
{
    match parse_unsigned(a, max) {
        Some(v) => v,
        None => default,
    }
}

/// Decides what the command line asks for, from the arguments after the
/// program name.
pub fn parse_command(args: &[String]) -> (c: Command)
    ensures
        command_for(arg_views(args@), c),
{
    let ghost av = arg_views(args@);
    let pos = positional_args(args);
    let arg1 = positional_or_empty(&pos, 0);
    proof {
        assert(arg1@ == positional_at(av, 0)) by {
            if 0 < pos@.len() {
                assert(arg_views(pos@)[0] == pos@[0]@);
            }
        }
    }
    if has_flag(args, "--emit-iconset") {
        let dir = match arg_value(args, "--emit-iconset") {
            Some(d) => d,
            None => String::from_str("Annex.iconset"),
        };
        return Command::EmitIconset(dir);
    }
    if has_flag(args, "--help") || has_flag(args, "-h") || str_eq(arg1.as_str(), "help") {
        return Command::Help;
    }
    proof {
        reveal_strlit("");
    }
    if arg1.as_str().is_empty() || str_eq(arg1.as_str(), "mirror") || str_eq(arg1.as_str(), "extend") {
        let port = match arg_value(args, "--port") {
            Some(v) => number_arg(v.as_str(), 65535, 8787),
            None => 8787,
        };
        let opts = Options {
            extend: !str_eq(arg1.as_str(), "mirror"),
            allow_input: has_flag(args, "--input"),
            port: port as u16,
            ..Default::default()
        };
        return Command::Run(opts);
    }
    let second = positional_or_empty(&pos, 1);
    proof {
        assert(second@ == positional_at(av, 1)) by {
            if 1 < pos@.len() {
                assert(arg_views(pos@)[1] == pos@[1]@);
            }
        }
    }
    if str_eq(arg1.as_str(), "m1") {
        let third = positional_or_empty(&pos, 2);
        proof {
            assert(third@ == positional_at(av, 2)) by {
                if 2 < pos@.len() {
                    assert(arg_views(pos@)[2] == pos@[2]@);
                }
            }
        }
        let frames = number_arg(second.as_str(), usize::MAX as u64, 10);
        let scale = number_arg(third.as_str(), u32::MAX as u64, 1);
        return Command::M1 { frames: frames as usize, scale: scale as u32 };
    }
    if str_eq(arg1.as_str(), "m2") {
        let frames = number_arg(second.as_str(), usize::MAX as u64, 60);
        return Command::M2 { frames: frames as usize };
    }
    if str_eq(arg1.as_str(), "m3") {
        let port = number_arg(second.as_str(), 65535, 8787);
        return Command::M3 { use_virtual: str_eq(second.as_str(), "virtual"), port: port as u16 };
    }
    if !str_eq(arg1.as_str(), "m0") {
        return Command::Unknown(arg1);
    }
    let hold = number_arg(second.as_str(), u64::MAX, 20);
    Command::M0 { hold_secs: hold }
}

/// The usage text.
pub fn help_text() -> (t: &'static str)
    ensures
        t@ == "\
Annex: turn any laptop on your network into a second monitor for this Mac.

USAGE
  annex                    create a new desktop and stream it (the normal use)
  annex mirror             stream this screen instead of adding a desktop
  annex help               show this

OPTIONS
  --port <n>               listen on this port (default 8787)
  --input                  let clients control this Mac's cursor and keyboard.
                           Off by default. Needs the Accessibility permission,
                           and the menu bar shows when it is on.

DIAGNOSTICS
  Each isolates one layer, which is what you want when something breaks.

  annex m0 [seconds]       create a virtual display, hold, remove it
  annex m1 [frames] [x]    capture the virtual display to PNG
  annex m2 [frames]        encode to H.264, write out.h264
  annex m3 [virtual|port]  stream over WebRTC without the menu bar app

The URL printed at startup carries a one-time access token. Anyone on this
network who has it can see this screen."@,
{
    "\
Annex: turn any laptop on your network into a second monitor for this Mac.

USAGE
  annex                    create a new desktop and stream it (the normal use)
  annex mirror             stream this screen instead of adding a desktop
  annex help               show this

OPTIONS
  --port <n>               listen on this port (default 8787)
  --input                  let clients control this Mac's cursor and keyboard.
                           Off by default. Needs the Accessibility permission,
                           and the menu bar shows when it is on.

DIAGNOSTICS
  Each isolates one layer, which is what you want when something breaks.

  annex m0 [seconds]       create a virtual display, hold, remove it
  annex m1 [frames] [x]    capture the virtual display to PNG
  annex m2 [frames]        encode to H.264, write out.h264
  annex m3 [virtual|port]  stream over WebRTC without the menu bar app

The URL printed at startup carries a one-time access token. Anyone on this
network who has it can see this screen."
}

} // verus!
