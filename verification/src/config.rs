//! The server's command line.
//!
//! Options come in pairs, a flag and its value; the last value of a flag counts.
//! [`configured`] is what an argument list comes to.

use vstd::prelude::*;

use crate::text::{
    chars_of, decimal, law_decimal_round_trip, law_numbers_are_read_as_written, parse_int,
    push_decimal, same, signed_decimal, spelled_int,
};

verus! {

pub const DEFAULT_LISTEN: &'static str = "0.0.0.0:19999";

pub const DEFAULT_METRICS_LISTEN: &'static str = "0.0.0.0:9100";

pub const DEFAULT_LEVEL: i32 = 3;

pub const DEFAULT_WINDOW_LOG: u32 = 23;

pub const DEFAULT_MAX_PAYLOAD: usize = 8388608;

pub const DEFAULT_GC_SECS: u64 = 600;

/// Absolute ceiling for one wire message and for `raw_size` allocations;
/// anything beyond is treated as a broken/hostile peer. `--max-payload` is
/// validated not to exceed this; a request within that limit is taken even where
/// its header brings it above the ceiling.
pub const HARD_CAP: usize = 67108864;

/// How the server is set up.
#[derive(Debug)]
pub struct Config {
    /// Listen address, as given.
    pub listen: String,
    /// Prometheus metrics endpoint, as given; `None` disables the HTTP listener.
    pub metrics_listen: Option<String>,
    pub threads: usize,
    pub level: i32,
    pub window_log: u32,
    pub max_payload: usize,
    pub gc_secs: u64,
}

/// What a [`Config`] says.
pub ghost struct Setup {
    pub listen: Seq<char>,
    pub metrics_listen: Option<Seq<char>>,
    pub threads: int,
    pub level: int,
    pub window_log: int,
    pub max_payload: int,
    pub gc_secs: int,
}

impl View for Config {
    type V = Setup;

    open spec fn view(&self) -> Setup {
        Setup {
            listen: self.listen@,
            metrics_listen: match self.metrics_listen {
                Some(text) => Some(text@),
                None => None,
            },
            threads: self.threads as int,
            level: self.level as int,
            window_log: self.window_log as int,
            max_payload: self.max_payload as int,
            gc_secs: self.gc_secs as int,
        }
    }
}

impl Clone for Config {
    fn clone(&self) -> (r: Self)
        ensures
            r@ == self@,
    {
        Config {
            listen: self.listen.clone(),
            metrics_listen: match &self.metrics_listen {
                Some(text) => Some(text.clone()),
                None => None,
            },
            threads: self.threads,
            level: self.level,
            window_log: self.window_log,
            max_payload: self.max_payload,
            gc_secs: self.gc_secs,
        }
    }
}

impl Setup {
    /// The setup without any options, for a machine that runs `threads` threads
    /// at once.
    pub open spec fn initial(threads: int) -> Setup {
        Setup {
            listen: DEFAULT_LISTEN@,
            metrics_listen: Some(DEFAULT_METRICS_LISTEN@),
            threads,
            level: DEFAULT_LEVEL as int,
            window_log: DEFAULT_WINDOW_LOG as int,
            max_payload: DEFAULT_MAX_PAYLOAD as int,
            gc_secs: DEFAULT_GC_SECS as int,
        }
    }

    /// Every number is in its range.
    pub open spec fn valid(self) -> bool {
        &&& 1 <= self.threads
        &&& 1 <= self.level <= 22
        &&& 21 <= self.window_log <= 25
        &&& 1 <= self.max_payload <= HARD_CAP
        &&& 1 <= self.gc_secs
    }
}

/// The complaint about a value that cannot be read.
pub open spec fn invalid_value(flag: Seq<char>, value: Seq<char>) -> Seq<char> {
    "invalid value '"@ + value + "' for "@ + flag
}

/// Whether `s` is "off", in any mix of upper and lower case.
pub open spec fn is_off(s: Seq<char>) -> bool {
    &&& s.len() == 3
    &&& (s[0] == 'o' || s[0] == 'O')
    &&& (s[1] == 'f' || s[1] == 'F')
    &&& (s[2] == 'f' || s[2] == 'F')
}

/// The setup after the option `flag` with the value `value`, or the complaint
/// about it. `is_addr` says whether the value is a socket address.
pub open spec fn with_option(
    setup: Setup,
    flag: Seq<char>,
    value: Seq<char>,
    is_addr: bool,
) -> Result<Setup, Seq<char>> {
    if flag == "--listen"@ {
        if is_addr {
            Ok(Setup { listen: value, ..setup })
        } else {
            Err(invalid_value(flag, value))
        }
    } else if flag == "--metrics-listen"@ {
        if is_off(value) {
            Ok(Setup { metrics_listen: None, ..setup })
        } else if is_addr {
            Ok(Setup { metrics_listen: Some(value), ..setup })
        } else {
            Err(invalid_value(flag, value))
        }
    } else if flag == "--threads"@ {
        match spelled_int(value, 0, usize::MAX as int) {
            None => Err(invalid_value(flag, value)),
            Some(n) => if n == 0 {
                Err("--threads must be >= 1"@)
            } else {
                Ok(Setup { threads: n, ..setup })
            },
        }
    } else if flag == "--level"@ {
        match spelled_int(value, i32::MIN as int, i32::MAX as int) {
            None => Err(invalid_value(flag, value)),
            Some(n) => if 1 <= n <= 22 {
                Ok(Setup { level: n, ..setup })
            } else {
                Err("--level must be in 1..=22"@)
            },
        }
    } else if flag == "--window-log"@ {
        match spelled_int(value, 0, u32::MAX as int) {
            None => Err(invalid_value(flag, value)),
            Some(n) => if 21 <= n <= 25 {
                Ok(Setup { window_log: n, ..setup })
            } else {
                Err("--window-log must be in 21..=25"@)
            },
        }
    } else if flag == "--max-payload"@ {
        match spelled_int(value, 0, usize::MAX as int) {
            None => Err(invalid_value(flag, value)),
            Some(n) => if 1 <= n <= HARD_CAP {
                Ok(Setup { max_payload: n, ..setup })
            } else {
                Err("--max-payload must be in 1..="@ + decimal(HARD_CAP as nat))
            },
        }
    } else if flag == "--gc-secs"@ {
        match spelled_int(value, 0, u64::MAX as int) {
            None => Err(invalid_value(flag, value)),
            Some(n) => if n == 0 {
                Err("--gc-secs must be >= 1"@)
            } else {
                Ok(Setup { gc_secs: n, ..setup })
            },
        }
    } else {
        Err("unknown option '"@ + flag + "'"@)
    }
}

/// What the arguments `args` make of `setup`: each pair of them in turn, up to
/// the first complaint. `is_addr` says which arguments are socket addresses.
pub open spec fn configured(setup: Setup, args: Seq<String>, is_addr: Seq<bool>) -> Result<
    Setup,
    Seq<char>,
>
    decreases args.len(),
{
    if args.len() == 0 {
        Ok(setup)
    } else if args.len() == 1 {
        Err("missing value for "@ + args[0]@)
    } else {
        match with_option(setup, args[0]@, args[1]@, is_addr[1]) {
            Ok(next) => configured(next, args.skip(2), is_addr.skip(2)),
            Err(complaint) => Err(complaint),
        }
    }
}

fn invalid(flag: &str, value: &str) -> (text: String)
    ensures
        text@ == invalid_value(flag@, value@),
{
    let mut text: String = "invalid value '".to_owned();
    text.append(value);
    text.append("' for ");
    text.append(flag);
    text
}

fn names_off(s: &str) -> (r: bool)
    ensures
        r == is_off(s@),
{
    let c = chars_of(s);
    c.len() == 3 && (c[0] == 'o' || c[0] == 'O') && (c[1] == 'f' || c[1] == 'F') && (c[2] == 'f'
        || c[2] == 'F')
}

/// Reads the value of `flag` as an integer from `min` up to `max`.
fn parse_val(flag: &str, value: &str, min: i128, max: i128) -> (r: Result<i128, String>)
    requires
        -0x1_0000_0000_0000_0000 <= min <= 0,
        0 <= max <= 0x1_0000_0000_0000_0000,
    ensures
        r is Ok == spelled_int(value@, min as int, max as int) is Some,
        r matches Ok(n) ==> spelled_int(value@, min as int, max as int) == Some(n as int) && min
            <= n <= max,
        r matches Err(text) ==> text@ == invalid_value(flag@, value@),
{
    match parse_int(value, min, max) {
        Some(n) => Ok(n),
        None => Err(invalid(flag, value)),
    }
}

impl Config {
    /// Applies the option `flag` with the value `value`.
    fn set_option(&mut self, flag: &str, value: &str, is_addr: bool) -> (r: Result<(), String>)
        requires
            old(self)@.valid(),
        ensures
            match with_option(old(self)@, flag@, value@, is_addr) {
                Ok(next) => r is Ok && final(self)@ == next && next.valid(),
                Err(complaint) => r is Err && r->Err_0@ == complaint,
            },
    {
        if same(flag, "--listen") {
            if !is_addr {
                return Err(invalid(flag, value));
            }
            self.listen = value.to_owned();
        } else if same(flag, "--metrics-listen") {
            if names_off(value) {
                self.metrics_listen = None;
            } else if is_addr {
                self.metrics_listen = Some(value.to_owned());
            } else {
                return Err(invalid(flag, value));
            }
        } else if same(flag, "--threads") {
            let n: i128 = match parse_val(flag, value, 0, usize::MAX as i128) {
                Ok(n) => n,
                Err(text) => return Err(text),
            };
            if n == 0 {
                return Err("--threads must be >= 1".to_owned());
            }
            self.threads = n as usize;
        } else if same(flag, "--level") {
            let n: i128 = match parse_val(flag, value, i32::MIN as i128, i32::MAX as i128) {
                Ok(n) => n,
                Err(text) => return Err(text),
            };
            if !(1 <= n && n <= 22) {
                return Err("--level must be in 1..=22".to_owned());
            }
            self.level = n as i32;
        } else if same(flag, "--window-log") {
            let n: i128 = match parse_val(flag, value, 0, u32::MAX as i128) {
                Ok(n) => n,
                Err(text) => return Err(text),
            };
            if !(21 <= n && n <= 25) {
                return Err("--window-log must be in 21..=25".to_owned());
            }
            self.window_log = n as u32;
        } else if same(flag, "--max-payload") {
            let n: i128 = match parse_val(flag, value, 0, usize::MAX as i128) {
                Ok(n) => n,
                Err(text) => return Err(text),
            };
            if n == 0 || n > HARD_CAP as i128 {
                let mut text: String = "--max-payload must be in 1..=".to_owned();
                push_decimal(&mut text, HARD_CAP as u64);
                return Err(text);
            }
            self.max_payload = n as usize;
        } else if same(flag, "--gc-secs") {
            let n: i128 = match parse_val(flag, value, 0, u64::MAX as i128) {
                Ok(n) => n,
                Err(text) => return Err(text),
            };
            if n == 0 {
                return Err("--gc-secs must be >= 1".to_owned());
            }
            self.gc_secs = n as u64;
        } else {
            let mut text: String = "unknown option '".to_owned();
            text.append(flag);
            text.append("'");
            return Err(text);
        }
        Ok(())
    }
}

/// Reads the command line `args`. `is_addr` says of each argument whether it is
/// a socket address; `default_threads` is how many serve threads to run unless
/// told otherwise.
pub fn parse_args(args: &[String], is_addr: &[bool], default_threads: usize) -> (r: Result<
    Config,
    String,
>)
    requires
        is_addr.len() == args.len(),
        default_threads >= 1,
    ensures
        match configured(Setup::initial(default_threads as int), args@, is_addr@) {
            Ok(setup) => r is Ok && r->Ok_0@ == setup && setup.valid(),
            Err(complaint) => r is Err && r->Err_0@ == complaint,
        },
{
    let mut cfg = Config {
        listen: DEFAULT_LISTEN.to_owned(),
        metrics_listen: Some(DEFAULT_METRICS_LISTEN.to_owned()),
        threads: default_threads,
        level: DEFAULT_LEVEL,
        window_log: DEFAULT_WINDOW_LOG,
        max_payload: DEFAULT_MAX_PAYLOAD,
        gc_secs: DEFAULT_GC_SECS,
    };
    let mut i: usize = 0;
    let ghost outcome = configured(Setup::initial(default_threads as int), args@, is_addr@);
    assert(args@.skip(0) =~= args@);
    assert(is_addr@.skip(0) =~= is_addr@);
    while i < args.len()
        invariant
            i <= args.len(),
            is_addr.len() == args.len(),
            cfg@.valid(),
            outcome == configured(Setup::initial(default_threads as int), args@, is_addr@),
            outcome == configured(cfg@, args@.skip(i as int), is_addr@.skip(i as int)),
        decreases args.len() - i,
    {
        let ghost rest = args@.skip(i as int);
        let ghost rest_addr = is_addr@.skip(i as int);
        let flag = args[i].as_str();
        if args.len() - i == 1 {
            let mut text: String = "missing value for ".to_owned();
            text.append(flag);
            return Err(text);
        }
        let value = args[i + 1].as_str();
        if let Err(text) = cfg.set_option(flag, value, is_addr[i + 1]) {
            return Err(text);
        }
        assert(rest.skip(2) =~= args@.skip(i + 2));
        assert(rest_addr.skip(2) =~= is_addr@.skip(i + 2));
        i += 2;
    }
    Ok(cfg)
}

/// Whether the arguments ask for help.
pub fn wants_help(args: &[String]) -> (r: bool)
    ensures
        r == exists|i: int|
            0 <= i < args.len() && ((#[trigger] args@[i])@ == "--help"@ || args@[i]@ == "-h"@),
{
    let mut i: usize = 0;
    while i < args.len()
        invariant
            i <= args.len(),
            forall|k: int| 0 <= k < i ==> (#[trigger] args@[k])@ != "--help"@ && args@[k]@ != "-h"@,
        decreases args.len() - i,
    {
        if same(args[i].as_str(), "--help") || same(args[i].as_str(), "-h") {
            return true;
        }
        i += 1;
    }
    false
}

/// The help text.
pub open spec fn usage_text() -> Seq<char> {
    "neb-zstd-server — remote zstd offload server for NotEnoughBandwidth (UCX/RoCE)

USAGE:
    neb-zstd-server [OPTIONS]

OPTIONS:
    --listen ADDR:PORT   Listen address (default: "@ + DEFAULT_LISTEN@ + ")
    --metrics-listen ADDR:PORT
                         Prometheus metrics endpoint serving GET /metrics
                         (default: "@ + DEFAULT_METRICS_LISTEN@ + ", \"off\" to disable)
    --threads N          Serve worker threads (default: available parallelism)
    --level N            zstd compression level, 1..=22 (default: "@ + decimal(
        DEFAULT_LEVEL as nat,
    ) + ")
    --window-log N       zstd window log, 21..=25 (default: "@ + decimal(DEFAULT_WINDOW_LOG as nat)
        + ")
    --max-payload BYTES  Largest accepted request payload (default: "@ + decimal(
        DEFAULT_MAX_PAYLOAD as nat,
    ) + ",
                         hard cap "@ + decimal(HARD_CAP as nat) + ")
    --gc-secs SECONDS    Drop per-connection contexts idle this long (default: "@ + decimal(
        DEFAULT_GC_SECS as nat,
    ) + ")
    --help               Print this help"@
}

/// The help text.
pub fn usage() -> (text: String)
    ensures
        text@ == usage_text(),
{
    let mut text: String = "neb-zstd-server — remote zstd offload server for NotEnoughBandwidth (UCX/RoCE)

USAGE:
    neb-zstd-server [OPTIONS]

OPTIONS:
    --listen ADDR:PORT   Listen address (default: ".to_owned();
    text.append(DEFAULT_LISTEN);
    text.append(")
    --metrics-listen ADDR:PORT
                         Prometheus metrics endpoint serving GET /metrics
                         (default: ");
    text.append(DEFAULT_METRICS_LISTEN);
    text.append(", \"off\" to disable)
    --threads N          Serve worker threads (default: available parallelism)
    --level N            zstd compression level, 1..=22 (default: ");
    push_decimal(&mut text, DEFAULT_LEVEL as u64);
    text.append(")
    --window-log N       zstd window log, 21..=25 (default: ");
    push_decimal(&mut text, DEFAULT_WINDOW_LOG as u64);
    text.append(")
    --max-payload BYTES  Largest accepted request payload (default: ");
    push_decimal(&mut text, DEFAULT_MAX_PAYLOAD as u64);
    text.append(",
                         hard cap ");
    push_decimal(&mut text, HARD_CAP as u64);
    text.append(")
    --gc-secs SECONDS    Drop per-connection contexts idle this long (default: ");
    push_decimal(&mut text, DEFAULT_GC_SECS);
    text.append(")
    --help               Print this help");
    text
}

/// Arguments are read pair by pair: what a list of whole pairs and then another
/// list come to is what the second list makes of what the first came to.
pub proof fn law_arguments_are_read_in_order(
    setup: Setup,
    first: Seq<String>,
    first_is_addr: Seq<bool>,
    then: Seq<String>,
    then_is_addr: Seq<bool>,
)
    requires
        first.len() % 2 == 0,
        first_is_addr.len() == first.len(),
    ensures
        configured(setup, first + then, first_is_addr + then_is_addr) == (match configured(
            setup,
            first,
            first_is_addr,
        ) {
            Ok(next) => configured(next, then, then_is_addr),
            Err(complaint) => Err(complaint),
        }),
    decreases first.len(),
{
    if first.len() == 0 {
        assert(first + then =~= then);
        assert(first_is_addr + then_is_addr =~= then_is_addr);
    } else {
        assert((first + then).skip(2) =~= first.skip(2) + then);
        assert((first_is_addr + then_is_addr).skip(2) =~= first_is_addr.skip(2) + then_is_addr);
        assert((first + then)[0] == first[0]);
        assert((first + then)[1] == first[1]);
        assert((first_is_addr + then_is_addr)[1] == first_is_addr[1]);
        if let Ok(next) = with_option(setup, first[0]@, first[1]@, first_is_addr[1]) {
            law_arguments_are_read_in_order(
                next,
                first.skip(2),
                first_is_addr.skip(2),
                then,
                then_is_addr,
            );
        }
    }
}

/// Whatever options are given, a setup whose numbers are in range is only ever
/// replaced by one whose numbers are in range.
pub proof fn law_setups_stay_valid(setup: Setup, args: Seq<String>, is_addr: Seq<bool>)
    requires
        setup.valid(),
    ensures
        configured(setup, args, is_addr) matches Ok(next) ==> next.valid(),
    decreases args.len(),
{
    if args.len() >= 2 {
        if let Ok(next) = with_option(setup, args[0]@, args[1]@, is_addr[1]) {
            law_setups_stay_valid(next, args.skip(2), is_addr.skip(2));
        }
    }
}

/// No two options have the same name.
proof fn lemma_options_differ()
    ensures
        "--listen"@.len() == 8,
        "--metrics-listen"@.len() == 16,
        "--threads"@.len() == 9,
        "--level"@.len() == 7,
        "--window-log"@.len() == 12,
        "--max-payload"@.len() == 13,
        "--gc-secs"@.len() == 9,
        "--threads"@ != "--gc-secs"@,
{
    reveal_strlit("--listen");
    reveal_strlit("--metrics-listen");
    reveal_strlit("--threads");
    reveal_strlit("--level");
    reveal_strlit("--window-log");
    reveal_strlit("--max-payload");
    reveal_strlit("--gc-secs");
    assert("--threads"@[2] != "--gc-secs"@[2]);
}

/// A number in its option's range sets that option to just that number and changes
/// nothing else; any other number is refused.
pub proof fn law_numbers_set_their_option(setup: Setup, n: int, is_addr: bool)
    ensures
        ({
            let text = signed_decimal(n);
            let threads = with_option(setup, "--threads"@, text, is_addr);
            let level = with_option(setup, "--level"@, text, is_addr);
            let window_log = with_option(setup, "--window-log"@, text, is_addr);
            let max_payload = with_option(setup, "--max-payload"@, text, is_addr);
            let gc_secs = with_option(setup, "--gc-secs"@, text, is_addr);
            &&& threads is Ok <==> 1 <= n <= usize::MAX
            &&& threads matches Ok(next) ==> next == (Setup { threads: n, ..setup })
            &&& level is Ok <==> 1 <= n <= 22
            &&& level matches Ok(next) ==> next == (Setup { level: n, ..setup })
            &&& window_log is Ok <==> 21 <= n <= 25
            &&& window_log matches Ok(next) ==> next == (Setup { window_log: n, ..setup })
            &&& max_payload is Ok <==> 1 <= n <= 67_108_864
            &&& max_payload matches Ok(next) ==> next == (Setup { max_payload: n, ..setup })
            &&& gc_secs is Ok <==> 1 <= n <= u64::MAX
            &&& gc_secs matches Ok(next) ==> next == (Setup { gc_secs: n, ..setup })
        }),
{
    lemma_options_differ();
    let text = signed_decimal(n);
    let magnitude = (if n < 0 {
        -n
    } else {
        n
    }) as nat;
    law_numbers_are_read_as_written(magnitude, text, 0, usize::MAX as int);
    law_numbers_are_read_as_written(magnitude, text, i32::MIN as int, i32::MAX as int);
    law_numbers_are_read_as_written(magnitude, text, 0, u32::MAX as int);
    law_numbers_are_read_as_written(magnitude, text, 0, u64::MAX as int);
}

/// However a number is spelled, it is the number that counts; what spells none is
/// refused with its text and the option's name.
pub proof fn law_spelling_is_no_matter(setup: Setup, text: Seq<char>, is_addr: bool)
    ensures
        match spelled_int(text, 0, usize::MAX as int) {
            Some(n) => with_option(setup, "--threads"@, text, is_addr) == with_option(
                setup,
                "--threads"@,
                signed_decimal(n),
                is_addr,
            ) && with_option(setup, "--max-payload"@, text, is_addr) == with_option(
                setup,
                "--max-payload"@,
                signed_decimal(n),
                is_addr,
            ),
            None => with_option(setup, "--threads"@, text, is_addr) == Err::<Setup, Seq<char>>(
                "invalid value '"@ + text + "' for "@ + "--threads"@,
            ) && with_option(setup, "--max-payload"@, text, is_addr) == Err::<Setup, Seq<char>>(
                "invalid value '"@ + text + "' for "@ + "--max-payload"@,
            ),
        },
        match spelled_int(text, i32::MIN as int, i32::MAX as int) {
            Some(n) => with_option(setup, "--level"@, text, is_addr) == with_option(
                setup,
                "--level"@,
                signed_decimal(n),
                is_addr,
            ),
            None => with_option(setup, "--level"@, text, is_addr) == Err::<Setup, Seq<char>>(
                "invalid value '"@ + text + "' for "@ + "--level"@,
            ),
        },
        match spelled_int(text, 0, u32::MAX as int) {
            Some(n) => with_option(setup, "--window-log"@, text, is_addr) == with_option(
                setup,
                "--window-log"@,
                signed_decimal(n),
                is_addr,
            ),
            None => with_option(setup, "--window-log"@, text, is_addr) == Err::<Setup, Seq<char>>(
                "invalid value '"@ + text + "' for "@ + "--window-log"@,
            ),
        },
        match spelled_int(text, 0, u64::MAX as int) {
            Some(n) => with_option(setup, "--gc-secs"@, text, is_addr) == with_option(
                setup,
                "--gc-secs"@,
                signed_decimal(n),
                is_addr,
            ),
            None => with_option(setup, "--gc-secs"@, text, is_addr) == Err::<Setup, Seq<char>>(
                "invalid value '"@ + text + "' for "@ + "--gc-secs"@,
            ),
        },
{
    lemma_options_differ();
    if let Some(n) = spelled_int(text, 0, usize::MAX as int) {
        law_decimal_round_trip(n, 0, usize::MAX as int);
    }
    if let Some(n) = spelled_int(text, i32::MIN as int, i32::MAX as int) {
        law_decimal_round_trip(n, i32::MIN as int, i32::MAX as int);
    }
    if let Some(n) = spelled_int(text, 0, u32::MAX as int) {
        law_decimal_round_trip(n, 0, u32::MAX as int);
    }
    if let Some(n) = spelled_int(text, 0, u64::MAX as int) {
        law_decimal_round_trip(n, 0, u64::MAX as int);
    }
}

/// A socket address is kept as given, and anything else is refused, but for "off",
/// in whatever case, which switches the metrics off.
pub proof fn law_addresses_are_kept(setup: Setup, value: Seq<char>, is_addr: bool)
    ensures
        ({
            let listen = with_option(setup, "--listen"@, value, is_addr);
            let metrics = with_option(setup, "--metrics-listen"@, value, is_addr);
            let off = value == seq!['o', 'f', 'f'] || value == seq!['O', 'f', 'f'] || value
                == seq!['o', 'F', 'f'] || value == seq!['O', 'F', 'f'] || value
                == seq!['o', 'f', 'F'] || value == seq!['O', 'f', 'F'] || value
                == seq!['o', 'F', 'F'] || value == seq!['O', 'F', 'F'];
            &&& listen is Ok <==> is_addr
            &&& listen matches Ok(next) ==> next == (Setup { listen: value, ..setup })
            &&& metrics is Ok <==> is_addr || off
            &&& metrics matches Ok(next) ==> next == (Setup {
                metrics_listen: if off {
                    None
                } else {
                    Some(value)
                },
                ..setup
            })
        }),
{
    lemma_options_differ();
    if is_off(value) {
        assert(value =~= seq![value[0], value[1], value[2]]);
    }
}

/// Every option but the seven is refused by its name.
pub proof fn law_other_options_are_refused(
    setup: Setup,
    flag: Seq<char>,
    value: Seq<char>,
    is_addr: bool,
)
    requires
        flag != "--listen"@,
        flag != "--metrics-listen"@,
        flag != "--threads"@,
        flag != "--level"@,
        flag != "--window-log"@,
        flag != "--max-payload"@,
        flag != "--gc-secs"@,
    ensures
        with_option(setup, flag, value, is_addr) == Err::<Setup, Seq<char>>(
            "unknown option '"@ + flag + "'"@,
        ),
{
}

/// Two arguments are an option and its value, one alone is an option that lacks its
/// value, and none leave everything as it was: as many threads as the machine runs.
pub proof fn law_arguments_come_in_pairs(
    setup: Setup,
    args: Seq<String>,
    is_addr: Seq<bool>,
    threads: int,
)
    ensures
        args.len() == 0 ==> configured(setup, args, is_addr) == Ok::<Setup, Seq<char>>(setup),
        args.len() == 1 ==> configured(setup, args, is_addr) == Err::<Setup, Seq<char>>(
            "missing value for "@ + args[0]@,
        ),
        args.len() == 2 ==> configured(setup, args, is_addr) == with_option(
            setup,
            args[0]@,
            args[1]@,
            is_addr[1],
        ),
        Setup::initial(threads).threads == threads,
{
    if args.len() == 2 {
        if let Ok(next) = with_option(setup, args[0]@, args[1]@, is_addr[1]) {
            assert(configured(next, args.skip(2), is_addr.skip(2)) == Ok::<Setup, Seq<char>>(next));
        }
    }
}

/// A setup says just what the configuration holds.
pub proof fn law_setups_say_what_is_configured(cfg: Config)
    ensures
        cfg@.listen == cfg.listen@,
        cfg.metrics_listen matches Some(text) ==> cfg@.metrics_listen == Some(text@),
        cfg.metrics_listen is None ==> cfg@.metrics_listen is None,
        cfg@.threads == cfg.threads,
        cfg@.level == cfg.level,
        cfg@.window_log == cfg.window_log,
        cfg@.max_payload == cfg.max_payload,
        cfg@.gc_secs == cfg.gc_secs,
{
}

} // verus!
