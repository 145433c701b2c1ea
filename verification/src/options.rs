//! Command-line options: an optional screenshot path, an optional walk of
//! `U`/`D`/`L`/`R` steps replayed before the screenshot, and an optional
//! remote-control port; plus the frame schedule of a screenshot run.
use vstd::prelude::*;
use crate::text::chars_of;

verus! {

/// The default port of the remote-control endpoint.
pub const DEFAULT_AGENT_PORT: u16 = 15702;

/// Every character is an ASCII digit.
pub open spec fn all_digits(s: Seq<char>) -> bool {
    forall|i: int| 0 <= i < s.len() ==> '0' <= #[trigger] s[i] <= '9'
}

/// The decimal value of a digit string.
pub open spec fn digits_value(s: Seq<char>) -> int
    decreases s.len(),
{
    if s.len() == 0 {
        0
    } else {
        digits_value(s.drop_last()) * 10 + (s.last() as int - '0' as int)
    }
}

/// A port number as `u16`'s `FromStr` reads it: an optional leading `+`,
/// then one or more decimal digits whose value fits in 16 bits.
pub open spec fn spec_parse_port(s: Seq<char>) -> Option<u16> {
    let d = if s.len() > 0 && s[0] == '+' { s.skip(1) } else { s };
    if d.len() > 0 && all_digits(d) && digits_value(d) <= 65535 {
        Some(digits_value(d) as u16)
    } else {
        None
    }
}

proof fn lemma_digits_value_grows(s: Seq<char>, n: int)
    requires
        all_digits(s),
        0 <= n <= s.len(),
    ensures
        0 <= digits_value(s.take(n)) <= digits_value(s),
    decreases s.len() - n,
{
    if n < s.len() {
        lemma_digits_value_grows(s, n + 1);
        assert(s.take(n + 1).drop_last() == s.take(n));
        assert('0' <= s[n] <= '9');
    } else {
        assert(s.take(n) == s);
    }
    lemma_digits_value_nonneg(s.take(n));
}

proof fn lemma_digits_value_nonneg(s: Seq<char>)
    requires
        all_digits(s),
    ensures
        digits_value(s) >= 0,
    decreases s.len(),
{
    if s.len() > 0 {
        assert(all_digits(s.drop_last()));
        lemma_digits_value_nonneg(s.drop_last());
        assert('0' <= s[s.len() - 1] <= '9');
    }
}

/// Read a port number from an argument.
pub fn parse_port(arg: &str) -> (r: Option<u16>)
    ensures
        r == spec_parse_port(arg@),
{
    let chars = chars_of(arg);
    let start: usize = if chars.len() > 0 && chars[0] == '+' { 1 } else { 0 };
    let ghost d = if arg@.len() > 0 && arg@[0] == '+' { arg@.skip(1) } else { arg@ };
    proof {
        assert(chars@.skip(start as int) == d);
    }
    if start >= chars.len() {
        return None;
    }
    let mut value: u32 = 0;
    let mut i: usize = start;
    while i < chars.len()
        invariant
            start <= i <= chars@.len(),
            start < chars@.len(),
            chars@ == arg@,
            d == (if arg@.len() > 0 && arg@[0] == '+' { arg@.skip(1) } else { arg@ }),
            d == chars@.skip(start as int),
            all_digits(d.take(i - start)),
            value == digits_value(d.take(i - start)),
            value <= 65535,
        decreases chars@.len() - i,
    {
        let c = chars[i];
        proof {
            assert(d[i - start] == c);
            assert(d.take(i - start + 1).drop_last() == d.take(i - start));
            assert(d.take(i - start + 1).last() == c);
        }
        if !('0' <= c && c <= '9') {
            proof {
                assert(!all_digits(d)) by {
                    assert(d[i - start] == c);
                }
            }
            return None;
        }
        let digit: u32 = (c as u32) - ('0' as u32);
        let next: u32 = value * 10 + digit;
        proof {
            assert(all_digits(d.take(i - start + 1))) by {
                assert forall|j: int| 0 <= j < d.take(i - start + 1).len() implies
                    '0' <= #[trigger] d.take(i - start + 1)[j] <= '9' by {
                    if j < i - start {
                        assert(d.take(i - start + 1)[j] == d.take(i - start)[j]);
                    }
                }
            }
        }
        if next > 65535 {
            proof {
                if all_digits(d) {
                    lemma_digits_value_grows(d, i - start + 1);
                }
            }
            return None;
        }
        value = next;
        i += 1;
    }
    proof {
        assert(d.take(i - start) == d);
    }
    Some(value as u16)
}

/// Why the command line was refused.
#[derive(Clone, Copy, Debug, PartialEq, Eq, Structural)]
pub enum OptionsError {
    ScreenshotPathMissing,
    WalkStepsMissing,
    PortMissing,
    PortInvalid,
    Usage,
    WalkWithoutScreenshot,
    InvalidWalkStep,
}

impl OptionsError {
    /// The message the program stops with.
    pub fn message(&self) -> (r: &'static str)
        ensures
            r@ == match self {
                OptionsError::ScreenshotPathMissing => "--screenshot requires an output PNG path"@,
                OptionsError::WalkStepsMissing => "--walk requires UDLR steps"@,
                OptionsError::PortMissing => "--remote-port requires a port number"@,
                OptionsError::PortInvalid => "--remote-port must be a valid u16"@,
                OptionsError::Usage =>
                    "usage: pav_ecs_game [--remote | --remote-port PORT] [--screenshot OUTPUT.png [--walk UDLR...]]"@,
                OptionsError::WalkWithoutScreenshot => "--walk requires --screenshot"@,
                OptionsError::InvalidWalkStep => "walk steps must be U, D, L, or R"@,
            },
    {
        match self {
            OptionsError::ScreenshotPathMissing => "--screenshot requires an output PNG path",
            OptionsError::WalkStepsMissing => "--walk requires UDLR steps",
            OptionsError::PortMissing => "--remote-port requires a port number",
            OptionsError::PortInvalid => "--remote-port must be a valid u16",
            OptionsError::Usage =>
                "usage: pav_ecs_game [--remote | --remote-port PORT] [--screenshot OUTPUT.png [--walk UDLR...]]",
            OptionsError::WalkWithoutScreenshot => "--walk requires --screenshot",
            OptionsError::InvalidWalkStep => "walk steps must be U, D, L, or R",
        }
    }
}

/// The options of a run.
#[derive(Debug)]
pub struct Options {
    pub capture: Option<String>,
    pub walk: String,
    pub remote_port: Option<u16>,
}

/// The options as plain values: screenshot path, walk, remote port.
pub type OptionsView = (Option<Seq<char>>, Seq<char>, Option<u16>);

pub open spec fn opt_view(o: Option<String>) -> Option<Seq<char>> {
    match o {
        Some(s) => Some(s@),
        None => None,
    }
}

impl Options {
    pub open spec fn view_of(&self) -> OptionsView {
        (opt_view(self.capture), self.walk@, self.remote_port)
    }
}

pub open spec fn args_view(args: Seq<String>) -> Seq<Seq<char>> {
    Seq::new(args.len(), |i: int| args[i]@)
}

/// Scan the arguments from `i` on, with what was read so far. Each option
/// may be given once; `--screenshot`, `--walk` and `--remote-port` take the
/// next argument as their value.
pub open spec fn scan(args: Seq<Seq<char>>, i: int, capture: Option<Seq<char>>, walk: Option<Seq<char>>, port: Option<u16>)
    -> Result<(Option<Seq<char>>, Option<Seq<char>>, Option<u16>), OptionsError>
    decreases args.len() - i,
{
    if i < 0 || i >= args.len() {
        Ok((capture, walk, port))
    } else if args[i] == "--screenshot"@ && capture is None {
        if i + 1 < args.len() {
            scan(args, i + 2, Some(args[i + 1]), walk, port)
        } else {
            Err(OptionsError::ScreenshotPathMissing)
        }
    } else if args[i] == "--walk"@ && walk is None {
        if i + 1 < args.len() {
            scan(args, i + 2, capture, Some(args[i + 1]), port)
        } else {
            Err(OptionsError::WalkStepsMissing)
        }
    } else if args[i] == "--remote"@ && port is None {
        scan(args, i + 1, capture, walk, Some(DEFAULT_AGENT_PORT))
    } else if args[i] == "--remote-port"@ && port is None {
        if i + 1 < args.len() {
            match spec_parse_port(args[i + 1]) {
                Some(p) => scan(args, i + 2, capture, walk, Some(p)),
                None => Err(OptionsError::PortInvalid),
            }
        } else {
            Err(OptionsError::PortMissing)
        }
    } else {
        Err(OptionsError::Usage)
    }
}

/// Every walk step is `U`, `D`, `L` or `R`.
pub open spec fn valid_walk(walk: Seq<char>) -> bool {
    forall|i: int| 0 <= i < walk.len() ==> (#[trigger] walk[i] == 'U' || walk[i] == 'D' || walk[i] == 'L' || walk[i] == 'R')
}

/// The options of a command line (the arguments after the program name):
/// a walk needs a screenshot, and only `U`, `D`, `L`, `R` steps.
pub open spec fn spec_parse_options(args: Seq<Seq<char>>) -> Result<OptionsView, OptionsError> {
    match scan(args, 0, None, None, None) {
        Err(e) => Err(e),
        Ok((capture, walk, port)) => {
            let w = match walk { Some(w) => w, None => Seq::<char>::empty() };
            if capture is None && w.len() > 0 {
                Err(OptionsError::WalkWithoutScreenshot)
            } else if !valid_walk(w) {
                Err(OptionsError::InvalidWalkStep)
            } else {
                Ok((capture, w, port))
            }
        },
    }
}

fn is_flag(arg: &String, flag: &str) -> (r: bool)
    ensures
        r == (arg@ == flag@),
{
    let f = flag.to_owned();
    *arg == f
}

/// Read the command line.
pub fn parse_options(args: &Vec<String>) -> (r: Result<Options, OptionsError>)
    ensures
        match r {
            Ok(o) => spec_parse_options(args_view(args@)) == Ok::<OptionsView, OptionsError>(o.view_of()),
            Err(e) => spec_parse_options(args_view(args@)) == Err::<OptionsView, OptionsError>(e),
        },
{
    let ghost av = args_view(args@);
    let mut capture: Option<String> = None;
    let mut walk: Option<String> = None;
    let mut port: Option<u16> = None;
    let mut i: usize = 0;
    while i < args.len()
        invariant
            av == args_view(args@),
            i <= args@.len() + 1,
            scan(av, 0, None, None, None) == scan(av, i as int, opt_view(capture), opt_view(walk), port),
        decreases args@.len() + 1 - i,
    {
        let arg = &args[i];
        proof {
            assert(av[i as int] == arg@);
        }
        if capture.is_none() && is_flag(arg, "--screenshot") {
            if i + 1 < args.len() {
                proof { assert(av[i + 1] == args@[i + 1]@); }
                capture = Some(args[i + 1].clone());
                i += 2;
            } else {
                return Err(OptionsError::ScreenshotPathMissing);
            }
        } else if walk.is_none() && is_flag(arg, "--walk") {
            if i + 1 < args.len() {
                proof { assert(av[i + 1] == args@[i + 1]@); }
                walk = Some(args[i + 1].clone());
                i += 2;
            } else {
                return Err(OptionsError::WalkStepsMissing);
            }
        } else if port.is_none() && is_flag(arg, "--remote") {
            port = Some(DEFAULT_AGENT_PORT);
            i += 1;
        } else if port.is_none() && is_flag(arg, "--remote-port") {
            if i + 1 < args.len() {
                proof { assert(av[i + 1] == args@[i + 1]@); }
                match parse_port(args[i + 1].as_str()) {
                    Some(p) => {
                        port = Some(p);
                        i += 2;
                    },
                    None => {
                        return Err(OptionsError::PortInvalid);
                    },
                }
            } else {
                return Err(OptionsError::PortMissing);
            }
        } else {
            return Err(OptionsError::Usage);
        }
    }
    let walk = match walk {
        Some(w) => w,
        None => String::new(),
    };
    if capture.is_none() && !walk.as_str().is_empty() {
        return Err(OptionsError::WalkWithoutScreenshot);
    }
    if !walk_is_valid(walk.as_str()) {
        return Err(OptionsError::InvalidWalkStep);
    }
    Ok(Options { capture, walk, remote_port: port })
}

/// Whether every walk step is `U`, `D`, `L` or `R`.
pub fn walk_is_valid(walk: &str) -> (r: bool)
    ensures
        r == valid_walk(walk@),
{
    let chars = chars_of(walk);
    let mut i: usize = 0;
    while i < chars.len()
        invariant
            chars@ == walk@,
            i <= chars@.len(),
            forall|j: int| 0 <= j < i ==> (#[trigger] chars@[j] == 'U' || chars@[j] == 'D' || chars@[j] == 'L' || chars@[j] == 'R'),
        decreases chars@.len() - i,
    {
        let c = chars[i];
        if !(c == 'U' || c == 'D' || c == 'L' || c == 'R') {
            return false;
        }
        i += 1;
    }
    true
}

/// Frames between replayed walk steps.
pub const CAPTURE_STEP_FRAMES: u32 = 8;

/// The walk step replayed on a frame of a screenshot run: one step every
/// `CAPTURE_STEP_FRAMES` frames from frame 30 on, while steps remain.
pub open spec fn spec_replay_step(frames: u32, walk_len: nat) -> Option<nat> {
    if frames >= 30 && (frames - 30) % (CAPTURE_STEP_FRAMES as int) == 0
        && ((frames - 30) / (CAPTURE_STEP_FRAMES as int)) < walk_len {
        Some(((frames - 30) / (CAPTURE_STEP_FRAMES as int)) as nat)
    } else {
        None
    }
}

pub fn replay_step(frames: u32, walk_len: usize) -> (r: Option<usize>)
    ensures
        r == match spec_replay_step(frames, walk_len as nat) {
            Some(k) => Some(k as usize),
            None => None::<usize>,
        },
{
    if frames >= 30 && (frames - 30) % CAPTURE_STEP_FRAMES == 0 {
        let k = ((frames - 30) / CAPTURE_STEP_FRAMES) as usize;
        if k < walk_len {
            return Some(k);
        }
    }
    None
}

/// The screenshot is taken once the walk has been replayed and the frame
/// has settled: at frame `120 + CAPTURE_STEP_FRAMES * walk_len`.
pub fn capture_due(frames: u32, walk_len: usize) -> (r: bool)
    requires
        120 + 8 * walk_len <= u32::MAX,
    ensures
        r == (frames == 120 + 8 * walk_len),
{
    frames == 120 + CAPTURE_STEP_FRAMES * (walk_len as u32)
}

} // verus!
