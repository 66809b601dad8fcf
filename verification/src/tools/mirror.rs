//! The command line of the racing mirror, and the check of its log.
use vstd::prelude::*;
use vstd::string::*;

use crate::args::value_at;
use crate::error::{Error, ErrorKind};
use crate::text::{decimal, join4, parse_unsigned, str_eq};

verus! {

/// What a command line asks for.
#[derive(Debug)]
pub enum Mirror {
    Client { address: String, frames: u64, payload: usize, window: usize },
    FirstHop { listen: String, remote: String, log: String },
    Leaf { listen: String, log: String, delay_ms: u64 },
    Verify { log: String, frames: u64 },
}

/// What is meant by [`Mirror`].
pub enum MirrorView {
    Client { address: Seq<char>, frames: u64, payload: usize, window: usize },
    FirstHop { listen: Seq<char>, remote: Seq<char>, log: Seq<char> },
    Leaf { listen: Seq<char>, log: Seq<char>, delay_ms: u64 },
    Verify { log: Seq<char>, frames: u64 },
}

impl View for Mirror {
    type V = MirrorView;

    open spec fn view(&self) -> MirrorView {
        match self {
            Mirror::Client { address, frames, payload, window } => MirrorView::Client {
                address: address@,
                frames: *frames,
                payload: *payload,
                window: *window,
            },
            Mirror::FirstHop { listen, remote, log } => MirrorView::FirstHop {
                listen: listen@,
                remote: remote@,
                log: log@,
            },
            Mirror::Leaf { listen, log, delay_ms } => MirrorView::Leaf {
                listen: listen@,
                log: log@,
                delay_ms: *delay_ms,
            },
            Mirror::Verify { log, frames } => MirrorView::Verify { log: log@, frames: *frames },
        }
    }
}

/// How the program is called.
pub open spec fn usage_text() -> Seq<char> {
    "usage:\n  zcracing-mirror client ADDR FRAMES PAYLOAD_BYTES [WINDOW]\n  zcracing-mirror first-hop LISTEN REMOTE LOCAL_LOG\n  zcracing-mirror leaf LISTEN TERMINAL_LOG [ACK_DELAY_MS]\n  zcracing-mirror verify TERMINAL_LOG EXPECTED_FRAMES"@
}

/// How the program is called.
pub fn usage() -> (text: &'static str)
    ensures
        text@ == usage_text(),
{
    "usage:\n  zcracing-mirror client ADDR FRAMES PAYLOAD_BYTES [WINDOW]\n  zcracing-mirror first-hop LISTEN REMOTE LOCAL_LOG\n  zcracing-mirror leaf LISTEN TERMINAL_LOG [ACK_DELAY_MS]\n  zcracing-mirror verify TERMINAL_LOG EXPECTED_FRAMES"
}

/// A number that must be there; without it, what is written before the program stops.
pub open spec fn number_due(value: Option<Seq<char>>, max: nat, name: Seq<char>) -> Result<
    nat,
    Seq<char>,
> {
    let complaint = "invalid or missing "@ + name + "\n"@ + usage_text();
    match value {
        None => Err(complaint),
        Some(text) => match crate::text::unsigned_value(text, max) {
            Some(n) => Ok(n),
            None => Err(complaint),
        },
    }
}

/// A number that may be left out.
pub open spec fn option_due(value: Option<Seq<char>>, max: nat, usual: nat) -> Result<nat, Seq<char>> {
    match value {
        None => Ok(usual),
        Some(text) => match crate::text::unsigned_value(text, max) {
            Some(n) => Ok(n),
            None => Err(usage_text()),
        },
    }
}

/// What a command line asks for, or what is written before the program stops.
pub open spec fn mirror_due(args: Seq<Seq<char>>) -> Result<MirrorView, Seq<char>> {
    let first = crate::args::nth(args, 1);
    let second = crate::args::nth(args, 2);
    let third = crate::args::nth(args, 3);
    let fourth = crate::args::nth(args, 4);
    if args.len() < 2 {
        Err(usage_text())
    } else if args[0] == "client"@ {
        match number_due(second, u64::MAX as nat, "frames"@) {
            Err(e) => Err(e),
            Ok(frames) => match number_due(third, usize::MAX as nat, "payload bytes"@) {
                Err(e) => Err(e),
                Ok(payload) => match option_due(fourth, usize::MAX as nat, 1) {
                    Err(e) => Err(e),
                    Ok(window) => Ok(
                        MirrorView::Client {
                            address: first->0,
                            frames: frames as u64,
                            payload: payload as usize,
                            window: window as usize,
                        },
                    ),
                },
            },
        }
    } else if args[0] == "first-hop"@ {
        if args.len() < 4 {
            Err(usage_text())
        } else {
            Ok(MirrorView::FirstHop { listen: first->0, remote: second->0, log: third->0 })
        }
    } else if args[0] == "leaf"@ {
        if args.len() < 3 {
            Err(usage_text())
        } else {
            match option_due(third, u64::MAX as nat, 0) {
                Err(e) => Err(e),
                Ok(delay) => Ok(
                    MirrorView::Leaf { listen: first->0, log: second->0, delay_ms: delay as u64 },
                ),
            }
        }
    } else if args[0] == "verify"@ {
        match number_due(second, u64::MAX as nat, "expected frames"@) {
            Err(e) => Err(e),
            Ok(frames) => Ok(MirrorView::Verify { log: first->0, frames: frames as u64 }),
        }
    } else {
        Err(usage_text())
    }
}

/// A number that must be there.
pub fn number(value: &Option<String>, max: u64, name: &str) -> (r: Result<u64, String>)
    ensures
        match r {
            Ok(n) => number_due(crate::args::said(*value), max as nat, name@) == Ok::<
                nat,
                Seq<char>,
            >(n as nat) && n <= max,
            Err(e) => number_due(crate::args::said(*value), max as nat, name@) == Err::<
                nat,
                Seq<char>,
            >(e@),
        },
{
    match value {
        None => Err(join4("invalid or missing ", name, "\n", usage())),
        Some(text) => match parse_unsigned(text.as_str(), max) {
            Some(n) => Ok(n),
            None => Err(join4("invalid or missing ", name, "\n", usage())),
        },
    }
}

fn optional(value: &Option<String>, max: u64, usual: u64) -> (r: Result<u64, String>)
    requires
        usual <= max,
    ensures
        match r {
            Ok(n) => option_due(crate::args::said(*value), max as nat, usual as nat) == Ok::<
                nat,
                Seq<char>,
            >(n as nat) && n <= max,
            Err(e) => option_due(crate::args::said(*value), max as nat, usual as nat) == Err::<
                nat,
                Seq<char>,
            >(e@),
        },
{
    match value {
        None => Ok(usual),
        Some(text) => match parse_unsigned(text.as_str(), max) {
            Some(n) => Ok(n),
            None => Err(String::from_str(usage())),
        },
    }
}

/// What a command line asks for, or what is written before the program stops.
pub fn parse_mirror(args: &Vec<String>) -> (r: Result<Mirror, String>)
    ensures
        match r {
            Ok(m) => mirror_due(crate::text::texts(args@)) == Ok::<MirrorView, Seq<char>>(m@),
            Err(e) => mirror_due(crate::text::texts(args@)) == Err::<MirrorView, Seq<char>>(e@),
        },
{
    let count: usize = args.len();
    if count < 2 {
        return Err(String::from_str(usage()));
    }
    let ghost views = crate::text::texts(args@);
    proof {
        assert(views[0] == args@[0]@);
        assert(views[1] == args@[1]@);
    }
    let word: &str = args[0].as_str();
    let second: Option<String> = value_at(args.as_slice(), 2);
    let third: Option<String> = value_at(args.as_slice(), 3);
    if str_eq(word, "client") {
        let frames: u64 = match number(&second, u64::MAX, "frames") {
            Ok(n) => n,
            Err(e) => {
                return Err(e);
            },
        };
        let payload: u64 = match number(&third, usize::MAX as u64, "payload bytes") {
            Ok(n) => n,
            Err(e) => {
                return Err(e);
            },
        };
        let fourth: Option<String> = value_at(args.as_slice(), 4);
        match optional(&fourth, usize::MAX as u64, 1) {
            Ok(window) => Ok(
                Mirror::Client {
                    address: args[1].clone(),
                    frames,
                    payload: payload as usize,
                    window: window as usize,
                },
            ),
            Err(e) => Err(e),
        }
    } else if str_eq(word, "first-hop") {
        if count < 4 {
            return Err(String::from_str(usage()));
        }
        Ok(
            Mirror::FirstHop {
                listen: args[1].clone(),
                remote: args[2].clone(),
                log: args[3].clone(),
            },
        )
    } else if str_eq(word, "leaf") {
        if count < 3 {
            return Err(String::from_str(usage()));
        }
        match optional(&third, u64::MAX, 0) {
            Ok(delay_ms) => Ok(
                Mirror::Leaf { listen: args[1].clone(), log: args[2].clone(), delay_ms },
            ),
            Err(e) => Err(e),
        }
    } else if str_eq(word, "verify") {
        match number(&second, u64::MAX, "expected frames") {
            Ok(frames) => Ok(Mirror::Verify { log: args[1].clone(), frames }),
            Err(e) => Err(e),
        }
    } else {
        Err(String::from_str(usage()))
    }
}

/// Checks what was found in a log; `scan` describes it.
pub fn check_scan(expected: u64, frames: u64, incomplete_tail_bytes: u64, scan: &str) -> (r: Result<
    (),
    Error,
>)
    ensures
        match r {
            Ok(_) => frames == expected && incomplete_tail_bytes == 0,
            Err(e) => !(frames == expected && incomplete_tail_bytes == 0) && e@ == (
                ErrorKind::Other,
                "verify expected "@ + crate::text::decimal_text(expected as nat)
                    + " complete frames, got "@ + scan@,
            ),
        },
{
    if frames == expected && incomplete_tail_bytes == 0 {
        return Ok(());
    }
    let digits: String = decimal(expected);
    Err(
        Error::new(
            ErrorKind::Other,
            join4("verify expected ", digits.as_str(), " complete frames, got ", scan),
        ),
    )
}

/// A client is told the address, the frames, their size and how many of them may be under way, in this
/// order; without the last it is one.
pub proof fn law_a_client_takes_its_arguments_in_order(
    a: Seq<char>,
    b: Seq<char>,
    c: Seq<char>,
    d: Seq<char>,
)
    ensures
        mirror_due(seq!["client"@, a, b, c, d]) matches Ok(m) ==> (m matches MirrorView::Client {
            address,
            frames,
            payload,
            window,
        } && address == a && Some(frames as nat) == crate::text::unsigned_value(b, u64::MAX as nat)
            && Some(payload as nat) == crate::text::unsigned_value(c, usize::MAX as nat) && Some(
            window as nat,
        ) == crate::text::unsigned_value(d, usize::MAX as nat)),
        mirror_due(seq!["client"@, a, b, c]) matches Ok(m) ==> (m matches MirrorView::Client {
            address,
            frames,
            payload,
            window,
        } && address == a && Some(frames as nat) == crate::text::unsigned_value(b, u64::MAX as nat)
            && Some(payload as nat) == crate::text::unsigned_value(c, usize::MAX as nat) && window
            == 1),
{
    let five = seq!["client"@, a, b, c, d];
    let four = seq!["client"@, a, b, c];
    assert(five[0] == "client"@ && five[1] == a && five[2] == b && five[3] == c && five[4] == d);
    assert(four[0] == "client"@ && four[1] == a && four[2] == b && four[3] == c);
    assert(crate::args::nth(four, 4) is None);
}

/// A hop is told where it listens, where it sends to and where it logs.
pub proof fn law_a_hop_takes_its_arguments_in_order(a: Seq<char>, b: Seq<char>, c: Seq<char>)
    ensures
        mirror_due(seq!["first-hop"@, a, b, c]) == Ok::<MirrorView, Seq<char>>(
            MirrorView::FirstHop { listen: a, remote: b, log: c },
        ),
{
    lemma_words_differ();
    let four = seq!["first-hop"@, a, b, c];
    assert(four[0] == "first-hop"@ && four[1] == a && four[2] == b && four[3] == c);
}

/// A leaf is told where it listens, where it logs and how long it waits, which without a number is not at
/// all.
pub proof fn law_a_leaf_takes_its_arguments_in_order(a: Seq<char>, b: Seq<char>, c: Seq<char>)
    ensures
        mirror_due(seq!["leaf"@, a, b]) == Ok::<MirrorView, Seq<char>>(
            MirrorView::Leaf { listen: a, log: b, delay_ms: 0 },
        ),
        mirror_due(seq!["leaf"@, a, b, c]) matches Ok(m) ==> (m matches MirrorView::Leaf {
            listen,
            log,
            delay_ms,
        } && listen == a && log == b && Some(delay_ms as nat) == crate::text::unsigned_value(
            c,
            u64::MAX as nat,
        )),
{
    lemma_words_differ();
    let three = seq!["leaf"@, a, b];
    let four = seq!["leaf"@, a, b, c];
    assert(three[0] == "leaf"@ && three[1] == a && three[2] == b);
    assert(four[0] == "leaf"@ && four[1] == a && four[2] == b && four[3] == c);
    assert(crate::args::nth(three, 3) is None);
}

/// Who verifies is told the log and the number of frames in it.
pub proof fn law_a_verification_takes_its_arguments_in_order(a: Seq<char>, b: Seq<char>)
    ensures
        mirror_due(seq!["verify"@, a, b]) matches Ok(m) ==> (m matches MirrorView::Verify {
            log,
            frames,
        } && log == a && Some(frames as nat) == crate::text::unsigned_value(b, u64::MAX as nat)),
{
    lemma_words_differ();
    let three = seq!["verify"@, a, b];
    assert(three[0] == "verify"@ && three[1] == a && three[2] == b);
}

proof fn lemma_words_differ()
    ensures
        "first-hop"@ != "client"@,
        "leaf"@ != "client"@,
        "leaf"@ != "first-hop"@,
        "verify"@ != "client"@,
        "verify"@ != "first-hop"@,
        "verify"@ != "leaf"@,
{
    reveal_strlit("client");
    reveal_strlit("first-hop");
    reveal_strlit("leaf");
    reveal_strlit("verify");
    assert("client"@.len() == 6);
    assert("first-hop"@.len() == 9);
    assert("leaf"@.len() == 4);
    assert("verify"@.len() == 6);
    assert("client"@[0] != "verify"@[0]);
}

} // verus!
