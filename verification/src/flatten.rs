//! Closing a lane's positions at an operator's word.

use vstd::prelude::*;
use crate::text;
use crate::text::{dec_i128, owned};

verus! {

/// How a lane is closed.
#[derive(Debug, Clone, Copy, PartialEq, Eq, Structural)]
pub enum Mode {
    Graceful,
    Hybrid,
    Panic,
}

/// The mode that a word names.
pub open spec fn mode_named(s: Seq<char>) -> Option<Mode> {
    if s == "graceful"@ {
        Some(Mode::Graceful)
    } else if s == "hybrid"@ {
        Some(Mode::Hybrid)
    } else if s == "panic"@ {
        Some(Mode::Panic)
    } else {
        None
    }
}

/// The word for a mode.
pub open spec fn name_of(m: Mode) -> Seq<char> {
    match m {
        Mode::Graceful => "graceful"@,
        Mode::Hybrid => "hybrid"@,
        Mode::Panic => "panic"@,
    }
}

impl Mode {
    /// The mode that a word names.
    pub fn parse(s: &str) -> (r: Option<Mode>)
        ensures
            r == mode_named(s@),
    {
        if text::same(s, "graceful") {
            Some(Mode::Graceful)
        } else if text::same(s, "hybrid") {
            Some(Mode::Hybrid)
        } else if text::same(s, "panic") {
            Some(Mode::Panic)
        } else {
            None
        }
    }

    /// The word for a mode.
    pub fn as_str(self) -> (r: &'static str)
        ensures
            r@ == name_of(self),
    {
        match self {
            Mode::Graceful => "graceful",
            Mode::Hybrid => "hybrid",
            Mode::Panic => "panic",
        }
    }
}

/// What an operator asks for.
#[derive(Debug)]
pub struct Intent {
    pub lane: String,
    pub mode: String,
    pub phrase: String,
    pub ts: i64,
    pub acknowledge_forfeit: bool,
}

/// For how many seconds an intent holds.
pub const INTENT_TTL_SECS: i64 = 60;

/// By how many seconds an intent may lie in the future.
pub const INTENT_SKEW_SECS: i64 = 5;

/// The mode that an intent is granted, or why it is refused: it has to name a mode and
/// this lane, repeat both as its phrase, and be fresh. Panic needs a lane that no longer
/// buys, hybrid the word that winners are forfeit.
pub open spec fn granted(i: Intent, lane_name: Seq<char>, armed: bool, now: int) -> Result<
    Mode,
    Seq<char>,
> {
    match mode_named(i.mode@) {
        None => Err("unknown flatten mode "@ + text::quoted(i.mode@)),
        Some(mode) => {
            let expected = name_of(mode) + " "@ + lane_name;
            if i.lane@ != lane_name {
                Err("intent lane "@ + text::quoted(i.lane@) + " != "@ + lane_name)
            } else if i.phrase@ != expected {
                Err(
                    "phrase must be "@ + text::quoted(expected) + ", got "@ + text::quoted(
                        i.phrase@,
                    ),
                )
            } else if now - i.ts > INTENT_TTL_SECS {
                Err("intent is "@ + text::dec_int(now - i.ts) + "s old (max 60)"@)
            } else if i.ts > now + INTENT_SKEW_SECS {
                Err("intent timestamp is in the future"@)
            } else if mode == Mode::Panic && armed {
                Err("panic requires the lane to be DISARMED first"@)
            } else if mode == Mode::Hybrid && !i.acknowledge_forfeit {
                Err("hybrid requires acknowledge_forfeit=true (it sells winners early)"@)
            } else {
                Ok(mode)
            }
        },
    }
}

/// Whether an intent is granted; see [`granted`].
pub fn gate(intent: &Intent, lane_name: &str, armed: bool, now: i64) -> (r: Result<Mode, String>)
    ensures
        match granted(*intent, lane_name@, armed, now as int) {
            Ok(m) => r == Ok::<Mode, String>(m),
            Err(e) => r matches Err(f) && f@ == e,
        },
{
    let mode = match Mode::parse(intent.mode.as_str()) {
        Some(m) => m,
        None => {
            let mut e = owned("unknown flatten mode ");
            e.append(text::quote(intent.mode.as_str()).as_str());
            return Err(e);
        },
    };
    if !text::same(intent.lane.as_str(), lane_name) {
        let mut e = owned("intent lane ");
        e.append(text::quote(intent.lane.as_str()).as_str());
        e.append(" != ");
        e.append(lane_name);
        return Err(e);
    }
    let mut expected = owned(mode.as_str());
    expected.append(" ");
    expected.append(lane_name);
    if !text::same(intent.phrase.as_str(), expected.as_str()) {
        let mut e = owned("phrase must be ");
        e.append(text::quote(expected.as_str()).as_str());
        e.append(", got ");
        e.append(text::quote(intent.phrase.as_str()).as_str());
        return Err(e);
    }
    let age: i128 = now as i128 - intent.ts as i128;
    if age > INTENT_TTL_SECS as i128 {
        let mut e = owned("intent is ");
        e.append(dec_i128(age).as_str());
        e.append("s old (max 60)");
        return Err(e);
    }
    if intent.ts as i128 > now as i128 + INTENT_SKEW_SECS as i128 {
        return Err(owned("intent timestamp is in the future"));
    }
    match mode {
        Mode::Panic => {
            if armed {
                return Err(owned("panic requires the lane to be DISARMED first"));
            }
        },
        Mode::Hybrid => {
            if !intent.acknowledge_forfeit {
                return Err(
                    owned("hybrid requires acknowledge_forfeit=true (it sells winners early)"),
                );
            }
        },
        Mode::Graceful => {},
    }
    Ok(mode)
}

/// Whether a position is sold at once.
pub open spec fn sells(mode: Mode, mark: int, avg_cost: int) -> bool {
    mode == Mode::Panic || (mode == Mode::Hybrid && mark > avg_cost)
}

/// Whether a position is sold: all of them in panic, the winners in hybrid, none when
/// graceful.
pub fn should_sell(mode: Mode, mark: i64, avg_cost: i64) -> (r: bool)
    ensures
        r == (mode == Mode::Panic || (mode == Mode::Hybrid && mark > avg_cost)),
        r == sells(mode, mark as int, avg_cost as int),
{
    match mode {
        Mode::Panic => true,
        Mode::Hybrid => mark > avg_cost,
        Mode::Graceful => false,
    }
}

/// A mode's word names that mode.
pub proof fn names_parse_back(m: Mode)
    ensures
        mode_named(name_of(m)) == Some(m),
{
    reveal_strlit("graceful");
    reveal_strlit("hybrid");
    reveal_strlit("panic");
    assert("graceful"@.len() == 8 && "hybrid"@.len() == 6 && "panic"@.len() == 5);
}

/// What is granted was asked for this lane, within the last minute, and panic only of a
/// lane that no longer buys.
pub proof fn grant_is_deliberate(i: Intent, lane_name: Seq<char>, armed: bool, now: int)
    ensures
        granted(i, lane_name, armed, now) matches Ok(m) ==> i.lane@ == lane_name && i.phrase@
            == name_of(m) + " "@ + lane_name && now - i.ts <= INTENT_TTL_SECS && i.ts <= now
            + INTENT_SKEW_SECS && (m == Mode::Panic ==> !armed) && (m == Mode::Hybrid
            ==> i.acknowledge_forfeit),
{
}

} // verus!
