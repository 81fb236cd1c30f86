//! Interface states, alert kinds, snapshots and time ranges.
use vstd::prelude::*;
use crate::text::{chars_of, string_of_range, trim, trim_range, ltrim, rtrim};

verus! {

/// Operational state of an interface.
#[derive(Debug, Clone, Copy, PartialEq, Eq, Structural)]
pub enum OperState {
    Up,
    Down,
    Unknown,
}

/// Lower-case form of a string (`str::to_lowercase`).
pub uninterp spec fn lowercase_of(s: Seq<char>) -> Seq<char>;

/// ASCII letters mapped to lower case, other characters kept.
pub open spec fn ascii_lower(s: Seq<char>) -> Seq<char> {
    s.map_values(|c: char| if 65 <= c as int <= 90 { (c as int + 32) as char } else { c })
}

pub open spec fn all_ascii(s: Seq<char>) -> bool {
    forall|i: int| 0 <= i < s.len() ==> (#[trigger] s[i]) as int <= 127
}

/// `str::to_lowercase`. The result is named; on ASCII text it is the ASCII
/// lower-case mapping, as the standard library documents. What it gives for
/// other characters (the Unicode `Lowercase` mapping) is left to the name.
#[verifier::external_body]
pub(crate) fn lowercase(s: &str) -> (r: String)
    ensures
        r@ == lowercase_of(s@),
        all_ascii(s@) ==> r@ == ascii_lower(s@),
{
    s.to_lowercase()
}

/// The state that a textual operstate names.
pub open spec fn oper_state_of(s: Seq<char>) -> OperState {
    let l = lowercase_of(trim(s));
    if l == "up"@ {
        OperState::Up
    } else if l == "down"@ {
        OperState::Down
    } else {
        OperState::Unknown
    }
}

pub open spec fn oper_state_text(s: OperState) -> Seq<char> {
    match s {
        OperState::Up => "UP"@,
        OperState::Down => "DOWN"@,
        OperState::Unknown => "UNKNOWN"@,
    }
}

/// Whether two character sequences are equal.
pub fn chars_equal(a: &Vec<char>, b: &Vec<char>) -> (r: bool)
    ensures
        r == (a@ == b@),
{
    if a.len() != b.len() {
        return false;
    }
    let mut i: usize = 0;
    while i < a.len()
        invariant
            a@.len() == b@.len(),
            i <= a@.len(),
            forall|t: int| 0 <= t < i ==> a@[t] == b@[t],
        decreases a@.len() - i,
    {
        if a[i] != b[i] {
            return false;
        }
        i = i + 1;
    }
    assert(a@ =~= b@);
    true
}

/// Whether a string holds exactly the characters of a literal.
pub fn str_is(s: &str, lit: &str) -> (r: bool)
    ensures
        r == (s@ == lit@),
{
    chars_equal(&chars_of(s), &chars_of(lit))
}

/// The state that an ASCII operstate names, lower-casing ASCII letters.
pub open spec fn oper_state_of_ascii(s: Seq<char>) -> OperState {
    let l = ascii_lower(trim(s));
    if l == "up"@ {
        OperState::Up
    } else if l == "down"@ {
        OperState::Down
    } else {
        OperState::Unknown
    }
}

impl OperState {
    /// Reads `"up"` and `"down"`, in any case and with surrounding
    /// whitespace; anything else is `Unknown`.
    pub fn from_str(s: &str) -> (r: Self)
        ensures
            r == oper_state_of(s@),
            all_ascii(trim(s@)) ==> r == oper_state_of_ascii(s@),
    {
        let cs = chars_of(s);
        let (a, b) = trim_range(&cs, 0, cs.len());
        assert(cs@.subrange(0, cs@.len() as int) =~= s@);
        let t = string_of_range(&cs, a, b);
        let l = lowercase(t.as_str());
        if str_is(l.as_str(), "up") {
            OperState::Up
        } else if str_is(l.as_str(), "down") {
            OperState::Down
        } else {
            OperState::Unknown
        }
    }

    pub fn as_str(&self) -> (r: &'static str)
        ensures
            r@ == oper_state_text(*self),
    {
        match self {
            OperState::Up => "UP",
            OperState::Down => "DOWN",
            OperState::Unknown => "UNKNOWN",
        }
    }
}

/// Kinds of alert that the daemon records.
#[derive(Debug, Clone, Copy, PartialEq, Eq, Structural)]
pub enum AlertKind {
    DatabaseCorruption,
    InterfaceRemoved,
    CounterOverflow,
    ClockJump,
}

pub open spec fn alert_kind_text(k: AlertKind) -> Seq<char> {
    match k {
        AlertKind::DatabaseCorruption => "database_corruption"@,
        AlertKind::InterfaceRemoved => "interface_removed"@,
        AlertKind::CounterOverflow => "counter_overflow"@,
        AlertKind::ClockJump => "clock_jump"@,
    }
}

impl AlertKind {
    pub fn as_str(&self) -> (r: &'static str)
        ensures
            r@ == alert_kind_text(*self),
    {
        match self {
            AlertKind::DatabaseCorruption => "database_corruption",
            AlertKind::InterfaceRemoved => "interface_removed",
            AlertKind::CounterOverflow => "counter_overflow",
            AlertKind::ClockJump => "clock_jump",
        }
    }
}

/// Counters of one interface at one moment (`timestamp` in Unix seconds).
#[derive(Debug, Clone)]
pub struct InterfaceSnapshot {
    pub name: String,
    pub mac: Option<String>,
    pub rx_bytes: u64,
    pub tx_bytes: u64,
    pub operstate: OperState,
    pub timestamp: i64,
}

/// Reading back the text of a state gives the state.
pub proof fn lemma_oper_state_round_trip(st: OperState)
    ensures
        all_ascii(trim(oper_state_text(st))),
        oper_state_of_ascii(oper_state_text(st)) == st,
{
    reveal_strlit("UP");
    reveal_strlit("DOWN");
    reveal_strlit("UNKNOWN");
    reveal_strlit("up");
    reveal_strlit("down");
    let t = oper_state_text(st);
    assert(ltrim(t) == t);
    assert(rtrim(t) == t);
    assert(trim(t) == t);
    match st {
        OperState::Up => {
            assert(ascii_lower(t) =~= "up"@);
        },
        OperState::Down => {
            assert(ascii_lower(t) =~= "down"@);
        },
        OperState::Unknown => {
            assert(ascii_lower(t).len() == 7);
        },
    }
}

/// Distinct alert kinds are stored under distinct names.
pub proof fn lemma_alert_texts_distinct(a: AlertKind, b: AlertKind)
    requires
        a != b,
    ensures
        alert_kind_text(a) != alert_kind_text(b),
{
    reveal_strlit("database_corruption");
    reveal_strlit("interface_removed");
    reveal_strlit("counter_overflow");
    reveal_strlit("clock_jump");
    assert(alert_kind_text(AlertKind::DatabaseCorruption).len() == 19);
    assert(alert_kind_text(AlertKind::InterfaceRemoved).len() == 17);
    assert(alert_kind_text(AlertKind::CounterOverflow).len() == 16);
    assert(alert_kind_text(AlertKind::ClockJump).len() == 10);
}

} // verus!
