//! Categories and units of the measurements the devices provide, and the
//! raw statistics records of the box.
use crate::error::FritzError;
use crate::text::{
    chars_of, lemma_split_first_len, same_text, split_all, split_once, string_of,
};
use vstd::prelude::*;

verus! {

/// The statistics of one device as the box sends them.
#[derive(Debug, Clone)]
pub struct RawDeviceStats {
    pub temperature: Option<RawManyStats>,
    pub voltage: Option<RawManyStats>,
    pub power: Option<RawManyStats>,
    pub energy: Option<RawManyStats>,
}

#[derive(Debug, Clone)]
pub struct RawManyStats {
    pub stats: Vec<RawStats>,
}

/// `count` values, `grid` seconds apart, as comma-separated text.
#[derive(Debug, Clone)]
pub struct RawStats {
    pub count: usize,
    pub grid: usize,
    pub values: String,
}

#[derive(Debug, Clone, Copy, PartialEq, Eq, Hash, Structural)]
pub enum Unit {
    Celsius,
    Watt,
    WattHour,
    Volt,
}

/// Category of measurements that the devices may provide.
#[derive(Debug, Clone, Copy, PartialEq, Eq, Hash, Structural)]
pub enum DeviceStatsKind {
    Temperature,
    Voltage,
    Power,
    Energy,
}

impl Unit {
    /// The unit's symbol.
    pub fn symbol(&self) -> (r: &'static str)
        ensures
            r@ == match self {
                Unit::Celsius => "°C"@,
                Unit::Watt => "W"@,
                Unit::WattHour => "Wh"@,
                Unit::Volt => "V"@,
            },
    {
        match self {
            Unit::Celsius => "°C",
            Unit::Watt => "W",
            Unit::WattHour => "Wh",
            Unit::Volt => "V",
        }
    }
}

pub open spec fn kind_name(k: DeviceStatsKind) -> Seq<char> {
    match k {
        DeviceStatsKind::Temperature => "temperature"@,
        DeviceStatsKind::Voltage => "voltage"@,
        DeviceStatsKind::Power => "power"@,
        DeviceStatsKind::Energy => "energy"@,
    }
}

pub open spec fn kind_unit(k: DeviceStatsKind) -> Unit {
    match k {
        DeviceStatsKind::Temperature => Unit::Celsius,
        DeviceStatsKind::Voltage => Unit::Volt,
        DeviceStatsKind::Power => Unit::Watt,
        DeviceStatsKind::Energy => Unit::WattHour,
    }
}

/// The category that a lowercase word names.
pub open spec fn kind_named(s: Seq<char>) -> Option<DeviceStatsKind> {
    if s == "temp"@ || s == "temperature"@ || s == "celsius"@ || s == "c"@ {
        Some(DeviceStatsKind::Temperature)
    } else if s == "power"@ || s == "watt"@ || s == "w"@ {
        Some(DeviceStatsKind::Power)
    } else if s == "energy"@ || s == "wh"@ {
        Some(DeviceStatsKind::Energy)
    } else if s == "volt"@ || s == "v"@ || s == "voltage"@ {
        Some(DeviceStatsKind::Voltage)
    } else {
        None
    }
}

/// What `str::to_lowercase` makes of a text.
pub uninterp spec fn lower_of(s: Seq<char>) -> Seq<char>;

/// Relies on `str::to_lowercase`: the lowercase form of the text, a function
/// of its characters alone.
#[verifier::external_body]
fn lowercase(s: &str) -> (r: String)
    ensures
        r@ == lower_of(s@),
{
    s.to_lowercase()
}

/// What `{:?}` writes for a text: the text quoted and escaped.
pub uninterp spec fn debug_of(s: Seq<char>) -> Seq<char>;

/// Relies on the `Debug` format of `str`: the text quoted and escaped, a
/// function of its characters alone.
#[verifier::external_body]
fn debug_text(s: &str) -> (r: String)
    ensures
        r@ == debug_of(s@),
{
    format!("{:?}", s)
}

/// The message for a word that names no category.
pub open spec fn unknown_kind_message(input: Seq<char>) -> Seq<char> {
    "Cannot convert "@ + debug_of(input) + " to DeviceStatsKind"@
}

impl DeviceStatsKind {
    pub fn name(&self) -> (r: &'static str)
        ensures
            r@ == kind_name(*self),
    {
        match self {
            DeviceStatsKind::Temperature => "temperature",
            DeviceStatsKind::Voltage => "voltage",
            DeviceStatsKind::Power => "power",
            DeviceStatsKind::Energy => "energy",
        }
    }

    pub fn unit(&self) -> (r: Unit)
        ensures
            r == kind_unit(*self),
    {
        match self {
            DeviceStatsKind::Temperature => Unit::Celsius,
            DeviceStatsKind::Voltage => Unit::Volt,
            DeviceStatsKind::Power => Unit::Watt,
            DeviceStatsKind::Energy => Unit::WattHour,
        }
    }

    /// The category that the lowercase word `s` names, if any.
    pub fn from_lowercase(s: &str) -> (r: Option<DeviceStatsKind>)
        ensures
            r == kind_named(s@),
    {
        if same_text(s, "temp") || same_text(s, "temperature") || same_text(s, "celsius")
            || same_text(s, "c") {
            Some(DeviceStatsKind::Temperature)
        } else if same_text(s, "power") || same_text(s, "watt") || same_text(s, "w") {
            Some(DeviceStatsKind::Power)
        } else if same_text(s, "energy") || same_text(s, "wh") {
            Some(DeviceStatsKind::Energy)
        } else if same_text(s, "volt") || same_text(s, "v") || same_text(s, "voltage") {
            Some(DeviceStatsKind::Voltage)
        } else {
            None
        }
    }

    /// The category that `input` names, in any case.
    pub fn parse(input: &str) -> (r: Result<DeviceStatsKind, FritzError>)
        ensures
            match kind_named(lower_of(input@)) {
                Some(k) => r == Ok::<DeviceStatsKind, FritzError>(k),
                None => r matches Err(FritzError::ParserError(m)) && m@ == unknown_kind_message(
                    input@,
                ),
            },
    {
        let lower = lowercase(input);
        match DeviceStatsKind::from_lowercase(lower.as_str()) {
            Some(k) => Ok(k),
            None => {
                let mut msg = String::new();
                crate::text::push_str(&mut msg, "Cannot convert ");
                let quoted = debug_text(input);
                crate::text::push_str(&mut msg, quoted.as_str());
                crate::text::push_str(&mut msg, " to DeviceStatsKind");
                proof {
                    assert(msg@ =~= unknown_kind_message(input@));
                }
                Err(FritzError::ParserError(msg))
            },
        }
    }
}

impl std::str::FromStr for DeviceStatsKind {
    type Err = FritzError;

    fn from_str(input: &str) -> Result<DeviceStatsKind, FritzError> {
        DeviceStatsKind::parse(input)
    }
}

/// The categories a comma-separated list names: the first error where a
/// part names none.
pub open spec fn kinds_named(parts: Seq<Seq<char>>) -> Result<Seq<DeviceStatsKind>, Seq<char>>
    decreases parts.len(),
{
    if parts.len() == 0 {
        Ok(Seq::empty())
    } else {
        match kind_named(lower_of(parts[0])) {
            None => Err(unknown_kind_message(parts[0])),
            Some(k) => match kinds_named(parts.drop_first()) {
                Ok(ks) => Ok(seq![k] + ks),
                Err(m) => Err(m),
            },
        }
    }
}

/// The categories of the comma-separated list `arg`.
pub fn parse_kinds(arg: &str) -> (r: Result<Vec<DeviceStatsKind>, FritzError>)
    ensures
        match kinds_named(split_all(arg@, ',')) {
            Ok(ks) => r matches Ok(v) && v@ == ks,
            Err(m) => r matches Err(FritzError::ParserError(e)) && e@ == m,
        },
{
    let mut rest = chars_of(arg);
    let mut kinds: Vec<DeviceStatsKind> = Vec::new();
    let ghost all = split_all(arg@, ',');
    let mut done = false;
    let ghost mut seen: int = 0;
    proof {
        assert(all.skip(0) =~= all);
        assert(rest@ == arg@);
        match kinds_named(all) {
            Ok(ks) => {
                assert(kinds@ + ks =~= ks);
            },
            Err(_) => {},
        }
    }
    while !done
        invariant
            all == split_all(arg@, ','),
            0 <= seen <= all.len(),
            !done ==> split_all(rest@, ',') == all.skip(seen),
            done ==> seen == all.len(),
            kinds_named(all) == match kinds_named(all.skip(seen)) {
                Ok(ks) => Ok(kinds@ + ks),
                Err(m) => Err::<Seq<DeviceStatsKind>, Seq<char>>(m),
            },
        decreases all.len() - seen + if done { 0int } else { 1int },
    {
        let split = split_once(&rest, ',');
        proof {
            lemma_split_first_len(rest@, ',');
        }
        let ghost whole = rest@;
        let (part, next, last) = match split {
            Some((a, b)) => (a, b, false),
            None => (rest, Vec::new(), true),
        };
        proof {
            assert(split_all(whole, ',') == all.skip(seen));
            assert(all.skip(seen).len() > 0);
            assert(all.skip(seen)[0] == part@);
            assert(all.skip(seen).drop_first() =~= all.skip(seen + 1));
            if !last {
                assert(split_all(next@, ',') == all.skip(seen + 1));
            } else {
                assert(all.skip(seen + 1).len() == 0);
            }
        }
        let text = string_of(&part);
        match DeviceStatsKind::parse(text.as_str()) {
            Ok(k) => {
                let ghost before = kinds@;
                kinds.push(k);
                proof {
                    assert(kinds_named(all.skip(seen)) == match kinds_named(all.skip(seen + 1)) {
                        Ok(ks) => Ok(seq![k] + ks),
                        Err(m) => Err::<Seq<DeviceStatsKind>, Seq<char>>(m),
                    });
                    match kinds_named(all.skip(seen + 1)) {
                        Ok(ks) => {
                            assert(before + (seq![k] + ks) =~= kinds@ + ks);
                        },
                        Err(_) => {},
                    }
                }
            },
            Err(e) => {
                proof {
                    assert(text@ == part@);
                    assert(kind_named(lower_of(part@)) is None);
                    assert(e matches FritzError::ParserError(m) && m@ == unknown_kind_message(part@));
                    assert(kinds_named(all.skip(seen)) == Err::<Seq<DeviceStatsKind>, Seq<char>>(
                        unknown_kind_message(part@),
                    ));
                    assert(kinds_named(all) == Err::<Seq<DeviceStatsKind>, Seq<char>>(
                        unknown_kind_message(part@),
                    ));
                }
                return Err(e);
            },
        }
        proof {
            seen = seen + 1;
        }
        rest = next;
        done = last;
    }
    proof {
        assert(all.skip(seen) =~= Seq::<Seq<char>>::empty());
        assert(kinds@ + Seq::<DeviceStatsKind>::empty() =~= kinds@);
    }
    Ok(kinds)
}

} // verus!
