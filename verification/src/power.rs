//! Power schemes and power modes of Windows, and what is to be said of them.
use crate::text;
use vstd::prelude::*;

verus! {

/// A power scheme by its number, the 128 bits of a GUID.
pub type PlanId = u128;

/// The scheme with which alone power modes apply.
pub const BALANCED_PLAN: PlanId = 0x381b4222_f694_41f0_9685_ff5bb260df2e;

/// The number that the bytes of `b` stand for, the first byte highest.
pub open spec fn big_endian(b: Seq<u8>) -> nat
    decreases b.len(),
{
    if b.len() == 0 {
        0
    } else {
        big_endian(b.drop_last()) * 256 + b.last() as nat
    }
}

/// The scheme whose GUID is written in the usual four parts.
pub fn plan_from_parts(a: u32, b: u16, c: u16, d: [u8; 8]) -> (r: PlanId)
    ensures
        r == a * 0x1_0000_0000_0000_0000_0000_0000 + b * 0x1_0000_0000_0000_0000_0000 + c
            * 0x1_0000_0000_0000_0000 + big_endian(d@),
{
    let mut low: u128 = 0;
    let mut bound: u128 = 1;
    let mut i: usize = 0;
    assert(d@.take(0) =~= Seq::empty());
    while i < 8
        invariant
            i <= 8,
            low == big_endian(d@.take(i as int)),
            low < bound,
            bound == (if i == 0 {
                1
            } else if i == 1 {
                0x100
            } else if i == 2 {
                0x1_0000
            } else if i == 3 {
                0x100_0000
            } else if i == 4 {
                0x1_0000_0000
            } else if i == 5 {
                0x100_0000_0000
            } else if i == 6 {
                0x1_0000_0000_0000
            } else if i == 7 {
                0x100_0000_0000_0000
            } else {
                0x1_0000_0000_0000_0000int
            }),
        decreases 8 - i,
    {
        proof {
            assert(d@.take(i + 1).drop_last() =~= d@.take(i as int));
            assert(d@.take(i + 1).last() == d@[i as int]);
        }
        low = low * 256 + d[i] as u128;
        bound = bound * 256;
        i += 1;
    }
    assert(d@.take(8) =~= d@);
    a as u128 * 0x1_0000_0000_0000_0000_0000_0000 + b as u128 * 0x1_0000_0000_0000_0000_0000
        + c as u128 * 0x1_0000_0000_0000_0000 + low
}

/// A power scheme.
#[derive(Debug)]
pub struct PowerPlan {
    pub id: PlanId,
    pub name: String,
}

/// A power mode.
#[derive(Debug, Clone, Copy, PartialEq, Eq, Structural)]
pub enum PowerMode {
    Efficient,
    Balanced,
    /// A step of the slider of Windows 10, which the settings of Windows 11 do not list.
    Better,
    Max,
}

impl PowerMode {
    /// All modes, from the most sparing to the fastest.
    pub const ALL: [PowerMode; 4] = [
        PowerMode::Efficient,
        PowerMode::Balanced,
        PowerMode::Better,
        PowerMode::Max,
    ];

    /// Whether the settings of Windows list the mode.
    pub open spec fn is_offered(self) -> bool {
        self != PowerMode::Better
    }

    /// Whether the mode is offered on a machine that is in another one.
    pub fn offered(self) -> (r: bool)
        ensures
            r == self.is_offered(),
    {
        match self {
            PowerMode::Better => false,
            _ => true,
        }
    }

    pub open spec fn name(self) -> Seq<char> {
        match self {
            PowerMode::Efficient => "Экономия энергии"@,
            PowerMode::Balanced => "Сбалансированный"@,
            PowerMode::Better => "Повышенная производительность"@,
            PowerMode::Max => "Максимальная производительность"@,
        }
    }

    pub fn label(self) -> (r: &'static str)
        ensures
            r@ == self.name(),
    {
        match self {
            PowerMode::Efficient => "Экономия энергии",
            PowerMode::Balanced => "Сбалансированный",
            PowerMode::Better => "Повышенная производительность",
            PowerMode::Max => "Максимальная производительность",
        }
    }
}

/// What is known of the power modes.
#[derive(Debug, Clone, Copy, PartialEq, Eq, Structural)]
pub enum PowerModes {
    /// The mode in effect, and the one that Windows stored but does not apply.
    Known { effective: Option<PowerMode>, ignored: Option<PowerMode> },
    /// There are none.
    Unsupported,
}

/// What is known of the power settings.
#[derive(Debug)]
pub struct PowerState {
    pub plans: Vec<PowerPlan>,
    pub active: Option<PlanId>,
    pub modes: PowerModes,
    pub trouble: Option<String>,
}

/// The name of a scheme, by the schemes `i..`.
pub open spec fn name_from(plans: Seq<PowerPlan>, id: PlanId, i: int) -> Option<Seq<char>>
    decreases plans.len() - i,
{
    if i < 0 || i >= plans.len() {
        None
    } else if plans[i].id == id {
        Some(plans[i].name@)
    } else {
        name_from(plans, id, i + 1)
    }
}

impl PowerState {
    pub open spec fn name_of(self, id: PlanId) -> Option<Seq<char>> {
        name_from(self.plans@, id, 0)
    }

    pub open spec fn name_of_active(self) -> Option<Seq<char>> {
        match self.active {
            Some(id) => self.name_of(id),
            None => None,
        }
    }

    /// The name of a scheme, where the system told one.
    pub fn plan_name(&self, id: PlanId) -> (r: Option<&str>)
        ensures
            r is Some <==> self.name_of(id) is Some,
            r matches Some(name) ==> self.name_of(id) == Some(name@),
    {
        let mut i: usize = 0;
        while i < self.plans.len()
            invariant
                i <= self.plans@.len(),
                self.name_of(id) == name_from(self.plans@, id, i as int),
            decreases self.plans@.len() - i,
        {
            if self.plans[i].id == id {
                return Some(self.plans[i].name.as_str());
            }
            i += 1;
        }
        None
    }

    /// The name of the scheme in effect, where the system told one.
    pub fn active_name(&self) -> (r: Option<&str>)
        ensures
            r is Some <==> self.name_of_active() is Some,
            r matches Some(name) ==> self.name_of_active() == Some(name@),
    {
        match self.active {
            Some(id) => self.plan_name(id),
            None => None,
        }
    }
}

impl PowerState {
    /// Whether nothing is known yet.
    pub open spec fn is_unknown(self) -> bool {
        self.plans@.len() == 0 && self.active is None && self.modes == PowerModes::Unsupported
    }

    /// Whether nothing is known yet.
    pub fn is_blank(&self) -> (r: bool)
        ensures
            r == self.is_unknown(),
    {
        self.plans.len() == 0 && self.active.is_none() && match self.modes {
            PowerModes::Unsupported => true,
            _ => false,
        }
    }

    /// Whether choosing a scheme changes anything.
    pub fn would_change_plan(&self, id: PlanId) -> (r: bool)
        ensures
            r == (self.active != Some(id)),
    {
        match self.active {
            Some(active) => active != id,
            None => true,
        }
    }

    /// Whether choosing a mode changes anything: never where there are no modes.
    pub fn would_change_mode(&self, mode: PowerMode) -> (r: bool)
        ensures
            r == (self.modes matches PowerModes::Known { effective, ignored } && effective != Some(
                mode,
            )),
    {
        match self.modes {
            PowerModes::Known { effective, ignored: _ } => match effective {
                Some(m) => m != mode,
                None => true,
            },
            PowerModes::Unsupported => false,
        }
    }

    pub open spec fn mode_is_shown(self, mode: PowerMode) -> bool {
        self.modes matches PowerModes::Known { effective, ignored } && (mode.is_offered()
            || effective == Some(mode))
    }

    /// Whether a mode is shown: one that is not offered only while the machine is in it.
    pub fn shows_mode(&self, mode: PowerMode) -> (r: bool)
        ensures
            r == self.mode_is_shown(mode),
    {
        match self.modes {
            PowerModes::Known { effective, ignored: _ } => mode.offered() || match effective {
                Some(m) => m == mode,
                None => false,
            },
            PowerModes::Unsupported => false,
        }
    }

    /// Whether the machine is in a mode that is not known here.
    pub fn mode_is_strange(&self) -> (r: bool)
        ensures
            r == (self.modes matches PowerModes::Known { effective, ignored } && effective is None),
    {
        match self.modes {
            PowerModes::Known { effective, ignored: _ } => effective.is_none(),
            PowerModes::Unsupported => false,
        }
    }
}

impl Default for PowerState {
    fn default() -> (r: PowerState)
        ensures
            r.is_unknown(),
            r.trouble is None,
    {
        PowerState {
            plans: Vec::new(),
            active: None,
            modes: PowerModes::Unsupported,
            trouble: None,
        }
    }
}

/// The scheme in effect as it is named in a sentence. No name is made up.
pub open spec fn active_words(state: PowerState) -> Seq<char> {
    match state.name_of_active() {
        Some(name) => seq!['«'] + name + seq!['»'],
        None => "другая схема"@,
    }
}

/// The scheme with which power modes apply, as it is named in a sentence.
pub open spec fn balanced_words(state: PowerState) -> Seq<char> {
    match state.name_of(BALANCED_PLAN) {
        Some(name) => name,
        None => "Сбалансированная"@,
    }
}

/// What is said where Windows stored a mode and applies another.
pub open spec fn ignored_hint(
    state: PowerState,
    stored: PowerMode,
    effective: Option<PowerMode>,
) -> Seq<char> {
    "Windows запомнила режим «"@ + stored.name() + "», но машина работает в другом: "@ + (
    match effective {
        Some(mode) => mode.name(),
        None => "система его не назвала"@,
    }) + ". Режим питания применяется только при схеме «"@ + balanced_words(state)
        + "», а сейчас активна "@ + active_words(state) + "."@
}

/// What is said where a mode would be stored and not applied.
pub open spec fn other_plan_hint(state: PowerState) -> Seq<char> {
    "Сейчас активна "@ + active_words(state) + ", а режим питания Windows применяет только при «"@
        + balanced_words(state)
        + "»: выбор она запомнит, но машина будет работать по-прежнему."@
}

/// What is to be said of the power modes: nothing where they apply, or where there are none.
pub open spec fn hint(state: PowerState) -> Seq<char> {
    match state.modes {
        PowerModes::Known { effective, ignored } => match ignored {
            Some(stored) => ignored_hint(state, stored, effective),
            None => match state.active {
                Some(id) => if id != BALANCED_PLAN {
                    other_plan_hint(state)
                } else {
                    Seq::empty()
                },
                None => Seq::empty(),
            },
        },
        PowerModes::Unsupported => Seq::empty(),
    }
}

fn active_text(state: &PowerState) -> (r: String)
    ensures
        r@ == active_words(*state),
{
    match state.active_name() {
        Some(name) => {
            let mut out = String::new();
            out.push('«');
            assert(out@ =~= seq!['«']);
            out.append(name);
            out.push('»');
            assert(out@ =~= seq!['«'] + name@ + seq!['»']);
            out
        },
        None => "другая схема".to_owned(),
    }
}

pub fn power_hint(state: &PowerState) -> (r: String)
    ensures
        r@ == hint(*state),
{
    let (effective, ignored): (Option<PowerMode>, Option<PowerMode>) = match state.modes {
        PowerModes::Known { effective, ignored } => (effective, ignored),
        PowerModes::Unsupported => return String::new(),
    };
    let balanced: &str = match state.plan_name(BALANCED_PLAN) {
        Some(name) => name,
        None => "Сбалансированная",
    };
    if let Some(stored) = ignored {
        let mut out = "Windows запомнила режим «".to_owned();
        out.append(stored.label());
        out.append("», но машина работает в другом: ");
        out.append(
            match effective {
                Some(mode) => mode.label(),
                None => "система его не назвала",
            },
        );
        out.append(". Режим питания применяется только при схеме «");
        out.append(balanced);
        out.append("», а сейчас активна ");
        out.append(active_text(state).as_str());
        out.append(".");
        return out;
    }
    if let Some(id) = state.active {
        if id != BALANCED_PLAN {
            let mut out = "Сейчас активна ".to_owned();
            out.append(active_text(state).as_str());
            out.append(", а режим питания Windows применяет только при «");
            out.append(balanced);
            out.append(
                "»: выбор она запомнит, но машина будет работать по-прежнему.",
            );
            return out;
        }
    }
    String::new()
}

/// Where a mode applies there is nothing to say, and where it would not there is.
pub proof fn hint_is_given_where_a_mode_would_not_apply(state: PowerState)
    ensures
        state.modes is Unsupported ==> hint(state).len() == 0,
        state.modes matches PowerModes::Known { ignored, .. } ==> (hint(state).len() > 0 <==> (
        ignored is Some || (state.active matches Some(id) && id != BALANCED_PLAN))),
{
    reveal_strlit("Windows запомнила режим «");
    reveal_strlit("Сейчас активна ");
}

/// The mode that the machine is in is always among those shown; of the others only those are
/// that Windows offers.
pub proof fn mode_in_effect_is_shown(state: PowerState, mode: PowerMode)
    requires
        state.modes matches PowerModes::Known { effective, ignored } && effective == Some(mode),
    ensures
        state.mode_is_shown(mode),
        PowerMode::ALL@.contains(mode),
        forall|other: PowerMode|
            other != mode && #[trigger] state.mode_is_shown(other) ==> other.is_offered(),
{
    let all = PowerMode::ALL@;
    assert(all[0] == PowerMode::Efficient && all[1] == PowerMode::Balanced && all[2]
        == PowerMode::Better && all[3] == PowerMode::Max);
}

/// The modes by the names that Windows has for them.
pub proof fn modes_have_their_names()
    ensures
        PowerMode::Efficient.name() == "Экономия энергии"@,
        PowerMode::Balanced.name() == "Сбалансированный"@,
        PowerMode::Better.name() == "Повышенная производительность"@,
        PowerMode::Max.name() == "Максимальная производительность"@,
{
}

/// A scheme goes by the name that the system told of it, and by none where it told none.
pub proof fn scheme_goes_by_its_name(plans: Seq<PowerPlan>, id: PlanId, from: int, k: int)
    requires
        0 <= from <= plans.len(),
    ensures
        from <= k < plans.len() && plans[k].id == id && (forall|i: int|
            from <= i < k ==> (#[trigger] plans[i]).id != id) ==> name_from(plans, id, from)
            == Some(plans[k].name@),
        (forall|i: int| from <= i < plans.len() ==> (#[trigger] plans[i]).id != id) ==> name_from(
            plans,
            id,
            from,
        ) is None,
    decreases plans.len() - from,
{
    if from < plans.len() {
        scheme_goes_by_its_name(plans, id, from + 1, k);
    }
}

/// What is said of the modes: that a stored mode is not the one in effect, or that a chosen one
/// would not be; it names both, and the schemes that are in effect and that would have to be.
pub proof fn hint_names_modes_and_schemes(state: PowerState, stored: PowerMode, id: PlanId)
    ensures
        ({
            let active = if state.active is Some && state.name_of(state.active->0) is Some {
                "«"@ + state.name_of(state.active->0)->0 + "»"@
            } else {
                "другая схема"@
            };
            let balanced = if state.name_of(0x381b4222_f694_41f0_9685_ff5bb260df2e) is Some {
                state.name_of(0x381b4222_f694_41f0_9685_ff5bb260df2e)->0
            } else {
                "Сбалансированная"@
            };
            &&& (state.modes matches PowerModes::Known { effective, ignored } && ignored == Some(
                stored,
            ) && effective is Some) ==> hint(state) == "Windows запомнила режим «"@ + stored.name()
                + "», но машина работает в другом: "@ + state.modes->effective->0.name()
                + ". Режим питания применяется только при схеме «"@ + balanced
                + "», а сейчас активна "@ + active + "."@
            &&& (state.modes matches PowerModes::Known { effective, ignored } && ignored is None
                && state.active == Some(id) && id != 0x381b4222_f694_41f0_9685_ff5bb260df2e)
                ==> hint(state) == "Сейчас активна "@ + active
                + ", а режим питания Windows применяет только при «"@ + balanced
                + "»: выбор она запомнит, но машина будет работать по-прежнему."@
            &&& (state.modes matches PowerModes::Known { effective, ignored } && ignored is None
                && state.active == Some(0x381b4222_f694_41f0_9685_ff5bb260df2eu128))
                ==> hint(state).len() == 0
            &&& state.modes is Unsupported ==> hint(state).len() == 0
        }),
{
    reveal_strlit("«");
    reveal_strlit("»");
    assert("«"@ =~= seq!['«']);
    assert("»"@ =~= seq!['»']);
}

/// The number of a scheme is that of its parts, one behind the other: eight, four and four
/// digits of sixteen, and sixteen more.
pub proof fn number_of_a_scheme_is_that_of_its_bytes(front: Seq<u8>, last: u8)
    ensures
        big_endian(Seq::empty()) == 0,
        big_endian(front.push(last)) == 256 * big_endian(front) + last,
{
    assert(front.push(last).drop_last() =~= front);
}

} // verus!
