//! The SEIR model itself, in exact arithmetic: the rates at which the four
//! fractions change, and what follows from them without any integration.
//!
//! Nothing here is executable. The integrator works on rounded numbers; this
//! module says what it approximates.

use vstd::prelude::*;

verus! {

/// The model's constants.
pub struct Parameters {
    /// The rate at which the infectious recover.
    pub recovery_rate: real,
    /// The number of people that one infectious person infects while
    /// everyone else is susceptible.
    pub reproduction_number: real,
    /// The rate at which the exposed become infectious.
    pub infection_rate: real,
}

/// Four quantities, one for each compartment: the fractions of the
/// population in them, or the rates at which those fractions change.
pub struct Compartments {
    pub s: real,
    pub e: real,
    pub i: real,
    pub r: real,
}

impl Compartments {
    /// The four quantities together.
    pub open spec fn total(self) -> real {
        self.s + self.e + self.i + self.r
    }

    /// The exposed and the infectious together: everyone who carries the
    /// infection.
    pub open spec fn infected(self) -> real {
        self.e + self.i
    }
}

/// The rates of change at the state `y`. They do not depend on the time.
pub open spec fn rates(p: Parameters, y: Compartments) -> Compartments {
    Compartments {
        s: -p.recovery_rate * p.reproduction_number * y.s * y.i,
        e: p.recovery_rate * p.reproduction_number * y.s * y.i - p.infection_rate * y.e,
        i: p.infection_rate * y.e - p.recovery_rate * y.i,
        r: p.recovery_rate * y.i,
    }
}

/// The population is conserved: whatever the state and the constants, the
/// four rates add up to zero.
pub proof fn lemma_rates_conserve_population(p: Parameters, y: Compartments)
    ensures
        rates(p, y).total() == 0real,
{
    let infection = p.recovery_rate * p.reproduction_number * y.s * y.i;
    let onset = p.infection_rate * y.e;
    let recovery = p.recovery_rate * y.i;
    assert(rates(p, y).s == -infection) by (nonlinear_arith)
        requires
            rates(p, y).s == -p.recovery_rate * p.reproduction_number * y.s * y.i,
            infection == p.recovery_rate * p.reproduction_number * y.s * y.i,
    ;
    assert(rates(p, y).e == infection - onset);
    assert(rates(p, y).i == onset - recovery);
    assert(rates(p, y).r == recovery);
}

/// The infected change at the rate `recovery_rate * i * (reproduction_number * s - 1)`.
pub proof fn lemma_rate_of_infected(p: Parameters, y: Compartments)
    ensures
        rates(p, y).infected() == p.recovery_rate * y.i * (p.reproduction_number * y.s - 1real),
{
    assert(rates(p, y).infected() == p.recovery_rate * y.i * (p.reproduction_number * y.s - 1real))
        by (nonlinear_arith)
        requires
            rates(p, y).infected() == p.recovery_rate * p.reproduction_number * y.s * y.i
                - p.infection_rate * y.e + (p.infection_rate * y.e - p.recovery_rate * y.i),
    ;
}

/// No outbreak below the threshold: while the reproduction number times the
/// susceptible fraction is at most one, the infected do not become more.
pub proof fn lemma_infected_shrink_below_threshold(p: Parameters, y: Compartments)
    requires
        p.recovery_rate >= 0real,
        y.i >= 0real,
        p.reproduction_number * y.s <= 1real,
    ensures
        rates(p, y).infected() <= 0real,
{
    lemma_rate_of_infected(p, y);
    let excess = p.reproduction_number * y.s - 1real;
    let pace = p.recovery_rate * y.i;
    assert(pace >= 0real) by (nonlinear_arith)
        requires
            pace == p.recovery_rate * y.i,
            p.recovery_rate >= 0real,
            y.i >= 0real,
    ;
    assert(pace * excess <= 0real) by (nonlinear_arith)
        requires
            pace >= 0real,
            excess <= 0real,
    ;
}

/// Above the threshold the infection spreads: while there are infectious
/// people and the reproduction number times the susceptible fraction exceeds
/// one, the infected become more.
pub proof fn lemma_infected_grow_above_threshold(p: Parameters, y: Compartments)
    requires
        p.recovery_rate > 0real,
        y.i > 0real,
        p.reproduction_number * y.s > 1real,
    ensures
        rates(p, y).infected() > 0real,
{
    lemma_rate_of_infected(p, y);
    let excess = p.reproduction_number * y.s - 1real;
    let pace = p.recovery_rate * y.i;
    assert(pace > 0real) by (nonlinear_arith)
        requires
            pace == p.recovery_rate * y.i,
            p.recovery_rate > 0real,
            y.i > 0real,
    ;
    assert(pace * excess > 0real) by (nonlinear_arith)
        requires
            pace > 0real,
            excess > 0real,
    ;
}

/// With constants and fractions that are not negative, the susceptible never
/// become more and the recovered never become fewer.
pub proof fn lemma_flow_is_one_way(p: Parameters, y: Compartments)
    requires
        p.recovery_rate >= 0real,
        p.reproduction_number >= 0real,
        y.s >= 0real,
        y.i >= 0real,
    ensures
        rates(p, y).s <= 0real,
        rates(p, y).r >= 0real,
{
    let contact = p.recovery_rate * p.reproduction_number;
    let pairs = y.s * y.i;
    assert(contact >= 0real) by (nonlinear_arith)
        requires
            contact == p.recovery_rate * p.reproduction_number,
            p.recovery_rate >= 0real,
            p.reproduction_number >= 0real,
    ;
    assert(pairs >= 0real) by (nonlinear_arith)
        requires
            pairs == y.s * y.i,
            y.s >= 0real,
            y.i >= 0real,
    ;
    assert(rates(p, y).s == -(contact * pairs)) by (nonlinear_arith)
        requires
            rates(p, y).s == -p.recovery_rate * p.reproduction_number * y.s * y.i,
            contact == p.recovery_rate * p.reproduction_number,
            pairs == y.s * y.i,
    ;
    assert(contact * pairs >= 0real) by (nonlinear_arith)
        requires
            contact >= 0real,
            pairs >= 0real,
    ;
    assert(rates(p, y).r >= 0real) by (nonlinear_arith)
        requires
            rates(p, y).r == p.recovery_rate * y.i,
            p.recovery_rate >= 0real,
            y.i >= 0real,
    ;
}

/// The weighted sum of the rates at the given states, each state paired with
/// its weight.
pub open spec fn combined_rates(p: Parameters, stages: Seq<(real, Compartments)>) -> Compartments
    decreases stages.len(),
{
    if stages.len() == 0 {
        Compartments { s: 0real, e: 0real, i: 0real, r: 0real }
    } else {
        let rest = combined_rates(p, stages.drop_last());
        let weight = stages.last().0;
        let k = rates(p, stages.last().1);
        Compartments {
            s: rest.s + weight * k.s,
            e: rest.e + weight * k.e,
            i: rest.i + weight * k.i,
            r: rest.r + weight * k.r,
        }
    }
}

/// One step of a Runge-Kutta method from the state `y`: the step size times
/// a weighted sum of the rates at the method's stages is added. Every such
/// method has this form, whatever its stages and weights, and so have both
/// solutions of an embedded pair.
pub open spec fn runge_kutta_step(
    p: Parameters,
    y: Compartments,
    h: real,
    stages: Seq<(real, Compartments)>,
) -> Compartments {
    let k = combined_rates(p, stages);
    Compartments { s: y.s + h * k.s, e: y.e + h * k.e, i: y.i + h * k.i, r: y.r + h * k.r }
}

proof fn lemma_combined_rates_add_up_to_zero(p: Parameters, stages: Seq<(real, Compartments)>)
    ensures
        combined_rates(p, stages).total() == 0real,
    decreases stages.len(),
{
    if stages.len() > 0 {
        let rest = combined_rates(p, stages.drop_last());
        let weight = stages.last().0;
        let k = rates(p, stages.last().1);
        lemma_combined_rates_add_up_to_zero(p, stages.drop_last());
        lemma_rates_conserve_population(p, stages.last().1);
        assert(weight * k.s + weight * k.e + weight * k.i + weight * k.r == 0real)
            by (nonlinear_arith)
            requires
                k.s + k.e + k.i + k.r == 0real,
        ;
    }
}

/// In exact arithmetic a Runge-Kutta step conserves the population: the
/// four fractions add up to the same after the step as before it, whatever
/// the step size, the stages and the weights. A recorded trajectory departs
/// from this by rounding alone.
pub proof fn lemma_step_conserves_population(
    p: Parameters,
    y: Compartments,
    h: real,
    stages: Seq<(real, Compartments)>,
)
    ensures
        runge_kutta_step(p, y, h, stages).total() == y.total(),
{
    let k = combined_rates(p, stages);
    lemma_combined_rates_add_up_to_zero(p, stages);
    assert(h * k.s + h * k.e + h * k.i + h * k.r == 0real) by (nonlinear_arith)
        requires
            k.s + k.e + k.i + k.r == 0real,
    ;
}

} // verus!
