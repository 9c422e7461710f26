//! Run configuration: tunable parameters supplied once before a run
//! starts and immutable while it lasts.

use vstd::prelude::*;
use crate::fixed::SCALE;

verus! {

/// Largest accepted simulation-speed multiplier (100 units).
pub const MAX_SIM_SPEED: i64 = 100_000_000;

/// Largest accepted movement speed (1000 units per second).
pub const MAX_MOVE_SPEED: i64 = 1_000_000_000;

/// Largest accepted day or night length (1000 seconds).
pub const MAX_PERIOD: i64 = 1_000_000_000;

/// Largest accepted base energy (1000 units).
pub const MAX_BASE_ENERGY: i64 = 1_000_000_000;

/// Largest accepted cost coefficient and mutation intensity (1 unit).
pub const MAX_RATE: i64 = 1_000_000;

/// Largest accepted seed population or food batch size.
pub const MAX_COUNT: usize = 1_000_000;

/// Tunable parameters of a run. All quantities are fixed-point values
/// counted in millionths of a unit (seconds for times, world units
/// for lengths); see [`crate::fixed::SCALE`].
#[derive(Clone, Copy, Debug)]
pub struct Config {
    /// Multiplier applied to every frame delta before it reaches the
    /// clock, movement and energy rules.
    pub sim_speed: i64,
    /// Base movement speed in units per second; each agent scales it
    /// by its own speed trait.
    pub movement_speed: i64,
    /// Length of the day phase in seconds of simulated time.
    pub day_length: i64,
    /// Length of the night phase in seconds of simulated time.
    pub night_length: i64,
    /// Energy granted at birth and restored at dawn.
    pub base_energy: i64,
    /// Energy cost per unit of distance moved, scaled again by the
    /// agent's speed trait.
    pub base_energy_cost: i64,
    /// Energy cost per second of carrying a sensed food target.
    pub sense_cost: i64,
    /// Half-width of the relative perturbation applied to each trait
    /// at reproduction.
    pub trait_change_intensity: i64,
    /// Number of agents spawned at simulation start.
    pub person_count: usize,
    /// Number of food items spawned at start and at every dawn.
    pub food_count: usize,
}

/// Why a configuration was rejected before the run started.
#[derive(Clone, Copy, Debug, PartialEq, Eq, Structural)]
pub enum ConfigError {
    /// Some parameter was zero or negative.
    NonPositive,
    /// Some parameter exceeded its documented cap.
    TooLarge,
}

impl Config {
    /// Documented constraints: every parameter is positive and no
    /// parameter exceeds its cap.
    pub open spec fn wf(self) -> bool {
        &&& 1 <= self.sim_speed <= MAX_SIM_SPEED
        &&& 1 <= self.movement_speed <= MAX_MOVE_SPEED
        &&& 1 <= self.day_length <= MAX_PERIOD
        &&& 1 <= self.night_length <= MAX_PERIOD
        &&& 1 <= self.base_energy <= MAX_BASE_ENERGY
        &&& 1 <= self.base_energy_cost <= MAX_RATE
        &&& 1 <= self.sense_cost <= MAX_RATE
        &&& 1 <= self.trait_change_intensity <= MAX_RATE
        &&& 1 <= self.person_count <= MAX_COUNT
        &&& 1 <= self.food_count <= MAX_COUNT
    }

    /// All parameters positive, within their caps.
    pub open spec fn candidate(
        sim_speed: i64,
        movement_speed: i64,
        day_length: i64,
        night_length: i64,
        base_energy: i64,
        base_energy_cost: i64,
        sense_cost: i64,
        trait_change_intensity: i64,
        person_count: usize,
        food_count: usize,
    ) -> Config {
        Config {
            sim_speed,
            movement_speed,
            day_length,
            night_length,
            base_energy,
            base_energy_cost,
            sense_cost,
            trait_change_intensity,
            person_count,
            food_count,
        }
    }

    /// Validates a configuration before any tick runs: a violation is
    /// a fatal configuration error, never silently clamped.
    pub fn new(
        sim_speed: i64,
        movement_speed: i64,
        day_length: i64,
        night_length: i64,
        base_energy: i64,
        base_energy_cost: i64,
        sense_cost: i64,
        trait_change_intensity: i64,
        person_count: usize,
        food_count: usize,
    ) -> (r: Result<Config, ConfigError>)
        ensures
            ({
                let c = Config::candidate(
                    sim_speed,
                    movement_speed,
                    day_length,
                    night_length,
                    base_energy,
                    base_energy_cost,
                    sense_cost,
                    trait_change_intensity,
                    person_count,
                    food_count,
                );
                &&& r matches Ok(k) ==> k == c && c.wf()
                &&& c.wf() ==> (r matches Ok(k) && k == c)
                &&& r matches Err(e) ==> !c.wf() && (e == ConfigError::NonPositive <==> (
                    sim_speed < 1 || movement_speed < 1 || day_length < 1 || night_length < 1
                        || base_energy < 1 || base_energy_cost < 1 || sense_cost < 1
                        || trait_change_intensity < 1 || person_count < 1 || food_count < 1))
            }),
    {
        if sim_speed < 1 || movement_speed < 1 || day_length < 1 || night_length < 1
            || base_energy < 1 || base_energy_cost < 1 || sense_cost < 1
            || trait_change_intensity < 1 || person_count < 1 || food_count < 1 {
            return Err(ConfigError::NonPositive);
        }
        if sim_speed > MAX_SIM_SPEED || movement_speed > MAX_MOVE_SPEED
            || day_length > MAX_PERIOD || night_length > MAX_PERIOD
            || base_energy > MAX_BASE_ENERGY || base_energy_cost > MAX_RATE
            || sense_cost > MAX_RATE || trait_change_intensity > MAX_RATE
            || person_count > MAX_COUNT || food_count > MAX_COUNT {
            return Err(ConfigError::TooLarge);
        }
        Ok(Config {
            sim_speed,
            movement_speed,
            day_length,
            night_length,
            base_energy,
            base_energy_cost,
            sense_cost,
            trait_change_intensity,
            person_count,
            food_count,
        })
    }
}

impl Default for Config {
    /// The stock parameter set: unit simulation speed, a 10-second
    /// day, a 2-second night, 10 agents and 100 food items.
    fn default() -> (r: Config)
        ensures
            r.wf(),
            r.sim_speed == SCALE,
            r.movement_speed == 150 * SCALE,
            r.day_length == 10 * SCALE,
            r.night_length == 2 * SCALE,
            r.base_energy == SCALE,
            r.base_energy_cost == 556,
            r.sense_cost == 83_333,
            r.trait_change_intensity == 100_000,
            r.person_count == 10,
            r.food_count == 100,
    {
        Config {
            sim_speed: 1_000_000,
            movement_speed: 150_000_000,
            day_length: 10_000_000,
            night_length: 2_000_000,
            base_energy: 1_000_000,
            base_energy_cost: 556,
            sense_cost: 83_333,
            trait_change_intensity: 100_000,
            person_count: 10,
            food_count: 100,
        }
    }
}

} // verus!
