//! The field configurations of the circuit compiler and their cost constants.

use vstd::prelude::*;

verus! {

/// A field configuration of the circuit compiler: its identifier, the costs it
/// weighs circuit elements with, and whether outputs are combined at random.
pub trait Config {
    /// The configuration's identifier.
    spec fn spec_config_id() -> usize;

    /// The cost of a multiplication gate.
    spec fn spec_cost_mul() -> usize;

    /// Whether outputs are combined with random coefficients.
    spec fn spec_random_combination() -> bool;

    fn config_id() -> (r: usize)
        ensures
            r == Self::spec_config_id(),
    ;

    fn cost_input() -> (r: usize)
        ensures
            r == 1000,
    ;

    fn cost_variable() -> (r: usize)
        ensures
            r == 100,
    ;

    fn cost_mul() -> (r: usize)
        ensures
            r == Self::spec_cost_mul(),
    ;

    fn cost_add() -> (r: usize)
        ensures
            r == 3,
    ;

    fn cost_const() -> (r: usize)
        ensures
            r == 3,
    ;

    fn enable_random_combination() -> (r: bool)
        ensures
            r == Self::spec_random_combination(),
    ;
}

/// The Mersenne-31 configuration.
pub struct M31Config;

/// The BN254 scalar field configuration.
pub struct BN254Config;

/// The GF(2) configuration.
pub struct GF2Config;

/// The Goldilocks configuration.
pub struct GoldilocksConfig;

/// The BabyBear configuration.
pub struct BabyBearConfig;

impl Config for M31Config {
    open spec fn spec_config_id() -> usize {
        1
    }

    open spec fn spec_cost_mul() -> usize {
        10
    }

    open spec fn spec_random_combination() -> bool {
        true
    }

    fn config_id() -> (r: usize) {
        1
    }

    fn cost_input() -> (r: usize) {
        1000
    }

    fn cost_variable() -> (r: usize) {
        100
    }

    fn cost_mul() -> (r: usize) {
        10
    }

    fn cost_add() -> (r: usize) {
        3
    }

    fn cost_const() -> (r: usize) {
        3
    }

    fn enable_random_combination() -> (r: bool) {
        true
    }
}

impl Config for BN254Config {
    open spec fn spec_config_id() -> usize {
        2
    }

    open spec fn spec_cost_mul() -> usize {
        10
    }

    open spec fn spec_random_combination() -> bool {
        true
    }

    fn config_id() -> (r: usize) {
        2
    }

    fn cost_input() -> (r: usize) {
        1000
    }

    fn cost_variable() -> (r: usize) {
        100
    }

    fn cost_mul() -> (r: usize) {
        10
    }

    fn cost_add() -> (r: usize) {
        3
    }

    fn cost_const() -> (r: usize) {
        3
    }

    fn enable_random_combination() -> (r: bool) {
        true
    }
}

impl Config for GF2Config {
    open spec fn spec_config_id() -> usize {
        3
    }

    open spec fn spec_cost_mul() -> usize {
        200
    }

    open spec fn spec_random_combination() -> bool {
        false
    }

    fn config_id() -> (r: usize) {
        3
    }

    fn cost_input() -> (r: usize) {
        1000
    }

    fn cost_variable() -> (r: usize) {
        100
    }

    fn cost_mul() -> (r: usize) {
        200
    }

    fn cost_add() -> (r: usize) {
        3
    }

    fn cost_const() -> (r: usize) {
        3
    }

    fn enable_random_combination() -> (r: bool) {
        false
    }
}

impl Config for GoldilocksConfig {
    open spec fn spec_config_id() -> usize {
        4
    }

    open spec fn spec_cost_mul() -> usize {
        10
    }

    open spec fn spec_random_combination() -> bool {
        true
    }

    fn config_id() -> (r: usize) {
        4
    }

    fn cost_input() -> (r: usize) {
        1000
    }

    fn cost_variable() -> (r: usize) {
        100
    }

    fn cost_mul() -> (r: usize) {
        10
    }

    fn cost_add() -> (r: usize) {
        3
    }

    fn cost_const() -> (r: usize) {
        3
    }

    fn enable_random_combination() -> (r: bool) {
        true
    }
}

impl Config for BabyBearConfig {
    open spec fn spec_config_id() -> usize {
        5
    }

    open spec fn spec_cost_mul() -> usize {
        10
    }

    open spec fn spec_random_combination() -> bool {
        true
    }

    fn config_id() -> (r: usize) {
        5
    }

    fn cost_input() -> (r: usize) {
        1000
    }

    fn cost_variable() -> (r: usize) {
        100
    }

    fn cost_mul() -> (r: usize) {
        10
    }

    fn cost_add() -> (r: usize) {
        3
    }

    fn cost_const() -> (r: usize) {
        3
    }

    fn enable_random_combination() -> (r: bool) {
        true
    }
}

} // verus!
