//! Core logic of a coverage-guided, property-based exerciser for web
//! applications: weighted action trees, response-header repair and CSP
//! sanitisation for instrumented responses, edge-coverage bucketing and
//! transition hashing, a bounded linear-temporal-logic evaluator, and the
//! decision core of the runner loop.

pub mod actions;

pub mod chars;

pub mod coverage;

pub mod csp;

pub mod headers;

pub mod instrumentation;

pub mod keys;

pub mod ltl;

pub mod rng;

pub mod runner;

pub mod state;

pub mod state_machine;

pub mod trace;

pub mod tree;

pub mod origin;

pub mod properties;
