//! Telemetry aggregator for a BDD-style test run: an entity tree of
//! features, scenarios and steps fed by lifecycle events, a pure roll-up
//! of feature status, an immutable run report, a deterministic text
//! renderer, a structured snapshot codec, and the URL/signing helpers the
//! surrounding API client uses.
pub mod chars;
pub mod outcome;
pub mod stats;
pub mod rollup;
pub mod report;
pub mod render;
pub mod snapshot;
pub mod protocol;
pub mod api;
