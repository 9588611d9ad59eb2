//! Owner management, API keys and usage reporting for canisters that serve the
//! Model Context Protocol on the Internet Computer.
//!
//! Every decision is a verified function over plain values. Inter-canister
//! calls, timers and the clock belong to the caller, who performs what a
//! function here asks for and hands the outcome back.

/// Principals as byte strings.
pub mod principal;

/// Integers without bounds.
pub mod numbers;

/// Readings of the Internet Computer's clock.
pub mod clock;

/// SHA-256 digests and hexadecimal text.
pub mod digest;

/// The order of texts.
pub mod order;

mod table;

/// Candid replies of other canisters.
pub mod wire;

/// Counts of tool calls by caller and tool.
pub mod usage;

/// Usage reporting.
pub mod beacon;

/// Self-service API-key management.
pub mod api_key;

/// Owner management and ICRC-1 treasury functions.
pub mod treasury;
