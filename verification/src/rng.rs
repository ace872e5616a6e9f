//! Sources of randomness and the notification channel.
//!
//! Every call into an outside crate stands behind a trusted item here; the
//! functions that consume the random values are verified for every value
//! the trusted contracts admit.

use vstd::prelude::*;
use rand::Rng;
use rand::SeedableRng;
use crate::types::{Colour, Config, Direction, Point};

verus! {

/// Declares tokio's mpsc `Sender` so player records can hold their
/// wake-up channel; the value is opaque to the proofs.
#[verifier::external_type_specification]
#[verifier::external_body]
#[verifier::reject_recursive_types(T)]
pub struct ExSender<T>(tokio::sync::mpsc::Sender<T>);

/// Declares tokio's mpsc `Receiver` so registration can hand the session
/// its wake-up channel; the value is opaque to the proofs.
#[verifier::external_type_specification]
#[verifier::external_body]
#[verifier::reject_recursive_types(T)]
pub struct ExReceiver<T>(tokio::sync::mpsc::Receiver<T>);

/// Relies on rand's `Rng::gen_range` over the half-open range `0..n`,
/// seeded from `ChaCha20Rng::from_entropy`: the sample lies strictly below
/// `n`.  `gen_range` panics only on an empty range, which `0 < n` rules
/// out.
#[verifier::external_body]
fn random_below(n: u64) -> (r: u64)
    requires
        0 < n,
    ensures
        r < n,
{
    let mut rng = rand_chacha::ChaCha20Rng::from_entropy();
    rng.gen_range(0..n)
}

/// Relies on uuid's `Uuid::new_v4`, a randomly drawn identifier, read out
/// as its 128-bit value with `Uuid::as_u128`.  The value is random, so
/// nothing is promised of it; callers check freshness themselves.
#[verifier::external_body]
pub(crate) fn random_id() -> (id: u128) {
    uuid::Uuid::new_v4().as_u128()
}

/// Relies on tokio's bounded mpsc `channel`: creates a queue of capacity
/// `cap` whose `Sender` half delivers to the `Receiver` half.  `channel`
/// panics when the capacity is zero or exceeds the semaphore's permit
/// cap of `usize::MAX >> 3`; the precondition rules both out.
#[verifier::external_body]
pub(crate) fn new_notify_channel(cap: usize) -> (r: (
    tokio::sync::mpsc::Sender<()>,
    tokio::sync::mpsc::Receiver<()>,
))
    requires
        0 < cap <= usize::MAX / 8,
{
    tokio::sync::mpsc::channel(cap)
}

/// Relies on tokio's `Sender::try_send`: a non-blocking send that delivers
/// the unit wake-up when the queue has room, and otherwise (queue full or
/// receiver gone) drops it.  It never blocks and never panics; whether it
/// delivered depends on the receiver, so nothing more is promised.
#[verifier::external_body]
pub(crate) fn notify_send(tx: &tokio::sync::mpsc::Sender<()>) -> (delivered: bool) {
    tx.try_send(()).is_ok()
}

/// A direction drawn uniformly at random.
pub(crate) fn random_direction() -> (d: Direction) {
    let k = random_below(4);
    if k == 0 {
        Direction::Up
    } else if k == 1 {
        Direction::Right
    } else if k == 2 {
        Direction::Down
    } else {
        Direction::Left
    }
}

/// A colour drawn uniformly at random.
pub(crate) fn random_colour() -> (c: Colour) {
    let r = random_below(256);
    let g = random_below(256);
    let b = random_below(256);
    Colour { r: r as u8, g: g as u8, b: b as u8 }
}

/// A field cell drawn uniformly at random; always in bounds.
pub(crate) fn random_point(cfg: &Config) -> (p: Point)
    requires
        cfg.valid(),
    ensures
        cfg.in_bounds(p),
{
    let x = random_below(cfg.field_width as u64);
    let y = random_below(cfg.field_height as u64);
    Point { x: x as isize, y: y as isize }
}

} // verus!
