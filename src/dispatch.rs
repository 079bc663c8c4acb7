//! Decisions of the dispatch loop: what a device read means, and what to do
//! with a snapshot of the key states.
use vstd::prelude::*;
use crate::bytes::{find_byte, first_index, lemma_first_index_bounds};

verus! {

/// Time between two reads when the device had nothing new, in milliseconds.
pub const POLLING_RATE_MS: u64 = 500;

/// The value of a pressed key in a snapshot.
pub const PRESSED: u8 = 1;

/// Why a read of the device failed.
#[derive(Clone, Copy, Debug, PartialEq, Eq, Structural)]
pub enum DeviceError {
    /// The device had no new key states; not a failure.
    NoData,
    /// Any other failure of the transport, which ends the device worker.
    Fatal,
}

/// What the device worker answers to a key read: `Ok(None)` when the device
/// had no new data, `Ok(Some(snapshot))` with the key states, and an error
/// only for the failures that end the worker.
pub fn read_keys(r: Result<Vec<u8>, DeviceError>) -> (out: Result<Option<Vec<u8>>, DeviceError>)
    ensures
        r == Err::<Vec<u8>, DeviceError>(DeviceError::NoData) ==> out == Ok::<
            Option<Vec<u8>>,
            DeviceError,
        >(None),
        r == Err::<Vec<u8>, DeviceError>(DeviceError::Fatal) ==> out == Err::<
            Option<Vec<u8>>,
            DeviceError,
        >(DeviceError::Fatal),
        r.is_ok() ==> out == Ok::<Option<Vec<u8>>, DeviceError>(Some(r.unwrap())),
{
    match r {
        Ok(keys) => Ok(Some(keys)),
        Err(DeviceError::NoData) => Ok(None),
        Err(DeviceError::Fatal) => Err(DeviceError::Fatal),
    }
}

/// Index of the lowest pressed key of `keys`, or its length when no key is
/// pressed.
pub open spec fn lowest_pressed(keys: Seq<u8>) -> int {
    first_index(keys, PRESSED)
}

/// What the dispatch loop does with the snapshot `keys`.
pub open spec fn action_for(keys: Seq<u8>) -> PollAction {
    if lowest_pressed(keys) < keys.len() {
        PollAction::Click(lowest_pressed(keys) as usize)
    } else {
        PollAction::Read
    }
}

/// Index of the first pressed key of the snapshot; keys that are pressed
/// together beyond it are not reported.
pub fn first_pressed(keys: &[u8]) -> (r: Option<usize>)
    ensures
        r.is_none() <==> lowest_pressed(keys@) == keys@.len(),
        r.is_some() ==> r.unwrap() == lowest_pressed(keys@),
        r.is_none() <==> forall|k: int| 0 <= k < keys@.len() ==> keys@[k] != PRESSED,
        r.is_some() ==> r.unwrap() < keys@.len() && keys@[r.unwrap() as int] == PRESSED,
        r.is_some() ==> forall|j: int| 0 <= j < r.unwrap() ==> keys@[j] != PRESSED,
{
    let i = find_byte(keys, PRESSED);
    proof {
        lemma_first_index_bounds(keys@, PRESSED);
    }
    if i < keys.len() {
        Some(i)
    } else {
        None
    }
}

/// What the dispatch loop does after a read.
#[derive(Clone, Copy, Debug, PartialEq, Eq, Structural)]
pub enum PollAction {
    /// Sleep this many milliseconds, then read again.
    Wait(u64),
    /// Read again at once: no key is pressed.
    Read,
    /// Run the click handler of this key, and of no other, then read again.
    Click(usize),
}

/// The dispatch loop's step for one read: with no data it waits the polling
/// interval; with a snapshot it clicks the lowest pressed key, or reads again
/// at once when none is pressed.
pub fn next_action(snapshot: &Option<Vec<u8>>, poll_ms: u64) -> (a: PollAction)
    ensures
        snapshot.is_none() ==> a == PollAction::Wait(poll_ms),
        snapshot.is_some() ==> a == action_for(snapshot.unwrap()@),
{
    match snapshot {
        None => PollAction::Wait(poll_ms),
        Some(keys) => match first_pressed(keys.as_slice()) {
            None => PollAction::Read,
            Some(k) => PollAction::Click(k),
        },
    }
}

/// With no pressed key the loop clicks nothing; with pressed keys it clicks
/// exactly the lowest of them, whatever other keys are pressed with it.
pub proof fn lemma_click_lowest(keys: Seq<u8>)
    ensures
        (forall|k: int| 0 <= k < keys.len() ==> keys[k] != PRESSED) <==> action_for(keys)
            == PollAction::Read,
        forall|k: int|
            0 <= k < keys.len() && keys[k] == PRESSED && (forall|j: int|
                0 <= j < k ==> keys[j] != PRESSED) ==> action_for(keys) == PollAction::Click(
                k as usize,
            ),
{
    lemma_first_index_bounds(keys, PRESSED);
    if lowest_pressed(keys) < keys.len() {
        assert(keys[lowest_pressed(keys)] == PRESSED);
    }
    assert forall|k: int|
        0 <= k < keys.len() && keys[k] == PRESSED && (forall|j: int|
            0 <= j < k ==> keys[j] != PRESSED) implies action_for(keys) == PollAction::Click(
        k as usize,
    ) by {
        if lowest_pressed(keys) < k {
            assert(keys[lowest_pressed(keys)] != PRESSED);
        }
    }
}

} // verus!
