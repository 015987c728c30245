use perps::async_instructions::{Outcome, PerpsAsyncIx};
use perps::error::ProgramError;
use perps::state::PerpsState;
use perps::sync_instructions::PerpsSyncIx;
use perps::PerpsProgram;

const ID: [u8; 32] = [8; 32];
const STATE: [u8; 32] = [9; 32];
const USER: [u8; 32] = [1; 32];
const OTHER: [u8; 32] = [2; 32];

fn data(route: u8, words: &[u64]) -> Vec<u8> {
    let mut bytes = vec![route];
    for word in words {
        bytes.extend_from_slice(&word.to_le_bytes());
    }
    bytes
}

fn run(state: &mut PerpsState, bytes: &[u8], user: [u8; 32], clock: Option<u64>) -> Result<(), ProgramError> {
    PerpsProgram::process(&ID, &[STATE, user], bytes, clock, state)
}

#[test]
fn a_fresh_state_is_initialized() {
    let mut state = PerpsState::zeroed();
    assert_eq!(state.seq, 0);
    assert_eq!(run(&mut state, &data(2, &[]), USER, Some(1)), Ok(()));
    assert_eq!(state.seq, 1);
    assert_eq!(state.async_queue.len(), 0);
    assert_eq!(state.orderbook.bids.len(), 0);
    assert_eq!(state.orderbook.asks.len(), 0);
}

#[test]
fn too_few_accounts() {
    let mut state = PerpsState::zeroed();
    let refused = PerpsProgram::process(&ID, &[STATE], &data(0, &[0, 5]), None, &mut state);
    assert_eq!(refused, Err(ProgramError::NotEnoughAccountKeys));
    assert_eq!(state.seq, 0);
    let reply = PerpsProgram::checked_process(&ID, &[], &[], None, &mut state).unwrap();
    assert_eq!(reply.answer, Err(ProgramError::NotEnoughAccountKeys));
    assert!(reply.ran.is_empty());
}

#[test]
fn deposit_and_withdraw() {
    let mut state = PerpsState::zeroed();
    assert_eq!(run(&mut state, &data(0, &[0, 1_000]), USER, None), Ok(()));
    assert_eq!(state.margins.get_balance(&USER), 1_000);
    assert_eq!(run(&mut state, &data(0, &[1, 400]), USER, None), Ok(()));
    assert_eq!(state.margins.get_balance(&USER), 600);
    let refused = run(&mut state, &data(0, &[1, 601]), USER, None);
    assert_eq!(refused, Err(ProgramError::Custom(0x11)));
    assert_eq!(state.margins.get_balance(&USER), 600);
    let refused = run(&mut state, &data(0, &[0, u64::MAX]), USER, None);
    assert_eq!(refused, Err(ProgramError::Custom(0x10)));
    assert_eq!(state.margins.get_balance(&USER), 600);
    assert_eq!(state.margins.get_balance(&STATE), 0);
}

#[test]
fn oracle_and_funding() {
    let mut state = PerpsState::zeroed();
    assert_eq!(run(&mut state, &data(0, &[2, 0x0102_0304_0506_0708]), USER, None), Ok(()));
    assert_eq!(state.oracle_price, 0x0102_0304_0506_0708);
    assert_eq!(run(&mut state, &data(0, &[3]), USER, Some(77)), Ok(()));
    assert_eq!(state.last_funding_slot, 77);
    assert_eq!(run(&mut state, &data(0, &[3]), USER, None), Ok(()));
    assert_eq!(state.last_funding_slot, 0);
    assert_eq!(state.funding_rate, 0);
}

#[test]
fn malformed_sync_instructions() {
    let mut state = PerpsState::zeroed();
    let invalid = Err(ProgramError::InvalidInstructionData);
    assert_eq!(run(&mut state, &data(0, &[]), USER, None), invalid);
    assert_eq!(run(&mut state, &data(0, &[4, 1]), USER, None), invalid);
    for ix in [0, 1, 2] {
        let mut bytes = data(0, &[ix, 5]);
        bytes.pop();
        assert_eq!(run(&mut state, &bytes, USER, None), invalid);
    }
    assert_eq!(run(&mut state, &[0, 0, 0, 0, 0, 0, 0, 0], USER, None), invalid);
}

#[test]
fn sync_instructions_by_themselves() {
    let mut state = PerpsState::new_boxed();
    let bytes = data(0, &[0, 5]);
    let ix = PerpsSyncIx::from_bytes(&bytes[1..]).unwrap();
    assert_eq!(ix, PerpsSyncIx::Deposit);
    let refused = ix.process(&bytes[1..], &[STATE], None, &mut state);
    assert_eq!(refused, Err(ProgramError::NotEnoughAccountKeys));
    assert_eq!(ix.process(&bytes[1..], &[STATE, USER, OTHER], None, &mut state), Ok(()));
    assert_eq!(state.margins.get_balance(&USER), 5);
    let bytes = data(0, &[1, 5]);
    let ix = PerpsSyncIx::from_bytes(&bytes[1..]).unwrap();
    let refused = ix.process(&bytes[1..], &[], None, &mut state);
    assert_eq!(refused, Err(ProgramError::NotEnoughAccountKeys));
    assert_eq!(PerpsSyncIx::from_bytes(&[0; 7]), Err(ProgramError::InvalidInstructionData));
}

#[test]
fn async_instructions_are_read_by_number() {
    let numbered = [
        PerpsAsyncIx::Liquidate,
        PerpsAsyncIx::Cancel,
        PerpsAsyncIx::PlaceOrder,
        PerpsAsyncIx::Take,
    ];
    for (n, ix) in numbered.iter().enumerate() {
        assert_eq!(PerpsAsyncIx::from_bytes(&(n as u64).to_le_bytes()), Ok(*ix));
        assert_eq!(ix.priority(), n as u64);
        assert_eq!(PerpsAsyncIx::from_number(n as u64), *ix);
    }
    assert!(PerpsAsyncIx::Cancel < PerpsAsyncIx::Take);
    let invalid = Err(ProgramError::InvalidInstructionData);
    assert_eq!(PerpsAsyncIx::from_bytes(&4u64.to_le_bytes()), invalid);
    assert_eq!(PerpsAsyncIx::from_bytes(&[0, 0, 0, 0, 0, 0, 0, 1]), invalid);
    assert_eq!(PerpsAsyncIx::from_bytes(&[0; 7]), invalid);
}

#[test]
fn the_fields_of_a_queued_instruction_are_optional() {
    let mut state = PerpsState::zeroed();
    assert_eq!(run(&mut state, &data(1, &[1]), USER, Some(3)), Ok(()));
    let node = state.pop_async().unwrap();
    assert_eq!((node.key.slot, node.key.priority, node.key.seq), (3, 1, 1));
    assert_eq!(node.value.user, USER);
    assert_eq!(node.value.price, 0);
    assert_eq!(node.value.extra_user, [0; 32]);

    let mut bytes = data(1, &[2, 11, 22, 33, 44]);
    bytes.extend_from_slice(&OTHER);
    bytes.push(200);
    assert_eq!(run(&mut state, &bytes, USER, Some(3)), Ok(()));
    let node = state.pop_async().unwrap();
    assert_eq!(node.key.seq, 2);
    assert_eq!(node.value.ix_type, 2);
    assert_eq!(node.value.price, 11);
    assert_eq!(node.value.size, 22);
    assert_eq!(node.value.side, 33);
    assert_eq!(node.value.order_seq, 44);
    assert_eq!(node.value.extra_user, OTHER);

    bytes.truncate(72);
    assert_eq!(run(&mut state, &bytes, USER, Some(3)), Ok(()));
    assert_eq!(state.pop_async().unwrap().value.extra_user, [0; 32]);
    bytes.truncate(40);
    assert_eq!(run(&mut state, &bytes, USER, Some(3)), Ok(()));
    let node = state.pop_async().unwrap();
    assert_eq!((node.value.side, node.value.order_seq), (33, 0));
}

#[test]
fn malformed_routes() {
    let mut state = PerpsState::zeroed();
    let invalid = Err(ProgramError::InvalidInstructionData);
    assert_eq!(run(&mut state, &data(3, &[0, 5]), USER, Some(1)), invalid);
    assert_eq!(run(&mut state, &data(1, &[4]), USER, None), invalid);
    assert_eq!(run(&mut state, &[1, 0], USER, None), invalid);
    assert_eq!(state.seq, 1);
}

#[test]
fn what_cannot_be_carried_out() {
    let accounts = [STATE, USER];
    let mut state = PerpsState::zeroed();
    assert!(PerpsProgram::checked_process(&ID, &accounts, &[], Some(1), &mut state).is_none());
    let bytes = data(1, &[1]);
    assert!(PerpsProgram::checked_process(&ID, &accounts, &bytes, None, &mut state).is_none());
    assert!(PerpsProgram::checked_process(&ID, &accounts, &[2], None, &mut state).is_none());
    state.seq = u64::MAX;
    assert!(PerpsProgram::checked_process(&ID, &accounts, &bytes, Some(1), &mut state).is_none());
}

#[test]
fn a_full_queue_is_answered() {
    let mut state = PerpsState::zeroed();
    for _ in 0..4096 {
        assert_eq!(run(&mut state, &data(1, &[1]), USER, Some(3)), Ok(()));
    }
    let refused = run(&mut state, &data(1, &[1]), USER, Some(3));
    assert_eq!(refused, Err(ProgramError::Custom(0x20)));
}

#[test]
fn a_crank_replies_what_it_ran() {
    let accounts = [STATE, USER];
    let mut state = PerpsState::zeroed();
    assert_eq!(run(&mut state, &data(0, &[0, 100_000]), USER, None), Ok(()));
    let place = data(1, &[2, 150, 10, 1, 1]);
    let reply = PerpsProgram::checked_process(&ID, &accounts, &place, Some(1), &mut state);
    assert!(reply.unwrap().ran.is_empty());
    let reply = PerpsProgram::checked_process(&ID, &accounts, &[2], Some(2), &mut state).unwrap();
    assert_eq!(reply.answer, Ok(()));
    assert_eq!(reply.ran, vec![Outcome::Placed { price: 150, size: 10, side: 1 }]);
}

/// Collateral, a resting order, a cancel and a take in one slot; then a take that is filled.
#[test]
fn a_whole_session() {
    let mut state = PerpsState::zeroed();
    assert_eq!(run(&mut state, &data(0, &[0, 100_000]), USER, None), Ok(()));
    assert_eq!(run(&mut state, &data(0, &[0, 100_000]), OTHER, None), Ok(()));
    // USER asks 150 for 10 units, and it rests in the book after the next slot's crank.
    assert_eq!(run(&mut state, &data(1, &[2, 150, 10, 1, 1]), USER, Some(10)), Ok(()));
    assert_eq!(run(&mut state, &data(2, &[]), OTHER, Some(10)), Ok(()));
    assert_eq!(state.orderbook.asks.len(), 0);
    assert_eq!(run(&mut state, &data(2, &[]), OTHER, Some(11)), Ok(()));
    assert_eq!(state.orderbook.asks.len(), 1);
    // OTHER takes, USER cancels: the cancel is first.
    assert_eq!(run(&mut state, &data(1, &[3, 150, 10, 0]), OTHER, Some(11)), Ok(()));
    assert_eq!(run(&mut state, &data(1, &[1, 150, 0, 1, 1]), USER, Some(11)), Ok(()));
    assert_eq!(run(&mut state, &data(2, &[]), USER, Some(12)), Ok(()));
    assert_eq!(state.orderbook.asks.len(), 0);
    assert!(state.positions.find(&OTHER).is_none());
    assert_eq!(state.margins.get_balance(&USER), 100_000);
    // Without a cancel the take is filled.
    assert_eq!(run(&mut state, &data(1, &[3, 155, 4, 0]), OTHER, Some(12)), Ok(()));
    assert_eq!(run(&mut state, &data(1, &[2, 155, 10, 1, 2]), USER, Some(12)), Ok(()));
    assert_eq!(run(&mut state, &data(2, &[]), USER, Some(13)), Ok(()));
    let taken = state.positions.positions[state.positions.find(&OTHER).unwrap()];
    assert_eq!((taken.side, taken.size, taken.entry_price), (0, 4, 155));
    assert_eq!(state.orderbook.best_ask().unwrap().1.size, 6);
    assert_eq!(state.margins.get_balance(&OTHER), 100_000 - 62);
    assert_eq!(state.margins.get_balance(&USER), 100_000 - 155 + 62);
}
