use bob_pool::{
    add_rewards, deposit_fetched, get_member_cycles, get_member_rewards, get_miner_canister,
    get_pool_state, get_running_state, inspect_message, join_failed, join_pool, member_cycles,
    member_rewards, pay_rewards, payout_confirmed, payout_failed, set_member_block_cycles,
    spawn_miner, spawn_step, start, step, stop, top_up_notified, Action, Admission, Block, Event,
    LedgerOperation, LedgerTransaction, LogEntry, MemberCycles, Method, MinerStats, Pool,
    PoolError, PoolRunningState, PrincipalId, RoundState, SpawnAction, SpawnEvent, Stage,
    StageError, Stats, BOB_POOL_BLOCK_FEE,
};
use candid::Principal;
use ic_ledger_types::{AccountIdentifier, Subaccount, DEFAULT_SUBACCOUNT};

// A small world around the pool: a mining resource that mines a block every
// eight minutes, a miner that burns its allowance half a minute into each
// round, a cycle minter with a fixed rate, and two ledgers.

const XDR_PERMYRIAD_PER_ICP: u64 = 50_000;
const BLOCK_REWARD: u64 = 60_000_000_000;
const BLOCK_INTERVAL: u64 = 480;
const MINER_TICK: u64 = 30;
const NANOS: u64 = 1_000_000_000;
const TOP_UP_MEMO: u64 = 1347768404;
const FIRST_BLOCK: u64 = 1443;

const BOB_CANISTER_ID: [u8; 10] = [0x00, 0x00, 0x00, 0x00, 0x02, 0x40, 0x00, 0x55, 0x01, 0x01];
const BOB_POOL_CANISTER_ID: [u8; 10] = [0x00, 0x00, 0x00, 0x00, 0x02, 0x40, 0x00, 0x60, 0x01, 0x01];
const NNS_CYCLES_MINTING_CANISTER_ID: [u8; 10] = [0, 0, 0, 0, 0, 0, 0, 4, 1, 1];
const MINER_ID: [u8; 10] = [0x00, 0x00, 0x00, 0x00, 0x02, 0x40, 0x00, 0x61, 0x01, 0x01];

fn principal(byte: u8) -> PrincipalId {
    PrincipalId::from_slice(&[byte; 29]).unwrap()
}

fn canister(id: &[u8; 10]) -> PrincipalId {
    PrincipalId::from_slice(id).unwrap()
}

fn cycles_to_e8s(amount: u128) -> u64 {
    (amount / XDR_PERMYRIAD_PER_ICP as u128 + 1).try_into().unwrap()
}

fn account(owner: &[u8], subaccount_of: Option<&[u8]>) -> Vec<u8> {
    let subaccount = match subaccount_of {
        Some(bytes) => Subaccount::from(Principal::from_slice(bytes)),
        None => DEFAULT_SUBACCOUNT,
    };
    AccountIdentifier::new(&Principal::from_slice(owner), &subaccount).as_bytes().to_vec()
}

struct World {
    pool: Pool,
    round: Option<RoundState>,
    timer: Option<u64>,
    now: u64,
    log: Vec<LogEntry>,
    block_count: u64,
    last_block_at: u64,
    blocks: Vec<(bool, u64)>,
    block_burns: Vec<u128>,
    bob_frozen: bool,
    pool_frozen: bool,
    miner_balance: u128,
    miner_allowance: u128,
    miner_last_burned: u128,
    burned_this_round: u128,
    miner_ticked: bool,
    pool_balance: u128,
    deposited: u128,
    icp_ledger: Vec<LedgerTransaction>,
    bob_ledger: Vec<(PrincipalId, u128)>,
    bob_ledger_frozen: bool,
}

impl World {
    fn new() -> World {
        World {
            pool: Pool::new(),
            round: Some(RoundState::Idle),
            timer: None,
            now: 0,
            log: Vec::new(),
            block_count: FIRST_BLOCK,
            last_block_at: 0,
            blocks: Vec::new(),
            block_burns: Vec::new(),
            bob_frozen: false,
            pool_frozen: false,
            miner_balance: 1_000_000_000_000,
            miner_allowance: 0,
            miner_last_burned: 0,
            burned_this_round: 0,
            miner_ticked: false,
            pool_balance: 1_000_000_000_000_000,
            deposited: 0,
            icp_ledger: Vec::new(),
            bob_ledger: Vec::new(),
            bob_ledger_frozen: false,
        }
    }

    // The pool with its miner spawned and its loop started.
    fn ready() -> World {
        let mut world = World::new();
        world.spawn_pool_miner().unwrap();
        world.start_pool().unwrap();
        world
    }

    fn transfer(&mut self, from: Vec<u8>, to: Vec<u8>, amount: u64) -> u64 {
        self.icp_ledger.push(LedgerTransaction {
            memo: TOP_UP_MEMO,
            operation: LedgerOperation::Transfer { from, to, amount },
        });
        self.icp_ledger.len() as u64 - 1
    }

    fn spawn_pool_miner(&mut self) -> Result<(), PoolError> {
        let mut next = spawn_miner(&self.pool, None);
        loop {
            let event = match next.action {
                SpawnAction::Deposit { amount, memo } => {
                    assert_eq!((amount, memo), (100_000_000, TOP_UP_MEMO));
                    let from = account(&BOB_POOL_CANISTER_ID, None);
                    let to = account(&NNS_CYCLES_MINTING_CANISTER_ID, Some(&BOB_CANISTER_ID));
                    SpawnEvent::Deposited { block_index: self.transfer(from, to, amount) }
                }
                SpawnAction::FetchBlock { block_index } => {
                    if (block_index as usize) < self.icp_ledger.len() {
                        SpawnEvent::BlockFound
                    } else {
                        SpawnEvent::BlockMissing
                    }
                }
                SpawnAction::SpawnMiner { .. } => SpawnEvent::Spawned { miner: canister(&MINER_ID) },
                SpawnAction::Done => return Ok(()),
                SpawnAction::GiveUp { reason } => return Err(reason),
            };
            next = spawn_step(&mut self.pool, next.state, event);
        }
    }

    fn start_pool(&mut self) -> Result<(), PoolError> {
        if let Some(first) = start(&mut self.pool)? {
            self.round = Some(first.state);
            self.settle(first.action);
        }
        Ok(())
    }

    fn stop_pool(&mut self) {
        stop(&mut self.pool);
    }

    fn recent_blocks(&self) -> Vec<Block> {
        let skip = self.blocks.len().saturating_sub(10);
        self.blocks[skip..]
            .iter()
            .rev()
            .map(|(ours, mined_at)| Block {
                to: if *ours { canister(&BOB_POOL_CANISTER_ID) } else { principal(0xFC) },
                timestamp: mined_at * NANOS,
                rewards: BLOCK_REWARD,
            })
            .collect()
    }

    // Performs what the loop asks for and tells what came of it.
    fn perform(&mut self, action: Action) -> Option<Event> {
        let answer = match action {
            Action::Halt | Action::Wait => return None,
            Action::SetTimer { delay } => {
                self.timer = Some(self.now + delay);
                return None;
            }
            Action::UpdateMinerSettings { miner, max_cycles_per_round } => {
                assert_eq!(miner, canister(&MINER_ID));
                if !self.pool_frozen {
                    self.miner_allowance = max_cycles_per_round;
                }
                Event::CallSucceeded
            }
            Action::GetLatestBlocks => {
                if self.bob_frozen {
                    Event::CallFailed
                } else {
                    Event::LatestBlocks {
                        blocks: self.recent_blocks(),
                        pool_id: canister(&BOB_POOL_CANISTER_ID),
                        now: self.now * NANOS,
                    }
                }
            }
            Action::GetBobStatistics => {
                if self.bob_frozen {
                    Event::CallFailed
                } else {
                    Event::BobStatistics {
                        stats: Stats {
                            block_count: self.block_count,
                            time_since_last_block: self.now - self.last_block_at,
                        },
                    }
                }
            }
            Action::UpgradeMiner { .. } => {
                if self.bob_frozen {
                    Event::CallFailed
                } else {
                    Event::CallSucceeded
                }
            }
            Action::GetMinerStatistics { .. } => Event::MinerStatistics {
                miner_stats: MinerStats {
                    cycle_balance: self.miner_balance,
                    last_round_cycles_burned: self.miner_last_burned,
                },
                pool_balance: self.pool_balance,
            },
            Action::DepositCycles { amount, .. } => {
                if !self.pool_frozen {
                    self.pool_balance -= amount;
                    self.miner_balance += amount;
                    self.deposited += amount;
                }
                Event::CallSucceeded
            }
        };
        Some(if self.pool_frozen { Event::CallFailed } else { answer })
    }

    // Runs the loop until it waits for a timer or has ended.
    fn settle(&mut self, action: Action) {
        let mut action = action;
        while let Some(event) = self.perform(action) {
            let next = step(&mut self.pool, self.round.take().unwrap(), event);
            self.log.extend(next.log.iter().copied());
            self.round = Some(next.state);
            action = next.action;
        }
    }

    fn tick(&mut self) {
        self.now += 1;
        assert!(
            self.now < 100_000,
            "the world ran too long: {:?}, {:?}, timer {:?}, log {:?}",
            get_running_state(&self.pool),
            self.round,
            self.timer,
            self.log
        );
        if self.now - self.last_block_at >= BLOCK_INTERVAL {
            self.block_count += 1;
            self.last_block_at = self.now;
            self.blocks.push((self.burned_this_round > 0, self.now));
            self.block_burns.push(self.burned_this_round);
            if !self.miner_ticked {
                self.miner_last_burned = 0;
            }
            self.burned_this_round = 0;
            self.miner_ticked = false;
        }
        // The miner burns its allowance once in a round, as soon as it has one
        // and can pay for it.
        if !self.miner_ticked
            && self.now - self.last_block_at >= MINER_TICK
            && self.miner_allowance > 0
            && self.miner_allowance <= self.miner_balance
        {
            self.miner_ticked = true;
            self.miner_balance -= self.miner_allowance;
            self.miner_last_burned = self.miner_allowance;
            self.burned_this_round = self.miner_allowance;
        }
        if let Some(due) = self.timer {
            if due < self.now {
                self.timer = None;
                let next = step(&mut self.pool, self.round.take().unwrap(), Event::TimerFired);
                self.log.extend(next.log.iter().copied());
                self.round = Some(next.state);
                self.settle(next.action);
            }
        }
    }

    fn advance(&mut self, seconds: u64) {
        for _ in 0..seconds {
            self.tick();
        }
    }

    fn mine_block(&mut self) {
        let before = self.block_count;
        while self.block_count == before {
            self.tick();
        }
    }

    fn wait_for_stopped_pool(&mut self) {
        while get_running_state(&self.pool) != PoolRunningState::Stopped {
            self.tick();
        }
    }

    // A deposit of `amount` e8s by `user`, and the join that claims it.
    fn join(&mut self, user: &PrincipalId, amount: u64) -> Result<(), PoolError> {
        let from = account(user.as_slice(), None);
        let to = account(&NNS_CYCLES_MINTING_CANISTER_ID, Some(&BOB_POOL_CANISTER_ID));
        let block_index = self.transfer(from, to, amount);
        self.claim(user, block_index)
    }

    fn claim(&mut self, user: &PrincipalId, block_index: u64) -> Result<(), PoolError> {
        let join = join_pool(&mut self.pool, user)?;
        if block_index as usize >= self.icp_ledger.len() {
            join_failed(&mut self.pool, join);
            return Err(PoolError::CallFailed);
        }
        let transaction = &self.icp_ledger[block_index as usize];
        let pool_id = canister(&BOB_POOL_CANISTER_ID);
        let join = deposit_fetched(&mut self.pool, join, transaction, &pool_id)?;
        let amount = match &transaction.operation {
            LedgerOperation::Transfer { amount, .. } => *amount,
            LedgerOperation::Other => 0,
        };
        top_up_notified(&mut self.pool, join, amount as u128 * XDR_PERMYRIAD_PER_ICP as u128)
    }

    // Pays `user` what it is owed; a frozen reward ledger fails every transfer.
    fn pay_member_rewards(&mut self, user: &PrincipalId) -> Result<(), PoolError> {
        ensure_member(&self.pool, user)?;
        let mut next = pay_rewards(&mut self.pool, user)?;
        while let Some(payout) = next {
            if self.bob_ledger_frozen {
                payout_failed(&mut self.pool, payout);
                return Err(PoolError::CallFailed);
            }
            self.bob_ledger.push((payout.member().clone(), payout.amount()));
            let block_index = self.bob_ledger.len() as u64 - 1;
            next = payout_confirmed(&mut self.pool, payout, block_index);
        }
        Ok(())
    }

    fn ensure_member_rewards(&mut self, user: &PrincipalId, num_rewards: usize) {
        while get_member_rewards(&self.pool, user).len() < num_rewards {
            self.tick();
        }
        self.pay_member_rewards(user).unwrap();
    }

    fn bob_balance(&self, user: &PrincipalId) -> u128 {
        self.bob_ledger.iter().filter(|(to, _)| to == user).map(|(_, amount)| amount).sum()
    }

    fn pool_blocks(&self) -> usize {
        self.blocks.iter().filter(|(ours, _)| *ours).count()
    }
}

fn ensure_member(pool: &Pool, user: &PrincipalId) -> Result<(), PoolError> {
    member_cycles(pool, user).map(|_| ())
}

#[test]
fn test_join_pool() {
    let admin = principal(0xFF);
    let user_1 = principal(0xFE);
    let user_2 = principal(0xFD);
    let mut world = World::ready();

    for user in [&admin, &user_1, &user_2] {
        assert_eq!(member_cycles(&world.pool, user), Err(PoolError::NotAMember));
        assert_eq!(
            world.join(user, 10_000_000),
            Err(PoolError::AmountTooLow { amount: 10_000_000, least: 99_990_000 })
        );
        assert_eq!(member_cycles(&world.pool, user), Err(PoolError::NotAMember));
        world.join(user, 100_000_000).unwrap();
        let member_cycles = get_member_cycles(&world.pool, user).unwrap();
        assert_eq!(member_cycles.block, 0);
        assert_eq!(member_cycles.remaining, XDR_PERMYRIAD_PER_ICP as u128 * 100_000_000);
        world.join(user, 100_000_000).unwrap();
        let member_cycles = get_member_cycles(&world.pool, user).unwrap();
        assert_eq!(member_cycles.block, 0);
        assert_eq!(member_cycles.remaining, 2 * XDR_PERMYRIAD_PER_ICP as u128 * 100_000_000);
    }

    assert!(world.log.is_empty());
}

#[test]
fn test_upgrade_pool() {
    let admin = principal(0xFF);
    let mut world = World::ready();
    let bob_miner = get_miner_canister(&world.pool).unwrap();

    let admin_block_cycles = 50_000_000_000_000;
    let join_e8s = cycles_to_e8s(admin_block_cycles + BOB_POOL_BLOCK_FEE);
    world.join(&admin, join_e8s).unwrap();

    let check_member_cycles = |member_cycles: MemberCycles| {
        assert_eq!(member_cycles.block, admin_block_cycles);
        assert!((admin_block_cycles + BOB_POOL_BLOCK_FEE
            ..admin_block_cycles + 2 * BOB_POOL_BLOCK_FEE)
            .contains(&member_cycles.remaining));
    };

    set_member_block_cycles(&mut world.pool, &admin, admin_block_cycles).unwrap();
    check_member_cycles(get_member_cycles(&world.pool, &admin).unwrap());

    world.ensure_member_rewards(&admin, 1);

    // One who is no controller can neither start nor stop the pool.
    assert_eq!(inspect_message(Method::Start, 0, false), Admission::ControllersOnly);
    assert_eq!(inspect_message(Method::Stop, 0, false), Admission::ControllersOnly);
    assert_eq!(inspect_message(Method::Start, 0, true), Admission::Accepted);
    assert_eq!(inspect_message(Method::Stop, 0, true), Admission::Accepted);

    match get_pool_state(&world.pool).running_state {
        PoolRunningState::Running => (),
        running_state => panic!("Unexpected pool running state: {:?}", running_state),
    };
    world.stop_pool();
    match get_pool_state(&world.pool).running_state {
        PoolRunningState::Stopping => (),
        running_state => panic!("Unexpected pool running state: {:?}", running_state),
    };
    world.wait_for_stopped_pool();
    match get_pool_state(&world.pool).running_state {
        PoolRunningState::Stopped => (),
        running_state => panic!("Unexpected pool running state: {:?}", running_state),
    };
    world.start_pool().unwrap();
    match get_pool_state(&world.pool).running_state {
        PoolRunningState::Running => (),
        running_state => panic!("Unexpected pool running state: {:?}", running_state),
    };
    world.stop_pool();
    world.wait_for_stopped_pool();
    match get_pool_state(&world.pool).running_state {
        PoolRunningState::Stopped => (),
        running_state => panic!("Unexpected pool running state: {:?}", running_state),
    };

    world.join(&admin, join_e8s).unwrap();
    check_member_cycles(get_member_cycles(&world.pool, &admin).unwrap());

    // A pool opened anew stands over a memory of its own, so the pool cannot
    // be upgraded here. It is stopped, as after an upgrade, and started.
    world.start_pool().unwrap();
    assert!(get_pool_state(&world.pool).miner.is_some());
    assert_eq!(get_miner_canister(&world.pool).unwrap(), bob_miner);
    check_member_cycles(get_member_cycles(&world.pool, &admin).unwrap());

    world.ensure_member_rewards(&admin, 2);

    world.join(&admin, join_e8s).unwrap();
    check_member_cycles(get_member_cycles(&world.pool, &admin).unwrap());

    assert!(world.log.iter().all(|entry| *entry == LogEntry::LoopEnded));
}

#[test]
fn test_set_member_block_cycles() {
    let admin = principal(0xFF);
    let mut world = World::ready();

    let err = set_member_block_cycles(&mut world.pool, &admin, 100_000_000_000_u128).unwrap_err();
    assert_eq!(err, PoolError::NotAMember);

    world.join(&admin, 100_000_000).unwrap();

    set_member_block_cycles(&mut world.pool, &admin, 100_000_000_000_u128).unwrap();

    let err = set_member_block_cycles(&mut world.pool, &admin, 100_000_000_001_u128).unwrap_err();
    assert_eq!(
        err,
        PoolError::BlockCyclesNotAligned { block_cycles: 100000000001, granularity: 1000000 }
    );
    let member_cycles = get_member_cycles(&world.pool, &admin).unwrap();
    assert_eq!(member_cycles.block, 100_000_000_000_u128);

    set_member_block_cycles(&mut world.pool, &admin, 15_000_000_000_u128).unwrap();
    let member_cycles = get_member_cycles(&world.pool, &admin).unwrap();
    assert_eq!(member_cycles.block, 15_000_000_000_u128);

    let err = set_member_block_cycles(&mut world.pool, &admin, 14_000_000_000_u128).unwrap_err();
    assert_eq!(
        err,
        PoolError::BlockCyclesTooSmall { block_cycles: 14000000000, minimum: 15000000000 }
    );
    let member_cycles = get_member_cycles(&world.pool, &admin).unwrap();
    assert_eq!(member_cycles.block, 15_000_000_000_u128);

    set_member_block_cycles(&mut world.pool, &admin, 0_u128).unwrap();
    let member_cycles = get_member_cycles(&world.pool, &admin).unwrap();
    assert_eq!(member_cycles.block, 0_u128);

    set_member_block_cycles(&mut world.pool, &admin, 15_000_000_000_u128).unwrap();
    let member_cycles = get_member_cycles(&world.pool, &admin).unwrap();
    assert_eq!(member_cycles.block, 15_000_000_000_u128);

    assert!(world.log.is_empty());
}

#[test]
fn test_pool_inactive_by_default() {
    let mut world = World::ready();

    let pool_cycles = world.pool_balance;
    let num_blocks = 8;
    for _ in 0..num_blocks {
        world.mine_block();
    }
    let pool_cycles_consumption = pool_cycles - world.pool_balance;
    let pool_cycles_consumption_per_block = pool_cycles_consumption / num_blocks as u128;
    assert!(pool_cycles_consumption_per_block < 100_000_000);

    assert!(world.blocks.len() < 10);
    assert_eq!(world.blocks.len(), num_blocks);
    assert_eq!(world.pool_blocks(), 0);
    for burn in &world.block_burns {
        assert_eq!(*burn, 0);
    }
    assert_eq!(world.miner_balance, 1_000_000_000_000);

    assert!(world.log.is_empty());
}

#[test]
fn test_pool_rewards() {
    let admin = principal(0xFF);
    let user_1 = principal(0xFE);
    let user_2 = principal(0xFD);
    let mut world = World::ready();

    let pool_state = get_pool_state(&world.pool);
    assert_eq!(pool_state.num_active_members, 0);
    assert_eq!(pool_state.total_active_member_block_cycles, 0);
    assert_eq!(pool_state.total_cycles_burnt, 0);
    assert_eq!(pool_state.total_bob_rewards, 0);

    let num_blocks = 3;
    let admin_block_cycles = 30_000_000_000_000;
    let user_1_block_cycles = 40_000_000_000_000;
    let user_2_block_cycles = 50_000_000_000_000;
    let total_block_cycles = admin_block_cycles + user_1_block_cycles + user_2_block_cycles;
    world
        .join(&admin, cycles_to_e8s((admin_block_cycles + BOB_POOL_BLOCK_FEE) * num_blocks as u128))
        .unwrap();
    world
        .join(
            &user_1,
            cycles_to_e8s((user_1_block_cycles + BOB_POOL_BLOCK_FEE) * num_blocks as u128),
        )
        .unwrap();
    world
        .join(
            &user_2,
            cycles_to_e8s((user_2_block_cycles + BOB_POOL_BLOCK_FEE) * num_blocks as u128),
        )
        .unwrap();

    let pool_state = get_pool_state(&world.pool);
    assert_eq!(pool_state.num_active_members, 0);
    assert_eq!(pool_state.total_active_member_block_cycles, 0);
    assert_eq!(pool_state.total_cycles_burnt, 0);
    assert_eq!(pool_state.total_bob_rewards, 0);

    set_member_block_cycles(&mut world.pool, &admin, admin_block_cycles).unwrap();
    set_member_block_cycles(&mut world.pool, &user_1, user_1_block_cycles).unwrap();
    set_member_block_cycles(&mut world.pool, &user_2, user_2_block_cycles).unwrap();

    let pool_state = get_pool_state(&world.pool);
    assert_eq!(pool_state.num_active_members, 3);
    assert_eq!(pool_state.total_active_member_block_cycles, total_block_cycles);
    assert_eq!(pool_state.total_cycles_burnt, 0);
    assert_eq!(pool_state.total_bob_rewards, 0);

    let member_cycles_admin = get_member_cycles(&world.pool, &admin).unwrap();
    let member_cycles_user_1 = get_member_cycles(&world.pool, &user_1).unwrap();
    let member_cycles_user_2 = get_member_cycles(&world.pool, &user_2).unwrap();

    let pool_cycles = world.pool_balance;

    // The second round is committed at the end of the first, before the
    // yield of the first is realized: the first reward stands for the cycles
    // of both rounds.
    world.ensure_member_rewards(&admin, num_blocks - 2);
    world.ensure_member_rewards(&user_1, num_blocks - 2);
    world.ensure_member_rewards(&user_2, num_blocks - 2);

    let pool_state = get_pool_state(&world.pool);
    assert_eq!(pool_state.num_active_members, 3);
    assert_eq!(pool_state.total_active_member_block_cycles, total_block_cycles);
    assert_eq!(pool_state.total_cycles_burnt, total_block_cycles * (num_blocks as u128 - 1));
    assert_eq!(
        pool_state.total_bob_rewards,
        (60_000_000_000 - 3_000_000) * (num_blocks as u128 - 2)
    );

    world.ensure_member_rewards(&admin, num_blocks - 1);
    world.ensure_member_rewards(&user_1, num_blocks - 1);
    world.ensure_member_rewards(&user_2, num_blocks - 1);

    let pool_state = get_pool_state(&world.pool);
    assert_eq!(pool_state.num_active_members, 0);
    assert_eq!(pool_state.total_active_member_block_cycles, 0);
    assert_eq!(pool_state.total_cycles_burnt, total_block_cycles * num_blocks as u128);
    assert_eq!(
        pool_state.total_bob_rewards,
        (60_000_000_000 - 3_000_000) * (num_blocks as u128 - 1)
    );

    let pool_cycles_consumption = pool_cycles - world.pool_balance;
    let pool_cycles_consumption_per_block =
        pool_cycles_consumption / num_blocks as u128 - total_block_cycles;
    assert!(pool_cycles_consumption_per_block <= BOB_POOL_BLOCK_FEE);

    // The yield of the round committed last arrives when nothing is pending
    // any more, and reaches nobody.
    world.mine_block();
    world.advance(120);
    assert_eq!(get_member_rewards(&world.pool, &admin).len(), num_blocks - 1);
    assert_eq!(get_pool_state(&world.pool).total_bob_rewards, pool_state.total_bob_rewards);

    assert!(world.blocks.len() < 10);
    assert_eq!(world.blocks.len(), num_blocks);
    for burn in &world.block_burns {
        assert_eq!(*burn, total_block_cycles);
    }

    assert_eq!(
        world.bob_balance(&admin),
        (60_000_000_000 - 3_000_000) * admin_block_cycles * (num_blocks as u128 - 1)
            / total_block_cycles
    );
    assert_eq!(
        world.bob_balance(&user_1),
        (60_000_000_000 - 3_000_000) * user_1_block_cycles * (num_blocks as u128 - 1)
            / total_block_cycles
    );
    assert_eq!(
        world.bob_balance(&user_2),
        (60_000_000_000 - 3_000_000) * user_2_block_cycles * (num_blocks as u128 - 1)
            / total_block_cycles
    );

    let member_cycles = get_member_cycles(&world.pool, &admin).unwrap();
    assert_eq!(member_cycles.block, admin_block_cycles);
    assert_eq!(member_cycles.pending, 0);
    assert_eq!(
        member_cycles.remaining
            + (admin_block_cycles + BOB_POOL_BLOCK_FEE / 3) * num_blocks as u128,
        member_cycles_admin.remaining
    );
    let member_cycles = get_member_cycles(&world.pool, &user_1).unwrap();
    assert_eq!(member_cycles.block, user_1_block_cycles);
    assert_eq!(member_cycles.pending, 0);
    assert_eq!(
        member_cycles.remaining
            + (user_1_block_cycles + BOB_POOL_BLOCK_FEE / 3) * num_blocks as u128,
        member_cycles_user_1.remaining
    );
    let member_cycles = get_member_cycles(&world.pool, &user_2).unwrap();
    assert_eq!(member_cycles.block, user_2_block_cycles);
    assert_eq!(member_cycles.pending, 0);
    assert_eq!(
        member_cycles.remaining
            + (user_2_block_cycles + BOB_POOL_BLOCK_FEE / 3) * num_blocks as u128,
        member_cycles_user_2.remaining
    );

    assert!(world.log.is_empty());
}

#[test]
fn test_pool_member_interrupt() {
    let admin = principal(0xFF);
    let mut world = World::ready();

    let num_blocks = 2;
    let admin_block_cycles = 30_000_000_000_000;
    let total_block_cycles = admin_block_cycles;
    world
        .join(
            &admin,
            cycles_to_e8s(2 * (admin_block_cycles + BOB_POOL_BLOCK_FEE) * num_blocks as u128),
        )
        .unwrap();
    set_member_block_cycles(&mut world.pool, &admin, admin_block_cycles).unwrap();

    let member_cycles_admin = get_member_cycles(&world.pool, &admin).unwrap();

    // Two rewards stand for three rounds: the first for two of them.
    world.ensure_member_rewards(&admin, num_blocks);
    let burnt: u128 = get_member_rewards(&world.pool, &admin).iter().map(|r| r.cycles_burnt).sum();
    assert_eq!(burnt, (num_blocks as u128 + 1) * admin_block_cycles);

    set_member_block_cycles(&mut world.pool, &admin, 0).unwrap();

    for _ in 0..num_blocks {
        world.mine_block();
    }

    assert_eq!(get_member_rewards(&world.pool, &admin).len(), num_blocks);
    let member_cycles = get_member_cycles(&world.pool, &admin).unwrap();
    assert_eq!(member_cycles.block, 0);
    assert_eq!(member_cycles.pending, 0);
    assert_eq!(
        member_cycles.remaining
            + (admin_block_cycles + BOB_POOL_BLOCK_FEE) * (num_blocks as u128 + 1),
        member_cycles_admin.remaining
    );

    set_member_block_cycles(&mut world.pool, &admin, admin_block_cycles).unwrap();

    // One round is left to commit; its yield finds it pending.
    world.ensure_member_rewards(&admin, num_blocks + 1);

    assert!(world.blocks.len() < 10);
    let burning = world.block_burns.iter().filter(|burn| **burn == total_block_cycles).count();
    assert_eq!(burning, 2 * num_blocks);
    assert_eq!(
        world.block_burns.iter().filter(|burn| **burn == 0).count(),
        world.blocks.len() - burning
    );

    assert_eq!(
        world.bob_balance(&admin),
        (60_000_000_000 - 1_000_000) * (num_blocks as u128 + 1)
    );

    let member_cycles = get_member_cycles(&world.pool, &admin).unwrap();
    assert_eq!(member_cycles.block, admin_block_cycles);
    assert_eq!(member_cycles.pending, 0);
    assert_eq!(
        member_cycles.remaining
            + 2 * (admin_block_cycles + BOB_POOL_BLOCK_FEE) * num_blocks as u128,
        member_cycles_admin.remaining
    );

    assert!(world.log.is_empty());
}

#[test]
fn test_simultaneous_reward_payments() {
    let admin = principal(0xFF);
    let mut world = World::ready();

    let num_blocks = 1;
    let admin_block_cycles = 30_000_000_000_000;
    world
        .join(&admin, cycles_to_e8s((admin_block_cycles + BOB_POOL_BLOCK_FEE) * num_blocks as u128))
        .unwrap();
    set_member_block_cycles(&mut world.pool, &admin, admin_block_cycles).unwrap();

    while get_member_rewards(&world.pool, &admin).is_empty() {
        world.tick();
    }

    // Two payouts for one member; the second arrives while the transfer of
    // the first is under way.
    let msg_1 = pay_rewards(&mut world.pool, &admin);
    let msg_2 = pay_rewards(&mut world.pool, &admin);

    let res_2 = msg_2.map(|_| ());
    let res_1 = match msg_1 {
        Ok(Some(payout)) => {
            assert_eq!(payout.amount(), 60_000_000_000 - 1_000_000);
            assert_eq!(payout_confirmed(&mut world.pool, payout, 17).map(|_| ()), None);
            Ok(())
        }
        Ok(None) => Ok(()),
        Err(err) => Err(err),
    };

    assert!(res_1.is_err() || res_2.is_err());
    if let Err(err) = res_1 {
        assert_eq!(err, PoolError::PrincipalBusy);
    }
    if let Err(err) = res_2 {
        assert_eq!(err, PoolError::PrincipalBusy);
    }

    let member_rewards = get_member_rewards(&world.pool, &admin);
    assert_eq!(member_rewards.len(), 1);
    assert!(member_rewards[0].bob_block_index.is_some());
    assert_eq!(member_rewards[0].bob_block_index, Some(17));

    // Nothing is owed any more, and the guard is free again.
    assert_eq!(pay_rewards(&mut world.pool, &admin).map(|next| next.is_none()), Ok(true));
    assert_eq!(get_member_rewards(&world.pool, &admin)[0].bob_block_index, Some(17));

    assert!(world.log.is_empty());
}

#[test]
fn test_join_pool_after_rewards() {
    let admin = principal(0xFF);
    let mut world = World::ready();

    let num_blocks = 1;
    let admin_block_cycles = 30_000_000_000_000;
    world
        .join(&admin, cycles_to_e8s((admin_block_cycles + BOB_POOL_BLOCK_FEE) * num_blocks as u128))
        .unwrap();
    set_member_block_cycles(&mut world.pool, &admin, admin_block_cycles).unwrap();

    world.ensure_member_rewards(&admin, num_blocks);

    let admin_rewards = get_member_rewards(&world.pool, &admin);
    world
        .join(&admin, cycles_to_e8s((admin_block_cycles + BOB_POOL_BLOCK_FEE) * num_blocks as u128))
        .unwrap();
    assert_eq!(get_member_rewards(&world.pool, &admin).len(), admin_rewards.len());
    assert_eq!(get_member_rewards(&world.pool, &admin), admin_rewards);
    assert_eq!(member_rewards(&world.pool, &admin), Ok(admin_rewards));

    world.ensure_member_rewards(&admin, num_blocks);

    assert!(world.log.is_empty());
}

#[test]
fn test_frozen_bob() {
    let admin = principal(0xFF);
    let mut world = World::ready();

    let num_blocks = 2;
    let admin_block_cycles = 30_000_000_000_000;
    let total_block_cycles = admin_block_cycles;
    world
        .join(
            &admin,
            cycles_to_e8s(2 * (admin_block_cycles + BOB_POOL_BLOCK_FEE) * num_blocks as u128),
        )
        .unwrap();
    set_member_block_cycles(&mut world.pool, &admin, admin_block_cycles).unwrap();

    let member_cycles_admin = get_member_cycles(&world.pool, &admin).unwrap();

    world.ensure_member_rewards(&admin, num_blocks);

    // The mining resource freezes: it answers no call, and mines on.
    world.bob_frozen = true;
    let before = get_member_cycles(&world.pool, &admin).unwrap();
    for _ in 0..180 {
        world.advance(5);
    }
    let during = get_member_cycles(&world.pool, &admin).unwrap();
    assert_eq!(during, before);
    assert_eq!(get_member_rewards(&world.pool, &admin).len(), num_blocks);
    world.bob_frozen = false;

    for _ in 0..num_blocks {
        world.mine_block();
    }

    // The round that is left is committed once the freeze is over, and its
    // yield finds it pending.
    world.ensure_member_rewards(&admin, num_blocks + 1);

    assert!(world.blocks.len() < 10);
    let burning = world.block_burns.iter().filter(|burn| **burn == total_block_cycles).count();
    assert_eq!(burning, 2 * num_blocks);
    assert_eq!(
        world.block_burns.iter().filter(|burn| **burn == 0).count(),
        world.blocks.len() - burning
    );

    assert_eq!(
        world.bob_balance(&admin),
        (60_000_000_000 - 1_000_000) * (num_blocks as u128 + 1)
    );

    let member_cycles = get_member_cycles(&world.pool, &admin).unwrap();
    assert_eq!(member_cycles.block, admin_block_cycles);
    assert_eq!(member_cycles.pending, 0);
    assert_eq!(
        member_cycles.remaining
            + 2 * (admin_block_cycles + BOB_POOL_BLOCK_FEE) * num_blocks as u128,
        member_cycles_admin.remaining
    );

    assert!(world
        .log
        .iter()
        .any(|entry| matches!(entry, LogEntry::StageFailed { error: StageError::CallFailed, .. })));
    assert!(world.log.iter().all(|entry| matches!(
        entry,
        LogEntry::StageFailed { error: StageError::CallFailed, .. }
            | LogEntry::AttemptsExhausted { .. }
            | LogEntry::SkippedBlocks { .. }
    )));
}

#[test]
fn test_frozen_pool() {
    let admin = principal(0xFF);
    let mut world = World::ready();

    let num_blocks = 4;
    let admin_block_cycles = 30_000_000_000_000;
    let total_block_cycles = admin_block_cycles;
    world
        .join(&admin, cycles_to_e8s((admin_block_cycles + BOB_POOL_BLOCK_FEE) * num_blocks as u128))
        .unwrap();
    set_member_block_cycles(&mut world.pool, &admin, admin_block_cycles).unwrap();

    let member_cycles_admin = get_member_cycles(&world.pool, &admin).unwrap();

    world.ensure_member_rewards(&admin, 1);

    for _ in 0..40 {
        world.advance(5);
    }

    // The pool freezes: none of its calls gets through.
    world.pool_frozen = true;
    let frozen = get_member_cycles(&world.pool, &admin).unwrap();

    world.mine_block();
    world.mine_block();

    assert_eq!(get_member_cycles(&world.pool, &admin).unwrap(), frozen);
    world.pool_frozen = false;

    // Two rounds were committed before the freeze and two are committed
    // after it; each pair is rewarded once.
    world.ensure_member_rewards(&admin, num_blocks - 2);

    assert!(world.blocks.len() < 10);
    let burning = world.block_burns.iter().filter(|burn| **burn == total_block_cycles).count();
    assert_eq!(burning, num_blocks - 1);

    assert_eq!(
        world.bob_balance(&admin),
        (60_000_000_000 - 1_000_000) * (num_blocks - 2) as u128
    );

    let member_cycles = get_member_cycles(&world.pool, &admin).unwrap();
    assert_eq!(member_cycles.block, admin_block_cycles);
    assert_eq!(member_cycles.pending, 0);
    assert_eq!(
        member_cycles.remaining + (admin_block_cycles + BOB_POOL_BLOCK_FEE) * num_blocks as u128,
        member_cycles_admin.remaining
    );

    assert!(world
        .log
        .iter()
        .any(|entry| *entry == LogEntry::SkippedBlocks { from: 1445, to: 1446 }));
    assert!(world
        .log
        .iter()
        .any(|entry| matches!(entry, LogEntry::StageFailed { error: StageError::CallFailed, .. })));
    assert!(world.log.iter().all(|entry| matches!(
        entry,
        LogEntry::SkippedBlocks { from: 1445, to: 1446 }
            | LogEntry::StageFailed { error: StageError::CallFailed, .. }
            | LogEntry::StageFailed { stage: Stage::Stage3, error: StageError::BurnMismatch { .. } }
            | LogEntry::AttemptsExhausted { .. }
    )));
}

#[test]
fn rewards_stay_owed_while_the_reward_ledger_is_down() {
    let admin = principal(0xFF);
    let mut world = World::ready();
    world.join(&admin, cycles_to_e8s(3 * (30_000_000_000_000 + BOB_POOL_BLOCK_FEE))).unwrap();
    set_member_block_cycles(&mut world.pool, &admin, 30_000_000_000_000).unwrap();
    world.ensure_member_rewards(&admin, 1);
    while get_member_rewards(&world.pool, &admin).len() < 2 {
        world.tick();
    }
    world.bob_ledger_frozen = true;
    assert_eq!(world.pay_member_rewards(&admin), Err(PoolError::CallFailed));
    let rewards = get_member_rewards(&world.pool, &admin);
    assert_eq!(rewards[0].bob_block_index, Some(0));
    assert_eq!(rewards[1].bob_block_index, None);
    world.bob_ledger_frozen = false;
    assert_eq!(world.pay_member_rewards(&admin), Ok(()));
    let rewards = get_member_rewards(&world.pool, &admin);
    assert_eq!(rewards[0].bob_block_index, Some(0));
    assert_eq!(rewards[1].bob_block_index, Some(1));
    assert_eq!(world.bob_ledger.len(), 2);
}

#[test]
fn three_members_share_one_round_in_proportion() {
    let mut pool = Pool::new();
    let commitments: [(u8, u128); 3] =
        [(0xFF, 30_000_000_000_000), (0xFE, 40_000_000_000_000), (0xFD, 70_000_000_000_000)];
    for (byte, block_cycles) in commitments {
        let member = principal(byte);
        bob_pool::add_member_remaining_cycles(&mut pool, &member, block_cycles + BOB_POOL_BLOCK_FEE).unwrap();
        set_member_block_cycles(&mut pool, &member, block_cycles).unwrap();
    }
    let snapshot = bob_pool::get_next_block_participants(&pool);
    assert_eq!(snapshot.len(), 3);
    bob_pool::commit_block_participants(&mut pool, &snapshot).unwrap();
    let distribution = add_rewards(&mut pool, 60_000_000_000, 1_234).unwrap();
    assert_eq!(distribution.len(), 3);
    let total: u128 = 140_000_000_000_000;
    let net: u128 = 60_000_000_000 - 3_000_000;
    for (byte, block_cycles) in commitments {
        let member = principal(byte);
        let rewards = get_member_rewards(&pool, &member);
        assert_eq!(rewards.len(), 1);
        assert_eq!(rewards[0].timestamp, 1_234);
        assert_eq!(rewards[0].cycles_burnt, block_cycles);
        assert_eq!(rewards[0].bob_reward, net * block_cycles / total);
        assert_eq!(rewards[0].bob_block_index, None);
        assert_eq!(get_member_cycles(&pool, &member).unwrap().pending, 0);
    }
    assert_eq!(get_member_rewards(&pool, &principal(0xFD))[0].bob_reward, 29_998_500_000);
    assert_eq!(get_member_rewards(&pool, &principal(0xFE))[0].bob_reward, 17_142_000_000);
    assert_eq!(get_member_rewards(&pool, &principal(0xFF))[0].bob_reward, 12_856_500_000);
}
