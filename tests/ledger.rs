use mockchain::account::LedgerError as AccountError;
use mockchain::address::{Address, Discrimination, Kind};
use mockchain::block::{BlockDate, ChainLength, ConsensusVersion, HeaderContentEvalContext};
use mockchain::config::{Block0Date, ConfigParam, ConfigParams, LinearFee, Milli};
use mockchain::ledger::{Block0Error, Error, Ledger};
use mockchain::message::Message;
use mockchain::multisig::Declaration;
use mockchain::transaction::{
    witness_account_bytes, witness_multisig_bytes, witness_utxo_bytes, AuthenticatedTransaction, Input, Output,
    Transaction, UtxoPointer, Witness,
};
use mockchain::update::{SignedUpdateProposal, SignedUpdateVote, UpdateProposal, UpdateProposalWithProposer, UpdateVote};
use mockchain::value::Value;

const BLOCK0: [u8; 32] = [7u8; 32];

fn keys(seed: u8) -> ([u8; 64], [u8; 32]) {
    cryptoxide::ed25519::keypair(&[seed; 32])
}

fn sign(msg: &[u8], kp: &[u8; 64]) -> [u8; 64] {
    cryptoxide::ed25519::signature(msg, kp)
}

fn initial(leaders: &[[u8; 32]], fee: LinearFee) -> Message {
    let mut ps = ConfigParams::new();
    ps.push(ConfigParam::Block0Date(Block0Date(1000)));
    ps.push(ConfigParam::Discrimination(Discrimination::Production));
    ps.push(ConfigParam::SlotDuration(10));
    ps.push(ConfigParam::SlotsPerEpoch(100));
    ps.push(ConfigParam::KESUpdateSpeed(3600));
    ps.push(ConfigParam::ConsensusVersion(ConsensusVersion::Bft));
    for l in leaders {
        ps.push(ConfigParam::AddBftLeader(*l));
    }
    ps.push(ConfigParam::LinearFee(fee));
    Message::Initial(ps)
}

fn no_fee() -> LinearFee {
    LinearFee::new(0, 0, 0)
}

fn account_address(k: [u8; 32]) -> Address {
    Address(Discrimination::Production, Kind::Account(k))
}

fn output_tx(outputs: Vec<Output<Address>>) -> Message {
    Message::Transaction(AuthenticatedTransaction {
        transaction: Transaction { inputs: vec![], outputs },
        witnesses: vec![],
    })
}

fn meta(epoch: u32, slot: u32, len: u32) -> HeaderContentEvalContext {
    HeaderContentEvalContext {
        block_date: BlockDate { epoch, slot_id: slot },
        chain_length: ChainLength(len),
        nonce: None,
    }
}

/// Ledger with account A (seed 1) holding 100, leader K1 (seed 9).
fn genesis_with_a() -> (Ledger, [u8; 64], [u8; 32]) {
    let (_k1s, k1) = keys(9);
    let (akp, a) = keys(1);
    let frags = vec![
        initial(&[k1], no_fee()),
        output_tx(vec![Output { address: account_address(a), value: Value(100) }]),
    ];
    (Ledger::new(BLOCK0, &frags).unwrap(), akp, a)
}

fn account_spend(
    from_kp: &[u8; 64],
    from: [u8; 32],
    value: u64,
    counter: u32,
    outputs: Vec<Output<Address>>,
) -> Message {
    let tx = Transaction { inputs: vec![Input::Account(from, Value(value))], outputs };
    let txid = tx.hash();
    let data = witness_account_bytes(&BLOCK0, &txid, counter);
    let witnesses = vec![Witness::Account(sign(&data, from_kp))];
    Message::Transaction(AuthenticatedTransaction { transaction: tx, witnesses })
}

#[test]
fn genesis_minimal() {
    let (_k1s, k1) = keys(9);
    let ledger = Ledger::new(BLOCK0, &vec![initial(&[k1], no_fee())]).unwrap();
    assert_eq!(ledger.date(), BlockDate { epoch: 0, slot_id: 0 });
    assert_eq!(ledger.chain_length(), ChainLength(0));
    assert_eq!(ledger.utxos().len(), 0);
    assert_eq!(ledger.accounts().get_total_value(), Ok(Value(0)));
    assert_eq!(ledger.consensus_version(), ConsensusVersion::Bft);
    assert_eq!(ledger.get_static_parameters().discrimination, Discrimination::Production);
    assert_eq!(ledger.get_static_parameters().kes_update_speed, 3600);
    assert_eq!(ledger.get_ledger_parameters().fees, no_fee());
}

#[test]
fn genesis_initial_balance() {
    let (ledger, _akp, a) = genesis_with_a();
    let st = ledger.accounts().get_state(&a).unwrap();
    assert_eq!(st.value, Value(100));
    assert_eq!(st.counter, 0);
}

#[test]
fn simple_transfer() {
    let (ledger, akp, a) = genesis_with_a();
    let (_bkp, b) = keys(2);
    let frag = account_spend(&akp, a, 30, 0, vec![Output { address: account_address(b), value: Value(30) }]);
    let l1 = ledger.apply_block(&vec![frag], &meta(0, 1, 1)).unwrap();
    let sa = l1.accounts().get_state(&a).unwrap();
    assert_eq!(sa.value, Value(70));
    assert_eq!(sa.counter, 1);
    assert_eq!(l1.accounts().get_state(&b).unwrap().value, Value(30));
    assert_eq!(l1.date(), BlockDate { epoch: 0, slot_id: 1 });
    assert_eq!(l1.chain_length(), ChainLength(1));
}

#[test]
fn double_spend_rejected() {
    let (ledger, akp, a) = genesis_with_a();
    let (_bkp, b) = keys(2);
    let frag = account_spend(&akp, a, 30, 0, vec![Output { address: account_address(b), value: Value(30) }]);
    let l1 = ledger.apply_block(&vec![frag.clone()], &meta(0, 1, 1)).unwrap();
    let witness = match &frag {
        Message::Transaction(at) => at.witnesses[0].clone(),
        _ => unreachable!(),
    };
    let err = l1.apply_block(&vec![frag], &meta(0, 2, 2)).unwrap_err();
    assert_eq!(err, Error::AccountInvalidSignature { account: a, witness });
}

#[test]
fn unbalanced_rejected() {
    let (ledger, akp, a) = genesis_with_a();
    let (_bkp, b) = keys(2);
    let frag = account_spend(&akp, a, 100, 0, vec![Output { address: account_address(b), value: Value(99) }]);
    let err = ledger.apply_block(&vec![frag], &meta(0, 1, 1)).unwrap_err();
    assert_eq!(err, Error::NotBalanced { inputs: Value(100), outputs: Value(99) });
    let st = ledger.accounts().get_state(&a).unwrap();
    assert_eq!(st.value, Value(100));
    assert_eq!(st.counter, 0);
    assert_eq!(ledger.chain_length(), ChainLength(0));
}

#[test]
fn non_monotonic_date() {
    let (ledger, _akp, _a) = genesis_with_a();
    let l1 = ledger.apply_block(&vec![], &meta(0, 1, 1)).unwrap();
    let err = l1.apply_block(&vec![], &meta(0, 1, 2)).unwrap_err();
    assert_eq!(
        err,
        Error::NonMonotonicDate {
            block_date: BlockDate { epoch: 0, slot_id: 1 },
            chain_date: BlockDate { epoch: 0, slot_id: 1 },
        }
    );
}

#[test]
fn wrong_chain_length() {
    let (ledger, _akp, _a) = genesis_with_a();
    let err = ledger.apply_block(&vec![], &meta(0, 1, 2)).unwrap_err();
    assert_eq!(err, Error::WrongChainLength { actual: ChainLength(2), expected: ChainLength(1) });
}

fn proposal(kp: &[u8; 64], proposer: [u8; 32], fee: LinearFee) -> SignedUpdateProposal {
    let mut changes = ConfigParams::new();
    changes.push(ConfigParam::LinearFee(fee));
    let mut data = changes.serialize();
    data.extend_from_slice(&proposer);
    let signature = sign(&data, kp);
    SignedUpdateProposal {
        proposal: UpdateProposalWithProposer { proposal: UpdateProposal { changes }, proposer_id: proposer },
        signature,
    }
}

fn vote(kp: &[u8; 64], voter: [u8; 32], proposal_id: [u8; 32]) -> SignedUpdateVote {
    let mut data = proposal_id.to_vec();
    data.extend_from_slice(&voter);
    SignedUpdateVote { vote: UpdateVote { proposal_id, voter_id: voter }, signature: sign(&data, kp) }
}

#[test]
fn update_adoption() {
    let (k1kp, k1) = keys(11);
    let (k2kp, k2) = keys(12);
    let (_k3kp, k3) = keys(13);
    let (akp, a) = keys(1);
    let (_bkp, b) = keys(2);
    let frags = vec![
        initial(&[k1, k2, k3], no_fee()),
        output_tx(vec![Output { address: account_address(a), value: Value(100) }]),
    ];
    let l0 = Ledger::new(BLOCK0, &frags).unwrap();
    let new_fee = LinearFee::new(5, 1, 0);
    let p = proposal(&k1kp, k1, new_fee);
    let pid = p.id();
    let l1 = l0.apply_block(&vec![Message::UpdateProposal(p)], &meta(0, 5, 1)).unwrap();
    let l2 = l1
        .apply_block(
            &vec![Message::UpdateVote(vote(&k1kp, k1, pid)), Message::UpdateVote(vote(&k2kp, k2, pid))],
            &meta(0, 6, 2),
        )
        .unwrap();
    assert_eq!(l2.get_ledger_parameters().fees, no_fee());
    // one input and one output: 5 + 1 * 2
    let frag = account_spend(&akp, a, 37, 0, vec![Output { address: account_address(b), value: Value(30) }]);
    let l3 = l2.apply_block(&vec![frag], &meta(0, 7, 3)).unwrap();
    assert_eq!(l3.get_ledger_parameters().fees, new_fee);
    assert_eq!(l3.accounts().get_state(&a).unwrap().value, Value(63));
    assert_eq!(l3.accounts().get_state(&b).unwrap().value, Value(30));
    assert_eq!(l3.updates.proposals.len(), 0);
}

#[test]
fn vote_by_non_leader_rejected() {
    let (k1kp, k1) = keys(11);
    let (k4kp, k4) = keys(14);
    let l0 = Ledger::new(BLOCK0, &vec![initial(&[k1], no_fee())]).unwrap();
    let p = proposal(&k1kp, k1, LinearFee::new(1, 1, 1));
    let pid = p.id();
    let l1 = l0.apply_block(&vec![Message::UpdateProposal(p.clone())], &meta(0, 1, 1)).unwrap();
    let err = l1.apply_block(&vec![Message::UpdateVote(vote(&k4kp, k4, pid))], &meta(0, 2, 2)).unwrap_err();
    assert_eq!(err, Error::Update { source: mockchain::update::Error::VoterNotALeader });
    let err = l1.apply_block(&vec![Message::UpdateProposal(p)], &meta(0, 2, 2)).unwrap_err();
    assert_eq!(err, Error::Update { source: mockchain::update::Error::ProposalAlreadyPresent });
    let err = l1.apply_block(&vec![Message::UpdateVote(vote(&k1kp, k1, [3u8; 32]))], &meta(0, 2, 2)).unwrap_err();
    assert_eq!(err, Error::Update { source: mockchain::update::Error::NoSuchProposal });
}

#[test]
fn zero_output_rejected() {
    let (ledger, akp, a) = genesis_with_a();
    let (_bkp, b) = keys(2);
    let frag = account_spend(
        &akp,
        a,
        30,
        0,
        vec![
            Output { address: account_address(b), value: Value(30) },
            Output { address: account_address(b), value: Value(0) },
        ],
    );
    let err = ledger.apply_block(&vec![frag], &meta(0, 1, 1)).unwrap_err();
    assert_eq!(err, Error::ZeroOutput { output: Output { address: account_address(b), value: Value(0) } });
    let (_k1s, k1) = keys(9);
    let frags = vec![
        initial(&[k1], no_fee()),
        output_tx(vec![Output { address: account_address(b), value: Value(0) }]),
    ];
    assert!(matches!(Ledger::new(BLOCK0, &frags), Err(Error::ZeroOutput { .. })));
}

#[test]
fn invalid_discrimination_rejected() {
    let (_k1s, k1) = keys(9);
    let (_bkp, b) = keys(2);
    let frags = vec![
        initial(&[k1], no_fee()),
        output_tx(vec![Output { address: Address(Discrimination::Test, Kind::Account(b)), value: Value(5) }]),
    ];
    assert_eq!(Ledger::new(BLOCK0, &frags).unwrap_err(), Error::InvalidDiscrimination);
}

#[test]
fn witness_mismatch_rejected() {
    let (ledger, akp, a) = genesis_with_a();
    let (_bkp, b) = keys(2);
    let tx = Transaction {
        inputs: vec![Input::Account(a, Value(30))],
        outputs: vec![Output { address: account_address(b), value: Value(30) }],
    };
    let frag = Message::Transaction(AuthenticatedTransaction {
        transaction: tx.clone(),
        witnesses: vec![Witness::Utxo(sign(b"x", &akp))],
    });
    assert_eq!(ledger.apply_block(&vec![frag], &meta(0, 1, 1)).unwrap_err(), Error::ExpectingAccountWitness);
    let tx2 = Transaction {
        inputs: vec![Input::Utxo(UtxoPointer { transaction_id: [1u8; 32], output_index: 0, value: Value(30) })],
        outputs: vec![Output { address: account_address(b), value: Value(30) }],
    };
    let frag = Message::Transaction(AuthenticatedTransaction {
        transaction: tx2,
        witnesses: vec![Witness::Account(sign(b"x", &akp))],
    });
    assert_eq!(ledger.apply_block(&vec![frag], &meta(0, 1, 1)).unwrap_err(), Error::ExpectingUtxoWitness);
}

#[test]
fn two_account_inputs_advance_counter_twice() {
    let (ledger, akp, a) = genesis_with_a();
    let (_bkp, b) = keys(2);
    let tx = Transaction {
        inputs: vec![Input::Account(a, Value(10)), Input::Account(a, Value(20))],
        outputs: vec![Output { address: account_address(b), value: Value(30) }],
    };
    let txid = tx.hash();
    let w0 = Witness::Account(sign(&witness_account_bytes(&BLOCK0, &txid, 0), &akp));
    let w1 = Witness::Account(sign(&witness_account_bytes(&BLOCK0, &txid, 1), &akp));
    let frag = Message::Transaction(AuthenticatedTransaction { transaction: tx, witnesses: vec![w0, w1] });
    let l1 = ledger.apply_block(&vec![frag], &meta(0, 1, 1)).unwrap();
    let st = l1.accounts().get_state(&a).unwrap();
    assert_eq!(st.counter, 2);
    assert_eq!(st.value, Value(70));
}

#[test]
fn utxo_spend_and_replay() {
    let (_k1s, k1) = keys(9);
    let (skp, sk) = keys(3);
    let (_bkp, b) = keys(2);
    let single = Address(Discrimination::Production, Kind::Single(sk));
    let gen_tx = Transaction { inputs: vec![], outputs: vec![Output { address: single, value: Value(50) }] };
    let gen_id = gen_tx.hash();
    let frags = vec![
        initial(&[k1], no_fee()),
        Message::Transaction(AuthenticatedTransaction { transaction: gen_tx, witnesses: vec![] }),
    ];
    let l0 = Ledger::new(BLOCK0, &frags).unwrap();
    assert_eq!(l0.utxos().len(), 1);
    let tx = Transaction {
        inputs: vec![Input::Utxo(UtxoPointer { transaction_id: gen_id, output_index: 0, value: Value(50) })],
        outputs: vec![Output { address: account_address(b), value: Value(50) }],
    };
    let txid = tx.hash();
    let w = Witness::Utxo(sign(&witness_utxo_bytes(&BLOCK0, &txid), &skp));
    let frag = Message::Transaction(AuthenticatedTransaction { transaction: tx, witnesses: vec![w] });
    let l1 = l0.apply_block(&vec![frag.clone()], &meta(0, 1, 1)).unwrap();
    assert_eq!(l1.utxos().len(), 0);
    assert_eq!(l1.accounts().get_state(&b).unwrap().value, Value(50));
    let err = l1.apply_block(&vec![frag], &meta(0, 2, 2)).unwrap_err();
    assert_eq!(err, Error::UtxoError { source: mockchain::utxo::Error::NotFound });
}

#[test]
fn utxo_value_not_matching() {
    let (_k1s, k1) = keys(9);
    let (skp, sk) = keys(3);
    let single = Address(Discrimination::Production, Kind::Single(sk));
    let gen_tx = Transaction { inputs: vec![], outputs: vec![Output { address: single, value: Value(50) }] };
    let gen_id = gen_tx.hash();
    let frags = vec![
        initial(&[k1], no_fee()),
        Message::Transaction(AuthenticatedTransaction { transaction: gen_tx, witnesses: vec![] }),
    ];
    let l0 = Ledger::new(BLOCK0, &frags).unwrap();
    let tx = Transaction {
        inputs: vec![Input::Utxo(UtxoPointer { transaction_id: gen_id, output_index: 0, value: Value(40) })],
        outputs: vec![Output { address: single, value: Value(40) }],
    };
    let txid = tx.hash();
    let w = Witness::Utxo(sign(&witness_utxo_bytes(&BLOCK0, &txid), &skp));
    let frag = Message::Transaction(AuthenticatedTransaction { transaction: tx, witnesses: vec![w] });
    let err = l0.apply_block(&vec![frag], &meta(0, 1, 1)).unwrap_err();
    assert_eq!(err, Error::UtxoValueNotMatching { expected: Value(40), value: Value(50) });
}

#[test]
fn group_output_creates_account() {
    let (_k1s, k1) = keys(9);
    let (_skp, sk) = keys(3);
    let (_gkp, g) = keys(4);
    let group = Address(Discrimination::Production, Kind::Group(sk, g));
    let frags = vec![initial(&[k1], no_fee()), output_tx(vec![Output { address: group, value: Value(8) }])];
    let l0 = Ledger::new(BLOCK0, &frags).unwrap();
    assert_eq!(l0.utxos().len(), 1);
    assert_eq!(l0.accounts().get_state(&g).unwrap().value, Value(0));
}

#[test]
fn insufficient_funds_and_unknown_account() {
    let (ledger, akp, a) = genesis_with_a();
    let (bkp, b) = keys(2);
    let frag = account_spend(&akp, a, 101, 0, vec![Output { address: account_address(b), value: Value(101) }]);
    let err = ledger.apply_block(&vec![frag], &meta(0, 1, 1)).unwrap_err();
    assert_eq!(err, Error::Account { source: AccountError::InsufficientFunds });
    let frag = account_spend(&bkp, b, 1, 0, vec![Output { address: account_address(a), value: Value(1) }]);
    let err = ledger.apply_block(&vec![frag], &meta(0, 1, 1)).unwrap_err();
    assert_eq!(err, Error::Account { source: AccountError::NonExistent });
}

#[test]
fn arity_errors() {
    let (ledger, akp, a) = genesis_with_a();
    let tx = Transaction { inputs: vec![Input::Account(a, Value(1))], outputs: vec![] };
    let frag = Message::Transaction(AuthenticatedTransaction { transaction: tx, witnesses: vec![] });
    let err = ledger.apply_block(&vec![frag], &meta(0, 1, 1)).unwrap_err();
    assert_eq!(err, Error::NotEnoughSignatures { actual: 0, expected: 1 });
    let outputs = vec![Output { address: account_address(a), value: Value(1) }; 255];
    let frag = account_spend(&akp, a, 255, 0, outputs);
    let err = ledger.apply_block(&vec![frag], &meta(0, 1, 1)).unwrap_err();
    assert_eq!(err, Error::TransactionHasTooManyOutputs { expected: 254, actual: 255 });
}

#[test]
fn genesis_errors() {
    let (_k1s, k1) = keys(9);
    assert_eq!(
        Ledger::new(BLOCK0, &vec![]).unwrap_err(),
        Error::Block0 { source: Block0Error::InitialMessageMissing }
    );
    assert_eq!(
        Ledger::new(BLOCK0, &vec![output_tx(vec![])]).unwrap_err(),
        Error::ExpectingInitialMessage
    );
    assert_eq!(
        Ledger::new(BLOCK0, &vec![initial(&[], no_fee())]).unwrap_err(),
        Error::Block0 { source: Block0Error::InitialMessageNoConsensusLeaderId }
    );
    assert_eq!(
        Ledger::new(BLOCK0, &vec![initial(&[k1], no_fee()), initial(&[k1], no_fee())]).unwrap_err(),
        Error::Block0 { source: Block0Error::InitialMessageMany }
    );
    let mut ps = ConfigParams::new();
    ps.push(ConfigParam::Discrimination(Discrimination::Production));
    ps.push(ConfigParam::AddBftLeader(k1));
    assert_eq!(
        Ledger::new(BLOCK0, &vec![Message::Initial(ps.clone())]).unwrap_err(),
        Error::Block0 { source: Block0Error::InitialMessageNoDate }
    );
    ps.push(ConfigParam::Block0Date(Block0Date(5)));
    assert_eq!(
        Ledger::new(BLOCK0, &vec![Message::Initial(ps.clone())]).unwrap_err(),
        Error::Block0 { source: Block0Error::InitialMessageNoSlotDuration }
    );
    ps.push(ConfigParam::Block0Date(Block0Date(6)));
    assert_eq!(
        Ledger::new(BLOCK0, &vec![Message::Initial(ps)]).unwrap_err(),
        Error::Block0 { source: Block0Error::InitialMessageDuplicateBlock0Date }
    );
    let (akp, a) = keys(1);
    let frag = account_spend(&akp, a, 1, 0, vec![]);
    assert_eq!(
        Ledger::new(BLOCK0, &vec![initial(&[k1], no_fee()), frag]).unwrap_err(),
        Error::Block0 { source: Block0Error::TransactionHasInput }
    );
}

#[test]
fn initial_fragment_rejected_in_normal_block() {
    let (ledger, _akp, _a) = genesis_with_a();
    let (_k1s, k1) = keys(9);
    let err = ledger.apply_block(&vec![initial(&[k1], no_fee())], &meta(0, 1, 1)).unwrap_err();
    assert_eq!(err, Error::Block0 { source: Block0Error::OnlyMessageReceived });
}

#[test]
fn multisig_spend() {
    let (ledger, akp, a) = genesis_with_a();
    let (p0kp, p0) = keys(20);
    let (p1kp, p1) = keys(21);
    let (_p2kp, p2) = keys(22);
    let msig_id = [9u8; 32];
    let mut ledger = ledger;
    let decl = Declaration { threshold: 2, owners: vec![p0, p1, p2] };
    ledger.multisig = ledger.multisig.add_account(&msig_id, &decl).unwrap();
    let to_msig = account_spend(
        &akp,
        a,
        40,
        0,
        vec![Output { address: Address(Discrimination::Production, Kind::Multisig(msig_id)), value: Value(40) }],
    );
    let l1 = ledger.apply_block(&vec![to_msig], &meta(0, 1, 1)).unwrap();
    assert_eq!(l1.multisig.get_total_value(), Ok(Value(40)));
    let tx = Transaction {
        inputs: vec![Input::Account(msig_id, Value(15))],
        outputs: vec![Output { address: account_address(a), value: Value(15) }],
    };
    let txid = tx.hash();
    let data = witness_multisig_bytes(&BLOCK0, &txid, 0);
    let one = Witness::Multisig(vec![(0, sign(&data, &p0kp))]);
    let frag = Message::Transaction(AuthenticatedTransaction { transaction: tx.clone(), witnesses: vec![one] });
    let err = l1.apply_block(&vec![frag], &meta(0, 2, 2)).unwrap_err();
    assert_eq!(err, Error::MultisigInvalidSignature { multisig: msig_id });
    let two = Witness::Multisig(vec![(0, sign(&data, &p0kp)), (1, sign(&data, &p1kp))]);
    let frag = Message::Transaction(AuthenticatedTransaction { transaction: tx, witnesses: vec![two] });
    let l2 = l1.apply_block(&vec![frag], &meta(0, 2, 2)).unwrap();
    assert_eq!(l2.multisig.get_total_value(), Ok(Value(25)));
    assert_eq!(l2.accounts().get_state(&a).unwrap().value, Value(75));
}

#[test]
fn nonce_is_mixed() {
    let (ledger, _akp, _a) = genesis_with_a();
    let mut m = meta(0, 1, 1);
    m.nonce = Some([5u8; 32]);
    let mut l1 = ledger.apply_block(&vec![], &m).unwrap();
    let mut expected_input = vec![0u8; 32];
    expected_input.extend_from_slice(&[5u8; 32]);
    assert_eq!(l1.settings().consensus_nonce, cryptoxide::hashing::blake2b_256(&expected_input));
}
