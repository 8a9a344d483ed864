use mockchain::address::{Address, Discrimination, Kind, OldAddress};
use mockchain::block::{BlockDate, ChainLength, ConsensusVersion, HeaderContentEvalContext};
use mockchain::certificate::{Certificate, CertificateContent, StakeDelegation};
use mockchain::codec::ReadError;
use mockchain::config::{Block0Date, ConfigParam, ConfigParams, LinearFee, Milli};
use mockchain::ledger::{Error, Ledger};
use mockchain::message::{AuthenticatedCertificateTransaction, Message, UtxoDeclaration};
use mockchain::stake::{DelegationError, GenesisPraosLeader, StakePoolInfo};
use mockchain::transaction::{
    witness_account_bytes, witness_utxo_bytes, AuthenticatedTransaction, Input, Output, Transaction, UtxoPointer, Witness,
};
use mockchain::value::Value;

const GENESIS_HASH: [u8; 32] = [3u8; 32];

fn key_pair(seed: u8) -> ([u8; 64], [u8; 32]) {
    cryptoxide::ed25519::keypair(&[seed; 32])
}

fn initial_fragment(leader: [u8; 32]) -> Message {
    let mut ps = ConfigParams::new();
    ps.push(ConfigParam::Block0Date(Block0Date(1000)));
    ps.push(ConfigParam::Discrimination(Discrimination::Production));
    ps.push(ConfigParam::SlotDuration(10));
    ps.push(ConfigParam::SlotsPerEpoch(100));
    ps.push(ConfigParam::KESUpdateSpeed(3600));
    ps.push(ConfigParam::AddBftLeader(leader));
    Message::Initial(ps)
}

fn header(slot: u32, len: u32) -> HeaderContentEvalContext {
    HeaderContentEvalContext {
        block_date: BlockDate { epoch: 0, slot_id: slot },
        chain_length: ChainLength(len),
        nonce: None,
    }
}

#[test]
fn config_params_round_trip() {
    let mut ps = ConfigParams::new();
    ps.push(ConfigParam::Block0Date(Block0Date(0x0102_0304_0506_0708)));
    ps.push(ConfigParam::Discrimination(Discrimination::Test));
    ps.push(ConfigParam::ConsensusVersion(ConsensusVersion::GenesisPraos));
    ps.push(ConfigParam::SlotsPerEpoch(u32::MAX));
    ps.push(ConfigParam::SlotDuration(255));
    ps.push(ConfigParam::EpochStabilityDepth(7));
    ps.push(ConfigParam::ConsensusGenesisPraosActiveSlotsCoeff(Milli(500)));
    ps.push(ConfigParam::MaxNumberOfTransactionsPerBlock(9));
    ps.push(ConfigParam::BftSlotsRatio(Milli(220)));
    ps.push(ConfigParam::AddBftLeader([5u8; 32]));
    ps.push(ConfigParam::RemoveBftLeader([6u8; 32]));
    ps.push(ConfigParam::LinearFee(LinearFee::new(u64::MAX, 2, 3)));
    ps.push(ConfigParam::ProposalExpiration(100));
    ps.push(ConfigParam::KESUpdateSpeed(3600));
    let bytes = ps.serialize();
    assert_eq!(ConfigParams::read(&bytes), Ok(ps));
    assert_eq!(ConfigParams::read(&ConfigParams::new().serialize()), Ok(ConfigParams::new()));
}

#[test]
fn config_params_read_errors() {
    assert_eq!(ConfigParams::read(&vec![0]), Err(ReadError::NotEnoughBytes));
    assert_eq!(ConfigParams::read(&vec![0, 1, 99, 0]), Err(ReadError::UnknownTag(99)));
    assert_eq!(ConfigParams::read(&vec![0, 1, 5, 2, 1, 1]), Err(ReadError::SizeMismatch(5)));
    assert_eq!(ConfigParams::read(&vec![0, 1, 4, 4, 1]), Err(ReadError::NotEnoughBytes));
    assert_eq!(ConfigParams::read(&vec![0, 1, 2, 1, 7]), Err(ReadError::InvalidData));
    assert_eq!(ConfigParams::read(&vec![0, 0, 1]), Err(ReadError::UnconsumedData));
}

#[test]
fn same_block_twice_gives_same_ledger() {
    let (_lk, leader) = key_pair(9);
    let (akp, a) = key_pair(1);
    let (_bk, b) = key_pair(2);
    let frags = vec![
        initial_fragment(leader),
        Message::Transaction(AuthenticatedTransaction {
            transaction: Transaction {
                inputs: vec![],
                outputs: vec![Output { address: Address(Discrimination::Production, Kind::Account(a)), value: Value(60) }],
            },
            witnesses: vec![],
        }),
    ];
    let l0 = Ledger::new(GENESIS_HASH, &frags).unwrap();
    let tx = Transaction {
        inputs: vec![Input::Account(a, Value(25))],
        outputs: vec![Output { address: Address(Discrimination::Production, Kind::Account(b)), value: Value(25) }],
    };
    let txid = tx.hash();
    let sig = cryptoxide::ed25519::signature(&witness_account_bytes(&GENESIS_HASH, &txid, 0), &akp);
    let block = vec![Message::Transaction(AuthenticatedTransaction { transaction: tx, witnesses: vec![Witness::Account(sig)] })];
    let r1 = l0.apply_block(&block, &header(4, 1)).unwrap();
    let r2 = l0.apply_block(&block, &header(4, 1)).unwrap();
    assert_eq!(r1.accounts().get_state(&a), r2.accounts().get_state(&a));
    assert_eq!(r1.accounts().get_state(&b), r2.accounts().get_state(&b));
    assert_eq!(r1.accounts().get_total_value(), Ok(Value(60)));
    assert_eq!(r1.date(), r2.date());
    assert_eq!(r1.chain_length(), r2.chain_length());
}

#[test]
fn pool_registration_and_delegation() {
    let (_lk, leader) = key_pair(9);
    let (akp, a) = key_pair(1);
    let info = StakePoolInfo {
        serial: 42,
        owners: vec![a],
        initial_key: GenesisPraosLeader { kes_public_key: [1u8; 32], vrf_public_key: [2u8; 32] },
    };
    let pool_id = info.to_id();
    let registration = Message::Certificate(AuthenticatedCertificateTransaction {
        transaction: Transaction { inputs: vec![], outputs: vec![] },
        certificate: Certificate { content: CertificateContent::StakePoolRegistration(info.clone()), signatures: vec![] },
        witnesses: vec![],
    });
    let funding = Message::Transaction(AuthenticatedTransaction {
        transaction: Transaction {
            inputs: vec![],
            outputs: vec![Output { address: Address(Discrimination::Production, Kind::Account(a)), value: Value(10) }],
        },
        witnesses: vec![],
    });
    let l0 = Ledger::new(GENESIS_HASH, &vec![initial_fragment(leader), registration.clone(), funding]).unwrap();
    let mut l0c = l0.clone();
    assert!(l0c.delegation().stake_pool_exists(&pool_id));

    let content = CertificateContent::StakeDelegation(StakeDelegation { stake_key_id: a, pool_id });
    let mut signed = vec![1u8];
    signed.extend_from_slice(&a);
    signed.extend_from_slice(&pool_id.0);
    let good = Certificate { content: content.clone(), signatures: vec![cryptoxide::ed25519::signature(&signed, &akp)] };
    let frag = Message::Certificate(AuthenticatedCertificateTransaction {
        transaction: Transaction { inputs: vec![], outputs: vec![] },
        certificate: good,
        witnesses: vec![],
    });
    let l1 = l0.apply_block(&vec![frag], &header(1, 1)).unwrap();
    assert_eq!(l1.accounts().get_state(&a).unwrap().delegation, Some(pool_id));

    let bad = Certificate { content, signatures: vec![[0u8; 64]] };
    let frag = Message::Certificate(AuthenticatedCertificateTransaction {
        transaction: Transaction { inputs: vec![], outputs: vec![] },
        certificate: bad,
        witnesses: vec![],
    });
    assert_eq!(l0.apply_block(&vec![frag], &header(1, 1)).unwrap_err(), Error::CertificateInvalidSignature);

    let again = Ledger::new(GENESIS_HASH, &vec![initial_fragment(leader), registration.clone(), registration]);
    assert_eq!(again.unwrap_err(), Error::Delegation { source: DelegationError::StakePoolAlreadyRegistered(pool_id) });
}

#[test]
fn legacy_output_spend() {
    let (_lk, leader) = key_pair(9);
    let (okp, ok) = key_pair(5);
    let chain_code = [6u8; 32];
    let mut xpub = ok.to_vec();
    xpub.extend_from_slice(&chain_code);
    let old_address = OldAddress(cryptoxide::hashing::blake2b_256(&xpub));
    let decl = UtxoDeclaration { addrs: vec![(old_address, Value(20))] };
    let decl_id = decl.hash();
    let l0 = Ledger::new(GENESIS_HASH, &vec![initial_fragment(leader), Message::OldUtxoDeclaration(decl)]).unwrap();
    let (_bk, b) = key_pair(2);
    let tx = Transaction {
        inputs: vec![Input::Utxo(UtxoPointer { transaction_id: decl_id, output_index: 0, value: Value(20) })],
        outputs: vec![Output { address: Address(Discrimination::Production, Kind::Account(b)), value: Value(20) }],
    };
    let txid = tx.hash();
    let sig = cryptoxide::ed25519::signature(&witness_utxo_bytes(&GENESIS_HASH, &txid), &okp);
    let good = Message::Transaction(AuthenticatedTransaction {
        transaction: tx.clone(),
        witnesses: vec![Witness::OldUtxo(ok, chain_code, sig)],
    });
    let l1 = l0.apply_block(&vec![good], &header(1, 1)).unwrap();
    assert_eq!(l1.accounts().get_state(&b).unwrap().value, Value(20));
    let wrong_key = Message::Transaction(AuthenticatedTransaction {
        transaction: tx,
        witnesses: vec![Witness::OldUtxo(ok, [7u8; 32], sig)],
    });
    assert!(matches!(l0.apply_block(&vec![wrong_key], &header(1, 1)), Err(Error::OldUtxoInvalidPublicKey { .. })));
}

#[test]
fn two_blocks_in_turn_give_same_ledger() {
    let (_lk, leader) = key_pair(9);
    let (akp, a) = key_pair(1);
    let (_bk, b) = key_pair(2);
    let frags = vec![
        initial_fragment(leader),
        Message::Transaction(AuthenticatedTransaction {
            transaction: Transaction {
                inputs: vec![],
                outputs: vec![Output { address: Address(Discrimination::Production, Kind::Account(a)), value: Value(60) }],
            },
            witnesses: vec![],
        }),
    ];
    let l0 = Ledger::new(GENESIS_HASH, &frags).unwrap();
    let spend = |counter: u32, amount: u64| {
        let tx = Transaction {
            inputs: vec![Input::Account(a, Value(amount))],
            outputs: vec![Output { address: Address(Discrimination::Production, Kind::Account(b)), value: Value(amount) }],
        };
        let txid = tx.hash();
        let sig = cryptoxide::ed25519::signature(&witness_account_bytes(&GENESIS_HASH, &txid, counter), &akp);
        vec![Message::Transaction(AuthenticatedTransaction { transaction: tx, witnesses: vec![Witness::Account(sig)] })]
    };
    let run = || {
        l0.apply_block(&spend(0, 10), &header(1, 1))
            .unwrap()
            .apply_block(&spend(1, 15), &header(2, 2))
            .unwrap()
    };
    let (r1, r2) = (run(), run());
    assert_eq!(r1.accounts().get_state(&a), r2.accounts().get_state(&a));
    assert_eq!(r1.accounts().get_state(&a).unwrap().value, Value(35));
    assert_eq!(r1.accounts().get_state(&a).unwrap().counter, 2);
    assert_eq!(r1.accounts().get_state(&b).unwrap().value, Value(25));
}

#[test]
fn chain_at_largest_length_takes_no_block() {
    let (_lk, leader) = key_pair(9);
    let mut l0 = Ledger::new(GENESIS_HASH, &vec![initial_fragment(leader)]).unwrap();
    l0.chain_length = ChainLength(u32::MAX);
    let err = l0.apply_block(&vec![], &header(1, 0)).unwrap_err();
    assert_eq!(err, Error::ChainLengthExhausted { chain_length: ChainLength(u32::MAX) });
}
