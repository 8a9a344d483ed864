use mockchain::builder::{BlockBuilder, Header, Proof};
use mockchain::codec::ReadError;
use mockchain::block::{BlockDate, ChainLength};
use mockchain::config::{ConfigParam, ConfigParams, LinearFee, Milli};
use mockchain::setting::{Error as SettingError, Settings};
use mockchain::block::TimeEra;
use mockchain::stake::{GenesisPraosLeader, StakePoolInfo};
use mockchain::value::{Value, ValueError};

#[test]
fn value_sum_and_overflow() {
    assert_eq!(Value::sum(&vec![Value(1), Value(2), Value(3)]), Ok(Value(6)));
    assert_eq!(Value::sum(&vec![]), Ok(Value(0)));
    assert_eq!(Value::sum(&vec![Value(u64::MAX), Value(1)]), Err(ValueError::Overflow));
    assert_eq!(Value(u64::MAX).checked_add(Value(0)), Ok(Value(u64::MAX)));
}

#[test]
fn linear_fee_formula() {
    let f = LinearFee::new(5, 2, 9);
    assert_eq!(f.calculate(3, 4), Some(Value(19)));
    assert_eq!(f.calculate(0, 0), Some(Value(5)));
    assert_eq!(LinearFee::new(u64::MAX, 1, 0).calculate(1, 0), None);
}

#[test]
fn config_params_bytes() {
    let mut ps = ConfigParams::new();
    ps.push(ConfigParam::SlotDuration(10));
    ps.push(ConfigParam::SlotsPerEpoch(0x0102_0304));
    assert_eq!(ps.iter().len(), 2);
    assert_eq!(ps.serialize(), vec![0, 2, 5, 1, 10, 4, 4, 1, 2, 3, 4]);
}

#[test]
fn settings_apply() {
    let era = TimeEra { slot0_seconds: 0, slot_duration: 1, epoch_start: 0, slots_per_epoch: 10 };
    let s = Settings::new(era);
    let k = [4u8; 32];
    let mut ps = ConfigParams::new();
    ps.push(ConfigParam::AddBftLeader(k));
    ps.push(ConfigParam::AddBftLeader(k));
    ps.push(ConfigParam::ProposalExpiration(7));
    let s2 = s.apply(&ps).unwrap();
    assert_eq!(s2.bft_leaders, vec![k]);
    assert_eq!(s2.proposal_expiration, 7);
    let mut rm = ConfigParams::new();
    rm.push(ConfigParam::RemoveBftLeader(k));
    assert_eq!(s2.apply(&rm).unwrap().bft_leaders.len(), 0);
    let mut bad = ConfigParams::new();
    bad.push(ConfigParam::ConsensusGenesisPraosActiveSlotsCoeff(Milli(0)));
    assert_eq!(s.apply(&bad).unwrap_err(), SettingError::ActiveSlotsCoeffInvalid);
    let mut ro = ConfigParams::new();
    ro.push(ConfigParam::SlotDuration(3));
    assert_eq!(s.apply(&ro).unwrap_err(), SettingError::ReadOnlySetting);
}

#[test]
fn stake_pool_id_is_digest_of_registration() {
    let info = StakePoolInfo {
        serial: 0x0102,
        owners: vec![[1u8; 32], [2u8; 32]],
        initial_key: GenesisPraosLeader { kes_public_key: [3u8; 32], vrf_public_key: [4u8; 32] },
    };
    let mut bytes = 0x0102u128.to_be_bytes().to_vec();
    bytes.extend_from_slice(&[1u8; 32]);
    bytes.extend_from_slice(&[2u8; 32]);
    bytes.extend_from_slice(&[3u8; 32]);
    bytes.extend_from_slice(&[4u8; 32]);
    assert_eq!(info.to_id().0, cryptoxide::hashing::blake2b_256(&bytes));
}

#[test]
fn builder_genesis_and_bft() {
    let mut b = BlockBuilder::new();
    b.date(BlockDate { epoch: 0, slot_id: 0 });
    let g = b.make_genesis_block();
    assert_eq!(g.header.proof, Proof::NoProof);
    assert_eq!(g.header.common.block_content_size, 0);
    assert_eq!(g.header.common.block_content_hash, cryptoxide::hashing::blake2b_256(&[]));

    let (kp, pk) = cryptoxide::ed25519::keypair(&[1u8; 32]);
    let mut b = BlockBuilder::new();
    b.date(BlockDate { epoch: 0, slot_id: 3 }).chain_length(ChainLength(1)).parent([8u8; 32]);
    let block = b.make_bft_block(&kp);
    assert_eq!(block.header.common.any_block_version, 1);
    assert_eq!(block.header.common.block_parent_hash, [8u8; 32]);
    let data = block.header.common.serialize();
    match block.header.proof {
        Proof::Bft(p) => {
            assert_eq!(p.leader_id, pk);
            assert!(cryptoxide::ed25519::verify(&data, &pk, &p.signature));
        }
        _ => panic!("expected a BFT proof"),
    }
}

#[test]
fn header_round_trip() {
    let (kp, _pk) = cryptoxide::ed25519::keypair(&[2u8; 32]);
    let mut b = BlockBuilder::new();
    b.date(BlockDate { epoch: 1, slot_id: 2 }).chain_length(ChainLength(3)).parent([4u8; 32]);
    let block = b.make_bft_block(&kp);
    let bytes = block.header.serialize();
    assert_eq!(bytes.len(), 178);
    assert_eq!(Header::read(&bytes), Ok(block.header));
    let genesis = BlockBuilder::new().make_genesis_block();
    let bytes = genesis.header.serialize();
    assert_eq!(bytes.len(), 82);
    assert_eq!(Header::read(&bytes), Ok(genesis.header));
    assert_eq!(Header::read(&bytes[..81].to_vec()), Err(ReadError::NotEnoughBytes));
}
