//! Configuration parameters and the list of them that genesis and update
//! proposals carry.
use vstd::prelude::*;
use crate::address::Discrimination;
use crate::block::ConsensusVersion;
use crate::crypto::{be_u32, be_u64, push_bytes, push_u32, push_u64, PublicKey};

verus! {

/// Seconds since the Unix epoch at which slot 0 starts.
#[derive(Clone, Copy, Debug, PartialEq, Eq, Structural)]
pub struct Block0Date(pub u64);

/// A ratio in thousandths.
#[derive(Clone, Copy, Debug, PartialEq, Eq, Structural)]
pub struct Milli(pub u64);

/// The linear fee: a constant, plus a coefficient per input and per output;
/// the certificate coefficient is kept as configured.
#[derive(Clone, Copy, Debug, PartialEq, Eq, Structural)]
pub struct LinearFee {
    pub constant: u64,
    pub coefficient: u64,
    pub certificate: u64,
}

/// The fee of a transaction with the given numbers of inputs and outputs.
pub open spec fn fee_for(f: LinearFee, n_inputs: int, n_outputs: int) -> int {
    f.constant + f.coefficient * (n_inputs + n_outputs)
}

impl LinearFee {
    pub fn new(constant: u64, coefficient: u64, certificate: u64) -> (r: LinearFee)
        ensures
            r == (LinearFee { constant, coefficient, certificate }),
    {
        LinearFee { constant, coefficient, certificate }
    }

    /// The fee for the given numbers of inputs and outputs, or `None` when it
    /// does not fit in 64 bits.
    pub fn calculate(&self, n_inputs: usize, n_outputs: usize) -> (r: Option<crate::value::Value>)
        ensures
            fee_for(*self, n_inputs as int, n_outputs as int) <= u64::MAX ==> r == Some(
                crate::value::Value(fee_for(*self, n_inputs as int, n_outputs as int) as u64),
            ),
            fee_for(*self, n_inputs as int, n_outputs as int) > u64::MAX ==> r.is_none(),
    {
        let n = (n_inputs as u128) + (n_outputs as u128);
        if n > u64::MAX as u128 {
            proof {
                assert(self.coefficient * (n_inputs + n_outputs) >= 0) by (nonlinear_arith)
                    requires self.coefficient >= 0, n_inputs + n_outputs >= 0;
                if self.coefficient > 0 {
                    assert(self.coefficient * (n_inputs + n_outputs) >= n_inputs + n_outputs) by (nonlinear_arith)
                        requires self.coefficient >= 1, n_inputs + n_outputs >= 0;
                }
            }
            if self.coefficient == 0 {
                return Some(crate::value::Value(self.constant));
            }
            return None;
        }
        let per = match self.coefficient.checked_mul(n as u64) {
            Some(p) => p,
            None => {
                return None;
            },
        };
        match self.constant.checked_add(per) {
            Some(t) => Some(crate::value::Value(t)),
            None => None,
        }
    }
}

#[derive(Clone, Copy, Debug, PartialEq, Eq)]
pub enum ConfigParam {
    Block0Date(Block0Date),
    Discrimination(Discrimination),
    ConsensusVersion(ConsensusVersion),
    SlotsPerEpoch(u32),
    SlotDuration(u8),
    EpochStabilityDepth(u32),
    ConsensusGenesisPraosActiveSlotsCoeff(Milli),
    MaxNumberOfTransactionsPerBlock(u32),
    BftSlotsRatio(Milli),
    AddBftLeader(PublicKey),
    RemoveBftLeader(PublicKey),
    LinearFee(LinearFee),
    ProposalExpiration(u32),
    KESUpdateSpeed(u32),
}

#[derive(Clone, Debug, PartialEq, Eq)]
pub struct ConfigParams(pub Vec<ConfigParam>);

impl View for ConfigParams {
    type V = Seq<ConfigParam>;

    open spec fn view(&self) -> Seq<ConfigParam> {
        self.0@
    }
}

pub open spec fn be_u16(n: u16) -> Seq<u8> {
    seq![(n / 0x100) as u8, (n % 0x100) as u8]
}

/// The bytes of one parameter: its tag, the length of its value, and the
/// value, integers big endian.
pub open spec fn config_param_bytes(p: ConfigParam) -> Seq<u8> {
    match p {
        ConfigParam::Block0Date(d) => seq![1u8, 8u8] + be_u64(d.0),
        ConfigParam::Discrimination(d) => seq![2u8, 1u8, if d == Discrimination::Production { 0u8 } else { 1u8 }],
        ConfigParam::ConsensusVersion(v) => seq![3u8, 2u8, 0u8, if v == ConsensusVersion::Bft { 1u8 } else { 2u8 }],
        ConfigParam::SlotsPerEpoch(n) => seq![4u8, 4u8] + be_u32(n),
        ConfigParam::SlotDuration(n) => seq![5u8, 1u8, n],
        ConfigParam::EpochStabilityDepth(n) => seq![6u8, 4u8] + be_u32(n),
        ConfigParam::ConsensusGenesisPraosActiveSlotsCoeff(m) => seq![8u8, 8u8] + be_u64(m.0),
        ConfigParam::MaxNumberOfTransactionsPerBlock(n) => seq![9u8, 4u8] + be_u32(n),
        ConfigParam::BftSlotsRatio(m) => seq![10u8, 8u8] + be_u64(m.0),
        ConfigParam::AddBftLeader(k) => seq![11u8, 32u8] + k@,
        ConfigParam::RemoveBftLeader(k) => seq![12u8, 32u8] + k@,
        ConfigParam::LinearFee(f) => seq![13u8, 24u8] + be_u64(f.constant) + be_u64(f.coefficient) + be_u64(
            f.certificate,
        ),
        ConfigParam::ProposalExpiration(n) => seq![14u8, 4u8] + be_u32(n),
        ConfigParam::KESUpdateSpeed(n) => seq![15u8, 4u8] + be_u32(n),
    }
}

pub open spec fn config_params_body(ps: Seq<ConfigParam>) -> Seq<u8>
    decreases ps.len(),
{
    if ps.len() == 0 {
        Seq::empty()
    } else {
        config_params_body(ps.drop_last()) + config_param_bytes(ps.last())
    }
}

/// The bytes of a parameter list: its length (two bytes) then each parameter.
pub open spec fn config_params_bytes(ps: Seq<ConfigParam>) -> Seq<u8> {
    be_u16((ps.len() % 0x1_0000) as u16) + config_params_body(ps)
}

/// Appends the bytes of one parameter to `out`.
pub fn push_config_param(out: &mut Vec<u8>, p: &ConfigParam)
    ensures
        final(out)@ == old(out)@ + config_param_bytes(*p),
{
    match p {
        ConfigParam::Block0Date(d) => {
            out.push(1);
            out.push(8);
            push_u64(out, d.0);
        },
        ConfigParam::Discrimination(d) => {
            out.push(2);
            out.push(1);
            out.push(
                match d {
                    Discrimination::Production => 0,
                    Discrimination::Test => 1,
                },
            );
        },
        ConfigParam::ConsensusVersion(v) => {
            out.push(3);
            out.push(2);
            out.push(0);
            out.push(
                match v {
                    ConsensusVersion::Bft => 1,
                    ConsensusVersion::GenesisPraos => 2,
                },
            );
        },
        ConfigParam::SlotsPerEpoch(n) => {
            out.push(4);
            out.push(4);
            push_u32(out, *n);
        },
        ConfigParam::SlotDuration(n) => {
            out.push(5);
            out.push(1);
            out.push(*n);
        },
        ConfigParam::EpochStabilityDepth(n) => {
            out.push(6);
            out.push(4);
            push_u32(out, *n);
        },
        ConfigParam::ConsensusGenesisPraosActiveSlotsCoeff(m) => {
            out.push(8);
            out.push(8);
            push_u64(out, m.0);
        },
        ConfigParam::MaxNumberOfTransactionsPerBlock(n) => {
            out.push(9);
            out.push(4);
            push_u32(out, *n);
        },
        ConfigParam::BftSlotsRatio(m) => {
            out.push(10);
            out.push(8);
            push_u64(out, m.0);
        },
        ConfigParam::AddBftLeader(k) => {
            out.push(11);
            out.push(32);
            push_bytes(out, k);
        },
        ConfigParam::RemoveBftLeader(k) => {
            out.push(12);
            out.push(32);
            push_bytes(out, k);
        },
        ConfigParam::LinearFee(f) => {
            out.push(13);
            out.push(24);
            push_u64(out, f.constant);
            push_u64(out, f.coefficient);
            push_u64(out, f.certificate);
        },
        ConfigParam::ProposalExpiration(n) => {
            out.push(14);
            out.push(4);
            push_u32(out, *n);
        },
        ConfigParam::KESUpdateSpeed(n) => {
            out.push(15);
            out.push(4);
            push_u32(out, *n);
        },
    }
    proof {
        assert(final(out)@ =~= old(out)@ + config_param_bytes(*p));
    }
}

impl ConfigParams {
    /// Appends the bytes of the list to `out`.
    pub fn serialize_into(&self, out: &mut Vec<u8>)
        ensures
            final(out)@ == old(out)@ + config_params_bytes(self@),
    {
        let n = (self.0.len() % 0x1_0000) as u16;
        out.push((n / 0x100) as u8);
        out.push((n % 0x100) as u8);
        let ghost start = out@;
        let mut i: usize = 0;
        while i < self.0.len()
            invariant
                0 <= i <= self@.len(),
                out@ == start + config_params_body(self@.subrange(0, i as int)),
            decreases self@.len() - i,
        {
            proof {
                assert(self@.subrange(0, i + 1).drop_last() == self@.subrange(0, i as int));
            }
            push_config_param(out, &self.0[i]);
            proof {
                assert(out@ =~= start + config_params_body(self@.subrange(0, i + 1)));
            }
            i += 1;
        }
        proof {
            assert(self@.subrange(0, self@.len() as int) == self@);
            assert(out@ =~= old(out)@ + config_params_bytes(self@));
        }
    }

    /// The bytes of the list.
    pub fn serialize(&self) -> (r: Vec<u8>)
        ensures
            r@ == config_params_bytes(self@),
    {
        let mut out: Vec<u8> = Vec::new();
        self.serialize_into(&mut out);
        proof {
            assert(out@ =~= config_params_bytes(self@));
        }
        out
    }

    pub fn new() -> (r: Self)
        ensures
            r@ == Seq::<ConfigParam>::empty(),
    {
        ConfigParams(Vec::new())
    }

    pub fn push(&mut self, config: ConfigParam)
        ensures
            final(self)@ == old(self)@.push(config),
    {
        self.0.push(config)
    }

    /// The parameters, in order.
    pub fn iter(&self) -> (r: &Vec<ConfigParam>)
        ensures
            r@ == self@,
    {
        &self.0
    }

    pub fn dup(&self) -> (r: Self)
        ensures
            r@ == self@,
    {
        let mut v: Vec<ConfigParam> = Vec::new();
        let mut i: usize = 0;
        while i < self.0.len()
            invariant
                0 <= i <= self@.len(),
                v@ == self@.subrange(0, i as int),
            decreases self@.len() - i,
        {
            v.push(self.0[i]);
            proof {
                assert(v@ =~= self@.subrange(0, i + 1));
            }
            i += 1;
        }
        proof {
            assert(v@ =~= self@);
        }
        ConfigParams(v)
    }
}

} // verus!
