//! Reading configuration parameters and block headers back from their bytes.
use vstd::prelude::*;
use crate::address::Discrimination;
use crate::block::ConsensusVersion;
use crate::config::{
    config_param_bytes, config_params_body, config_params_bytes, Block0Date, ConfigParam, ConfigParams, LinearFee,
    Milli,
};
use crate::builder::{common_bytes, BftProof, Common, Header, Proof};
use crate::block::{BlockDate, ChainLength};
use crate::crypto::{be_u32, be_u64, push_bytes};

verus! {

#[derive(Clone, Copy, Debug, PartialEq, Eq, Structural)]
pub enum ReadError {
    NotEnoughBytes,
    UnknownTag(u8),
    SizeMismatch(u8),
    InvalidData,
    UnconsumedData,
}

pub open spec fn decode_u16(s: Seq<u8>) -> int {
    s[0] * 0x100 + s[1]
}

pub open spec fn decode_u32(s: Seq<u8>) -> int {
    s[0] * 0x100_0000 + s[1] * 0x1_0000 + s[2] * 0x100 + s[3]
}

pub open spec fn decode_u64(s: Seq<u8>) -> int {
    decode_u32(s.subrange(0, 4)) * 0x1_0000_0000 + decode_u32(s.subrange(4, 8))
}

/// The 32-byte array with the given bytes.
pub open spec fn array_of(s: Seq<u8>) -> [u8; 32] {
    choose|a: [u8; 32]| a@ == s
}

pub proof fn lemma_array_of(a: [u8; 32])
    ensures
        array_of(a@) == a,
{
    broadcast use vstd::array::group_array_axioms;
    let w = a;
    assert(w@ == a@);
    assert(exists|x: [u8; 32]| x@ == a@);
    let c = array_of(a@);
    assert(c =~= a);
}

pub proof fn lemma_decode_u32(n: u32)
    ensures
        decode_u32(be_u32(n)) == n,
{
    assert(n / 0x100_0000 < 0x100) by (bit_vector);
    assert(n == (n / 0x100_0000) * 0x100_0000 + ((n / 0x1_0000) % 0x100) * 0x1_0000 + ((n / 0x100) % 0x100) * 0x100 + n
        % 0x100) by (bit_vector);
}

pub proof fn lemma_decode_u64(n: u64)
    ensures
        decode_u64(be_u64(n)) == n,
{
    let hi = (n / 0x1_0000_0000) as u32;
    let lo = (n % 0x1_0000_0000) as u32;
    assert(n / 0x1_0000_0000 < 0x1_0000_0000) by (bit_vector);
    lemma_decode_u32(hi);
    lemma_decode_u32(lo);
    assert(be_u64(n).subrange(0, 4) =~= be_u32(hi));
    assert(be_u64(n).subrange(4, 8) =~= be_u32(lo));
    assert(n == (n / 0x1_0000_0000) * 0x1_0000_0000 + n % 0x1_0000_0000) by (bit_vector);
}

/// One parameter read from the front of `s`, with the number of bytes it took.
#[verifier::opaque]
pub open spec fn parse_param(s: Seq<u8>) -> Result<(ConfigParam, int), ReadError> {
    if s.len() < 2 {
        Err(ReadError::NotEnoughBytes)
    } else if s.len() < 2 + s[1] {
        Err(ReadError::NotEnoughBytes)
    } else {
        let tag = s[0];
        let len = s[1];
        let v = s.subrange(2, 2 + len);
        let size = 2 + len;
        if tag == 1 {
            if len != 8 { Err(ReadError::SizeMismatch(tag)) } else { Ok((ConfigParam::Block0Date(Block0Date(decode_u64(v) as u64)), size)) }
        } else if tag == 2 {
            if len != 1 {
                Err(ReadError::SizeMismatch(tag))
            } else if v[0] == 0 {
                Ok((ConfigParam::Discrimination(Discrimination::Production), size))
            } else if v[0] == 1 {
                Ok((ConfigParam::Discrimination(Discrimination::Test), size))
            } else {
                Err(ReadError::InvalidData)
            }
        } else if tag == 3 {
            if len != 2 {
                Err(ReadError::SizeMismatch(tag))
            } else if decode_u16(v) == 1 {
                Ok((ConfigParam::ConsensusVersion(ConsensusVersion::Bft), size))
            } else if decode_u16(v) == 2 {
                Ok((ConfigParam::ConsensusVersion(ConsensusVersion::GenesisPraos), size))
            } else {
                Err(ReadError::InvalidData)
            }
        } else if tag == 4 {
            if len != 4 { Err(ReadError::SizeMismatch(tag)) } else { Ok((ConfigParam::SlotsPerEpoch(decode_u32(v) as u32), size)) }
        } else if tag == 5 {
            if len != 1 { Err(ReadError::SizeMismatch(tag)) } else { Ok((ConfigParam::SlotDuration(v[0]), size)) }
        } else if tag == 6 {
            if len != 4 { Err(ReadError::SizeMismatch(tag)) } else { Ok((ConfigParam::EpochStabilityDepth(decode_u32(v) as u32), size)) }
        } else if tag == 8 {
            if len != 8 {
                Err(ReadError::SizeMismatch(tag))
            } else {
                Ok((ConfigParam::ConsensusGenesisPraosActiveSlotsCoeff(Milli(decode_u64(v) as u64)), size))
            }
        } else if tag == 9 {
            if len != 4 {
                Err(ReadError::SizeMismatch(tag))
            } else {
                Ok((ConfigParam::MaxNumberOfTransactionsPerBlock(decode_u32(v) as u32), size))
            }
        } else if tag == 10 {
            if len != 8 { Err(ReadError::SizeMismatch(tag)) } else { Ok((ConfigParam::BftSlotsRatio(Milli(decode_u64(v) as u64)), size)) }
        } else if tag == 11 {
            if len != 32 { Err(ReadError::SizeMismatch(tag)) } else { Ok((ConfigParam::AddBftLeader(array_of(v)), size)) }
        } else if tag == 12 {
            if len != 32 { Err(ReadError::SizeMismatch(tag)) } else { Ok((ConfigParam::RemoveBftLeader(array_of(v)), size)) }
        } else if tag == 13 {
            if len != 24 {
                Err(ReadError::SizeMismatch(tag))
            } else {
                Ok(
                    (
                        ConfigParam::LinearFee(
                            LinearFee {
                                constant: decode_u64(v.subrange(0, 8)) as u64,
                                coefficient: decode_u64(v.subrange(8, 16)) as u64,
                                certificate: decode_u64(v.subrange(16, 24)) as u64,
                            },
                        ),
                        size,
                    ),
                )
            }
        } else if tag == 14 {
            if len != 4 { Err(ReadError::SizeMismatch(tag)) } else { Ok((ConfigParam::ProposalExpiration(decode_u32(v) as u32), size)) }
        } else if tag == 15 {
            if len != 4 { Err(ReadError::SizeMismatch(tag)) } else { Ok((ConfigParam::KESUpdateSpeed(decode_u32(v) as u32), size)) }
        } else {
            Err(ReadError::UnknownTag(tag))
        }
    }
}

/// `count` parameters read in order from the front of `s`, with the number
/// of bytes they took.
pub open spec fn parse_params(s: Seq<u8>, count: int) -> Result<(Seq<ConfigParam>, int), ReadError>
    decreases count,
{
    if count <= 0 {
        Ok((Seq::empty(), 0))
    } else {
        match parse_params(s, count - 1) {
            Err(e) => Err(e),
            Ok((ps, n)) => match parse_param(s.subrange(n, s.len() as int)) {
                Err(e) => Err(e),
                Ok((p, m)) => Ok((ps.push(p), n + m)),
            },
        }
    }
}

/// A parameter list read from exactly the bytes `s`.
pub open spec fn read_params(s: Seq<u8>) -> Result<Seq<ConfigParam>, ReadError> {
    if s.len() < 2 {
        Err(ReadError::NotEnoughBytes)
    } else {
        match parse_params(s.subrange(2, s.len() as int), decode_u16(s)) {
            Err(e) => Err(e),
            Ok((ps, n)) => if n != s.len() - 2 {
                Err(ReadError::UnconsumedData)
            } else {
                Ok(ps)
            },
        }
    }
}

/// A parameter's bytes, followed by anything, read back as that parameter.
#[verifier::spinoff_prover]
#[verifier::rlimit(100)]
pub proof fn lemma_parse_param(p: ConfigParam, rest: Seq<u8>)
    ensures
        parse_param(config_param_bytes(p) + rest) == Ok::<(ConfigParam, int), ReadError>(
            (p, config_param_bytes(p).len() as int),
        ),
{
    reveal(parse_param);
    let b = config_param_bytes(p);
    let s = b + rest;
    assert(s.subrange(0, b.len() as int) == b);
    let v = s.subrange(2, b.len() as int);
    assert(v =~= b.subrange(2, b.len() as int));
    match p {
        ConfigParam::Block0Date(d) => {
            assert(v =~= be_u64(d.0));
            lemma_decode_u64(d.0);
        },
        ConfigParam::Discrimination(d) => {},
        ConfigParam::ConsensusVersion(c) => {},
        ConfigParam::SlotsPerEpoch(n) => {
            assert(v =~= be_u32(n));
            lemma_decode_u32(n);
        },
        ConfigParam::SlotDuration(n) => {},
        ConfigParam::EpochStabilityDepth(n) => {
            assert(v =~= be_u32(n));
            lemma_decode_u32(n);
        },
        ConfigParam::ConsensusGenesisPraosActiveSlotsCoeff(m) => {
            assert(v =~= be_u64(m.0));
            lemma_decode_u64(m.0);
        },
        ConfigParam::MaxNumberOfTransactionsPerBlock(n) => {
            assert(v =~= be_u32(n));
            lemma_decode_u32(n);
        },
        ConfigParam::BftSlotsRatio(m) => {
            assert(v =~= be_u64(m.0));
            lemma_decode_u64(m.0);
        },
        ConfigParam::AddBftLeader(k) => {
            assert(v =~= k@);
            lemma_array_of(k);
        },
        ConfigParam::RemoveBftLeader(k) => {
            assert(v =~= k@);
            lemma_array_of(k);
        },
        ConfigParam::LinearFee(f) => {
            assert(v.subrange(0, 8) =~= be_u64(f.constant));
            assert(v.subrange(8, 16) =~= be_u64(f.coefficient));
            assert(v.subrange(16, 24) =~= be_u64(f.certificate));
            lemma_decode_u64(f.constant);
            lemma_decode_u64(f.coefficient);
            lemma_decode_u64(f.certificate);
        },
        ConfigParam::ProposalExpiration(n) => {
            assert(v =~= be_u32(n));
            lemma_decode_u32(n);
        },
        ConfigParam::KESUpdateSpeed(n) => {
            assert(v =~= be_u32(n));
            lemma_decode_u32(n);
        },
    }
}

/// The bytes of a list of parameters, followed by anything, read back as
/// that list.
pub proof fn lemma_parse_params(ps: Seq<ConfigParam>, rest: Seq<u8>)
    ensures
        parse_params(config_params_body(ps) + rest, ps.len() as int) == Ok::<(Seq<ConfigParam>, int), ReadError>(
            (ps, config_params_body(ps).len() as int),
        ),
    decreases ps.len(),
{
    if ps.len() > 0 {
        let init = ps.drop_last();
        let last = ps.last();
        let s = config_params_body(ps) + rest;
        let tail = config_param_bytes(last) + rest;
        assert(s =~= config_params_body(init) + tail);
        lemma_parse_params(init, tail);
        let n = config_params_body(init).len() as int;
        assert(s.subrange(n, s.len() as int) =~= tail);
        lemma_parse_param(last, rest);
        assert(init.push(last) =~= ps);
        assert(init.len() == ps.len() - 1);
        assert(config_params_body(ps) == config_params_body(init) + config_param_bytes(last));
    } else {
        assert(ps =~= Seq::<ConfigParam>::empty());
    }
}

/// Serialising a list of at most 65535 parameters and reading the bytes back
/// gives the same list.
pub proof fn lemma_config_params_round_trip(ps: Seq<ConfigParam>)
    requires
        ps.len() <= 0xffff,
    ensures
        read_params(config_params_bytes(ps)) == Ok::<Seq<ConfigParam>, ReadError>(ps),
{
    let s = config_params_bytes(ps);
    let body = config_params_body(ps);
    assert(s.subrange(2, s.len() as int) =~= body + Seq::<u8>::empty());
    lemma_parse_params(ps, Seq::<u8>::empty());
    assert(decode_u16(s) == ps.len());
}

fn read_u32(bytes: &Vec<u8>, pos: usize) -> (r: u32)
    requires
        pos + 4 <= bytes@.len(),
    ensures
        r == decode_u32(bytes@.subrange(pos as int, pos + 4)),
{
    let _n = bytes.len();
    (bytes[pos] as u32) * 0x100_0000 + (bytes[pos + 1] as u32) * 0x1_0000 + (bytes[pos + 2] as u32) * 0x100
        + bytes[pos + 3] as u32
}

fn read_u64(bytes: &Vec<u8>, pos: usize) -> (r: u64)
    requires
        pos + 8 <= bytes@.len(),
    ensures
        r == decode_u64(bytes@.subrange(pos as int, pos + 8)),
{
    let _n = bytes.len();
    let hi = read_u32(bytes, pos);
    let lo = read_u32(bytes, pos + 4);
    proof {
        assert(bytes@.subrange(pos as int, pos + 8).subrange(0, 4) =~= bytes@.subrange(pos as int, pos + 4));
        assert(bytes@.subrange(pos as int, pos + 8).subrange(4, 8) =~= bytes@.subrange(pos + 4, pos + 8));
    }
    (hi as u64) * 0x1_0000_0000 + lo as u64
}

fn read_key(bytes: &Vec<u8>, pos: usize) -> (r: [u8; 32])
    requires
        pos + 32 <= bytes@.len(),
    ensures
        r == array_of(bytes@.subrange(pos as int, pos + 32)),
{
    let _n = bytes.len();
    let mut k: [u8; 32] = [0u8; 32];
    let mut i: usize = 0;
    while i < 32
        invariant
            0 <= i <= 32,
            pos + 32 <= bytes@.len() == _n,
            forall|j: int| 0 <= j < i ==> k[j] == bytes@[pos + j],
        decreases 32 - i,
    {
        k[i] = bytes[pos + i];
        i += 1;
    }
    proof {
        assert(k@ =~= bytes@.subrange(pos as int, pos + 32));
        lemma_array_of(k);
    }
    k
}

/// Reads one parameter at `pos`, handing back the position after it.
pub fn read_param(bytes: &Vec<u8>, pos: usize) -> (r: Result<(ConfigParam, usize), ReadError>)
    requires
        pos <= bytes@.len(),
    ensures
        parse_param(bytes@.subrange(pos as int, bytes@.len() as int)) matches Err(e) ==> r == Err::<(ConfigParam, usize), ReadError>(e),
        parse_param(bytes@.subrange(pos as int, bytes@.len() as int)) matches Ok((p, n)) ==> (r matches Ok((p2, q)) && p2 == p
            && q == pos + n),
        r matches Ok((_, q)) ==> pos < q <= bytes@.len(),
{
    proof {
        reveal(parse_param);
    }
    let ghost s = bytes@.subrange(pos as int, bytes@.len() as int);
    if bytes.len() - pos < 2 {
        return Err(ReadError::NotEnoughBytes);
    }
    let tag = bytes[pos];
    let len = bytes[pos + 1];
    if bytes.len() - pos - 2 < len as usize {
        return Err(ReadError::NotEnoughBytes);
    }
    let v = pos + 2;
    let size = pos + 2 + len as usize;
    proof {
        let sv = s.subrange(2, 2 + len);
        assert(s[0] == tag && s[1] == len);
        assert(sv =~= bytes@.subrange(v as int, v + len));
        if len == 24 {
            assert(sv.subrange(0, 8) =~= bytes@.subrange(v as int, v + 8));
            assert(sv.subrange(8, 16) =~= bytes@.subrange(v + 8, v + 16));
            assert(sv.subrange(16, 24) =~= bytes@.subrange(v + 16, v + 24));
        }
    }
    let p = if tag == 1 {
        if len != 8 {
            return Err(ReadError::SizeMismatch(tag));
        }
        ConfigParam::Block0Date(Block0Date(read_u64(bytes, v)))
    } else if tag == 2 {
        if len != 1 {
            return Err(ReadError::SizeMismatch(tag));
        }
        if bytes[v] == 0 {
            ConfigParam::Discrimination(Discrimination::Production)
        } else if bytes[v] == 1 {
            ConfigParam::Discrimination(Discrimination::Test)
        } else {
            return Err(ReadError::InvalidData);
        }
    } else if tag == 3 {
        if len != 2 {
            return Err(ReadError::SizeMismatch(tag));
        }
        let n = (bytes[v] as u32) * 0x100 + bytes[v + 1] as u32;
        if n == 1 {
            ConfigParam::ConsensusVersion(ConsensusVersion::Bft)
        } else if n == 2 {
            ConfigParam::ConsensusVersion(ConsensusVersion::GenesisPraos)
        } else {
            return Err(ReadError::InvalidData);
        }
    } else if tag == 4 {
        if len != 4 {
            return Err(ReadError::SizeMismatch(tag));
        }
        ConfigParam::SlotsPerEpoch(read_u32(bytes, v))
    } else if tag == 5 {
        if len != 1 {
            return Err(ReadError::SizeMismatch(tag));
        }
        ConfigParam::SlotDuration(bytes[v])
    } else if tag == 6 {
        if len != 4 {
            return Err(ReadError::SizeMismatch(tag));
        }
        ConfigParam::EpochStabilityDepth(read_u32(bytes, v))
    } else if tag == 8 {
        if len != 8 {
            return Err(ReadError::SizeMismatch(tag));
        }
        ConfigParam::ConsensusGenesisPraosActiveSlotsCoeff(Milli(read_u64(bytes, v)))
    } else if tag == 9 {
        if len != 4 {
            return Err(ReadError::SizeMismatch(tag));
        }
        ConfigParam::MaxNumberOfTransactionsPerBlock(read_u32(bytes, v))
    } else if tag == 10 {
        if len != 8 {
            return Err(ReadError::SizeMismatch(tag));
        }
        ConfigParam::BftSlotsRatio(Milli(read_u64(bytes, v)))
    } else if tag == 11 {
        if len != 32 {
            return Err(ReadError::SizeMismatch(tag));
        }
        ConfigParam::AddBftLeader(read_key(bytes, v))
    } else if tag == 12 {
        if len != 32 {
            return Err(ReadError::SizeMismatch(tag));
        }
        ConfigParam::RemoveBftLeader(read_key(bytes, v))
    } else if tag == 13 {
        if len != 24 {
            return Err(ReadError::SizeMismatch(tag));
        }
        ConfigParam::LinearFee(
            LinearFee { constant: read_u64(bytes, v), coefficient: read_u64(bytes, v + 8), certificate: read_u64(bytes, v + 16) },
        )
    } else if tag == 14 {
        if len != 4 {
            return Err(ReadError::SizeMismatch(tag));
        }
        ConfigParam::ProposalExpiration(read_u32(bytes, v))
    } else if tag == 15 {
        if len != 4 {
            return Err(ReadError::SizeMismatch(tag));
        }
        ConfigParam::KESUpdateSpeed(read_u32(bytes, v))
    } else {
        return Err(ReadError::UnknownTag(tag));
    };
    Ok((p, size))
}

impl ConfigParams {
    /// Reads a parameter list that takes exactly the bytes given.
    pub fn read(bytes: &Vec<u8>) -> (r: Result<ConfigParams, ReadError>)
        ensures
            read_params(bytes@) matches Err(e) ==> r == Err::<ConfigParams, ReadError>(e),
            read_params(bytes@) matches Ok(ps) ==> (r matches Ok(x) && x@ == ps),
    {
        if bytes.len() < 2 {
            return Err(ReadError::NotEnoughBytes);
        }
        let count = (bytes[0] as usize) * 0x100 + bytes[1] as usize;
        let ghost body = bytes@.subrange(2, bytes@.len() as int);
        let mut configs: Vec<ConfigParam> = Vec::new();
        let mut pos: usize = 2;
        let mut i: usize = 0;
        while i < count
            invariant
                0 <= i <= count,
                2 <= pos <= bytes@.len(),
                count == decode_u16(bytes@),
                body == bytes@.subrange(2, bytes@.len() as int),
                parse_params(body, i as int) == Ok::<(Seq<ConfigParam>, int), ReadError>((configs@, pos - 2)),
            decreases count - i,
        {
            proof {
                assert(body.subrange(pos - 2, body.len() as int) =~= bytes@.subrange(pos as int, bytes@.len() as int));
            }
            let (p, next) = match read_param(bytes, pos) {
                Ok(x) => x,
                Err(e) => {
                    proof {
                        lemma_parse_params_err(body, i as int + 1, count as int);
                    }
                    return Err(e);
                },
            };
            configs.push(p);
            pos = next;
            i += 1;
        }
        if pos != bytes.len() {
            return Err(ReadError::UnconsumedData);
        }
        Ok(ConfigParams(configs))
    }
}

pub proof fn lemma_parse_params_err(s: Seq<u8>, n0: int, n: int)
    requires
        0 <= n0 <= n,
        parse_params(s, n0) is Err,
    ensures
        parse_params(s, n) == parse_params(s, n0),
    decreases n - n0,
{
    if n > n0 {
        lemma_parse_params_err(s, n0, n - 1);
    }
}

/// The 64-byte array with the given bytes.
pub open spec fn array64_of(s: Seq<u8>) -> [u8; 64] {
    choose|a: [u8; 64]| a@ == s
}

pub proof fn lemma_array64_of(a: [u8; 64])
    ensures
        array64_of(a@) == a,
{
    broadcast use vstd::array::group_array_axioms;
    let w = a;
    assert(w@ == a@);
    assert(exists|x: [u8; 64]| x@ == a@);
    let c = array64_of(a@);
    assert(c =~= a);
}

/// The bytes of a header's proof: nothing, or the leader's key and signature.
pub open spec fn proof_bytes(p: Proof) -> Seq<u8> {
    match p {
        Proof::NoProof => Seq::empty(),
        Proof::Bft(b) => b.leader_id@ + b.signature@,
    }
}

pub open spec fn header_bytes(h: Header) -> Seq<u8> {
    common_bytes(h.common) + proof_bytes(h.proof)
}

/// The length of the common header's bytes.
pub const COMMON_SIZE: usize = 82;

/// A header read from exactly the bytes `s`; the version says which proof
/// follows the common part.
pub open spec fn read_header_spec(s: Seq<u8>) -> Result<Header, ReadError> {
    if s.len() < 82 {
        Err(ReadError::NotEnoughBytes)
    } else {
        let common = Common {
            block_parent_hash: array_of(s.subrange(0, 32)),
            block_date: BlockDate {
                epoch: decode_u32(s.subrange(32, 36)) as u32,
                slot_id: decode_u32(s.subrange(36, 40)) as u32,
            },
            chain_length: ChainLength(decode_u32(s.subrange(40, 44)) as u32),
            block_content_size: decode_u32(s.subrange(44, 48)) as u32,
            block_content_hash: array_of(s.subrange(48, 80)),
            any_block_version: decode_u16(s.subrange(80, 82)) as u16,
        };
        if common.any_block_version == 0 {
            if s.len() != 82 {
                Err(ReadError::UnconsumedData)
            } else {
                Ok(Header { common, proof: Proof::NoProof })
            }
        } else if common.any_block_version == 1 {
            if s.len() < 178 {
                Err(ReadError::NotEnoughBytes)
            } else if s.len() != 178 {
                Err(ReadError::UnconsumedData)
            } else {
                Ok(
                    Header {
                        common,
                        proof: Proof::Bft(
                            BftProof { leader_id: array_of(s.subrange(82, 114)), signature: array64_of(s.subrange(114, 178)) },
                        ),
                    },
                )
            }
        } else {
            Err(ReadError::InvalidData)
        }
    }
}

proof fn lemma_decode_u16(n: u16)
    ensures
        decode_u16(crate::config::be_u16(n)) == n,
{
    assert(n / 0x100 < 0x100) by (bit_vector);
    assert(n == (n / 0x100) * 0x100 + n % 0x100) by (bit_vector);
}

/// A header whose version matches its proof (0 with no proof, 1 with a BFT
/// proof) reads back from its bytes unchanged.
#[verifier::spinoff_prover]
#[verifier::rlimit(100)]
pub proof fn lemma_header_round_trip(h: Header)
    requires
        (h.common.any_block_version == 0 && h.proof is NoProof) || (h.common.any_block_version == 1 && h.proof is Bft),
    ensures
        read_header_spec(header_bytes(h)) == Ok::<Header, ReadError>(h),
{
    let s = header_bytes(h);
    let c = h.common;
    assert(s.subrange(0, 32) =~= c.block_parent_hash@);
    assert(s.subrange(32, 36) =~= be_u32(c.block_date.epoch));
    assert(s.subrange(36, 40) =~= be_u32(c.block_date.slot_id));
    assert(s.subrange(40, 44) =~= be_u32(c.chain_length.0));
    assert(s.subrange(44, 48) =~= be_u32(c.block_content_size));
    assert(s.subrange(48, 80) =~= c.block_content_hash@);
    assert(s.subrange(80, 82) =~= crate::config::be_u16(c.any_block_version));
    lemma_array_of(c.block_parent_hash);
    lemma_array_of(c.block_content_hash);
    lemma_decode_u32(c.block_date.epoch);
    lemma_decode_u32(c.block_date.slot_id);
    lemma_decode_u32(c.chain_length.0);
    lemma_decode_u32(c.block_content_size);
    lemma_decode_u16(c.any_block_version);
    if let Proof::Bft(b) = h.proof {
        assert(s.subrange(82, 114) =~= b.leader_id@);
        assert(s.subrange(114, 178) =~= b.signature@);
        lemma_array_of(b.leader_id);
        lemma_array64_of(b.signature);
    }
}

fn read_signature(bytes: &Vec<u8>, pos: usize) -> (r: [u8; 64])
    requires
        pos + 64 <= bytes@.len(),
    ensures
        r == array64_of(bytes@.subrange(pos as int, pos + 64)),
{
    let _n = bytes.len();
    let mut k: [u8; 64] = [0u8; 64];
    let mut i: usize = 0;
    while i < 64
        invariant
            0 <= i <= 64,
            pos + 64 <= bytes@.len() == _n,
            forall|j: int| 0 <= j < i ==> k[j] == bytes@[pos + j],
        decreases 64 - i,
    {
        k[i] = bytes[pos + i];
        i += 1;
    }
    proof {
        assert(k@ =~= bytes@.subrange(pos as int, pos + 64));
        lemma_array64_of(k);
    }
    k
}

impl Header {
    /// The header's bytes.
    pub fn serialize(&self) -> (r: Vec<u8>)
        ensures
            r@ == header_bytes(*self),
    {
        let mut out = self.common.serialize();
        match &self.proof {
            Proof::NoProof => {},
            Proof::Bft(b) => {
                push_bytes(&mut out, &b.leader_id);
                push_bytes(&mut out, &b.signature);
            },
        }
        proof {
            assert(out@ =~= header_bytes(*self));
        }
        out
    }

    /// Reads a header that takes exactly the bytes given.
    pub fn read(bytes: &Vec<u8>) -> (r: Result<Header, ReadError>)
        ensures
            r == read_header_spec(bytes@),
    {
        let n = bytes.len();
        if n < COMMON_SIZE {
            return Err(ReadError::NotEnoughBytes);
        }
        let ghost s = bytes@;
        proof {
            assert(bytes@.subrange(80, 82)[0] == bytes@[80]);
        }
        let version = (bytes[80] as u16) * 0x100 + bytes[81] as u16;
        let common = Common {
            block_parent_hash: read_key(bytes, 0),
            block_date: BlockDate { epoch: read_u32(bytes, 32), slot_id: read_u32(bytes, 36) },
            chain_length: ChainLength(read_u32(bytes, 40)),
            block_content_size: read_u32(bytes, 44),
            block_content_hash: read_key(bytes, 48),
            any_block_version: version,
        };
        if version == 0 {
            if n != COMMON_SIZE {
                return Err(ReadError::UnconsumedData);
            }
            Ok(Header { common, proof: Proof::NoProof })
        } else if version == 1 {
            if n < 178 {
                return Err(ReadError::NotEnoughBytes);
            }
            if n != 178 {
                return Err(ReadError::UnconsumedData);
            }
            let leader_id = read_key(bytes, 82);
            let signature = read_signature(bytes, 114);
            Ok(Header { common, proof: Proof::Bft(BftProof { leader_id, signature }) })
        } else {
            Err(ReadError::InvalidData)
        }
    }
}

} // verus!
