//! The hash functions offered to queries, and the test that assigns a value
//! to one of a number of partitions by its hash.

use fnv::FnvHasher;
use siphasher::sip::SipHasher24;
use std::hash::Hasher;
use vstd::prelude::*;

verus! {

/// The 64-bit FNV offset basis.
pub const FNV_OFFSET_BASIS: u64 = 0xcbf29ce484222325;

/// The 64-bit FNV prime.
pub const FNV_PRIME: u64 = 0x100000001b3;

/// One round of FNV-1a: the byte is xor-ed into the hash, and the hash is
/// multiplied by the FNV prime, modulo 2^64.
pub open spec fn fnv1a_round(hash: u64, byte: u8) -> u64 {
    (((hash ^ (byte as u64)) as int * (FNV_PRIME as int)) % 0x1_0000_0000_0000_0000) as u64
}

/// The rounds of FNV-1a over `bytes`, first byte first, starting from
/// `hash`.
pub open spec fn fnv1a_from(hash: u64, bytes: Seq<u8>) -> u64
    decreases bytes.len(),
{
    if bytes.len() == 0 {
        hash
    } else {
        fnv1a_round(fnv1a_from(hash, bytes.drop_last()), bytes.last())
    }
}

/// The 64-bit FNV-1a hash of `bytes`.
pub open spec fn fnv1a(bytes: Seq<u8>) -> u64 {
    fnv1a_from(FNV_OFFSET_BASIS, bytes)
}

/// The SipHash-2-4 hash of `bytes` under the all-zero key.
pub uninterp spec fn siphash24(bytes: Seq<u8>) -> u64;

/// Hashing in pieces is hashing the whole: the hash of `a` followed by `b`
/// is the rounds over `b` started from the hash of `a`.
pub proof fn lemma_fnv1a_streams(hash: u64, a: Seq<u8>, b: Seq<u8>)
    ensures
        fnv1a_from(hash, a + b) == fnv1a_from(fnv1a_from(hash, a), b),
    decreases b.len(),
{
    if b.len() == 0 {
        assert(a + b =~= a);
    } else {
        assert((a + b).drop_last() =~= a + b.drop_last());
        assert((a + b).last() == b.last());
        lemma_fnv1a_streams(hash, a, b.drop_last());
    }
}

/// Runs `fnv::FnvHasher` over `bytes`: `FnvHasher::default()`, one
/// `write`, then `finish`. The hasher starts from the offset basis, and
/// `write` does one FNV-1a round for each byte in order, so what `finish`
/// returns is the FNV-1a hash of the bytes.
#[verifier::external_body]
fn fnv_of(bytes: &[u8]) -> (hash: u64)
    ensures
        hash == fnv1a(bytes@),
{
    let mut hasher = FnvHasher::default();
    hasher.write(bytes);
    hasher.finish()
}

/// Runs `siphasher::sip::SipHasher24` over `bytes`: `SipHasher24::new()`,
/// which keys the hasher with zeros, one `write`, then `finish`. The
/// result depends on the bytes alone; it is not stated here, only named.
#[verifier::external_body]
fn siphash_of(bytes: &[u8]) -> (hash: u64)
    ensures
        hash == siphash24(bytes@),
{
    let mut hasher = SipHasher24::new();
    hasher.write(bytes);
    hasher.finish()
}

/// How a function's result may change between calls with the same
/// arguments.
#[derive(Clone, Copy, Debug, PartialEq, Eq, Structural)]
pub enum Volatility {
    Immutable,
    Stable,
    Volatile,
}

/// What kind of function a builtin is.
#[derive(Clone, Copy, Debug, PartialEq, Eq, Structural)]
pub enum FunctionType {
    Scalar,
    TableReturning,
}

/// The arguments a function takes: `arity` values of any type.
#[derive(Clone, Copy, Debug, PartialEq, Eq, Structural)]
pub struct Signature {
    pub arity: usize,
    pub volatility: Volatility,
}

/// Why `partition_results` cannot answer.
#[derive(Clone, Copy, Debug, PartialEq, Eq, Structural)]
pub enum PartitionError {
    /// The function takes exactly three arguments.
    WrongArgumentCount,
    /// The partition must be less than the number of partitions.
    IdOutOfRange { partition_id: u64, num_partitions: u64 },
}

/// Whether a value with hash `hash` falls into partition `partition_id` of
/// `num_partitions`.
pub open spec fn spec_in_partition(hash: u64, num_partitions: u64, partition_id: u64) -> bool {
    hash as int % num_partitions as int == partition_id as int
}

/// Whether a value with hash `hash` falls into partition `partition_id` of
/// `num_partitions`.
pub fn in_partition(hash: u64, num_partitions: u64, partition_id: u64) -> (r: bool)
    requires
        num_partitions > 0,
    ensures
        r == spec_in_partition(hash, num_partitions, partition_id),
{
    hash % num_partitions == partition_id
}

/// With at least one partition, every hash falls into exactly one
/// partition, and that one is less than the number of partitions.
pub proof fn lemma_partitions_cover(hash: u64, num_partitions: u64)
    requires
        num_partitions > 0,
    ensures
        exists|id: u64| id < num_partitions && spec_in_partition(hash, num_partitions, id),
        forall|a: u64, b: u64|
            spec_in_partition(hash, num_partitions, a) && spec_in_partition(
                hash,
                num_partitions,
                b,
            ) ==> a == b,
{
    let id = (hash % num_partitions) as u64;
    assert(id < num_partitions && spec_in_partition(hash, num_partitions, id));
}

/// `siphash(<value>)`: a 64-bit SipHash-2-4 of the value.
#[derive(Clone, Copy, Debug)]
pub struct SipHash;

impl SipHash {
    pub fn name(&self) -> (name: &'static str)
        ensures
            name@ == "siphash"@,
    {
        "siphash"
    }

    pub fn description(&self) -> (text: &'static str)
        ensures
            text@ == "Calculates a 64bit non-cryptographic hash (SipHash24) of the value."@,
    {
        "Calculates a 64bit non-cryptographic hash (SipHash24) of the value."
    }

    pub fn example(&self) -> (text: &'static str)
        ensures
            text@ == "siphash(<value>)"@,
    {
        "siphash(<value>)"
    }

    pub fn function_type(&self) -> (t: FunctionType)
        ensures
            t == FunctionType::Scalar,
    {
        FunctionType::Scalar
    }

    /// One argument of any type; the result depends on it alone.
    pub fn signature(&self) -> (s: Option<Signature>)
        ensures
            s == Some(Signature { arity: 1, volatility: Volatility::Immutable }),
    {
        Some(Signature { arity: 1, volatility: Volatility::Immutable })
    }

    /// The hash of a value, given as the bytes it feeds a hasher.
    pub fn eval(&self, value: &[u8]) -> (hash: u64)
        ensures
            hash == siphash24(value@),
    {
        siphash_of(value)
    }
}

/// `fnv(<value>)`: a 64-bit FNV-1a hash of the value.
#[derive(Clone, Copy, Debug)]
pub struct FnvHash;

impl FnvHash {
    pub fn name(&self) -> (name: &'static str)
        ensures
            name@ == "fnv"@,
    {
        "fnv"
    }

    pub fn description(&self) -> (text: &'static str)
        ensures
            text@ == "Calculates a 64bit non-cryptographic hash (fnv1a) of the value."@,
    {
        "Calculates a 64bit non-cryptographic hash (fnv1a) of the value."
    }

    pub fn example(&self) -> (text: &'static str)
        ensures
            text@ == "fnv(<value>)"@,
    {
        "fnv(<value>)"
    }

    pub fn function_type(&self) -> (t: FunctionType)
        ensures
            t == FunctionType::Scalar,
    {
        FunctionType::Scalar
    }

    /// One argument of any type; the result depends on it alone.
    pub fn signature(&self) -> (s: Option<Signature>)
        ensures
            s == Some(Signature { arity: 1, volatility: Volatility::Immutable }),
    {
        Some(Signature { arity: 1, volatility: Volatility::Immutable })
    }

    /// The hash of a value, given as the bytes it feeds a hasher.
    pub fn eval(&self, value: &[u8]) -> (hash: u64)
        ensures
            hash == fnv1a(value@),
    {
        fnv_of(value)
    }
}

/// `partition_results(<value>, <num_partitions>, <partition_id>)`: whether
/// the value falls into the partition, by its FNV-1a hash.
#[derive(Clone, Copy, Debug)]
pub struct PartitionResults;

impl PartitionResults {
    /// What `eval` answers.
    pub open spec fn spec_eval(
        arg_count: usize,
        value: Seq<u8>,
        num_partitions: u64,
        partition_id: u64,
    ) -> Result<bool, PartitionError> {
        if arg_count != 3 {
            Err(PartitionError::WrongArgumentCount)
        } else if partition_id >= num_partitions {
            Err(PartitionError::IdOutOfRange { partition_id, num_partitions })
        } else {
            Ok(spec_in_partition(fnv1a(value), num_partitions, partition_id))
        }
    }

    pub fn name(&self) -> (name: &'static str)
        ensures
            name@ == "partition_results"@,
    {
        "partition_results"
    }

    pub fn description(&self) -> (text: &'static str)
        ensures
            text@
                == "Returns true if the value is in the partition ID given the number of partitions."@,
    {
        "Returns true if the value is in the partition ID given the number of partitions."
    }

    pub fn example(&self) -> (text: &'static str)
        ensures
            text@ == "partition_results(<value>, <num_partitions>, <partition_id>)"@,
    {
        "partition_results(<value>, <num_partitions>, <partition_id>)"
    }

    pub fn function_type(&self) -> (t: FunctionType)
        ensures
            t == FunctionType::Scalar,
    {
        FunctionType::Scalar
    }

    /// Three arguments of any type; the result depends on them alone.
    pub fn signature(&self) -> (s: Option<Signature>)
        ensures
            s == Some(Signature { arity: 3, volatility: Volatility::Immutable }),
    {
        Some(Signature { arity: 3, volatility: Volatility::Immutable })
    }

    /// Whether `value` falls into partition `partition_id` of
    /// `num_partitions`, for a call with `arg_count` arguments.
    ///
    /// The count of arguments comes first, then the partition against the
    /// number of partitions; the value is hashed only after that.
    pub fn eval(&self, arg_count: usize, value: &[u8], num_partitions: u64, partition_id: u64) -> (r:
        Result<bool, PartitionError>)
        ensures
            r == PartitionResults::spec_eval(arg_count, value@, num_partitions, partition_id),
    {
        if arg_count != 3 {
            return Err(PartitionError::WrongArgumentCount);
        }
        if partition_id >= num_partitions {
            return Err(PartitionError::IdOutOfRange { partition_id, num_partitions });
        }
        let hash = fnv_of(value);
        Ok(in_partition(hash, num_partitions, partition_id))
    }
}

} // verus!
