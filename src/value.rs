//! Amounts of value, with checked arithmetic.
use vstd::prelude::*;

verus! {

/// A non-negative amount of value.
#[derive(Clone, Copy, Debug, PartialEq, Eq, Structural)]
pub struct Value(pub u64);

/// The only way value arithmetic can fail.
#[derive(Clone, Copy, Debug, PartialEq, Eq, Structural)]
pub enum ValueError {
    Overflow,
}

/// The mathematical sum of a sequence of amounts.
pub open spec fn sum_values(s: Seq<Value>) -> int
    decreases s.len(),
{
    if s.len() == 0 {
        0
    } else {
        sum_values(s.drop_last()) + s.last().0
    }
}

/// A sum only grows when amounts are appended.
pub proof fn lemma_sum_values_prefix(s: Seq<Value>, i: int)
    requires
        0 <= i <= s.len(),
    ensures
        0 <= sum_values(s.subrange(0, i)) <= sum_values(s),
    decreases s.len() - i,
{
    if i < s.len() {
        lemma_sum_values_prefix(s, i + 1);
        assert(s.subrange(0, i + 1).drop_last() == s.subrange(0, i));
    } else {
        assert(s.subrange(0, i) == s);
    }
    lemma_sum_values_nonneg(s.subrange(0, i));
}

/// A sum of amounts is never negative.
pub proof fn lemma_sum_values_nonneg(s: Seq<Value>)
    ensures
        sum_values(s) >= 0,
    decreases s.len(),
{
    if s.len() > 0 {
        lemma_sum_values_nonneg(s.drop_last());
    }
}

pub proof fn lemma_sum_values_push(s: Seq<Value>, v: Value)
    ensures
        sum_values(s.push(v)) == sum_values(s) + v.0,
{
    assert(s.push(v).drop_last() == s);
}

pub proof fn lemma_sum_values_update(s: Seq<Value>, i: int, v: Value)
    requires
        0 <= i < s.len(),
    ensures
        sum_values(s.update(i, v)) == sum_values(s) - s[i].0 + v.0,
    decreases s.len(),
{
    if i == s.len() - 1 {
        assert(s.update(i, v).drop_last() == s.drop_last());
    } else {
        lemma_sum_values_update(s.drop_last(), i, v);
        assert(s.update(i, v).drop_last() == s.drop_last().update(i, v));
    }
}

pub proof fn lemma_sum_values_remove(s: Seq<Value>, i: int)
    requires
        0 <= i < s.len(),
    ensures
        sum_values(s.remove(i)) == sum_values(s) - s[i].0,
    decreases s.len(),
{
    if i == s.len() - 1 {
        assert(s.remove(i) == s.drop_last());
    } else {
        lemma_sum_values_remove(s.drop_last(), i);
        assert(s.remove(i).drop_last() == s.drop_last().remove(i));
    }
}

impl Value {
    pub fn zero() -> (r: Value)
        ensures
            r.0 == 0,
    {
        Value(0)
    }

    /// Adds two amounts, failing on overflow.
    pub fn checked_add(self, other: Value) -> (r: Result<Value, ValueError>)
        ensures
            self.0 + other.0 <= u64::MAX ==> r == Ok::<Value, ValueError>(Value((self.0 + other.0) as u64)),
            self.0 + other.0 > u64::MAX ==> r == Err::<Value, ValueError>(ValueError::Overflow),
    {
        match self.0.checked_add(other.0) {
            Some(v) => Ok(Value(v)),
            None => Err(ValueError::Overflow),
        }
    }

    /// Sums a list of amounts, failing when the total does not fit.
    pub fn sum(values: &Vec<Value>) -> (r: Result<Value, ValueError>)
        ensures
            sum_values(values@) <= u64::MAX ==> r == Ok::<Value, ValueError>(Value(sum_values(values@) as u64)),
            sum_values(values@) > u64::MAX ==> r == Err::<Value, ValueError>(ValueError::Overflow),
            r matches Ok(v) ==> v.0 == sum_values(values@),
    {
        proof {
            lemma_sum_values_nonneg(values@);
        }
        let mut total: u64 = 0;
        let mut i: usize = 0;
        while i < values.len()
            invariant
                0 <= i <= values@.len(),
                total == sum_values(values@.subrange(0, i as int)),
            decreases values@.len() - i,
        {
            proof {
                assert(values@.subrange(0, i + 1).drop_last() == values@.subrange(0, i as int));
            }
            match total.checked_add(values[i].0) {
                Some(t) => {
                    total = t;
                },
                None => {
                    proof {
                        lemma_sum_values_prefix(values@, i + 1);
                    }
                    return Err(ValueError::Overflow);
                },
            }
            i += 1;
        }
        proof {
            assert(values@.subrange(0, values@.len() as int) == values@);
        }
        Ok(Value(total))
    }
}

} // verus!
