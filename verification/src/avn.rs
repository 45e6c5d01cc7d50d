//! The validator set and its rotating primary validator: who sends to
//! Ethereum next, who is primary for a block, and which validator the local
//! node runs as.

use vstd::prelude::*;

verus! {

/// A validator: its account id and its signing key, both as encoded bytes.
#[derive(Debug, PartialEq, Eq)]
pub struct Validator {
    pub account_id: Vec<u8>,
    pub key: Vec<u8>,
}

impl Validator {
    /// A copy of this validator.
    pub fn duplicate(&self) -> (r: Validator)
        ensures
            r.account_id@ == self.account_id@,
            r.key@ == self.key@,
    {
        Validator { account_id: self.account_id.clone(), key: self.key.clone() }
    }
}

/// Why a primary validator could not be chosen.
#[derive(Clone, Copy, Debug, PartialEq, Eq)]
pub enum AvnError {
    NoValidatorsFound,
}

/// The validator set, in order, and the index of the validator whose turn it
/// is to send to Ethereum.
#[derive(Debug)]
pub struct Avn {
    pub validators: Vec<Validator>,
    pub primary_index: u8,
}

/// The index that follows `i` among `n` validators: the next one, and the
/// first after the last (or after the largest index a `u8` holds).
pub open spec fn next_primary_index(i: u8, n: nat) -> u8 {
    if i + 1 < n && i < u8::MAX {
        (i + 1) as u8
    } else {
        0
    }
}

/// The index reached from `i` after `k` moves among `n` validators.
pub open spec fn advanced(i: u8, n: nat, k: nat) -> u8
    decreases k,
{
    if k == 0 {
        i
    } else {
        next_primary_index(advanced(i, n, (k - 1) as nat), n)
    }
}

/// The validator at index `i % n`, where `n` is the number of validators.
pub open spec fn validator_at(vs: Seq<Validator>, i: int) -> Validator {
    vs[i % (vs.len() as int)]
}

/// Index of the first validator whose key is one of `keys`.
pub open spec fn is_first_with_local_key(vs: Seq<Validator>, keys: Seq<Vec<u8>>, i: int) -> bool {
    &&& 0 <= i < vs.len()
    &&& holds_key(keys, vs[i].key@)
    &&& forall|j: int| 0 <= j < i ==> !holds_key(keys, #[trigger] vs[j].key@)
}

/// `key` is one of `keys`.
pub open spec fn holds_key(keys: Seq<Vec<u8>>, key: Seq<u8>) -> bool {
    exists|j: int| 0 <= j < keys.len() && #[trigger] keys[j]@ == key
}

/// Whether two byte strings are equal.
pub fn bytes_eq(a: &[u8], b: &[u8]) -> (r: bool)
    ensures
        r == (a@ == b@),
{
    if a.len() != b.len() {
        return false;
    }
    let n = a.len();
    let mut i: usize = 0;
    while i < n
        invariant
            n == a@.len(),
            n == b@.len(),
            i <= n,
            forall|j: int| 0 <= j < i ==> a@[j] == b@[j],
        decreases n - i,
    {
        if a[i] != b[i] {
            return false;
        }
        i = i + 1;
    }
    assert(a@ =~= b@);
    true
}

impl Avn {
    /// The validator set `validators`, with the first one primary.
    pub fn new(validators: Vec<Validator>) -> (r: Avn)
        ensures
            r.validators == validators,
            r.primary_index == 0,
    {
        Avn { validators, primary_index: 0 }
    }

    /// Index of the validator whose turn it is to send.
    pub fn get_primary_collator(&self) -> (r: u8)
        ensures
            r == self.primary_index,
    {
        self.primary_index
    }

    /// Moves the turn to send to the next validator, back to the first after
    /// the last, and returns the new index; fails, changing nothing, where
    /// there are no validators.
    pub fn advance_primary_validator_for_sending(&mut self) -> (r: Result<u8, AvnError>)
        ensures
            final(self).validators == old(self).validators,
            old(self).validators@.len() == 0 ==> r == Err::<u8, AvnError>(
                AvnError::NoValidatorsFound,
            ) && final(self).primary_index == old(self).primary_index,
            old(self).validators@.len() > 0 ==> {
                let next = next_primary_index(
                    old(self).primary_index,
                    old(self).validators@.len(),
                );
                r == Ok::<u8, AvnError>(next) && final(self).primary_index == next
            },
    {
        let n = self.validators.len();
        if n == 0 {
            return Err(AvnError::NoValidatorsFound);
        }
        let i = self.primary_index;
        let next: u8 = if (i as usize) + 1 < n && i < u8::MAX {
            i + 1
        } else {
            0
        };
        self.primary_index = next;
        Ok(next)
    }

    /// Whether `account` is the validator whose turn it is to send (the one at
    /// the primary index, counted round the set); fails where there are no
    /// validators.
    pub fn is_primary_validator_for_sending(&self, account: &[u8]) -> (r: Result<bool, AvnError>)
        ensures
            r is Err <==> self.validators@.len() == 0,
            r matches Ok(b) ==> b == (self.validators@[(self.primary_index as int)
                % (self.validators@.len() as int)].account_id@ == account@),
    {
        let n = self.validators.len();
        if n == 0 {
            return Err(AvnError::NoValidatorsFound);
        }
        let i = (self.primary_index as usize) % n;
        Ok(bytes_eq(self.validators[i].account_id.as_slice(), account))
    }

    /// Whether `account` is the primary validator for block `block_number`:
    /// the validator at the block number counted round the set; fails where
    /// there are no validators.
    pub fn is_primary_for_block(&self, block_number: u64, account: &[u8]) -> (r: Result<
        bool,
        AvnError,
    >)
        ensures
            r is Err <==> self.validators@.len() == 0,
            r matches Ok(b) ==> b == (self.validators@[(block_number as int)
                % (self.validators@.len() as int)].account_id@ == account@),
    {
        let n = self.validators.len();
        if n == 0 {
            return Err(AvnError::NoValidatorsFound);
        }
        let i = (block_number % (n as u64)) as usize;
        Ok(bytes_eq(self.validators[i].account_id.as_slice(), account))
    }

    /// The first validator, in set order, whose key is one of the local node's
    /// `local_keys`; none where no validator's key is local.
    pub fn get_validator_for_current_node(&self, local_keys: &Vec<Vec<u8>>) -> (r: Option<
        Validator,
    >)
        ensures
            r is None <==> forall|i: int|
                0 <= i < self.validators@.len() ==> !holds_key(
                    local_keys@,
                    #[trigger] self.validators@[i].key@,
                ),
            r matches Some(v) ==> exists|i: int|
                is_first_with_local_key(self.validators@, local_keys@, i) && v.account_id@
                    == self.validators@[i].account_id@ && v.key@ == self.validators@[i].key@,
    {
        let n = self.validators.len();
        let mut i: usize = 0;
        while i < n
            invariant
                n == self.validators@.len(),
                i <= n,
                forall|j: int| 0 <= j < i ==> !holds_key(local_keys@, #[trigger] self.validators@[j].key@),
            decreases n - i,
        {
            let key = self.validators[i].key.as_slice();
            let m = local_keys.len();
            let mut k: usize = 0;
            while k < m
                invariant
                    n == self.validators@.len(),
                    i < n,
                    m == local_keys@.len(),
                    k <= m,
                    key@ == self.validators@[i as int].key@,
                    forall|j: int| 0 <= j < i ==> !holds_key(local_keys@, #[trigger] self.validators@[j].key@),
                    forall|j: int| 0 <= j < k ==> local_keys@[j]@ != key@,
                decreases m - k,
            {
                if bytes_eq(local_keys[k].as_slice(), key) {
                    let v = self.validators[i].duplicate();
                    assert(local_keys@[k as int]@ == self.validators@[i as int].key@);
                    assert(is_first_with_local_key(self.validators@, local_keys@, i as int));
                    return Some(v);
                }
                k = k + 1;
            }
            assert(!holds_key(local_keys@, key@));
            i = i + 1;
        }
        None
    }
}

/// The validator at a position counted round the set is the one at the
/// position's remainder by the set's size, so positions one whole round
/// apart name the same validator.
pub proof fn lemma_validator_at_wraps(vs: Seq<Validator>, i: int)
    requires
        vs.len() > 0,
        i >= 0,
    ensures
        0 <= i % (vs.len() as int) < vs.len(),
        validator_at(vs, i) == vs[i % (vs.len() as int)],
        validator_at(vs, i + vs.len()) == validator_at(vs, i),
{
    let n = vs.len() as int;
    assert((i + n) % n == i % n) by (nonlinear_arith)
        requires
            n > 0,
            i >= 0,
    ;
    assert(0 <= i % n < n) by (nonlinear_arith)
        requires
            n > 0,
    ;
}

/// Moving the turn `k` times among `n` validators, from an index within the
/// set, lands on the index `k` places on, counted round the set.
pub proof fn lemma_advanced_is_rotation(i: u8, n: nat, k: nat)
    requires
        i < n <= 256,
    ensures
        advanced(i, n, k) == (i + k) % (n as int),
    decreases k,
{
    if k == 0 {
        let ii = i as int;
        assert(ii % (n as int) == ii) by (nonlinear_arith)
            requires
                0 <= ii < n,
        ;
    } else {
        lemma_advanced_is_rotation(i, n, (k - 1) as nat);
        let prev = advanced(i, n, (k - 1) as nat);
        let x = i + k - 1;
        assert(0 <= prev < n) by (nonlinear_arith)
            requires
                prev == x % (n as int),
                n > 0,
                x >= 0,
        ;
        if prev + 1 < n {
            assert((x + 1) % (n as int) == prev + 1) by (nonlinear_arith)
                requires
                    prev == x % (n as int),
                    prev + 1 < n,
                    n > 0,
                    x >= 0,
            ;
        } else {
            assert((x + 1) % (n as int) == 0) by (nonlinear_arith)
                requires
                    prev == x % (n as int),
                    prev + 1 == n,
                    n > 0,
                    x >= 0,
            ;
        }
    }
}

/// Moving the turn once per validator brings it back to where it started.
pub proof fn lemma_full_rotation_returns(i: u8, n: nat)
    requires
        i < n <= 256,
    ensures
        advanced(i, n, n) == i,
{
    lemma_advanced_is_rotation(i, n, n);
    let ii = i as int;
    assert((ii + n) % (n as int) == ii) by (nonlinear_arith)
        requires
            0 <= ii < n,
    ;
}

} // verus!
