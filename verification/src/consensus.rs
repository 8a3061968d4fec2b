//! The validator registry: who stakes how much, which epoch it is, and who
//! is the stake-weighted producer of a slot.
//!
//! Validators are kept in the byte order of their addresses, so that every
//! node walks them in the same order whatever the order of registration.

use crate::clock::current_timestamp;
use crate::encoding::{
    bytes_lt, lemma_bytes_lt_irreflexive, lemma_bytes_lt_total, lemma_bytes_lt_transitive,
    lemma_utf8_injective, text_equal, text_less, utf8,
};
use vstd::prelude::*;

verus! {

/// Seconds from one epoch to the next.
pub const EPOCH_DURATION_SECS: u64 = 21_600;

/// A registered validator.
#[derive(Debug)]
pub struct Validator {
    /// The validator's address, which is also its id.
    pub address: String,
    /// Its stake, which is also its merit in the choice of a broadcaster.
    pub stake: u64,
    pub active: bool,
}

pub struct ValidatorView {
    pub address: Seq<char>,
    pub stake: u64,
    pub active: bool,
}

impl View for Validator {
    type V = ValidatorView;

    open spec fn view(&self) -> ValidatorView {
        ValidatorView { address: self.address@, stake: self.stake, active: self.active }
    }
}

impl Clone for Validator {
    fn clone(&self) -> (r: Self)
        ensures
            r@ == self@,
    {
        Validator { address: self.address.clone(), stake: self.stake, active: self.active }
    }
}

pub open spec fn validator_views(validators: Seq<Validator>) -> Seq<ValidatorView> {
    Seq::new(validators.len(), |i: int| validators[i]@)
}

/// Whether address `a` comes before address `b`.
pub open spec fn address_lt(a: Seq<char>, b: Seq<char>) -> bool {
    bytes_lt(utf8(a), utf8(b))
}

/// Whether the validators stand in strictly ascending order of address.
pub open spec fn sorted_by_address(validators: Seq<ValidatorView>) -> bool {
    forall|i: int, j: int|
        #![trigger validators[i], validators[j]]
        0 <= i < j < validators.len() ==> address_lt(validators[i].address, validators[j].address)
}

/// The sum of all stakes.
pub open spec fn stake_sum(validators: Seq<ValidatorView>) -> int
    decreases validators.len(),
{
    if validators.len() == 0 {
        0
    } else {
        stake_sum(validators.drop_last()) + validators.last().stake
    }
}

/// The registry with `validator` registered: in place of the one of the
/// same address if there is one, else at its place in the order.
pub open spec fn registered(validators: Seq<ValidatorView>, validator: ValidatorView) -> Seq<ValidatorView>
    decreases validators.len(),
{
    if validators.len() == 0 {
        seq![validator]
    } else if validators.last().address == validator.address {
        validators.drop_last().push(validator)
    } else if address_lt(validators.last().address, validator.address) {
        validators.push(validator)
    } else {
        registered(validators.drop_last(), validator).push(validators.last())
    }
}

/// The stake already registered for an address, or 0.
pub open spec fn stake_of(validators: Seq<ValidatorView>, address: Seq<char>) -> u64
    decreases validators.len(),
{
    if validators.len() == 0 {
        0
    } else if validators.last().address == address {
        validators.last().stake
    } else {
        stake_of(validators.drop_last(), address)
    }
}

/// The first active validator, in order, at which the running sum of
/// active stakes exceeds `target`; `None` if the sum never does.
pub open spec fn producer_at(validators: Seq<ValidatorView>, target: int) -> Option<Seq<char>>
    decreases validators.len(),
{
    if validators.len() == 0 {
        None
    } else if !validators[0].active {
        producer_at(validators.drop_first(), target)
    } else if validators[0].stake > target {
        Some(validators[0].address)
    } else {
        producer_at(validators.drop_first(), target - validators[0].stake)
    }
}

/// Whether any validator is active.
pub open spec fn any_active(validators: Seq<ValidatorView>) -> bool {
    exists|i: int| 0 <= i < validators.len() && (#[trigger] validators[i]).active
}

/// The producer of a slot: the slot number XOR the epoch, reduced modulo the
/// total stake, picks a point that the validators' stakes are walked up to.
/// There is none without an active validator or without any stake.
pub open spec fn producer_of(validators: Seq<ValidatorView>, epoch: u64, slot: u64) -> Option<Seq<char>> {
    if !any_active(validators) || stake_sum(validators) == 0 {
        None
    } else {
        producer_at(validators, (slot ^ epoch) as int % stake_sum(validators))
    }
}

/// Whether an epoch that began at `epoch_start` is over at `now`.
pub open spec fn epoch_is_over(epoch_start: u64, now: u64) -> bool {
    now >= epoch_start + 21_600
}

/// Writing a validator over one of the same address changes the sum by the
/// difference of the stakes; a new one adds its stake.
pub proof fn lemma_registered(validators: Seq<ValidatorView>, validator: ValidatorView)
    requires
        sorted_by_address(validators),
    ensures
        sorted_by_address(registered(validators, validator)),
        stake_sum(registered(validators, validator)) == stake_sum(validators) - stake_of(
            validators,
            validator.address,
        ) + validator.stake,
        registered(validators, validator).len() <= validators.len() + 1,
        forall|k: int|
            0 <= k < registered(validators, validator).len() ==> {
                ||| (#[trigger] registered(validators, validator)[k]) == validator
                ||| exists|j: int|
                    0 <= j < validators.len() && validators[j] == registered(validators, validator)[k]
                        && validators[j].address != validator.address
            },
    decreases validators.len(),
{
    let after = registered(validators, validator);
    if validators.len() == 0 {
        assert(after.drop_last() =~= validators);
    } else {
        let init = validators.drop_last();
        let last = validators.last();
        assert(sorted_by_address(init)) by {
            assert forall|i: int, j: int|
                #![trigger init[i], init[j]]
                0 <= i < j < init.len() implies address_lt(init[i].address, init[j].address) by {
                assert(init[i] == validators[i] && init[j] == validators[j]);
            }
        }
        assert forall|i: int| 0 <= i < init.len() implies address_lt(
            (#[trigger] init[i]).address,
            last.address,
        ) by {
            assert(init[i] == validators[i]);
            assert(last == validators[validators.len() - 1]);
        }
        if last.address == validator.address {
            assert(after.drop_last() =~= init);
            assert forall|i: int, j: int|
                #![trigger after[i], after[j]]
                0 <= i < j < after.len() implies address_lt(after[i].address, after[j].address) by {
                assert(after[i] == init[i]);
                if j < init.len() {
                    assert(after[j] == init[j]);
                }
            }
            assert forall|k: int| 0 <= k < after.len() implies {
                ||| (#[trigger] after[k]) == validator
                ||| exists|j: int|
                    0 <= j < validators.len() && validators[j] == after[k] && validators[j].address
                        != validator.address
            } by {
                if k < init.len() {
                    assert(after[k] == init[k]);
                    assert(address_lt(init[k].address, last.address));
                    lemma_bytes_lt_irreflexive(utf8(last.address));
                    assert(validators[k] == after[k]);
                }
            }
        } else if address_lt(last.address, validator.address) {
            assert(after.drop_last() =~= validators);
            lemma_stake_of_absent(validators, validator.address);
            assert forall|i: int, j: int|
                #![trigger after[i], after[j]]
                0 <= i < j < after.len() implies address_lt(after[i].address, after[j].address) by {
                assert(after[i] == validators[i]);
                if j < validators.len() {
                    assert(after[j] == validators[j]);
                } else if i < init.len() {
                    assert(init[i] == validators[i]);
                    lemma_bytes_lt_transitive(
                        utf8(validators[i].address),
                        utf8(last.address),
                        utf8(validator.address),
                    );
                }
            }
            assert forall|k: int| 0 <= k < after.len() implies {
                ||| (#[trigger] after[k]) == validator
                ||| exists|j: int|
                    0 <= j < validators.len() && validators[j] == after[k] && validators[j].address
                        != validator.address
            } by {
                if k < validators.len() {
                    assert(after[k] == validators[k]);
                    lemma_stake_of_absent(validators, validator.address);
                }
            }
        } else {
            lemma_registered(init, validator);
            let inner = registered(init, validator);
            assert(after.drop_last() =~= inner);
            lemma_bytes_lt_total(utf8(last.address), utf8(validator.address));
            if utf8(last.address) == utf8(validator.address) {
                lemma_utf8_injective(last.address, validator.address);
            }
            assert(address_lt(validator.address, last.address));
            assert forall|i: int, j: int|
                #![trigger after[i], after[j]]
                0 <= i < j < after.len() implies address_lt(after[i].address, after[j].address) by {
                assert(after[i] == inner[i]);
                if j < inner.len() {
                    assert(after[j] == inner[j]);
                } else {
                    if inner[i] == validator {
                    } else {
                        let w = choose|w: int|
                            0 <= w < init.len() && init[w] == inner[i] && init[w].address
                                != validator.address;
                        assert(address_lt(init[w].address, last.address));
                    }
                }
            }
            assert forall|k: int| 0 <= k < after.len() implies {
                ||| (#[trigger] after[k]) == validator
                ||| exists|j: int|
                    0 <= j < validators.len() && validators[j] == after[k] && validators[j].address
                        != validator.address
            } by {
                if k < inner.len() {
                    assert(after[k] == inner[k]);
                    if inner[k] != validator {
                        let w = choose|w: int|
                            0 <= w < init.len() && init[w] == inner[k] && init[w].address
                                != validator.address;
                        assert(validators[w] == init[w]);
                    }
                } else {
                    assert(after[k] == validators[validators.len() - 1]);
                }
            }
        }
    }
}

/// An address below which every registered one stands is not registered.
pub proof fn lemma_stake_of_absent(validators: Seq<ValidatorView>, address: Seq<char>)
    requires
        sorted_by_address(validators),
        validators.len() > 0 ==> address_lt(validators.last().address, address),
    ensures
        stake_of(validators, address) == 0,
        forall|j: int| 0 <= j < validators.len() ==> (#[trigger] validators[j]).address != address,
    decreases validators.len(),
{
    if validators.len() > 0 {
        let init = validators.drop_last();
        let last = validators.last();
        lemma_bytes_lt_irreflexive(utf8(address));
        assert forall|j: int| 0 <= j < validators.len() implies address_lt(
            (#[trigger] validators[j]).address,
            address,
        ) by {
            if j < validators.len() - 1 {
                assert(last == validators[validators.len() - 1]);
                lemma_bytes_lt_transitive(utf8(validators[j].address), utf8(last.address), utf8(address));
            }
        }
        assert(sorted_by_address(init)) by {
            assert forall|i: int, j: int|
                #![trigger init[i], init[j]]
                0 <= i < j < init.len() implies address_lt(init[i].address, init[j].address) by {
                assert(init[i] == validators[i] && init[j] == validators[j]);
            }
        }
        if init.len() > 0 {
            assert(init.last() == validators[init.len() - 1]);
        }
        lemma_stake_of_absent(init, address);
        assert forall|j: int| 0 <= j < validators.len() implies (#[trigger] validators[j]).address
            != address by {
            assert(address_lt(validators[j].address, address));
        }
    }
}

/// The validator registry.
pub struct Consensus {
    validators: Vec<Validator>,
    current_epoch: u64,
    epoch_start: u64,
}

impl Consensus {
    #[verifier::type_invariant]
    spec fn well_formed(self) -> bool {
        sorted_by_address(validator_views(self.validators@))
    }

    /// The registered validators, in ascending order of address.
    pub closed spec fn validators(&self) -> Seq<ValidatorView> {
        validator_views(self.validators@)
    }

    pub closed spec fn epoch(&self) -> u64 {
        self.current_epoch
    }

    /// When the current epoch began, in seconds since the Unix epoch.
    pub closed spec fn epoch_began(&self) -> u64 {
        self.epoch_start
    }

    /// An empty registry in epoch 0, which begins at `now`.
    pub fn new_at(now: u64) -> (r: Consensus)
        ensures
            r.validators() == Seq::<ValidatorView>::empty(),
            r.epoch() == 0,
            r.epoch_began() == now,
    {
        let validators: Vec<Validator> = Vec::new();
        assert(validator_views(validators@) =~= Seq::<ValidatorView>::empty());
        Consensus { validators, current_epoch: 0, epoch_start: now }
    }

    /// An empty registry in epoch 0, which begins now.
    pub fn new() -> (r: Consensus)
        ensures
            r.validators() == Seq::<ValidatorView>::empty(),
            r.epoch() == 0,
    {
        Self::new_at(current_timestamp())
    }

    /// Number of validators, which stand in strictly ascending order of
    /// address: none is registered twice.
    pub fn len(&self) -> (r: usize)
        ensures
            r == self.validators().len(),
            sorted_by_address(self.validators()),
    {
        proof {
            use_type_invariant(self);
        }
        self.validators.len()
    }

    pub fn current_epoch(&self) -> (r: u64)
        ensures
            r == self.epoch(),
    {
        self.current_epoch
    }

    pub fn epoch_start(&self) -> (r: u64)
        ensures
            r == self.epoch_began(),
    {
        self.epoch_start
    }

    /// The sum of all stakes.
    pub fn total_stake(&self) -> (r: u128)
        ensures
            r == stake_sum(self.validators()),
    {
        let ghost views = self.validators();
        let mut total: u128 = 0;
        let mut i: usize = 0;
        assert(views.take(0) =~= Seq::<ValidatorView>::empty());
        while i < self.validators.len()
            invariant
                i <= self.validators.len(),
                views == self.validators(),
                total == stake_sum(views.take(i as int)),
                total <= i * u64::MAX,
            decreases self.validators.len() - i,
        {
            proof {
                assert(views.take(i + 1).drop_last() =~= views.take(i as int));
                assert(views.take(i + 1).last() == self.validators[i as int]@);
                assert((i + 1) * u64::MAX == i * u64::MAX + u64::MAX) by (nonlinear_arith);
                assert(i * u64::MAX <= usize::MAX * u64::MAX) by (nonlinear_arith)
                    requires
                        i <= usize::MAX,
                ;
            }
            total = total + self.validators[i].stake as u128;
            i = i + 1;
        }
        assert(views.take(i as int) =~= views);
        total
    }

    /// A copy of the validators, in ascending order of address.
    pub fn get_validators(&self) -> (r: Vec<Validator>)
        ensures
            validator_views(r@) == self.validators(),
    {
        let mut out: Vec<Validator> = Vec::new();
        let mut i: usize = 0;
        while i < self.validators.len()
            invariant
                i <= self.validators.len(),
                out.len() == i,
                forall|j: int| 0 <= j < i ==> (#[trigger] out[j])@ == self.validators[j]@,
            decreases self.validators.len() - i,
        {
            out.push(self.validators[i].clone());
            i = i + 1;
        }
        assert(validator_views(out@) =~= self.validators());
        out
    }

    /// Registers a validator as active with the given stake, in place of
    /// any earlier registration of the same address.
    pub fn register_validator(&mut self, address: String, stake: u64)
        ensures
            final(self).validators() == registered(
                old(self).validators(),
                ValidatorView { address: address@, stake, active: true },
            ),
            final(self).epoch() == old(self).epoch(),
            final(self).epoch_began() == old(self).epoch_began(),
    {
        proof {
            use_type_invariant(&*self);
        }
        let ghost added = ValidatorView { address: address@, stake, active: true };
        let ghost before = self.validators();
        let mut validators: Vec<Validator> = Vec::new();
        assert(validator_views(validators@) =~= Seq::<ValidatorView>::empty());
        core::mem::swap(&mut self.validators, &mut validators);
        proof {
            lemma_registered(before, added);
        }
        let mut i: usize = validators.len();
        assert(before.take(i as int) =~= before);
        assert(before.skip(i as int) =~= Seq::<ValidatorView>::empty());
        assert(registered(before, added) =~= registered(before.take(i as int), added) + before.skip(
            i as int,
        ));
        loop
            invariant_except_break
                i <= validators.len(),
                before == validator_views(validators@),
                added == (ValidatorView { address: address@, stake, active: true }),
                registered(before, added) == registered(before.take(i as int), added) + before.skip(
                    i as int,
                ),
            ensures
                validator_views(validators@) == registered(before, added),
            decreases i,
        {
            let ghost head = before.take(i as int);
            if i == 0 {
                validators.insert(0, Validator { address, stake, active: true });
                assert(head =~= Seq::<ValidatorView>::empty());
                assert(validator_views(validators@) =~= seq![added] + before.skip(0));
                break ;
            }
            proof {
                assert(head.last() == before[i - 1]);
                assert(head.drop_last() =~= before.take(i - 1));
            }
            if text_equal(validators[i - 1].address.as_str(), address.as_str()) {
                validators[i - 1] = Validator { address, stake, active: true };
                assert(validator_views(validators@) =~= before.take(i - 1).push(added) + before.skip(
                    i as int,
                ));
                break ;
            }
            if text_less(validators[i - 1].address.as_str(), address.as_str()) {
                validators.insert(i, Validator { address, stake, active: true });
                assert(validator_views(validators@) =~= head.push(added) + before.skip(i as int));
                break ;
            }
            proof {
                assert(registered(before.take(i - 1), added).push(before[i - 1]) + before.skip(i as int)
                    =~= registered(before.take(i - 1), added) + before.skip(i - 1));
            }
            i = i - 1;
        }
        core::mem::swap(&mut self.validators, &mut validators);
    }

    /// The stake-weighted producer of a slot in the current epoch.
    pub fn select_producer(&self, slot: u64) -> (r: Option<String>)
        ensures
            match r {
                Some(address) => producer_of(self.validators(), self.epoch(), slot) == Some(address@),
                None => producer_of(self.validators(), self.epoch(), slot) is None,
            },
    {
        let ghost views = self.validators();
        let mut active: bool = false;
        let mut k: usize = 0;
        while k < self.validators.len()
            invariant
                k <= self.validators.len(),
                views == self.validators(),
                active == exists|j: int| 0 <= j < k && (#[trigger] views[j]).active,
            decreases self.validators.len() - k,
        {
            if self.validators[k].active {
                active = true;
                assert(views[k as int].active);
            }
            k = k + 1;
        }
        let total: u128 = self.total_stake();
        if !active || total == 0 {
            return None;
        }
        let mut remaining: u128 = ((slot ^ self.current_epoch) as u128) % total;
        let ghost target = remaining as int;
        let mut i: usize = 0;
        assert(views.skip(0) =~= views);
        while i < self.validators.len()
            invariant
                i <= self.validators.len(),
                views == self.validators(),
                any_active(views),
                stake_sum(views) != 0,
                target == (slot ^ self.epoch()) as int % stake_sum(views),
                producer_at(views, target) == producer_at(views.skip(i as int), remaining as int),
            decreases self.validators.len() - i,
        {
            proof {
                assert(views.skip(i as int)[0] == views[i as int]);
                assert(views.skip(i as int).drop_first() =~= views.skip(i + 1));
            }
            let validator = &self.validators[i];
            if validator.active {
                if validator.stake as u128 > remaining {
                    return Some(validator.address.clone());
                }
                remaining = remaining - validator.stake as u128;
            }
            i = i + 1;
        }
        None
    }

    /// Whether the current epoch is over at `now`: it lasts 21,600 seconds.
    pub fn rotation_due(&self, now: u64) -> (r: bool)
        ensures
            r == epoch_is_over(self.epoch_began(), now),
    {
        now >= self.epoch_start && now - self.epoch_start >= EPOCH_DURATION_SECS
    }

    /// Whether the current epoch is over by the wall clock.
    pub fn should_rotate_epoch(&self) -> (r: bool)
        ensures
            exists|now: u64| r == epoch_is_over(self.epoch_began(), now),
    {
        let now = current_timestamp();
        let due = self.rotation_due(now);
        assert(due == epoch_is_over(self.epoch_began(), now));
        due
    }

    /// Begins the next epoch at `now`. The counter stops at the largest
    /// 64-bit number.
    pub fn rotate_epoch_at(&mut self, now: u64)
        ensures
            final(self).validators() == old(self).validators(),
            final(self).epoch() == if old(self).epoch() < u64::MAX {
                (old(self).epoch() + 1) as u64
            } else {
                old(self).epoch()
            },
            final(self).epoch_began() == now,
    {
        proof {
            use_type_invariant(&*self);
        }
        if self.current_epoch < u64::MAX {
            self.current_epoch = self.current_epoch + 1;
        }
        self.epoch_start = now;
    }

    /// Begins the next epoch now.
    pub fn rotate_epoch(&mut self)
        ensures
            final(self).validators() == old(self).validators(),
            final(self).epoch() == if old(self).epoch() < u64::MAX {
                (old(self).epoch() + 1) as u64
            } else {
                old(self).epoch()
            },
    {
        self.rotate_epoch_at(current_timestamp());
    }
}

} // verus!
