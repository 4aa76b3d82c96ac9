//! Schedules of learning rates, as decisions on epochs and metrics. The arithmetic on rates is
//! left to the caller, who hands the products in.
use super::state::{invalid, rates_refusal, state_text, with_rates, Group, Optimizer, OptimizerView};
use super::{is_decay, non_negative_refusal, validate_non_negative};
use crate::error::{either, first_at, refusal, setting_error, setting_text, ErrorView, Result};
use crate::float::Binary64;
use vstd::prelude::*;

verus! {

/// What every schedule keeps.
#[derive(Debug, Clone, PartialEq, Eq)]
pub struct ScheduleState {
    /// The version of the format.
    pub schema_version: u32,
    /// How many epochs have been completed.
    pub epoch: u64,
    /// The identifiers of the groups.
    pub group_ids: Vec<usize>,
    /// The rates at the start.
    pub base_rates: Vec<Binary64>,
    /// The rates that were applied last.
    pub last_rates: Vec<Binary64>,
}

/// The content of a [`ScheduleState`].
pub struct ScheduleView {
    pub schema_version: u32,
    pub epoch: u64,
    pub group_ids: Seq<usize>,
    pub base_rates: Seq<Binary64>,
    pub last_rates: Seq<Binary64>,
}

impl View for ScheduleState {
    type V = ScheduleView;

    open spec fn view(&self) -> ScheduleView {
        ScheduleView {
            schema_version: self.schema_version,
            epoch: self.epoch,
            group_ids: self.group_ids@,
            base_rates: self.base_rates@,
            last_rates: self.last_rates@,
        }
    }
}

/// The identifiers of groups.
pub open spec fn ids_of(groups: Seq<Group>) -> Seq<usize> {
    groups.map_values(|g: Group| g.id)
}

/// The rates of groups.
pub open spec fn rates_of(groups: Seq<Group>) -> Seq<Binary64> {
    groups.map_values(|g: Group| g.learning_rate)
}

/// A schedule at its start, or why there is none.
pub open spec fn started(groups: Seq<Group>) -> core::result::Result<ScheduleView, ErrorView> {
    if groups.len() == 0 {
        Err(state_text("a scheduler needs at least one parameter group"@))
    } else {
        Ok(
            ScheduleView {
                schema_version: 1,
                epoch: 0,
                group_ids: ids_of(groups),
                base_rates: rates_of(groups),
                last_rates: rates_of(groups),
            },
        )
    }
}

/// The checks of saved rates.
pub open spec fn rate_list_checks(rates: Seq<Binary64>) -> spec_fn(int) -> Option<ErrorView> {
    |i: int| non_negative_refusal("learning_rate"@, rates[i])
}

/// Some identifier is not smaller than the next.
pub open spec fn out_of_order(ids: Seq<usize>) -> bool {
    exists|i: int| 0 <= i < ids.len() - 1 && #[trigger] ids[i] >= ids[i + 1]
}

impl ScheduleView {
    /// Why the next epoch is refused, if it is.
    pub open spec fn refusal(self, groups: Seq<Group>) -> Option<ErrorView> {
        if self.schema_version != 1 || self.epoch == u64::MAX || self.group_ids.len() == 0 || self.group_ids.len()
            != self.base_rates.len() || self.group_ids.len() != self.last_rates.len() || out_of_order(self.group_ids) {
            Some(state_text("invalid scheduler state or epoch counter"@))
        } else if first_at(0, self.base_rates.len() as int, rate_list_checks(self.base_rates)) is Some {
            first_at(0, self.base_rates.len() as int, rate_list_checks(self.base_rates))
        } else if first_at(0, self.last_rates.len() as int, rate_list_checks(self.last_rates)) is Some {
            first_at(0, self.last_rates.len() as int, rate_list_checks(self.last_rates))
        } else if ids_of(groups) != self.group_ids {
            Some(state_text("scheduler parameter group identities changed"@))
        } else {
            None
        }
    }

    /// The schedule after rates have been applied.
    pub open spec fn applied(self, rates: Seq<Binary64>, epoch: u64) -> ScheduleView {
        ScheduleView { last_rates: rates, epoch, ..self }
    }
}

/// Rates paired with identifiers.
pub open spec fn paired_rates(ids: Seq<usize>, rates: Seq<Binary64>) -> Seq<(usize, Binary64)> {
    Seq::new(
        if ids.len() < rates.len() {
            ids.len()
        } else {
            rates.len()
        },
        |i: int| (ids[i], rates[i]),
    )
}

/// An optimizer with new rates.
pub open spec fn rated(o: OptimizerView, ids: Seq<usize>, rates: Seq<Binary64>) -> OptimizerView {
    OptimizerView { groups: with_rates(o.groups, paired_rates(ids, rates)), ..o }
}

/// Why a count is refused, if it is.
pub open spec fn positive_refusal(field: Seq<char>, value: u64) -> Option<ErrorView> {
    if value == 0 {
        Some(setting_text(field, "must be positive"@))
    } else {
        None
    }
}

fn positive(value: u64, field: &'static str) -> (r: Result<()>)
    ensures
        refusal(r) == positive_refusal(field@, value),
{
    if value == 0 {
        Err(setting_error(field, "must be positive"))
    } else {
        Ok(())
    }
}

fn check_rates(rates: &Vec<Binary64>) -> (r: Result<()>)
    ensures
        refusal(r) == first_at(0, rates@.len() as int, rate_list_checks(rates@)),
{
    let ghost check = rate_list_checks(rates@);
    let ghost n = rates@.len() as int;
    let mut i: usize = 0;
    while i < rates.len()
        invariant
            check == rate_list_checks(rates@),
            n == rates@.len(),
            i <= n,
            first_at(0, n, check) == first_at(i as int, n, check),
        decreases n - i,
    {
        assert(check(i as int) == non_negative_refusal("learning_rate"@, rates@[i as int]));
        if let Err(e) = validate_non_negative("learning_rate", rates[i]) {
            return Err(e);
        }
        i += 1;
    }
    Ok(())
}

fn disordered(ids: &Vec<usize>) -> (r: bool)
    ensures
        r == out_of_order(ids@),
{
    if ids.len() == 0 {
        return false;
    }
    let mut i: usize = 0;
    while i < ids.len() - 1
        invariant
            1 <= ids@.len(),
            i <= ids@.len() - 1,
            forall|j: int| 0 <= j < i ==> #[trigger] ids@[j] < ids@[j + 1],
        decreases ids@.len() - i,
    {
        if ids[i] >= ids[i + 1] {
            assert(ids@[i as int] >= ids@[i + 1]);
            return true;
        }
        i += 1;
    }
    false
}

fn copy_rates(rates: &Vec<Binary64>) -> (r: Vec<Binary64>)
    ensures
        r@ == rates@,
{
    let mut out: Vec<Binary64> = Vec::new();
    let mut i: usize = 0;
    while i < rates.len()
        invariant
            i <= rates@.len(),
            out@ == rates@.take(i as int),
        decreases rates@.len() - i,
    {
        out.push(rates[i]);
        i += 1;
        assert(out@ =~= rates@.take(i as int));
    }
    assert(out@ =~= rates@);
    out
}

impl ScheduleState {
    /// Starts a schedule for the groups of an optimizer.
    pub fn new(optimizer: &Optimizer) -> (r: Result<Self>)
        requires
            optimizer.wf(),
        ensures
            crate::error::outcome(r) == started(optimizer@.groups),
    {
        let groups = optimizer.groups();
        if groups.len() == 0 {
            return Err(invalid("a scheduler needs at least one parameter group"));
        }
        let mut group_ids: Vec<usize> = Vec::new();
        let mut base_rates: Vec<Binary64> = Vec::new();
        let mut i: usize = 0;
        while i < groups.len()
            invariant
                i <= groups@.len(),
                group_ids@ == ids_of(groups@).take(i as int),
                base_rates@ == rates_of(groups@).take(i as int),
            decreases groups@.len() - i,
        {
            group_ids.push(groups[i].id);
            base_rates.push(groups[i].learning_rate);
            i += 1;
            assert(group_ids@ =~= ids_of(groups@).take(i as int));
            assert(base_rates@ =~= rates_of(groups@).take(i as int));
        }
        assert(group_ids@ =~= ids_of(groups@));
        assert(base_rates@ =~= rates_of(groups@));
        let last_rates = copy_rates(&base_rates);
        Ok(ScheduleState { schema_version: 1, epoch: 0, group_ids, base_rates, last_rates })
    }

    /// Checks that the next epoch can be taken, and returns the rates as they are.
    pub fn current(&self, optimizer: &Optimizer) -> (r: Result<Vec<Binary64>>)
        requires
            optimizer.wf(),
        ensures
            refusal(r) == self@.refusal(optimizer@.groups),
            r matches Ok(rates) ==> rates@ == rates_of(optimizer@.groups),
    {
        if self.schema_version != 1 || self.epoch == u64::MAX || self.group_ids.len() == 0 || self.group_ids.len()
            != self.base_rates.len() || self.group_ids.len() != self.last_rates.len() || disordered(&self.group_ids) {
            return Err(invalid("invalid scheduler state or epoch counter"));
        }
        if let Err(e) = check_rates(&self.base_rates) {
            return Err(e);
        }
        if let Err(e) = check_rates(&self.last_rates) {
            return Err(e);
        }
        let groups = optimizer.groups();
        let ghost ids = ids_of(groups@);
        if groups.len() != self.group_ids.len() {
            assert(ids.len() != self.group_ids@.len());
            return Err(invalid("scheduler parameter group identities changed"));
        }
        let mut rates: Vec<Binary64> = Vec::new();
        let mut i: usize = 0;
        let ghost expected = rates_of(groups@);
        let ghost old_refusal = self@.refusal(groups@);
        while i < groups.len()
            invariant
                groups@ == optimizer@.groups,
                groups@.len() == self.group_ids@.len(),
                ids == ids_of(groups@),
                expected == rates_of(groups@),
                ids != self.group_ids@ ==> self@.refusal(groups@) == Some(
                    state_text("scheduler parameter group identities changed"@),
                ),
                i <= groups@.len(),
                rates@ == expected.take(i as int),
                forall|j: int| 0 <= j < i ==> #[trigger] ids[j] == self.group_ids@[j],
            decreases groups@.len() - i,
        {
            if groups[i].id != self.group_ids[i] {
                assert(ids[i as int] != self.group_ids@[i as int]);
                return Err(invalid("scheduler parameter group identities changed"));
            }
            rates.push(groups[i].learning_rate);
            i += 1;
            assert(rates@ =~= expected.take(i as int));
        }
        assert(ids =~= self.group_ids@);
        assert(rates@ =~= expected);
        Ok(rates)
    }

    /// Applies rates and takes the epoch. A refusal changes nothing.
    pub fn apply(&mut self, optimizer: &mut Optimizer, rates: Vec<Binary64>, epoch: u64) -> (r: Result<()>)
        requires
            old(optimizer).wf(),
        ensures
            final(optimizer).wf(),
            refusal(r) == rates_refusal(old(optimizer)@.groups, paired_rates(old(self)@.group_ids, rates@)),
            r is Ok ==> final(self)@ == old(self)@.applied(rates@, epoch) && final(optimizer)@ == rated(
                old(optimizer)@,
                old(self)@.group_ids,
                rates@,
            ),
            r is Err ==> final(self)@ == old(self)@ && final(optimizer)@ == old(optimizer)@,
    {
        let mut pairs: Vec<(usize, Binary64)> = Vec::new();
        let ghost expected = paired_rates(self.group_ids@, rates@);
        let mut i: usize = 0;
        while i < rates.len() && i < self.group_ids.len()
            invariant
                expected == paired_rates(self.group_ids@, rates@),
                i <= rates@.len(),
                i <= self.group_ids@.len(),
                pairs@ == expected.take(i as int),
            decreases rates@.len() - i,
        {
            pairs.push((self.group_ids[i], rates[i]));
            i += 1;
            assert(pairs@ =~= expected.take(i as int));
        }
        assert(pairs@ =~= expected);
        match optimizer.apply_group_rates(&pairs) {
            Ok(()) => {
                self.last_rates = rates;
                self.epoch = epoch;
                Ok(())
            },
            Err(e) => Err(e),
        }
    }
}

/// What a step of a schedule does: refuse, or apply rates for the next epoch.
pub open spec fn step_refused(schedule: ScheduleView, o: OptimizerView, rates: Seq<Binary64>) -> Option<ErrorView> {
    if schedule.refusal(o.groups) is Some {
        schedule.refusal(o.groups)
    } else {
        rates_refusal(o.groups, paired_rates(schedule.group_ids, rates))
    }
}

/// Multiplies every rate after each `step_size` epochs.
#[derive(Debug, Clone, PartialEq, Eq)]
pub struct StepLr {
    state: ScheduleState,
    step_size: u64,
    gamma: Binary64,
}

impl StepLr {
    /// What the schedule keeps.
    pub closed spec fn schedule(self) -> ScheduleView {
        self.state@
    }

    /// The interval.
    pub closed spec fn interval(self) -> u64 {
        self.step_size
    }

    /// The factor.
    pub closed spec fn factor(self) -> Binary64 {
        self.gamma
    }

    /// Why the settings are refused, if they are.
    pub open spec fn settings_refusal(step_size: u64, gamma: Binary64) -> Option<ErrorView> {
        either(positive_refusal("step_size"@, step_size), non_negative_refusal("gamma"@, gamma))
    }

    /// Creates a schedule at epoch zero.
    pub fn new(optimizer: &Optimizer, step_size: u64, gamma: Binary64) -> (r: Result<Self>)
        requires
            optimizer.wf(),
        ensures
            refusal(r) == either(
                Self::settings_refusal(step_size, gamma),
                match started(optimizer@.groups) {
                    Ok(_) => None,
                    Err(e) => Some(e),
                },
            ),
            r matches Ok(s) ==> Ok::<ScheduleView, ErrorView>(s.schedule()) == started(optimizer@.groups) && s.interval() == step_size
                && s.factor() == gamma,
    {
        if let Err(e) = positive(step_size, "step_size") {
            return Err(e);
        }
        if let Err(e) = validate_non_negative("gamma", gamma) {
            return Err(e);
        }
        match ScheduleState::new(optimizer) {
            Ok(state) => Ok(StepLr { state, step_size, gamma }),
            Err(e) => Err(e),
        }
    }

    /// The rates of the next epoch: multiplied when the interval is full.
    pub open spec fn next_rates(self, o: OptimizerView, scaled: Seq<Binary64>) -> Seq<Binary64> {
        if (self.schedule().epoch + 1) % (self.interval() as int) == 0 {
            scaled
        } else {
            rates_of(o.groups)
        }
    }

    /// Advances one epoch. `scaled` holds every current rate times the factor.
    pub fn step(&mut self, optimizer: &mut Optimizer, scaled: Vec<Binary64>) -> (r: Result<()>)
        requires
            old(optimizer).wf(),
        ensures
            final(optimizer).wf(),
            refusal(r) == either(
                Self::settings_refusal(old(self).interval(), old(self).factor()),
                step_refused(old(self).schedule(), old(optimizer)@, old(self).next_rates(old(optimizer)@, scaled@)),
            ),
            r is Ok ==> final(self).schedule() == old(self).schedule().applied(
                old(self).next_rates(old(optimizer)@, scaled@),
                (old(self).schedule().epoch + 1) as u64,
            ) && final(optimizer)@ == rated(
                old(optimizer)@,
                old(self).schedule().group_ids,
                old(self).next_rates(old(optimizer)@, scaled@),
            ),
            r is Err ==> final(self).schedule() == old(self).schedule() && final(optimizer)@ == old(optimizer)@,
            final(self).interval() == old(self).interval(),
            final(self).factor() == old(self).factor(),
    {
        if let Err(e) = positive(self.step_size, "step_size") {
            return Err(e);
        }
        if let Err(e) = validate_non_negative("gamma", self.gamma) {
            return Err(e);
        }
        let rates = match self.state.current(optimizer) {
            Ok(rates) => rates,
            Err(e) => {
                return Err(e);
            },
        };
        let epoch: u64 = self.state.epoch + 1;
        if epoch % self.step_size == 0 {
            self.state.apply(optimizer, scaled, epoch)
        } else {
            self.state.apply(optimizer, rates, epoch)
        }
    }

    /// The number of completed epochs.
    pub fn epoch(&self) -> (r: u64)
        ensures
            r == self.schedule().epoch,
    {
        self.state.epoch
    }

    /// The rates that were applied last.
    pub fn last_learning_rates(&self) -> (r: &[Binary64])
        ensures
            r@ == self.schedule().last_rates,
    {
        self.state.last_rates.as_slice()
    }
}

/// Multiplies every rate after every epoch.
#[derive(Debug, Clone, PartialEq, Eq)]
pub struct ExponentialLr {
    state: ScheduleState,
    gamma: Binary64,
}

impl ExponentialLr {
    /// What the schedule keeps.
    pub closed spec fn schedule(self) -> ScheduleView {
        self.state@
    }

    /// The factor.
    pub closed spec fn factor(self) -> Binary64 {
        self.gamma
    }

    /// Creates a schedule at epoch zero.
    pub fn new(optimizer: &Optimizer, gamma: Binary64) -> (r: Result<Self>)
        requires
            optimizer.wf(),
        ensures
            refusal(r) == either(
                non_negative_refusal("gamma"@, gamma),
                match started(optimizer@.groups) {
                    Ok(_) => None,
                    Err(e) => Some(e),
                },
            ),
            r matches Ok(s) ==> Ok::<ScheduleView, ErrorView>(s.schedule()) == started(optimizer@.groups) && s.factor() == gamma,
    {
        if let Err(e) = validate_non_negative("gamma", gamma) {
            return Err(e);
        }
        match ScheduleState::new(optimizer) {
            Ok(state) => Ok(ExponentialLr { state, gamma }),
            Err(e) => Err(e),
        }
    }

    /// Advances one epoch. `scaled` holds every current rate times the factor.
    pub fn step(&mut self, optimizer: &mut Optimizer, scaled: Vec<Binary64>) -> (r: Result<()>)
        requires
            old(optimizer).wf(),
        ensures
            final(optimizer).wf(),
            refusal(r) == either(
                non_negative_refusal("gamma"@, old(self).factor()),
                step_refused(old(self).schedule(), old(optimizer)@, scaled@),
            ),
            r is Ok ==> final(self).schedule() == old(self).schedule().applied(
                scaled@,
                (old(self).schedule().epoch + 1) as u64,
            ) && final(optimizer)@ == rated(old(optimizer)@, old(self).schedule().group_ids, scaled@),
            r is Err ==> final(self).schedule() == old(self).schedule() && final(optimizer)@ == old(optimizer)@,
            final(self).factor() == old(self).factor(),
    {
        if let Err(e) = validate_non_negative("gamma", self.gamma) {
            return Err(e);
        }
        if let Err(e) = self.state.current(optimizer) {
            return Err(e);
        }
        let epoch: u64 = self.state.epoch + 1;
        self.state.apply(optimizer, scaled, epoch)
    }

    /// The number of completed epochs.
    pub fn epoch(&self) -> (r: u64)
        ensures
            r == self.schedule().epoch,
    {
        self.state.epoch
    }

    /// The rates that were applied last.
    pub fn last_learning_rates(&self) -> (r: &[Binary64])
        ensures
            r@ == self.schedule().last_rates,
    {
        self.state.last_rates.as_slice()
    }
}

/// How often a number stands among the first `n`.
pub open spec fn count_of(list: Seq<u64>, value: u64, n: int) -> int
    decreases n,
{
    if n <= 0 {
        0
    } else {
        count_of(list, value, n - 1) + (if list[n - 1] == value {
            1int
        } else {
            0
        })
    }
}

/// Numbers do not descend.
pub open spec fn ascending_numbers(list: Seq<u64>) -> bool {
    forall|i: int, j: int| 0 <= i < j < list.len() ==> #[trigger] list[i] <= #[trigger] list[j]
}

/// Some number is larger than the next.
pub open spec fn descends(list: Seq<u64>) -> bool {
    exists|i: int| 0 <= i < list.len() - 1 && #[trigger] list[i] > list[i + 1]
}

fn sort(list: &Vec<u64>) -> (r: Vec<u64>)
    ensures
        ascending_numbers(r@),
        r@.to_multiset() == list@.to_multiset(),
{
    let mut out: Vec<u64> = Vec::new();
    let mut i: usize = 0;
    proof {
        list@.take(0).to_multiset_ensures();
        assert(list@.take(0) =~= out@);
    }
    while i < list.len()
        invariant
            i <= list@.len(),
            out@.len() == i,
            ascending_numbers(out@),
            out@.to_multiset() == list@.take(i as int).to_multiset(),
        decreases list@.len() - i,
    {
        let value: u64 = list[i];
        let mut at: usize = out.len();
        while at > 0 && out[at - 1] > value
            invariant
                at <= out@.len(),
                forall|j: int| at <= j < out@.len() ==> #[trigger] out@[j] > value,
            decreases at,
        {
            at -= 1;
        }
        let ghost before = out@;
        out.insert(at, value);
        proof {
            let next = out@;
            assert(next == before.insert(at as int, value));
            assert forall|a: int, b: int| 0 <= a < b < next.len() implies #[trigger] next[a] <= #[trigger] next[b] by {
                if b < at {
                    assert(next[a] == before[a] && next[b] == before[b]);
                } else if b == at {
                    assert(next[a] == before[a]);
                    if a < at - 1 {
                        assert(before[a] <= before[at - 1]);
                    }
                } else if a < at {
                    assert(next[a] == before[a] && next[b] == before[b - 1]);
                } else if a == at {
                    assert(next[b] == before[b - 1]);
                } else {
                    assert(next[a] == before[a - 1] && next[b] == before[b - 1]);
                }
            }
            let left = before.take(at as int);
            let right = before.skip(at as int);
            vstd::seq_lib::lemma_multiset_commutative(left, right);
            assert(left + right =~= before);
            vstd::seq_lib::lemma_multiset_commutative(left.push(value), right);
            assert(left.push(value) + right =~= next);
            left.to_multiset_ensures();
            list@.take(i as int).to_multiset_ensures();
            assert(list@.take(i as int).push(value) =~= list@.take(i + 1));
            assert(next.to_multiset() =~= list@.take(i + 1).to_multiset());
        }
        i += 1;
    }
    assert(list@.take(list@.len() as int) =~= list@);
    out
}

fn falls(list: &Vec<u64>) -> (r: bool)
    ensures
        r == descends(list@),
{
    if list.len() == 0 {
        return false;
    }
    let mut i: usize = 0;
    while i < list.len() - 1
        invariant
            1 <= list@.len(),
            i <= list@.len() - 1,
            forall|j: int| 0 <= j < i ==> #[trigger] list@[j] <= list@[j + 1],
        decreases list@.len() - i,
    {
        if list[i] > list[i + 1] {
            assert(list@[i as int] > list@[i + 1]);
            return true;
        }
        i += 1;
    }
    false
}

/// Decays the rates at given epochs; a milestone that is repeated decays repeatedly.
#[derive(Debug, Clone, PartialEq, Eq)]
pub struct MultiStepLr {
    state: ScheduleState,
    milestones: Vec<u64>,
    gamma: Binary64,
}

impl MultiStepLr {
    /// What the schedule keeps.
    pub closed spec fn schedule(self) -> ScheduleView {
        self.state@
    }

    /// The milestones.
    pub closed spec fn marks(self) -> Seq<u64> {
        self.milestones@
    }

    /// The factor.
    pub closed spec fn factor(self) -> Binary64 {
        self.gamma
    }

    /// Creates a schedule. Milestones at zero apply now: `scaled` holds every rate times the
    /// factor, once for each of them.
    pub fn new(optimizer: &mut Optimizer, milestones: &Vec<u64>, gamma: Binary64, scaled: Vec<Binary64>) -> (r: Result<Self>)
        requires
            old(optimizer).wf(),
        ensures
            final(optimizer).wf(),
            refusal(r) == either(
                non_negative_refusal("gamma"@, gamma),
                match started(old(optimizer)@.groups) {
                    Ok(schedule) => rates_refusal(old(optimizer)@.groups, paired_rates(schedule.group_ids, scaled@)),
                    Err(e) => Some(e),
                },
            ),
            r matches Ok(s) ==> {
                let schedule = started(old(optimizer)@.groups)->Ok_0;
                &&& s.schedule() == schedule.applied(scaled@, 0)
                &&& final(optimizer)@ == rated(old(optimizer)@, schedule.group_ids, scaled@)
                &&& ascending_numbers(s.marks())
                &&& s.marks().to_multiset() == milestones@.to_multiset()
                &&& s.factor() == gamma
            },
            r is Err ==> final(optimizer)@ == old(optimizer)@,
    {
        if let Err(e) = validate_non_negative("gamma", gamma) {
            return Err(e);
        }
        let milestones = sort(milestones);
        let mut state = match ScheduleState::new(optimizer) {
            Ok(state) => state,
            Err(e) => {
                return Err(e);
            },
        };
        match state.apply(optimizer, scaled, 0) {
            Ok(()) => Ok(MultiStepLr { state, milestones, gamma }),
            Err(e) => Err(e),
        }
    }

    /// How many milestones fall on an epoch.
    pub fn decays_at(milestones: &Vec<u64>, epoch: u64) -> (r: usize)
        ensures
            r == count_of(milestones@, epoch, milestones@.len() as int),
    {
        let mut count: usize = 0;
        let mut i: usize = 0;
        while i < milestones.len()
            invariant
                i <= milestones@.len(),
                count <= i,
                count == count_of(milestones@, epoch, i as int),
            decreases milestones@.len() - i,
        {
            if milestones[i] == epoch {
                count += 1;
            }
            i += 1;
        }
        count
    }

    /// How many milestones fall on the next epoch.
    pub fn next_decays(&self) -> (r: Option<usize>)
        ensures
            r == (if self.schedule().epoch == u64::MAX {
                None::<usize>
            } else {
                Some(
                    count_of(self.marks(), (self.schedule().epoch + 1) as u64, self.marks().len() as int) as usize,
                )
            }),
    {
        if self.state.epoch == u64::MAX {
            return None;
        }
        Some(MultiStepLr::decays_at(&self.milestones, self.state.epoch + 1))
    }

    /// Advances one epoch. `scaled` holds every current rate times the factor, once for each
    /// milestone of the next epoch.
    pub fn step(&mut self, optimizer: &mut Optimizer, scaled: Vec<Binary64>) -> (r: Result<()>)
        requires
            old(optimizer).wf(),
        ensures
            final(optimizer).wf(),
            refusal(r) == either(
                non_negative_refusal("gamma"@, old(self).factor()),
                if descends(old(self).marks()) {
                    Some(state_text("scheduler milestones must be sorted"@))
                } else {
                    step_refused(old(self).schedule(), old(optimizer)@, scaled@)
                },
            ),
            r is Ok ==> final(self).schedule() == old(self).schedule().applied(
                scaled@,
                (old(self).schedule().epoch + 1) as u64,
            ) && final(optimizer)@ == rated(old(optimizer)@, old(self).schedule().group_ids, scaled@),
            r is Err ==> final(self).schedule() == old(self).schedule() && final(optimizer)@ == old(optimizer)@,
            final(self).marks() == old(self).marks(),
            final(self).factor() == old(self).factor(),
    {
        if let Err(e) = validate_non_negative("gamma", self.gamma) {
            return Err(e);
        }
        if falls(&self.milestones) {
            return Err(invalid("scheduler milestones must be sorted"));
        }
        if let Err(e) = self.state.current(optimizer) {
            return Err(e);
        }
        let epoch: u64 = self.state.epoch + 1;
        self.state.apply(optimizer, scaled, epoch)
    }

    /// The number of completed epochs.
    pub fn epoch(&self) -> (r: u64)
        ensures
            r == self.schedule().epoch,
    {
        self.state.epoch
    }

    /// The rates that were applied last.
    pub fn last_learning_rates(&self) -> (r: &[Binary64])
        ensures
            r@ == self.schedule().last_rates,
    {
        self.state.last_rates.as_slice()
    }
}

/// Anneals the rates along a cosine curve.
#[derive(Debug, Clone, PartialEq, Eq)]
pub struct CosineAnnealingLr {
    state: ScheduleState,
    t_max: u64,
    eta_min: Binary64,
}

impl CosineAnnealingLr {
    /// What the schedule keeps.
    pub closed spec fn schedule(self) -> ScheduleView {
        self.state@
    }

    /// The length of half a cycle.
    pub closed spec fn half_cycle(self) -> u64 {
        self.t_max
    }

    /// The smallest rate.
    pub closed spec fn minimum(self) -> Binary64 {
        self.eta_min
    }

    /// Why the settings are refused, if they are.
    pub open spec fn settings_refusal(t_max: u64, eta_min: Binary64) -> Option<ErrorView> {
        either(
            positive_refusal("t_max"@, t_max),
            either(
                non_negative_refusal("eta_min"@, eta_min),
                if t_max > u64::MAX / 2 {
                    Some(state_text("t_max is too large"@))
                } else {
                    None
                },
            ),
        )
    }

    fn check(t_max: u64, eta_min: Binary64) -> (r: Result<()>)
        ensures
            refusal(r) == Self::settings_refusal(t_max, eta_min),
    {
        if let Err(e) = positive(t_max, "t_max") {
            return Err(e);
        }
        if let Err(e) = validate_non_negative("eta_min", eta_min) {
            return Err(e);
        }
        if t_max > u64::MAX / 2 {
            return Err(invalid("t_max is too large"));
        }
        Ok(())
    }

    /// Creates a schedule at epoch zero.
    pub fn new(optimizer: &Optimizer, t_max: u64, eta_min: Binary64) -> (r: Result<Self>)
        requires
            optimizer.wf(),
        ensures
            refusal(r) == either(
                Self::settings_refusal(t_max, eta_min),
                match started(optimizer@.groups) {
                    Ok(_) => None,
                    Err(e) => Some(e),
                },
            ),
            r matches Ok(s) ==> Ok::<ScheduleView, ErrorView>(s.schedule()) == started(optimizer@.groups) && s.half_cycle() == t_max
                && s.minimum() == eta_min,
    {
        if let Err(e) = Self::check(t_max, eta_min) {
            return Err(e);
        }
        match ScheduleState::new(optimizer) {
            Ok(state) => Ok(CosineAnnealingLr { state, t_max, eta_min }),
            Err(e) => Err(e),
        }
    }

    /// An epoch is the first after a minimum.
    pub open spec fn turns_at(t_max: u64, epoch: int) -> bool {
        epoch > t_max && (epoch - 1 - t_max) % (2 * t_max as int) == 0
    }

    /// Whether an epoch is the first after a minimum, where the curve is restarted from below.
    pub fn at_turn(t_max: u64, epoch: u64) -> (r: bool)
        requires
            0 < t_max <= u64::MAX / 2,
        ensures
            r == Self::turns_at(t_max, epoch as int),
    {
        epoch > t_max && (epoch - 1 - t_max) % (2 * t_max) == 0
    }

    /// Advances one epoch to rates on the curve: `turned` if the next epoch is the first after
    /// a minimum, else `curved`.
    pub fn step(&mut self, optimizer: &mut Optimizer, turned: Vec<Binary64>, curved: Vec<Binary64>) -> (r: Result<()>)
        requires
            old(optimizer).wf(),
        ensures
            final(optimizer).wf(),
            refusal(r) == either(
                Self::settings_refusal(old(self).half_cycle(), old(self).minimum()),
                step_refused(old(self).schedule(), old(optimizer)@, old(self).next_rates(turned@, curved@)),
            ),
            r is Ok ==> final(self).schedule() == old(self).schedule().applied(
                old(self).next_rates(turned@, curved@),
                (old(self).schedule().epoch + 1) as u64,
            ) && final(optimizer)@ == rated(
                old(optimizer)@,
                old(self).schedule().group_ids,
                old(self).next_rates(turned@, curved@),
            ),
            r is Err ==> final(self).schedule() == old(self).schedule() && final(optimizer)@ == old(optimizer)@,
            final(self).half_cycle() == old(self).half_cycle(),
            final(self).minimum() == old(self).minimum(),
    {
        if let Err(e) = Self::check(self.t_max, self.eta_min) {
            return Err(e);
        }
        if let Err(e) = self.state.current(optimizer) {
            return Err(e);
        }
        let epoch: u64 = self.state.epoch + 1;
        if CosineAnnealingLr::at_turn(self.t_max, epoch) {
            self.state.apply(optimizer, turned, epoch)
        } else {
            self.state.apply(optimizer, curved, epoch)
        }
    }

    /// The rates of the next epoch.
    pub open spec fn next_rates(self, turned: Seq<Binary64>, curved: Seq<Binary64>) -> Seq<Binary64> {
        if Self::turns_at(self.half_cycle(), self.schedule().epoch + 1) {
            turned
        } else {
            curved
        }
    }

    /// The number of completed epochs.
    pub fn epoch(&self) -> (r: u64)
        ensures
            r == self.schedule().epoch,
    {
        self.state.epoch
    }

    /// The rates that were applied last.
    pub fn last_learning_rates(&self) -> (r: &[Binary64])
        ensures
            r@ == self.schedule().last_rates,
    {
        self.state.last_rates.as_slice()
    }
}

/// The direction in which a metric improves.
#[derive(Debug, Clone, Copy, PartialEq, Eq, Structural)]
pub enum PlateauMode {
    /// A smaller metric is better.
    Min,
    /// A larger metric is better.
    Max,
}

/// How an improvement is measured.
#[derive(Debug, Clone, Copy, PartialEq, Eq, Structural)]
pub enum ThresholdMode {
    /// Against the best metric times one plus or minus the threshold.
    Relative,
    /// Against the best metric plus or minus the threshold.
    Absolute,
}

/// The settings and the counters of a plateau schedule.
pub struct PlateauView {
    pub schedule: ScheduleView,
    pub mode: PlateauMode,
    pub factor: Binary64,
    pub patience: u64,
    pub threshold: Binary64,
    pub threshold_mode: ThresholdMode,
    pub cooldown: u64,
    pub cooldown_remaining: u64,
    pub min_rates: Seq<Binary64>,
    pub eps: Binary64,
    pub best: Option<Binary64>,
    pub bad_epochs: u64,
}

/// Reduces the rates when a metric stops improving.
#[derive(Debug, Clone, PartialEq, Eq)]
pub struct ReduceLrOnPlateau {
    state: ScheduleState,
    mode: PlateauMode,
    factor: Binary64,
    patience: u64,
    threshold: Binary64,
    threshold_mode: ThresholdMode,
    cooldown: u64,
    cooldown_remaining: u64,
    min_rates: Vec<Binary64>,
    eps: Binary64,
    best: Option<Binary64>,
    bad_epochs: u64,
}

impl View for ReduceLrOnPlateau {
    type V = PlateauView;

    closed spec fn view(&self) -> PlateauView {
        PlateauView {
            schedule: self.state@,
            mode: self.mode,
            factor: self.factor,
            patience: self.patience,
            threshold: self.threshold,
            threshold_mode: self.threshold_mode,
            cooldown: self.cooldown,
            cooldown_remaining: self.cooldown_remaining,
            min_rates: self.min_rates@,
            eps: self.eps,
            best: self.best,
            bad_epochs: self.bad_epochs,
        }
    }
}

/// The checks of minimum rates.
pub open spec fn minimum_checks(rates: Seq<Binary64>) -> spec_fn(int) -> Option<ErrorView> {
    |i: int| non_negative_refusal("min_learning_rate"@, rates[i])
}

fn check_minimums(rates: &Vec<Binary64>) -> (r: Result<()>)
    ensures
        refusal(r) == first_at(0, rates@.len() as int, minimum_checks(rates@)),
{
    let ghost check = minimum_checks(rates@);
    let ghost n = rates@.len() as int;
    let mut i: usize = 0;
    while i < rates.len()
        invariant
            check == minimum_checks(rates@),
            n == rates@.len(),
            i <= n,
            first_at(0, n, check) == first_at(i as int, n, check),
        decreases n - i,
    {
        assert(check(i as int) == non_negative_refusal("min_learning_rate"@, rates@[i as int]));
        if let Err(e) = validate_non_negative("min_learning_rate", rates[i]) {
            return Err(e);
        }
        i += 1;
    }
    Ok(())
}

impl PlateauView {
    /// The defaults for a schedule.
    pub open spec fn defaults(schedule: ScheduleView) -> PlateauView {
        PlateauView {
            schedule,
            mode: PlateauMode::Min,
            factor: Binary64 { bits: 0x3fb9_9999_9999_999a },
            patience: 10,
            threshold: Binary64 { bits: 0x3f1a_36e2_eb1c_432d },
            threshold_mode: ThresholdMode::Relative,
            cooldown: 0,
            cooldown_remaining: 0,
            min_rates: Seq::new(schedule.group_ids.len(), |i: int| Binary64 { bits: 0 }),
            eps: Binary64 { bits: 0x3e45_798e_e230_8c3a },
            best: None,
            bad_epochs: 0,
        }
    }

    /// Why a metric is refused, if it is.
    pub open spec fn refusal(self, o: OptimizerView, metric: Binary64) -> Option<ErrorView> {
        if self.schedule.refusal(o.groups) is Some {
            self.schedule.refusal(o.groups)
        } else if !metric.finite() || !is_decay(self.factor) || (self.best matches Some(best) && !best.finite()) || self.bad_epochs
            > self.schedule.epoch || self.cooldown_remaining > self.cooldown || self.min_rates.len() != o.groups.len() {
            Some(state_text("invalid plateau metric or scheduler state"@))
        } else {
            either(
                non_negative_refusal("threshold"@, self.threshold),
                either(
                    non_negative_refusal("eps"@, self.eps),
                    first_at(0, self.min_rates.len() as int, minimum_checks(self.min_rates)),
                ),
            )
        }
    }

    /// A metric is an improvement. `bound` is what it has to pass.
    pub open spec fn improved(self, metric: Binary64, bound: Binary64) -> bool {
        self.best is None || match self.mode {
            PlateauMode::Min => metric.less(bound),
            PlateauMode::Max => bound.less(metric),
        }
    }

    /// The number of bad epochs after a metric, before a reduction.
    pub open spec fn bad_after(self, metric: Binary64, bound: Binary64) -> int {
        if self.cooldown_remaining > 0 || self.improved(metric, bound) {
            0
        } else {
            self.bad_epochs + 1
        }
    }

    /// Patience has run out.
    pub open spec fn reduces(self, metric: Binary64, bound: Binary64) -> bool {
        self.bad_after(metric, bound) > self.patience
    }

    /// The rates of the next epoch.
    pub open spec fn next_rates(self, o: OptimizerView, metric: Binary64, bound: Binary64, reduced: Seq<Binary64>) -> Seq<Binary64> {
        if self.reduces(metric, bound) {
            reduced
        } else {
            rates_of(o.groups)
        }
    }

    /// The schedule after a metric.
    pub open spec fn advanced(self, rates: Seq<Binary64>, metric: Binary64, bound: Binary64) -> PlateauView {
        PlateauView {
            schedule: self.schedule.applied(rates, (self.schedule.epoch + 1) as u64),
            best: if self.improved(metric, bound) {
                Some(metric)
            } else {
                self.best
            },
            bad_epochs: if self.reduces(metric, bound) {
                0
            } else {
                self.bad_after(metric, bound) as u64
            },
            cooldown_remaining: if self.reduces(metric, bound) {
                self.cooldown
            } else if self.cooldown_remaining > 0 {
                (self.cooldown_remaining - 1) as u64
            } else {
                0
            },
            ..self
        }
    }
}

impl ReduceLrOnPlateau {
    /// Creates a schedule with the defaults.
    pub fn new(optimizer: &Optimizer) -> (r: Result<Self>)
        requires
            optimizer.wf(),
        ensures
            match (r, started(optimizer@.groups)) {
                (Ok(s), Ok(schedule)) => s@ == PlateauView::defaults(schedule),
                (Err(e), Err(expected)) => e@ == expected,
                _ => false,
            },
    {
        let state = match ScheduleState::new(optimizer) {
            Ok(state) => state,
            Err(e) => {
                return Err(e);
            },
        };
        let mut min_rates: Vec<Binary64> = Vec::new();
        while min_rates.len() < state.group_ids.len()
            invariant
                min_rates@.len() <= state.group_ids@.len(),
                forall|i: int| 0 <= i < min_rates@.len() ==> #[trigger] min_rates@[i] == (Binary64 { bits: 0 }),
            decreases state.group_ids@.len() - min_rates@.len(),
        {
            min_rates.push(Binary64::zero());
        }
        assert(min_rates@ =~= Seq::new(state.group_ids@.len(), |i: int| Binary64 { bits: 0 }));
        Ok(
            ReduceLrOnPlateau {
                state,
                mode: PlateauMode::Min,
                factor: Binary64 { bits: 0x3fb9_9999_9999_999a },
                patience: 10,
                threshold: Binary64 { bits: 0x3f1a_36e2_eb1c_432d },
                threshold_mode: ThresholdMode::Relative,
                cooldown: 0,
                cooldown_remaining: 0,
                min_rates,
                eps: Binary64 { bits: 0x3e45_798e_e230_8c3a },
                best: None,
                bad_epochs: 0,
            },
        )
    }

    /// Selects the direction of improvement.
    #[must_use]
    pub fn mode(self, mode: PlateauMode) -> (r: Self)
        ensures
            r@ == (PlateauView { mode, ..self@ }),
    {
        ReduceLrOnPlateau { mode, ..self }
    }

    /// Sets the factor of a reduction.
    pub fn factor(self, factor: Binary64) -> (r: Result<Self>)
        ensures
            refusal(r) == (if is_decay(factor) {
                None
            } else {
                Some(state_text("plateau factor must be finite and in [0, 1)"@))
            }),
            r matches Ok(s) ==> s@ == (PlateauView { factor, ..self@ }),
    {
        if super::validate_beta("factor", factor).is_err() {
            return Err(invalid("plateau factor must be finite and in [0, 1)"));
        }
        Ok(ReduceLrOnPlateau { factor, ..self })
    }

    /// Sets how many bad epochs are tolerated.
    #[must_use]
    pub fn patience(self, patience: u64) -> (r: Self)
        ensures
            r@ == (PlateauView { patience, ..self@ }),
    {
        ReduceLrOnPlateau { patience, ..self }
    }

    /// Sets what counts as an improvement.
    pub fn threshold(self, threshold: Binary64, mode: ThresholdMode) -> (r: Result<Self>)
        ensures
            refusal(r) == non_negative_refusal("threshold"@, threshold),
            r matches Ok(s) ==> s@ == (PlateauView { threshold, threshold_mode: mode, ..self@ }),
    {
        if let Err(e) = validate_non_negative("threshold", threshold) {
            return Err(e);
        }
        Ok(ReduceLrOnPlateau { threshold, threshold_mode: mode, ..self })
    }

    /// Sets how many epochs ignore bad metrics after a reduction.
    #[must_use]
    pub fn cooldown(self, cooldown: u64) -> (r: Self)
        ensures
            r@ == (PlateauView { cooldown, ..self@ }),
    {
        ReduceLrOnPlateau { cooldown, ..self }
    }

    /// Sets the smallest rate of each group.
    pub fn min_learning_rates(self, rates: Vec<Binary64>) -> (r: Result<Self>)
        ensures
            refusal(r) == (if rates@.len() != self@.schedule.group_ids.len() {
                Some(state_text("minimum rate count differs from group count"@))
            } else {
                first_at(0, rates@.len() as int, minimum_checks(rates@))
            }),
            r matches Ok(s) ==> s@ == (PlateauView { min_rates: rates@, ..self@ }),
    {
        if rates.len() != self.state.group_ids.len() {
            return Err(invalid("minimum rate count differs from group count"));
        }
        if let Err(e) = check_minimums(&rates) {
            return Err(e);
        }
        Ok(ReduceLrOnPlateau { min_rates: rates, ..self })
    }

    /// Sets the smallest change of a rate that is made.
    pub fn eps(self, eps: Binary64) -> (r: Result<Self>)
        ensures
            refusal(r) == non_negative_refusal("eps"@, eps),
            r matches Ok(s) ==> s@ == (PlateauView { eps, ..self@ }),
    {
        if let Err(e) = validate_non_negative("eps", eps) {
            return Err(e);
        }
        Ok(ReduceLrOnPlateau { eps, ..self })
    }

    /// Records a metric and advances one epoch. `bound` is what the metric has to pass to be
    /// an improvement on the best so far, and `reduced` holds the rates after a reduction.
    pub fn step(&mut self, optimizer: &mut Optimizer, metric: Binary64, bound: Binary64, reduced: Vec<Binary64>) -> (r: Result<()>)
        requires
            old(optimizer).wf(),
        ensures
            final(optimizer).wf(),
            ({
                let rates = old(self)@.next_rates(old(optimizer)@, metric, bound, reduced@);
                &&& refusal(r) == (if old(self)@.refusal(old(optimizer)@, metric) is Some {
                    old(self)@.refusal(old(optimizer)@, metric)
                } else {
                    rates_refusal(old(optimizer)@.groups, paired_rates(old(self)@.schedule.group_ids, rates))
                })
                &&& r is Ok ==> final(self)@ == old(self)@.advanced(rates, metric, bound) && final(optimizer)@ == rated(
                    old(optimizer)@,
                    old(self)@.schedule.group_ids,
                    rates,
                )
            }),
            r is Err ==> final(self)@ == old(self)@ && final(optimizer)@ == old(optimizer)@,
    {
        let rates = match self.state.current(optimizer) {
            Ok(rates) => rates,
            Err(e) => {
                return Err(e);
            },
        };
        let best_lost = match self.best {
            Some(best) => !best.is_finite(),
            None => false,
        };
        if !metric.is_finite() || super::validate_beta("factor", self.factor).is_err() || best_lost || self.bad_epochs
            > self.state.epoch || self.cooldown_remaining > self.cooldown || self.min_rates.len() != rates.len() {
            return Err(invalid("invalid plateau metric or scheduler state"));
        }
        if let Err(e) = validate_non_negative("threshold", self.threshold) {
            return Err(e);
        }
        if let Err(e) = validate_non_negative("eps", self.eps) {
            return Err(e);
        }
        if let Err(e) = check_minimums(&self.min_rates) {
            return Err(e);
        }
        let improved = match self.best {
            None => true,
            Some(_) => {
                match self.mode {
                    PlateauMode::Min => metric.is_less(bound),
                    PlateauMode::Max => bound.is_less(metric),
                }
            },
        };
        let best = if improved {
            Some(metric)
        } else {
            self.best
        };
        let mut bad: u64 = if improved {
            0
        } else {
            self.bad_epochs + 1
        };
        let mut cooldown: u64 = self.cooldown_remaining;
        if cooldown > 0 {
            cooldown = cooldown - 1;
            bad = 0;
        }
        let mut next = rates;
        if bad > self.patience {
            next = reduced;
            cooldown = self.cooldown;
            bad = 0;
        }
        let epoch: u64 = self.state.epoch + 1;
        if let Err(e) = self.state.apply(optimizer, next, epoch) {
            return Err(e);
        }
        self.best = best;
        self.bad_epochs = bad;
        self.cooldown_remaining = cooldown;
        Ok(())
    }

    /// The number of completed epochs.
    pub fn epoch(&self) -> (r: u64)
        ensures
            r == self@.schedule.epoch,
    {
        self.state.epoch
    }

    /// The rates that were applied last.
    pub fn last_learning_rates(&self) -> (r: &[Binary64])
        ensures
            r@ == self@.schedule.last_rates,
    {
        self.state.last_rates.as_slice()
    }
}

/// A schedule that has taken a metric keeps its counters in range: bad epochs never exceed the
/// patience or the epochs, and the cooldown never exceeds its length.
pub proof fn plateau_counters_stay_in_range(p: PlateauView, o: OptimizerView, rates: Seq<Binary64>, metric: Binary64, bound: Binary64)
    requires
        p.refusal(o, metric) is None,
        p.bad_epochs <= p.patience,
    ensures
        p.advanced(rates, metric, bound).bad_epochs <= p.patience,
        p.advanced(rates, metric, bound).bad_epochs <= p.advanced(rates, metric, bound).schedule.epoch,
        p.advanced(rates, metric, bound).cooldown_remaining <= p.cooldown,
{
}

/// An improvement never leads to a reduction, nor does a metric during the cooldown.
pub proof fn improvements_keep_rates(p: PlateauView, o: OptimizerView, reduced: Seq<Binary64>, metric: Binary64, bound: Binary64)
    requires
        p.improved(metric, bound) || p.cooldown_remaining > 0,
    ensures
        p.next_rates(o, metric, bound, reduced) == rates_of(o.groups),
{
}

} // verus!
