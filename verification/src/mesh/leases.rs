//! Leases on writable volumes: acquired together, renewed while their sandbox
//! writes, and released with it.
use crate::error::MeshError;
use crate::floats::{number_at, number_field};
use crate::json::{text_or, u64_at, Json, JsonMap, JsonView};
use crate::mesh::migration::{opt_error, MeshErrorView};
use crate::mesh::params::{lease_of, lease_tuple, uses_writably, writable_volumes};
use crate::text::{text_eq, texts};
use crate::textmap::ascending;
use vstd::prelude::*;

verus! {

/// The volumes to lease for a sandbox: those that it mounts writably. On a mesh
/// that needs a majority of at least three nodes.
pub fn volumes_to_lease(params: &JsonMap, enabled: bool, expected_members: usize) -> (r: Result<
    Vec<String>,
    MeshError,
>)
    ensures
        match r {
            Ok(v) => ascending(texts(v@)) && (forall|name: Seq<char>|
                texts(v@).contains(name) <==> uses_writably(params@, name)) && (v@.len() > 0 && enabled
                ==> expected_members >= 3),
            Err(e) => enabled && expected_members < 3 && (exists|name: Seq<char>| uses_writably(params@, name))
                && e@ == (MeshErrorView {
                code: "unsupported"@,
                message: "writable volumes need >=3 nodes on mesh contexts"@,
            }),
        },
{
    let volumes = writable_volumes(params);
    if volumes.len() == 0 {
        return Ok(volumes);
    }
    if enabled && expected_members < 3 {
        assert(texts(volumes@).contains(texts(volumes@)[0]));
        assert(uses_writably(params@, texts(volumes@)[0]));
        return Err(
            MeshError::with_code(
                "writable volumes need >=3 nodes on mesh contexts".to_owned(),
                "unsupported",
            ),
        );
    }
    Ok(volumes)
}

/// The values of a list of JSON values.
pub open spec fn jsons(v: Seq<Json>) -> Seq<JsonView> {
    Seq::new(v.len(), |i: int| v[i]@)
}

/// What an acquisition does next.
#[derive(Clone, Copy, Debug, PartialEq, Eq, Structural)]
pub enum AcquireStep {
    /// Acquire the lease of the volume at this position.
    Acquire(usize),
    /// Release what was acquired.
    Release,
    /// All leases are held.
    Finished,
    /// None is held; see the error.
    Failed,
}

/// The acquisition of the leases of several volumes: all or none.
pub struct Acquisition {
    volumes: Vec<String>,
    acquired: Vec<Json>,
    step: AcquireStep,
    error: Option<MeshError>,
}

/// The value of an [`Acquisition`].
pub struct AcquisitionView {
    pub volumes: Seq<Seq<char>>,
    pub acquired: Seq<JsonView>,
    pub step: AcquireStep,
    pub error: Option<MeshErrorView>,
}

impl View for Acquisition {
    type V = AcquisitionView;

    closed spec fn view(&self) -> AcquisitionView {
        AcquisitionView {
            volumes: texts(self.volumes@),
            acquired: jsons(self.acquired@),
            step: self.step,
            error: opt_error(self.error),
        }
    }
}

/// The step at which `n` of `total` leases are held.
pub open spec fn acquire_at(n: nat, total: nat) -> AcquireStep {
    if n < total {
        AcquireStep::Acquire(n as usize)
    } else {
        AcquireStep::Finished
    }
}

/// What holds of an acquisition between its steps: it has acquired exactly the
/// leases before the present one.
pub open spec fn acquiring(v: AcquisitionView) -> bool {
    &&& v.volumes.len() <= usize::MAX
    &&& v.acquired.len() <= v.volumes.len()
    &&& v.step matches AcquireStep::Acquire(i) ==> i == v.acquired.len() && i < v.volumes.len()
    &&& v.step == AcquireStep::Finished ==> v.acquired.len() == v.volumes.len()
    &&& v.step == AcquireStep::Release || v.step == AcquireStep::Failed ==> v.error is Some
}

/// The value of what came of one acquisition.
pub open spec fn grant_view(result: Result<Json, MeshError>) -> Result<JsonView, MeshErrorView> {
    match result {
        Ok(lease) => Ok(lease@),
        Err(e) => Err(e@),
    }
}

/// The acquisition once the lease that it asked for was granted, or was not.
pub open spec fn acquire_moved(v: AcquisitionView, result: Result<JsonView, MeshErrorView>) -> AcquisitionView {
    match result {
        Ok(lease) => AcquisitionView {
            acquired: v.acquired.push(lease),
            step: acquire_at(v.acquired.len() + 1, v.volumes.len()),
            ..v
        },
        Err(e) => AcquisitionView { step: AcquireStep::Release, error: Some(e), ..v },
    }
}

impl Acquisition {
    pub fn new(volumes: Vec<String>) -> (r: Acquisition)
        ensures
            acquiring(r@),
            r@ == (AcquisitionView {
                volumes: texts(volumes@),
                acquired: Seq::empty(),
                step: acquire_at(0, volumes@.len()),
                error: None,
            }),
    {
        let step = if volumes.len() > 0 {
            AcquireStep::Acquire(0)
        } else {
            AcquireStep::Finished
        };
        let r = Acquisition { volumes, acquired: Vec::new(), step, error: None };
        assert(jsons(r.acquired@) =~= Seq::empty());
        r
    }

    /// The step to perform.
    pub fn step(&self) -> (r: AcquireStep)
        ensures
            r == self@.step,
    {
        self.step
    }

    /// The volume at position `i`.
    pub fn volume(&self, i: usize) -> (r: &String)
        requires
            i < self@.volumes.len(),
        ensures
            r@ == self@.volumes[i as int],
    {
        &self.volumes[i]
    }

    /// What is held.
    pub fn acquired(&self) -> (r: &Vec<Json>)
        ensures
            jsons(r@) == self@.acquired,
    {
        &self.acquired
    }

    /// Why nothing is held.
    pub fn error(self) -> (r: Option<MeshError>)
        ensures
            opt_error(r) == self@.error,
    {
        self.error
    }

    /// Takes what came of one acquisition.
    pub fn granted(&mut self, result: Result<Json, MeshError>)
        requires
            acquiring(old(self)@),
            old(self)@.step is Acquire,
        ensures
            acquiring(final(self)@),
            final(self)@ == acquire_moved(old(self)@, grant_view(result)),
    {
        match result {
            Ok(lease) => {
                let ghost before = self.acquired@;
                self.acquired.push(lease);
                assert(jsons(self.acquired@) =~= jsons(before).push(lease@));
                self.step = if self.acquired.len() < self.volumes.len() {
                    AcquireStep::Acquire(self.acquired.len())
                } else {
                    AcquireStep::Finished
                };
            },
            Err(e) => {
                self.error = Some(e);
                self.step = AcquireStep::Release;
            },
        }
    }

    /// What was acquired was released, as far as that was possible.
    pub fn released(&mut self)
        requires
            acquiring(old(self)@),
            old(self)@.step == AcquireStep::Release,
        ensures
            acquiring(final(self)@),
            final(self)@ == (AcquisitionView { step: AcquireStep::Failed, ..old(self)@ }),
    {
        self.step = AcquireStep::Failed;
    }
}

/// An acquisition once the leases of its first volumes were granted.
pub open spec fn acquire_after(v: AcquisitionView, leases: Seq<JsonView>) -> AcquisitionView
    decreases leases.len(),
{
    if leases.len() == 0 {
        v
    } else {
        acquire_moved(acquire_after(v, leases.drop_last()), Ok(leases.last()))
    }
}

/// Leases are acquired all or none: one for each volume, in order; and where one
/// cannot be had, those that were acquired before it, and no others, are released
/// before the acquisition fails with its error.
pub proof fn law_acquisition_is_all_or_none(v: AcquisitionView, leases: Seq<JsonView>, e: MeshErrorView)
    requires
        v.acquired.len() == 0,
        v.volumes.len() <= usize::MAX,
        v.step == acquire_at(0, v.volumes.len()),
        leases.len() <= v.volumes.len(),
    ensures
        ({
            let w = acquire_after(v, leases);
            let lost = acquire_moved(w, Err(e));
            &&& w.acquired == leases
            &&& w.volumes == v.volumes
            &&& w.step == acquire_at(leases.len(), v.volumes.len())
            &&& lost.step == AcquireStep::Release
            &&& lost.acquired == leases
            &&& lost.error == Some(e)
        }),
    decreases leases.len(),
{
    if leases.len() > 0 {
        law_acquisition_is_all_or_none(v, leases.drop_last(), e);
        assert(leases.drop_last().push(leases.last()) =~= leases);
    } else {
        assert(v.acquired =~= leases);
    }
}

/// The lease that this node holds on a volume, as recorded with its sandbox; how
/// long it lasts, in seconds, is a floating-point number.
pub struct HeldLease {
    pub holder: String,
    pub epoch: u64,
    pub ttl: u64,
}

/// The lease that `data` records, where `node` is its holder. One that does not say
/// how long it lasts lasts `default_ttl`.
pub fn lease_to_renew(data: Option<&Json>, node: &str, default_ttl: u64) -> (r: Option<HeldLease>)
    ensures
        match r {
            Some(l) => data is Some && data->0@ is Object && text_or(data->0@->Object_0, "holder"@, ""@)
                == node@ && l.holder@ == node@ && l.epoch == match u64_at(data->0@->Object_0, "epoch"@) {
                Some(e) => e,
                None => 0,
            } && l.ttl == match number_at(data->0@->Object_0, "ttl"@) {
                Some(t) => t,
                None => default_ttl,
            },
            None => data is None || !(data->0@ is Object) || text_or(data->0@->Object_0, "holder"@, ""@)
                != node@,
        },
{
    match data {
        Some(Json::Object(object)) => {
            let holder = object.text_or("holder", "");
            if !text_eq(holder.as_str(), node) {
                return None;
            }
            let epoch: u64 = match object.u64_at("epoch") {
                Some(e) => e,
                None => 0,
            };
            let ttl: u64 = match number_field(object, "ttl") {
                Some(t) => t,
                None => default_ttl,
            };
            Some(HeldLease { holder, epoch, ttl })
        },
        _ => None,
    }
}

/// The renewal of the leases of one sandbox: what was renewed so far, and why it
/// has to be stopped, if it has.
pub struct LeaseRenewals {
    refreshed: Vec<Json>,
    stop: Option<String>,
}

/// What follows a round of renewals.
#[derive(Clone, Copy, Debug, PartialEq, Eq, Structural)]
pub enum RenewalsEnd {
    /// A lease is past its deadline: stop the sandbox and release its leases.
    Stop,
    /// Write the renewed leases to the sandbox.
    Record,
    /// Nothing changed.
    Nothing,
}

impl LeaseRenewals {
    /// The renewed leases.
    pub closed spec fn renewed(self) -> Seq<JsonView> {
        jsons(self.refreshed@)
    }

    /// Why the sandbox has to be stopped.
    pub closed spec fn reason(self) -> Option<Seq<char>> {
        crate::text::opt_text(self.stop)
    }

    pub fn new() -> (r: LeaseRenewals)
        ensures
            r.renewed() == Seq::<JsonView>::empty(),
            r.reason() is None,
    {
        let r = LeaseRenewals { refreshed: Vec::new(), stop: None };
        assert(r.renewed() =~= Seq::<JsonView>::empty());
        r
    }

    /// Takes what came of one renewal; `overdue` says whether the lease is past
    /// the time by which it had to be renewed. `false` ends the round.
    pub fn take(&mut self, result: Result<Json, MeshError>, overdue: bool) -> (r: bool)
        ensures
            match result {
                Ok(lease) => r && final(self).renewed() == old(self).renewed().push(lease@)
                    && final(self).reason() == old(self).reason(),
                Err(e) => final(self).renewed() == old(self).renewed() && r == !overdue && final(self).reason()
                    == if overdue {
                    Some(e@.message)
                } else {
                    old(self).reason()
                },
            },
    {
        match result {
            Ok(lease) => {
                let ghost before = self.refreshed@;
                self.refreshed.push(lease);
                assert(jsons(self.refreshed@) =~= jsons(before).push(lease@));
                true
            },
            Err(e) => {
                if overdue {
                    self.stop = Some(e.message);
                    false
                } else {
                    true
                }
            },
        }
    }

    /// What follows the round.
    pub fn end(&self) -> (r: RenewalsEnd)
        ensures
            r == if self.reason() is Some {
                RenewalsEnd::Stop
            } else if self.renewed().len() > 0 {
                RenewalsEnd::Record
            } else {
                RenewalsEnd::Nothing
            },
    {
        if self.stop.is_some() {
            RenewalsEnd::Stop
        } else if self.refreshed.len() > 0 {
            RenewalsEnd::Record
        } else {
            RenewalsEnd::Nothing
        }
    }

    /// The renewed leases.
    pub fn leases(self) -> (r: Vec<Json>)
        ensures
            jsons(r@) == self.renewed(),
    {
        self.refreshed
    }
}

/// The leases among `values` that can be released: those that name a volume, a
/// holder and an epoch, in order.
pub open spec fn releasable(values: Seq<JsonView>) -> Seq<(Seq<char>, Seq<char>, u64)>
    decreases values.len(),
{
    if values.len() == 0 {
        Seq::empty()
    } else {
        match lease_of(values.last()) {
            Some(lease) => releasable(values.drop_last()).push(lease),
            None => releasable(values.drop_last()),
        }
    }
}

/// The values of a list of leases.
pub open spec fn lease_views(v: Seq<(String, String, u64)>) -> Seq<(Seq<char>, Seq<char>, u64)> {
    Seq::new(v.len(), |i: int| (v[i].0@, v[i].1@, v[i].2))
}

/// The leases to release.
pub fn leases_to_release(values: &Vec<Json>) -> (r: Vec<(String, String, u64)>)
    ensures
        lease_views(r@) == releasable(jsons(values@)),
{
    let mut out: Vec<(String, String, u64)> = Vec::new();
    let mut i: usize = 0;
    let ghost views = jsons(values@);
    assert(views.take(0) =~= Seq::empty());
    assert(lease_views(out@) =~= Seq::empty());
    while i < values.len()
        invariant
            i <= values@.len(),
            views == jsons(values@),
            lease_views(out@) == releasable(views.take(i as int)),
        decreases values@.len() - i,
    {
        let ghost before = out@;
        assert(views.take(i + 1).drop_last() =~= views.take(i as int));
        assert(views.take(i + 1).last() == values@[i as int]@);
        if let Some((volume, holder, epoch)) = lease_tuple(&values[i]) {
            out.push((volume, holder, epoch));
            assert(lease_views(out@) =~= lease_views(before).push((volume@, holder@, epoch)));
        }
        i = i + 1;
    }
    assert(views.take(i as int) =~= views);
    out
}

/// The values of recorded leases, in the order of the record.
pub open spec fn recorded_values(leases: JsonMap) -> Seq<JsonView> {
    Seq::new(leases.pairs().len(), |i: int| leases.pairs()[i].1)
}

/// What the release of a sandbox's leases does next.
#[derive(Clone, Copy, Debug, PartialEq, Eq, Structural)]
pub enum ReturnStep {
    /// Release the lease at this position.
    Release(usize),
    /// Every lease was released: remove them from the sandbox's record.
    Clear,
    /// Nothing is held any more.
    Finished,
    /// The record still names the leases; see the error.
    Failed,
}

/// The release of the leases that a sandbox's record names. Each is released, also
/// after one could not be; but they are removed from the record only where all
/// were, so that an incomplete release stays visible on it.
pub struct LeaseReturn {
    leases: Vec<(String, String, u64)>,
    step: ReturnStep,
    error: Option<MeshError>,
}

/// The value of a [`LeaseReturn`].
pub ghost struct ReturnView {
    pub leases: Seq<(Seq<char>, Seq<char>, u64)>,
    pub step: ReturnStep,
    pub error: Option<MeshErrorView>,
}

impl View for LeaseReturn {
    type V = ReturnView;

    closed spec fn view(&self) -> ReturnView {
        ReturnView { leases: lease_views(self.leases@), step: self.step, error: opt_error(self.error) }
    }
}

/// What is next once the leases before position `i` were dealt with.
pub open spec fn return_at(i: nat, total: nat, error: Option<MeshErrorView>) -> ReturnStep {
    if i < total {
        ReturnStep::Release(i as usize)
    } else if error is None {
        ReturnStep::Clear
    } else {
        ReturnStep::Failed
    }
}

/// The error of a step that failed.
pub open spec fn failure_of(result: Result<(), MeshError>) -> Option<MeshErrorView> {
    match result {
        Ok(_) => None,
        Err(e) => Some(e@),
    }
}

/// The release once its step came to an error, or to none.
pub open spec fn return_moved(v: ReturnView, failure: Option<MeshErrorView>) -> ReturnView {
    let error = if v.error is Some {
        v.error
    } else {
        failure
    };
    ReturnView {
        step: match v.step {
            ReturnStep::Release(i) => return_at((i + 1) as nat, v.leases.len(), error),
            _ => if failure is None {
                ReturnStep::Finished
            } else {
                ReturnStep::Failed
            },
        },
        error,
        ..v
    }
}

/// What holds of a release between its steps.
pub open spec fn returning(v: ReturnView) -> bool {
    &&& v.leases.len() <= usize::MAX
    &&& v.step matches ReturnStep::Release(i) ==> i < v.leases.len()
    &&& v.step == ReturnStep::Clear || v.step == ReturnStep::Finished ==> v.error is None
    &&& v.step == ReturnStep::Failed ==> v.error is Some
}

impl LeaseReturn {
    /// The release of the leases that a record names.
    pub fn new(leases: &JsonMap) -> (r: LeaseReturn)
        ensures
            returning(r@),
            r@.leases == releasable(recorded_values(*leases)),
            r@.step == return_at(0, r@.leases.len(), None),
            r@.error is None,
    {
        let mut values: Vec<Json> = Vec::new();
        let mut i: usize = 0;
        while i < leases.len()
            invariant
                i <= leases.pairs().len(),
                values@.len() == i,
                forall|j: int| 0 <= j < i ==> (#[trigger] values@[j])@ == leases.pairs()[j].1,
            decreases leases.pairs().len() - i,
        {
            values.push(leases.value_at(i).clone());
            i = i + 1;
        }
        assert(jsons(values@) =~= recorded_values(*leases));
        let leases = leases_to_release(&values);
        assert(lease_views(leases@).len() == leases@.len());
        let step = if leases.len() > 0 {
            ReturnStep::Release(0)
        } else {
            ReturnStep::Clear
        };
        LeaseReturn { leases, step, error: None }
    }

    /// The step to perform.
    pub fn step(&self) -> (r: ReturnStep)
        ensures
            r == self@.step,
    {
        self.step
    }

    /// The volume, the holder and the generation of the lease at position `i`.
    pub fn lease(&self, i: usize) -> (r: &(String, String, u64))
        requires
            i < self@.leases.len(),
        ensures
            (r.0@, r.1@, r.2) == self@.leases[i as int],
    {
        &self.leases[i]
    }

    /// The first error.
    pub fn error(self) -> (r: Option<MeshError>)
        ensures
            opt_error(r) == self@.error,
    {
        self.error
    }

    /// Takes what came of the step and moves on.
    pub fn resume(&mut self, result: Result<(), MeshError>)
        requires
            returning(old(self)@),
            old(self)@.step is Release || old(self)@.step == ReturnStep::Clear,
        ensures
            returning(final(self)@),
            final(self)@ == return_moved(old(self)@, failure_of(result)),
    {
        let failed = result.is_err();
        if let Err(e) = result {
            if self.error.is_none() {
                self.error = Some(e);
            }
        }
        self.step = match self.step {
            ReturnStep::Release(i) => if i + 1 < self.leases.len() {
                ReturnStep::Release(i + 1)
            } else if self.error.is_none() {
                ReturnStep::Clear
            } else {
                ReturnStep::Failed
            },
            _ => if failed {
                ReturnStep::Failed
            } else {
                ReturnStep::Finished
            },
        };
    }
}

/// A release once its steps came to `failures`.
pub open spec fn return_after(v: ReturnView, failures: Seq<Option<MeshErrorView>>) -> ReturnView
    decreases failures.len(),
{
    if failures.len() == 0 {
        v
    } else {
        return_moved(return_after(v, failures.drop_last()), failures.last())
    }
}

/// Every lease is released in its turn, whatever came of those before it; the record
/// is cleared only once each of them was released; and otherwise the first error
/// stands.
pub proof fn law_record_is_cleared_after_every_release(v: ReturnView, failures: Seq<Option<MeshErrorView>>)
    requires
        v.error is None,
        v.leases.len() <= usize::MAX,
        v.step == return_at(0, v.leases.len(), None),
        failures.len() <= v.leases.len(),
    ensures
        ({
            let w = return_after(v, failures);
            &&& w.leases == v.leases
            &&& failures.len() < v.leases.len() ==> w.step == ReturnStep::Release(failures.len() as usize)
            &&& w.step == ReturnStep::Clear <==> failures.len() == v.leases.len() && forall|i: int|
                0 <= i < failures.len() ==> (#[trigger] failures[i]) is None
            &&& w.error is None <==> forall|i: int| 0 <= i < failures.len() ==> (#[trigger] failures[i]) is None
            &&& failures.len() == v.leases.len() && w.error is Some ==> w.step == ReturnStep::Failed
        }),
    decreases failures.len(),
{
    if failures.len() > 0 {
        let rest = failures.drop_last();
        law_record_is_cleared_after_every_release(v, rest);
        assert(forall|i: int| 0 <= i < rest.len() ==> #[trigger] rest[i] == failures[i]);
        assert(failures[failures.len() - 1] == failures.last());
        let w = return_after(v, rest);
        let x = return_after(v, failures);
        assert(x.error is None <==> w.error is None && failures.last() is None);
        if x.error is None {
            assert forall|i: int| 0 <= i < failures.len() implies (#[trigger] failures[i]) is None by {
                if i < rest.len() {
                    assert(rest[i] is None);
                }
            }
        } else if forall|i: int| 0 <= i < failures.len() ==> (#[trigger] failures[i]) is None {
            assert forall|i: int| 0 <= i < rest.len() implies (#[trigger] rest[i]) is None by {
                assert(failures[i] is None);
            }
            assert(failures[failures.len() - 1] is None);
        }
    }
}

/// Leases are acquired one after the other, in the order of the volumes, until all are
/// held.
pub proof fn law_leases_are_acquired_in_order(v: AcquisitionView, leases: Seq<JsonView>)
    requires
        v.acquired.len() == 0,
        v.volumes.len() <= usize::MAX,
        v.volumes.len() > 0,
        v.step == AcquireStep::Acquire(0),
        leases.len() <= v.volumes.len(),
    ensures
        ({
            let w = acquire_after(v, leases);
            &&& w.acquired == leases
            &&& w.volumes == v.volumes
            &&& w.error == v.error
            &&& leases.len() < v.volumes.len() ==> w.step == AcquireStep::Acquire(leases.len() as usize)
            &&& leases.len() == v.volumes.len() ==> w.step == AcquireStep::Finished
        }),
    decreases leases.len(),
{
    if leases.len() > 0 {
        law_leases_are_acquired_in_order(v, leases.drop_last());
        assert(leases =~= leases.drop_last().push(leases.last()));
    } else {
        assert(leases =~= Seq::empty());
        assert(v.acquired =~= Seq::empty());
    }
}

/// Every recorded lease that can be read is released, in order, and nothing else is.
pub proof fn law_read_leases_are_released(values: Seq<JsonView>, value: JsonView)
    ensures
        lease_of(value) is Some ==> releasable(values.push(value)) == releasable(values).push(lease_of(value)->0),
        lease_of(value) is None ==> releasable(values.push(value)) == releasable(values),
        releasable(Seq::empty()).len() == 0,
{
    assert(values.push(value).drop_last() =~= values);
}

} // verus!
