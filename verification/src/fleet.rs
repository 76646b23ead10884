//! Decisions of the canister fleets: upgrading every canister of a fleet one
//! after the other, reusing a created canister, and choosing the storage
//! canister an upload goes to. The calls themselves (stop, install, start,
//! size queries) are made by the caller, which hands back their outcomes.

use vstd::prelude::*;
use crate::keyed::MapKey;
use crate::principal::{principal_text, PrincipalId};
use crate::storage_fleet::{canister_has_room, MAX_FILE_SIZE};
use crate::text::{chars_of, push_all, string_from_chars};

verus! {

/// Where a sub-canister stands.
#[derive(Clone, Copy, Debug, PartialEq, Eq, Structural)]
pub enum CanisterState {
    Created,
    Installed,
    Stopped,
}

/// Which fleet is upgraded.
#[derive(Clone, Copy, Debug, PartialEq, Eq, Structural)]
pub enum FleetKind {
    Storage,
    Archive,
}

/// The step of a canister's upgrade.
#[derive(Clone, Copy, Debug, PartialEq, Eq, Structural)]
pub enum UpgradeStep {
    Stop,
    Install,
    Start,
}

/// How the fleet is named in messages.
pub open spec fn fleet_word(k: FleetKind) -> Seq<char> {
    match k {
        FleetKind::Storage => "storage"@,
        FleetKind::Archive => "archive"@,
    }
}

/// What a message says of a failed step.
pub open spec fn failure_words(step: UpgradeStep) -> Seq<char> {
    match step {
        UpgradeStep::Stop => " failed to stop with error "@,
        UpgradeStep::Install => " failed to install upgrade "@,
        UpgradeStep::Start => " failed to start with error "@,
    }
}

/// The message recorded when `step` fails for the canister `p` with the
/// error `e`.
pub open spec fn upgrade_failure_message(kind: FleetKind, p: Seq<u8>, step: UpgradeStep, e: Seq<char>) -> Seq<char> {
    "ERROR: "@ + fleet_word(kind) + " upgrade :: "@ + fleet_word(kind) + " with principal : "@
        + principal_text(p) + failure_words(step) + e
}

/// The message when the upgrade arguments cannot be encoded.
pub open spec fn init_args_failure_message(e: Seq<char>) -> Seq<char> {
    "ERROR : failed to create init args with error - "@ + e
}

/// The errors of an upgrade that could not encode its arguments.
pub fn init_args_failure(e: &String) -> (r: Vec<String>)
    ensures
        r@.len() == 1,
        r@[0]@ == init_args_failure_message(e@),
{
    let mut m = chars_of("ERROR : failed to create init args with error - ");
    let ec = chars_of(e.as_str());
    push_all(&mut m, &ec);
    let mut r: Vec<String> = Vec::new();
    r.push(string_from_chars(&m));
    r
}

fn fleet_word_chars(kind: FleetKind) -> (w: Vec<char>)
    ensures
        w@ == fleet_word(kind),
{
    match kind {
        FleetKind::Storage => chars_of("storage"),
        FleetKind::Archive => chars_of("archive"),
    }
}

/// Writes the message for a failed step.
pub fn upgrade_failure(kind: FleetKind, p: &PrincipalId, step: UpgradeStep, e: &String) -> (m: String)
    ensures
        m@ == upgrade_failure_message(kind, p@, step, e@),
{
    let w = fleet_word_chars(kind);
    let mut m = chars_of("ERROR: ");
    push_all(&mut m, &w);
    let a = chars_of(" upgrade :: ");
    push_all(&mut m, &a);
    push_all(&mut m, &w);
    let b = chars_of(" with principal : ");
    push_all(&mut m, &b);
    let t = p.to_text();
    let tc = chars_of(t.as_str());
    push_all(&mut m, &tc);
    let f = match step {
        UpgradeStep::Stop => chars_of(" failed to stop with error "),
        UpgradeStep::Install => chars_of(" failed to install upgrade "),
        UpgradeStep::Start => chars_of(" failed to start with error "),
    };
    push_all(&mut m, &f);
    let ec = chars_of(e.as_str());
    push_all(&mut m, &ec);
    string_from_chars(&m)
}

/// The characters of each string.
pub open spec fn strings_view(v: Seq<String>) -> Seq<Seq<char>> {
    v.map_values(|s: String| s@)
}

/// The principals' bytes.
pub open spec fn principals_view(v: Seq<PrincipalId>) -> Seq<Seq<u8>> {
    v.map_values(|p: PrincipalId| p@)
}

/// An upgrade of every canister of a fleet, one after the other: each is
/// stopped, upgraded and started; a failed step is recorded and the run
/// moves on to the next canister.
pub struct UpgradeRun {
    kind: FleetKind,
    targets: Vec<PrincipalId>,
    index: usize,
    step: UpgradeStep,
    errors: Vec<String>,
}

/// The state of an upgrade run.
pub struct UpgradeRunView {
    pub kind: FleetKind,
    pub targets: Seq<Seq<u8>>,
    pub index: int,
    pub step: UpgradeStep,
    pub errors: Seq<Seq<char>>,
}

impl View for UpgradeRun {
    type V = UpgradeRunView;

    closed spec fn view(&self) -> UpgradeRunView {
        UpgradeRunView {
            kind: self.kind,
            targets: principals_view(self.targets@),
            index: self.index as int,
            step: self.step,
            errors: strings_view(self.errors@),
        }
    }
}

/// What the caller does next.
pub enum UpgradeOp {
    Stop(PrincipalId),
    Install(PrincipalId),
    Start(PrincipalId),
    Done(Result<(), Vec<String>>),
}

/// What the caller does next, principals by their bytes.
pub enum UpgradeOpView {
    Stop(Seq<u8>),
    Install(Seq<u8>),
    Start(Seq<u8>),
    Done(Result<(), Seq<Seq<char>>>),
}

pub open spec fn op_view(op: UpgradeOp) -> UpgradeOpView {
    match op {
        UpgradeOp::Stop(p) => UpgradeOpView::Stop(p@),
        UpgradeOp::Install(p) => UpgradeOpView::Install(p@),
        UpgradeOp::Start(p) => UpgradeOpView::Start(p@),
        UpgradeOp::Done(r) => UpgradeOpView::Done(
            match r {
                Ok(()) => Ok(()),
                Err(e) => Err(strings_view(e@)),
            },
        ),
    }
}

/// The outcome of a finished run: every failure, or success when none.
pub open spec fn run_outcome(errors: Seq<Seq<char>>) -> Result<(), Seq<Seq<char>>> {
    if errors.len() == 0 {
        Ok(())
    } else {
        Err(errors)
    }
}

/// What a run in state `v` asks for when it begins with a canister: to stop
/// the next one, or, when none is left, to finish.
pub open spec fn next_canister_op(v: UpgradeRunView) -> UpgradeOpView {
    if v.index < v.targets.len() {
        UpgradeOpView::Stop(v.targets[v.index])
    } else {
        UpgradeOpView::Done(run_outcome(v.errors))
    }
}

/// What is recorded of a canister after a step; the archive fleet keeps
/// no record.
pub open spec fn step_record(kind: FleetKind, p: Seq<u8>, s: CanisterState) -> Option<(Seq<u8>, CanisterState)> {
    match kind {
        FleetKind::Storage => Some((p, s)),
        FleetKind::Archive => None,
    }
}

/// What the caller does after an outcome: first record the canister's new
/// state, if any, then perform `next`.
pub struct UpgradeAction {
    pub record: Option<(PrincipalId, CanisterState)>,
    pub next: UpgradeOp,
}

pub open spec fn record_view(r: Option<(PrincipalId, CanisterState)>) -> Option<(Seq<u8>, CanisterState)> {
    match r {
        Some((p, s)) => Some((p@, s)),
        None => None,
    }
}

/// `w` is `v` moved on to the next canister, with `errors`.
pub open spec fn moved_on(v: UpgradeRunView, w: UpgradeRunView, errors: Seq<Seq<char>>) -> bool {
    &&& w.kind == v.kind
    &&& w.targets == v.targets
    &&& w.index == v.index + 1
    &&& w.step == UpgradeStep::Stop
    &&& w.errors == errors
}

/// A run in state `v` after the outcome of the step it waits for (`Err`
/// with the error's text).
pub open spec fn upgrade_step(v: UpgradeRunView, outcome: Result<(), Seq<char>>) -> UpgradeRunView {
    match outcome {
        Ok(()) => match v.step {
            UpgradeStep::Stop => UpgradeRunView { step: UpgradeStep::Install, ..v },
            UpgradeStep::Install => UpgradeRunView { step: UpgradeStep::Start, ..v },
            UpgradeStep::Start => UpgradeRunView { index: v.index + 1, step: UpgradeStep::Stop, ..v },
        },
        Err(e) => UpgradeRunView {
            index: v.index + 1,
            step: UpgradeStep::Stop,
            errors: v.errors.push(upgrade_failure_message(v.kind, v.targets[v.index], v.step, e)),
            ..v
        },
    }
}

/// A run in state `v` after `m` steps that all succeeded.
pub open spec fn successful_steps(v: UpgradeRunView, m: nat) -> UpgradeRunView
    decreases m,
{
    if m == 0 {
        v
    } else {
        successful_steps(upgrade_step(v, Ok(())), (m - 1) as nat)
    }
}

/// When every step succeeds, each of the next `k` canisters is stopped,
/// upgraded and started in three steps, no error is recorded, and a run
/// that has gone through all its canisters finishes with its outcome.
pub proof fn lemma_successful_run(v: UpgradeRunView, k: nat)
    requires
        v.step == UpgradeStep::Stop,
        0 <= v.index,
        v.index + k <= v.targets.len(),
    ensures
        successful_steps(v, 3 * k) == (UpgradeRunView { index: v.index + k, ..v }),
        v.index + k == v.targets.len() ==> next_canister_op(successful_steps(v, 3 * k))
            == UpgradeOpView::Done(run_outcome(v.errors)),
    decreases k,
{
    if k > 0 {
        let v1 = upgrade_step(v, Ok(()));
        let v2 = upgrade_step(v1, Ok(()));
        let v3 = upgrade_step(v2, Ok(()));
        assert(successful_steps(v, 3 * k) == successful_steps(v1, (3 * k - 1) as nat));
        assert(successful_steps(v1, (3 * k - 1) as nat) == successful_steps(v2, (3 * k - 2) as nat));
        assert(successful_steps(v2, (3 * k - 2) as nat) == successful_steps(v3, (3 * k - 3) as nat));
        assert(v3 == UpgradeRunView { index: v.index + 1, ..v });
        assert((3 * k - 3) as nat == 3 * ((k - 1) as nat));
        lemma_successful_run(v3, (k - 1) as nat);
    }
}

impl UpgradeRun {
    /// Every canister has at most one error recorded, and a run that has
    /// gone through all canisters is at its first step.
    pub closed spec fn wf(&self) -> bool {
        &&& self.index <= self.targets@.len()
        &&& self.errors@.len() <= self.index
        &&& self.index == self.targets@.len() ==> self.step == UpgradeStep::Stop
    }

    /// The run still waits for the outcome of a step.
    pub open spec fn waiting(&self) -> bool {
        self@.index < self@.targets.len()
    }

    fn next_canister(&self) -> (op: UpgradeOp)
        requires
            self.wf(),
            self.step == UpgradeStep::Stop,
        ensures
            op_view(op) == next_canister_op(self@),
    {
        if self.index < self.targets.len() {
            UpgradeOp::Stop(self.targets[self.index].key_copy())
        } else if self.errors.len() == 0 {
            UpgradeOp::Done(Ok(()))
        } else {
            let mut copy: Vec<String> = Vec::new();
            let mut i: usize = 0;
            while i < self.errors.len()
                invariant
                    i <= self.errors@.len(),
                    copy@.len() == i,
                    strings_view(copy@) == strings_view(self.errors@).take(i as int),
                decreases self.errors@.len() - i,
            {
                let c = self.errors[i].clone();
                assert(c@ == strings_view(self.errors@)[i as int]);
                let ghost before = copy@;
                copy.push(c);
                proof {
                    assert(copy@ == before.push(c));
                    assert forall|k: int| 0 <= k < i implies strings_view(copy@)[k] == strings_view(before)[k] by {
                        assert(copy@[k] == before[k]);
                    }
                    assert(strings_view(copy@) =~= strings_view(self.errors@).take(i as int + 1));
                }
                i += 1;
            }
            assert(strings_view(self.errors@).take(i as int) =~= strings_view(self.errors@));
            UpgradeOp::Done(Err(copy))
        }
    }

    /// Begins an upgrade of the canisters `targets`, in that order.
    pub fn start(kind: FleetKind, targets: Vec<PrincipalId>) -> (r: (UpgradeRun, UpgradeOp))
        ensures
            r.0.wf(),
            r.0@.kind == kind,
            r.0@.targets == principals_view(targets@),
            r.0@.index == 0,
            r.0@.step == UpgradeStep::Stop,
            r.0@.errors == Seq::<Seq<char>>::empty(),
            op_view(r.1) == next_canister_op(r.0@),
    {
        let run = UpgradeRun { kind, targets, index: 0, step: UpgradeStep::Stop, errors: Vec::new() };
        assert(strings_view(run.errors@) =~= Seq::<Seq<char>>::empty());
        let op = run.next_canister();
        (run, op)
    }

    /// Takes the outcome of the step the run waits for (`Err` with the
    /// error's text when it failed) and says what to do next. A stopped
    /// canister goes on to its upgrade, an upgraded one to its start; a
    /// started one, or a failure, which is recorded, moves the run on to
    /// the next canister. Storage canisters are recorded as stopped once
    /// stopped and as installed once started again.
    pub fn advance(&mut self, outcome: Result<(), String>) -> (a: UpgradeAction)
        requires
            old(self).wf(),
            old(self).waiting(),
        ensures
            final(self).wf(),
            final(self)@ == upgrade_step(
                old(self)@,
                match outcome {
                    Ok(()) => Ok(()),
                    Err(e) => Err(e@),
                },
            ),
            ({
                let v = old(self)@;
                let w = final(self)@;
                let p = v.targets[v.index];
                match outcome {
                    Ok(()) => match v.step {
                        UpgradeStep::Stop => {
                            &&& w == UpgradeRunView { step: UpgradeStep::Install, ..v }
                            &&& record_view(a.record) == step_record(v.kind, p, CanisterState::Stopped)
                            &&& op_view(a.next) == UpgradeOpView::Install(p)
                        },
                        UpgradeStep::Install => {
                            &&& w == UpgradeRunView { step: UpgradeStep::Start, ..v }
                            &&& a.record is None
                            &&& op_view(a.next) == UpgradeOpView::Start(p)
                        },
                        UpgradeStep::Start => {
                            &&& moved_on(v, w, v.errors)
                            &&& record_view(a.record) == step_record(v.kind, p, CanisterState::Installed)
                            &&& op_view(a.next) == next_canister_op(w)
                        },
                    },
                    Err(e) => {
                        &&& moved_on(v, w, v.errors.push(upgrade_failure_message(v.kind, p, v.step, e@)))
                        &&& a.record is None
                        &&& op_view(a.next) == next_canister_op(w)
                    },
                }
            }),
    {
        let ghost v = self@;
        let ghost p = v.targets[v.index];
        let i = self.index;
        assert(principals_view(self.targets@).len() == self.targets@.len());
        assert(i < self.targets.len());
        assert(self.targets@[i as int]@ == p);
        match outcome {
            Ok(()) => match self.step {
                UpgradeStep::Stop => {
                    self.step = UpgradeStep::Install;
                    let record = match self.kind {
                        FleetKind::Storage => Some((self.targets[i].key_copy(), CanisterState::Stopped)),
                        FleetKind::Archive => None,
                    };
                    UpgradeAction { record, next: UpgradeOp::Install(self.targets[i].key_copy()) }
                },
                UpgradeStep::Install => {
                    self.step = UpgradeStep::Start;
                    UpgradeAction { record: None, next: UpgradeOp::Start(self.targets[i].key_copy()) }
                },
                UpgradeStep::Start => {
                    let record = match self.kind {
                        FleetKind::Storage => Some((self.targets[i].key_copy(), CanisterState::Installed)),
                        FleetKind::Archive => None,
                    };
                    self.index = i + 1;
                    self.step = UpgradeStep::Stop;
                    let next = self.next_canister();
                    UpgradeAction { record, next }
                },
            },
            Err(e) => {
                let m = upgrade_failure(self.kind, &self.targets[i], self.step, &e);
                self.errors.push(m);
                assert(strings_view(self.errors@) =~= v.errors.push(
                    upgrade_failure_message(v.kind, p, v.step, e@),
                ));
                self.index = i + 1;
                self.step = UpgradeStep::Stop;
                let next = self.next_canister();
                UpgradeAction { record: None, next }
            },
        }
    }
}

/// The sub-canisters of a fleet and how new ones are made: who controls
/// them, who may call them, their cycles and their code. `I` and `U` are
/// the arguments their code is installed and upgraded with.
pub struct SubCanisterManager<I, U> {
    pub init_args: I,
    pub upgrade_args: U,
    pub master_canister_id: PrincipalId,
    pub sub_canisters: Vec<(PrincipalId, CanisterState)>,
    pub controllers: Vec<PrincipalId>,
    pub authorized_principal: Vec<PrincipalId>,
    pub initial_cycles: u128,
    pub reserved_cycles: u128,
    pub test_mode: bool,
    pub commit_hash: String,
    pub wasm: Vec<u8>,
}

/// The ids of the canisters whose code is installed, in order.
pub open spec fn installed_ids(s: Seq<(PrincipalId, CanisterState)>) -> Seq<Seq<u8>>
    decreases s.len(),
{
    if s.len() == 0 {
        Seq::empty()
    } else if s.last().1 == CanisterState::Installed {
        installed_ids(s.drop_last()).push(s.last().0@)
    } else {
        installed_ids(s.drop_last())
    }
}

impl<I, U> SubCanisterManager<I, U> {
    /// A manager whose canisters the master canister controls and may call,
    /// besides `controllers` and `authorized_principal`.
    pub fn new(
        init_args: I,
        upgrade_args: U,
        master_canister_id: PrincipalId,
        sub_canisters: Vec<(PrincipalId, CanisterState)>,
        controllers: Vec<PrincipalId>,
        authorized_principal: Vec<PrincipalId>,
        initial_cycles: u128,
        reserved_cycles: u128,
        test_mode: bool,
        commit_hash: String,
        wasm: Vec<u8>,
    ) -> (m: Self)
        ensures
            m.init_args == init_args,
            m.upgrade_args == upgrade_args,
            m.master_canister_id@ == master_canister_id@,
            m.sub_canisters == sub_canisters,
            principals_view(m.controllers@) == principals_view(controllers@).push(master_canister_id@),
            principals_view(m.authorized_principal@) == principals_view(authorized_principal@).push(
                master_canister_id@,
            ),
            m.initial_cycles == initial_cycles,
            m.reserved_cycles == reserved_cycles,
            m.test_mode == test_mode,
            m.commit_hash == commit_hash,
            m.wasm == wasm,
    {
        let mut controllers = controllers;
        let mut authorized_principal = authorized_principal;
        let ghost c0 = controllers@;
        let ghost a0 = authorized_principal@;
        controllers.push(master_canister_id.key_copy());
        authorized_principal.push(master_canister_id.key_copy());
        assert(principals_view(controllers@) =~= principals_view(c0).push(master_canister_id@));
        assert(principals_view(authorized_principal@) =~= principals_view(a0).push(master_canister_id@));
        SubCanisterManager {
            init_args,
            upgrade_args,
            master_canister_id,
            sub_canisters,
            controllers,
            authorized_principal,
            initial_cycles,
            reserved_cycles,
            test_mode,
            commit_hash,
            wasm,
        }
    }

    /// The ids of the sub-canisters.
    pub fn list_canisters_ids(&self) -> (r: Vec<PrincipalId>)
        ensures
            principals_view(r@) == self.sub_canisters@.map_values(|c: (PrincipalId, CanisterState)| c.0@),
    {
        let mut r: Vec<PrincipalId> = Vec::new();
        let mut i: usize = 0;
        while i < self.sub_canisters.len()
            invariant
                i <= self.sub_canisters@.len(),
                principals_view(r@) == self.sub_canisters@.take(i as int).map_values(
                    |c: (PrincipalId, CanisterState)| c.0@,
                ),
            decreases self.sub_canisters@.len() - i,
        {
            let ghost before = r@;
            r.push(self.sub_canisters[i].0.key_copy());
            assert(principals_view(r@) =~= principals_view(before).push(self.sub_canisters@[i as int].0@));
            assert(self.sub_canisters@.take(i as int + 1).map_values(|c: (PrincipalId, CanisterState)| c.0@)
                =~= self.sub_canisters@.take(i as int).map_values(|c: (PrincipalId, CanisterState)| c.0@).push(
                self.sub_canisters@[i as int].0@,
            ));
            i += 1;
        }
        assert(self.sub_canisters@.take(i as int) =~= self.sub_canisters@);
        r
    }

    /// The ids of the sub-canisters whose code is installed, in order.
    pub fn installed_canisters(&self) -> (r: Vec<PrincipalId>)
        ensures
            principals_view(r@) == installed_ids(self.sub_canisters@),
    {
        let mut r: Vec<PrincipalId> = Vec::new();
        let mut i: usize = 0;
        while i < self.sub_canisters.len()
            invariant
                i <= self.sub_canisters@.len(),
                principals_view(r@) == installed_ids(self.sub_canisters@.take(i as int)),
            decreases self.sub_canisters@.len() - i,
        {
            let ghost before = r@;
            let ghost s = self.sub_canisters@;
            assert(s.take(i as int + 1).drop_last() =~= s.take(i as int));
            assert(s.take(i as int + 1).last() == s[i as int]);
            if self.sub_canisters[i].1 == CanisterState::Installed {
                r.push(self.sub_canisters[i].0.key_copy());
                assert(principals_view(r@) =~= principals_view(before).push(s[i as int].0@));
            }
            i += 1;
        }
        assert(self.sub_canisters@.take(i as int) =~= self.sub_canisters@);
        r
    }

    /// Records the state of the sub-canister `id`, adding it when it is new.
    pub fn set_state(&mut self, id: PrincipalId, state: CanisterState)
        ensures
            final(self).sub_canisters@.len() >= old(self).sub_canisters@.len(),
            exists|i: int|
                0 <= i < final(self).sub_canisters@.len() && (#[trigger] final(self).sub_canisters@[i]).0@
                    == id@ && final(self).sub_canisters@[i].1 == state,
            forall|i: int|
                0 <= i < old(self).sub_canisters@.len() && (#[trigger] old(self).sub_canisters@[i]).0@
                    != id@ ==> final(self).sub_canisters@[i] == old(self).sub_canisters@[i],
    {
        let mut i: usize = 0;
        while i < self.sub_canisters.len()
            invariant
                i <= self.sub_canisters@.len(),
                self.sub_canisters@ == old(self).sub_canisters@,
                forall|j: int| 0 <= j < i ==> (#[trigger] self.sub_canisters@[j]).0@ != id@,
            decreases self.sub_canisters@.len() - i,
        {
            if self.sub_canisters[i].0.key_eq(&id) {
                let entry = (id, state);
                self.sub_canisters.set(i, entry);
                assert(self.sub_canisters@[i as int].0@ == old(self).sub_canisters@[i as int].0@);
                return;
            }
            i += 1;
        }
        self.sub_canisters.push((id, state));
        assert(self.sub_canisters@[self.sub_canisters@.len() - 1].1 == state);
    }
}

/// A call to a storage canister is only made once its code is installed.
pub fn require_installed(state: CanisterState) -> (r: Result<(), String>)
    ensures
        state == CanisterState::Installed ==> r is Ok,
        state != CanisterState::Installed ==> (r matches Err(m) && m@ == "Canister is not installed"@),
{
    if state == CanisterState::Installed {
        Ok(())
    } else {
        Err("Canister is not installed".to_string())
    }
}

/// The first canister, in the order given, that was created but has no
/// code installed yet: a new canister reuses it rather than creating one.
pub fn created_canister(canisters: &Vec<(PrincipalId, CanisterState)>) -> (r: Option<usize>)
    ensures
        match r {
            Some(i) => i < canisters@.len() && canisters@[i as int].1 == CanisterState::Created
                && forall|j: int| 0 <= j < i ==> (#[trigger] canisters@[j]).1 != CanisterState::Created,
            None => forall|j: int|
                0 <= j < canisters@.len() ==> (#[trigger] canisters@[j]).1 != CanisterState::Created,
        },
{
    let mut i: usize = 0;
    while i < canisters.len()
        invariant
            i <= canisters@.len(),
            forall|j: int| 0 <= j < i ==> (#[trigger] canisters@[j]).1 != CanisterState::Created,
        decreases canisters@.len() - i,
    {
        if canisters[i].1 == CanisterState::Created {
            return Some(i);
        }
        i += 1;
    }
    None
}

/// The storage canister `storage_size` bytes large, whose files take
/// `stored_files_size` bytes, has room for `file_size` more.
pub open spec fn has_room(storage_size: u128, stored_files_size: u64, file_size: u64) -> bool {
    (if storage_size >= stored_files_size + file_size {
        storage_size as int
    } else {
        stored_files_size + file_size
    }) <= crate::storage_fleet::MAX_STORAGE_SIZE
}

/// What a candidate must have room for: a file of `file_size` bytes next to
/// the files it stores, or a value of `required` bytes next to its data.
#[derive(Clone, Copy, Debug, PartialEq, Eq, Structural)]
pub enum RoomRule {
    File(u64),
    Data(u128),
}

/// The candidate with these sizes has room under `rule`.
pub open spec fn rule_allows(rule: RoomRule, storage_size: u128, stored_files_size: u64) -> bool {
    match rule {
        RoomRule::File(file_size) => has_room(storage_size, stored_files_size, file_size),
        RoomRule::Data(required) => storage_size + required <= crate::storage_fleet::MAX_STORAGE_SIZE,
    }
}

/// Where the choice of a storage canister for an upload stands.
#[derive(Clone, Copy, Debug, PartialEq, Eq, Structural)]
pub enum PlacementPhase {
    /// Waiting for the sizes of the current candidate.
    Sizes,
    /// Waiting for the current candidate to take the upload.
    Init,
    /// Waiting for a new canister.
    Create,
    /// Waiting for the new canister to take the upload.
    NewInit,
    Finished,
}

/// The choice of a storage canister for an upload: each installed canister
/// in turn, the first that has room and takes the upload; a new canister
/// when none does.
pub struct UploadPlacement {
    candidates: Vec<PrincipalId>,
    index: usize,
    rule: RoomRule,
    phase: PlacementPhase,
    new_canister: Option<PrincipalId>,
}

/// The state of a placement.
pub struct UploadPlacementView {
    pub candidates: Seq<Seq<u8>>,
    pub index: int,
    pub rule: RoomRule,
    pub phase: PlacementPhase,
    pub new_canister: Option<Seq<u8>>,
}

pub open spec fn principal_opt_bytes(p: Option<PrincipalId>) -> Option<Seq<u8>> {
    match p {
        Some(p) => Some(p@),
        None => None,
    }
}

impl View for UploadPlacement {
    type V = UploadPlacementView;

    closed spec fn view(&self) -> UploadPlacementView {
        UploadPlacementView {
            candidates: principals_view(self.candidates@),
            index: self.index as int,
            rule: self.rule,
            phase: self.phase,
            new_canister: principal_opt_bytes(self.new_canister),
        }
    }
}

/// What the caller does next.
pub enum PlacementOp {
    /// Ask the canister for its storage size and the size of its files.
    QuerySizes(PrincipalId),
    /// Ask the canister to take the upload.
    InitUpload(PrincipalId),
    /// Create a new storage canister.
    CreateCanister,
    /// Ask the new canister to take the upload.
    InitUploadOnNew(PrincipalId),
    /// The canister that took the upload, or why none did.
    Done(Result<PrincipalId, String>),
}

/// What the caller does next, principals by their bytes.
pub enum PlacementOpView {
    QuerySizes(Seq<u8>),
    InitUpload(Seq<u8>),
    CreateCanister,
    InitUploadOnNew(Seq<u8>),
    Done(Result<Seq<u8>, Seq<char>>),
}

pub open spec fn placement_op_view(op: PlacementOp) -> PlacementOpView {
    match op {
        PlacementOp::QuerySizes(p) => PlacementOpView::QuerySizes(p@),
        PlacementOp::InitUpload(p) => PlacementOpView::InitUpload(p@),
        PlacementOp::CreateCanister => PlacementOpView::CreateCanister,
        PlacementOp::InitUploadOnNew(p) => PlacementOpView::InitUploadOnNew(p@),
        PlacementOp::Done(r) => PlacementOpView::Done(
            match r {
                Ok(p) => Ok(p@),
                Err(e) => Err(e@),
            },
        ),
    }
}

/// The outcome of the step the placement waits for.
pub enum PlacementEvent {
    /// The candidate's storage size and the size of its stored files, or
    /// `None` when either query failed.
    Sizes(Option<(u128, u64)>),
    /// Whether the candidate took the upload.
    Accepted(bool),
    /// The new canister, or the text of the error that kept it from being
    /// created.
    Created(Result<PrincipalId, String>),
    /// Whether the new canister took the upload, or the error's text.
    NewAccepted(Result<(), String>),
}

/// The event answers the step that `phase` waits for.
pub open spec fn event_fits(phase: PlacementPhase, e: PlacementEvent) -> bool {
    match e {
        PlacementEvent::Sizes(_) => phase == PlacementPhase::Sizes,
        PlacementEvent::Accepted(_) => phase == PlacementPhase::Init,
        PlacementEvent::Created(_) => phase == PlacementPhase::Create,
        PlacementEvent::NewAccepted(_) => phase == PlacementPhase::NewInit,
    }
}

/// The phase of a placement at candidate `index`: its sizes, or a new
/// canister when no candidate is left.
pub open spec fn candidate_phase(candidates: Seq<Seq<u8>>, index: int) -> PlacementPhase {
    if index < candidates.len() {
        PlacementPhase::Sizes
    } else {
        PlacementPhase::Create
    }
}

/// What a placement in state `v` asks for at its candidate.
pub open spec fn candidate_op(v: UploadPlacementView) -> PlacementOpView {
    if v.index < v.candidates.len() {
        PlacementOpView::QuerySizes(v.candidates[v.index])
    } else {
        PlacementOpView::CreateCanister
    }
}

/// `w` is `v` gone on to its next candidate.
pub open spec fn next_candidate(v: UploadPlacementView, w: UploadPlacementView) -> bool {
    &&& w == UploadPlacementView {
        index: v.index + 1,
        phase: candidate_phase(v.candidates, v.index + 1),
        ..v
    }
}

impl UploadPlacement {
    pub closed spec fn wf(&self) -> bool {
        &&& self.index <= self.candidates@.len()
        &&& (self.phase == PlacementPhase::Sizes || self.phase == PlacementPhase::Init) ==> self.index
            < self.candidates@.len()
        &&& self.phase == PlacementPhase::Create ==> self.index == self.candidates@.len()
        &&& self.phase == PlacementPhase::NewInit ==> self.new_canister is Some
    }

    fn candidate(&self) -> (op: PlacementOp)
        requires
            self.index <= self.candidates@.len(),
        ensures
            placement_op_view(op) == candidate_op(self@),
    {
        if self.index < self.candidates.len() {
            PlacementOp::QuerySizes(self.candidates[self.index].key_copy())
        } else {
            PlacementOp::CreateCanister
        }
    }

    /// Begins the choice for a file of `file_size` bytes among the installed
    /// storage canisters `candidates`, in that order; a file over 2 GiB is
    /// refused at once.
    pub fn start(candidates: Vec<PrincipalId>, file_size: u64) -> (r: (UploadPlacement, PlacementOp))
        ensures
            r.0.wf(),
            r.0@.candidates == principals_view(candidates@),
            r.0@.rule == RoomRule::File(file_size),
            r.0@.index == 0,
            r.0@.new_canister is None,
            file_size > MAX_FILE_SIZE ==> r.0@.phase == PlacementPhase::Finished && placement_op_view(r.1)
                == PlacementOpView::Done(Err("File size exceeds the maximum limit of 2GB"@)),
            file_size <= MAX_FILE_SIZE ==> r.0@.phase == candidate_phase(r.0@.candidates, 0)
                && placement_op_view(r.1) == candidate_op(r.0@),
    {
        let too_large = file_size as u128 > MAX_FILE_SIZE;
        let phase = if too_large {
            PlacementPhase::Finished
        } else if candidates.len() > 0 {
            PlacementPhase::Sizes
        } else {
            PlacementPhase::Create
        };
        let pl = UploadPlacement {
            candidates,
            index: 0,
            rule: RoomRule::File(file_size),
            phase,
            new_canister: None,
        };
        let op = if too_large {
            PlacementOp::Done(Err("File size exceeds the maximum limit of 2GB".to_string()))
        } else {
            pl.candidate()
        };
        (pl, op)
    }

    /// Begins the choice of a canister for a value of `required` bytes among
    /// the canisters `candidates`, in that order: the first whose size
    /// leaves room for it and that takes it, or a new canister.
    pub fn start_data(candidates: Vec<PrincipalId>, required: u128) -> (r: (UploadPlacement, PlacementOp))
        ensures
            r.0.wf(),
            r.0@.candidates == principals_view(candidates@),
            r.0@.rule == RoomRule::Data(required),
            r.0@.index == 0,
            r.0@.new_canister is None,
            r.0@.phase == candidate_phase(r.0@.candidates, 0),
            placement_op_view(r.1) == candidate_op(r.0@),
    {
        let phase = if candidates.len() > 0 {
            PlacementPhase::Sizes
        } else {
            PlacementPhase::Create
        };
        let pl = UploadPlacement {
            candidates,
            index: 0,
            rule: RoomRule::Data(required),
            phase,
            new_canister: None,
        };
        let op = pl.candidate();
        (pl, op)
    }

    /// Takes the outcome of the step the placement waits for and says what
    /// to do next: a candidate with room is asked to take the upload, and
    /// the first that does is the answer; a candidate without room, whose
    /// sizes are unknown or that refuses, is passed over; when none is left
    /// a new canister is created and asked, and its errors are the answer.
    pub fn advance(&mut self, event: PlacementEvent) -> (op: PlacementOp)
        requires
            old(self).wf(),
            event_fits(old(self)@.phase, event),
        ensures
            final(self).wf(),
            ({
                let v = old(self)@;
                let w = final(self)@;
                match event {
                    PlacementEvent::Sizes(sizes) => match sizes {
                        Some((s, f)) => if rule_allows(v.rule, s, f) {
                            &&& w == UploadPlacementView { phase: PlacementPhase::Init, ..v }
                            &&& placement_op_view(op) == PlacementOpView::InitUpload(v.candidates[v.index])
                        } else {
                            next_candidate(v, w) && placement_op_view(op) == candidate_op(w)
                        },
                        None => next_candidate(v, w) && placement_op_view(op) == candidate_op(w),
                    },
                    PlacementEvent::Accepted(ok) => if ok {
                        &&& w == UploadPlacementView { phase: PlacementPhase::Finished, ..v }
                        &&& placement_op_view(op) == PlacementOpView::Done(Ok(v.candidates[v.index]))
                    } else {
                        next_candidate(v, w) && placement_op_view(op) == candidate_op(w)
                    },
                    PlacementEvent::Created(r) => match r {
                        Ok(q) => {
                            &&& w == UploadPlacementView {
                                phase: PlacementPhase::NewInit,
                                new_canister: Some(q@),
                                ..v
                            }
                            &&& placement_op_view(op) == PlacementOpView::InitUploadOnNew(q@)
                        },
                        Err(m) => {
                            &&& w == UploadPlacementView { phase: PlacementPhase::Finished, ..v }
                            &&& placement_op_view(op) == PlacementOpView::Done(Err(m@))
                        },
                    },
                    PlacementEvent::NewAccepted(r) => {
                        &&& w == UploadPlacementView { phase: PlacementPhase::Finished, ..v }
                        &&& placement_op_view(op) == PlacementOpView::Done(
                            match r {
                                Ok(()) => Ok(v.new_canister->0),
                                Err(m) => Err(m@),
                            },
                        )
                    },
                }
            }),
    {
        let ghost v = self@;
        assert(principals_view(self.candidates@).len() == self.candidates@.len());
        assert(v.phase == self.phase);
        match event {
            PlacementEvent::Sizes(sizes) => {
                assert(self.index < self.candidates.len());
                let room = match sizes {
                    Some((s, f)) => match self.rule {
                        RoomRule::File(file_size) => canister_has_room(s, f, file_size),
                        RoomRule::Data(required) => s <= crate::storage_fleet::MAX_STORAGE_SIZE && required
                            <= crate::storage_fleet::MAX_STORAGE_SIZE - s,
                    },
                    None => false,
                };
                if room {
                    self.phase = PlacementPhase::Init;
                    PlacementOp::InitUpload(self.candidates[self.index].key_copy())
                } else {
                    self.index = self.index + 1;
                    self.phase = if self.index < self.candidates.len() {
                        PlacementPhase::Sizes
                    } else {
                        PlacementPhase::Create
                    };
                    self.candidate()
                }
            },
            PlacementEvent::Accepted(ok) => {
                assert(self.index < self.candidates.len());
                if ok {
                    self.phase = PlacementPhase::Finished;
                    PlacementOp::Done(Ok(self.candidates[self.index].key_copy()))
                } else {
                    self.index = self.index + 1;
                    self.phase = if self.index < self.candidates.len() {
                        PlacementPhase::Sizes
                    } else {
                        PlacementPhase::Create
                    };
                    self.candidate()
                }
            },
            PlacementEvent::Created(r) => match r {
                Ok(q) => {
                    let op = PlacementOp::InitUploadOnNew(q.key_copy());
                    self.phase = PlacementPhase::NewInit;
                    self.new_canister = Some(q);
                    op
                },
                Err(m) => {
                    self.phase = PlacementPhase::Finished;
                    PlacementOp::Done(Err(m))
                },
            },
            PlacementEvent::NewAccepted(r) => {
                self.phase = PlacementPhase::Finished;
                match r {
                    Ok(()) => {
                        let q = self.new_canister.as_ref().unwrap();
                        PlacementOp::Done(Ok(q.key_copy()))
                    },
                    Err(m) => PlacementOp::Done(Err(m)),
                }
            },
        }
    }
}

} // verus!
