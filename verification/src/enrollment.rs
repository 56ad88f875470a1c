//! Entering a replayed job, and what it refers to, into the registry.
//!
//! The job becomes an object with the attributes of its base snapshot,
//! observed at the instant of that snapshot, and with relationships to its
//! account, group and partition, and to its host where one is known. Of the
//! command only the name of its file is kept. Each later step adds a version
//! to every attribute whose value it changed, and relates the job to every
//! account, group, partition or host that it names, which is entered where
//! it is new. A relationship is kept when the job moves on: a job that ran
//! on two hosts is related to both.

use vstd::prelude::*;
use vstd::string::StrSliceExecFns;
use crate::instant::Timestamp;
use crate::job::{JobModel, Change, FieldChange, ChangeModel};
use crate::record::{
    EntityKind, Qualifier, ObjectIdModel, ObjectModel, JobAttribute, Value, AttrValueModel,
    AttributeVersionModel, Version, relation, object_key, state_text, state_label,
};
use crate::replay::{Replay, ReplayModel, Step, StepModel};
use crate::registry::{
    Registry, has_object, intern, with_attribute, related, lemma_intern_keeps_order,
    lemma_with_relationship_keeps_order,
};

verus! {

/// The name of the file that a path leads to: what comes after the last
/// `/`, or the whole path where it holds none.
pub open spec fn file_name(path: Seq<char>) -> Seq<char>
    decreases path.len(),
{
    if path.len() == 0 {
        path
    } else if path.last() == '/' {
        Seq::empty()
    } else {
        file_name(path.drop_last()).push(path.last())
    }
}

/// A path without a `/` in its tail has the file name of what comes before
/// the tail, with the tail after it.
proof fn lemma_file_name_tail(path: Seq<char>, from: int)
    requires
        0 <= from <= path.len(),
        forall|i: int| from <= i < path.len() ==> path[i] != '/',
    ensures
        file_name(path) == file_name(path.take(from)) + path.skip(from),
    decreases path.len() - from,
{
    if from == path.len() {
        assert(path.take(from) =~= path);
    } else {
        let shorter = path.drop_last();
        lemma_file_name_tail(shorter, from);
        assert(shorter.take(from) =~= path.take(from));
        assert((file_name(path.take(from)) + shorter.skip(from)).push(path.last()) =~= file_name(
            path.take(from),
        ) + path.skip(from));
    }
}

/// The name of the file that a command's path leads to.
pub fn command_name(command: &String) -> (name: String)
    ensures
        name@ == file_name(command@),
{
    let path = command.as_str();
    let length = path.unicode_len();
    let mut from: usize = length;
    while from > 0 && path.get_char(from - 1) != '/'
        invariant
            from <= length,
            length == path@.len(),
            forall|i: int| from <= i < length ==> path@[i] != '/',
        decreases from,
    {
        from = from - 1;
    }
    proof {
        lemma_file_name_tail(path@, from as int);
        if from > 0 {
            assert(path@.take(from as int).last() == '/');
            assert(file_name(path@.take(from as int)) =~= Seq::<char>::empty());
        } else {
            assert(path@.take(0) =~= Seq::<char>::empty());
        }
        assert(Seq::<char>::empty() + path@.skip(from as int) =~= path@.skip(from as int));
        assert(path@.subrange(from as int, length as int) =~= path@.skip(from as int));
    }
    path.substring_char(from, length).to_owned()
}

/// The version of an attribute that took a value at an instant.
pub open spec fn version(
    name: JobAttribute,
    value: AttrValueModel,
    at: Timestamp,
) -> AttributeVersionModel {
    Version { name, value, observed_at: at }
}

/// The identifier of the object of a job.
pub open spec fn job_key(job: Seq<char>) -> ObjectIdModel {
    object_key(EntityKind::Job, job)
}

/// The objects after the base snapshot of a job, captured at `at`, was
/// entered.
pub open spec fn enroll_base(objects: Seq<ObjectModel>, base: JobModel, at: Timestamp) -> Seq<
    ObjectModel,
> {
    let key = job_key(base.job_id);
    let entered = intern(objects, key);
    let described = with_attribute(
        with_attribute(
            with_attribute(
                with_attribute(
                    with_attribute(
                        entered,
                        key,
                        version(JobAttribute::Command, Value::Text(file_name(base.command)), at),
                    ),
                    key,
                    version(JobAttribute::WorkDir, Value::Text(base.work_dir), at),
                ),
                key,
                version(JobAttribute::Cpus, Value::Integer(base.cpus), at),
            ),
            key,
            version(JobAttribute::MinMemory, Value::Text(base.min_memory), at),
        ),
        key,
        version(JobAttribute::State, Value::Text(state_text(base.state)), at),
    );
    let submitted = related(
        related(
            related(
                described,
                key,
                relation(EntityKind::Account, base.account, Qualifier::SubmittedBy),
            ),
            key,
            relation(EntityKind::Group, base.group, Qualifier::SubmittedByGroup),
        ),
        key,
        relation(EntityKind::Partition, base.partition, Qualifier::SubmittedOn),
    );
    match base.exec_host {
        Some(host) => related(
            submitted,
            key,
            relation(EntityKind::Host, host, Qualifier::ExecutedOn),
        ),
        None => submitted,
    }
}

/// The objects after one changed field of a step of the job of `key`,
/// captured at `at`. A changed attribute gets a version; an account, group,
/// partition or host that is named is entered, and the job is related to
/// it.
pub open spec fn enroll_change(
    objects: Seq<ObjectModel>,
    key: ObjectIdModel,
    at: Timestamp,
    change: ChangeModel,
) -> Seq<ObjectModel> {
    match change {
        Change::Command(v) => with_attribute(
            objects,
            key,
            version(JobAttribute::Command, Value::Text(file_name(v)), at),
        ),
        Change::WorkDir(v) => with_attribute(
            objects,
            key,
            version(JobAttribute::WorkDir, Value::Text(v), at),
        ),
        Change::Cpus(v) => with_attribute(
            objects,
            key,
            version(JobAttribute::Cpus, Value::Integer(v), at),
        ),
        Change::MinMemory(v) => with_attribute(
            objects,
            key,
            version(JobAttribute::MinMemory, Value::Text(v), at),
        ),
        Change::State(v) => with_attribute(
            objects,
            key,
            version(JobAttribute::State, Value::Text(state_text(v)), at),
        ),
        Change::Account(v) => related(
            objects,
            key,
            relation(EntityKind::Account, v, Qualifier::SubmittedBy),
        ),
        Change::Group(v) => related(
            objects,
            key,
            relation(EntityKind::Group, v, Qualifier::SubmittedByGroup),
        ),
        Change::Partition(v) => related(
            objects,
            key,
            relation(EntityKind::Partition, v, Qualifier::SubmittedOn),
        ),
        Change::ExecHost(Some(v)) => related(
            objects,
            key,
            relation(EntityKind::Host, v, Qualifier::ExecutedOn),
        ),
        _ => objects,
    }
}

/// The objects after the first `count` changed fields of a step.
pub open spec fn enroll_changes(
    objects: Seq<ObjectModel>,
    key: ObjectIdModel,
    at: Timestamp,
    changed: Seq<ChangeModel>,
    count: nat,
) -> Seq<ObjectModel>
    decreases count,
{
    if count == 0 {
        objects
    } else {
        enroll_change(
            enroll_changes(objects, key, at, changed, (count - 1) as nat),
            key,
            at,
            changed[count - 1],
        )
    }
}

/// The objects after the first `count` steps of a job.
pub open spec fn enroll_steps(
    objects: Seq<ObjectModel>,
    key: ObjectIdModel,
    steps: Seq<StepModel>,
    count: nat,
) -> Seq<ObjectModel>
    decreases count,
{
    if count == 0 {
        objects
    } else {
        enroll_changes(
            enroll_steps(objects, key, steps, (count - 1) as nat),
            key,
            steps[count - 1].time,
            steps[count - 1].changed,
            steps[count - 1].changed.len(),
        )
    }
}

/// The objects after a replayed job was entered.
pub open spec fn enrolled(objects: Seq<ObjectModel>, replay: ReplayModel) -> Seq<ObjectModel> {
    enroll_steps(
        enroll_base(objects, replay.base, replay.base_time),
        job_key(replay.base.job_id),
        replay.steps,
        replay.steps.len(),
    )
}

/// One list of objects holds every object of another, and where the other
/// holds an object at a place, it holds one of the same identifier there.
pub open spec fn extends(after: Seq<ObjectModel>, before: Seq<ObjectModel>) -> bool {
    &&& before.len() <= after.len()
    &&& forall|i: int| 0 <= i < before.len() ==> (#[trigger] after[i]).id == before[i].id
}

/// What is among some objects is among objects that extend them.
pub proof fn lemma_extends_keeps_objects(
    after: Seq<ObjectModel>,
    before: Seq<ObjectModel>,
    key: ObjectIdModel,
)
    requires
        extends(after, before),
        has_object(before, key),
    ensures
        has_object(after, key),
{
    let i = choose|i: int| 0 <= i < before.len() && (#[trigger] before[i]).id == key;
    assert(after[i].id == key);
}

/// Records the base snapshot of a job on the object at `slot`.
fn enroll_described(registry: &mut Registry, slot: usize, replay: &Replay)
    requires
        old(registry).wf(),
        slot < old(registry)@.len(),
        old(registry)@[slot as int].id == job_key(replay@.base.job_id),
    ensures
        final(registry).wf(),
        extends(final(registry)@, old(registry)@),
        final(registry)@ == with_attribute(
            with_attribute(
                with_attribute(
                    with_attribute(
                        with_attribute(
                            old(registry)@,
                            job_key(replay@.base.job_id),
                            version(
                                JobAttribute::Command,
                                Value::Text(file_name(replay@.base.command)),
                                replay@.base_time,
                            ),
                        ),
                        job_key(replay@.base.job_id),
                        version(
                            JobAttribute::WorkDir,
                            Value::Text(replay@.base.work_dir),
                            replay@.base_time,
                        ),
                    ),
                    job_key(replay@.base.job_id),
                    version(JobAttribute::Cpus, Value::Integer(replay@.base.cpus), replay@.base_time),
                ),
                job_key(replay@.base.job_id),
                version(
                    JobAttribute::MinMemory,
                    Value::Text(replay@.base.min_memory),
                    replay@.base_time,
                ),
            ),
            job_key(replay@.base.job_id),
            version(
                JobAttribute::State,
                Value::Text(state_text(replay@.base.state)),
                replay@.base_time,
            ),
        ),
{
    let base = &replay.base;
    let at = replay.base_time;
    registry.observe(slot, JobAttribute::Command, Value::Text(command_name(&base.command)), at);
    registry.observe(slot, JobAttribute::WorkDir, Value::Text(base.work_dir.clone()), at);
    registry.observe(slot, JobAttribute::Cpus, Value::Integer(base.cpus), at);
    registry.observe(slot, JobAttribute::MinMemory, Value::Text(base.min_memory.clone()), at);
    registry.observe(slot, JobAttribute::State, Value::Text(state_label(&base.state)), at);
}

/// Relates the object at `slot` to the account, group and partition of the
/// base snapshot of a job, and to its host where one is known.
fn enroll_related(registry: &mut Registry, slot: usize, replay: &Replay)
    requires
        old(registry).wf(),
        slot < old(registry)@.len(),
        old(registry)@[slot as int].id == job_key(replay@.base.job_id),
    ensures
        final(registry).wf(),
        extends(final(registry)@, old(registry)@),
        has_object(final(registry)@, object_key(EntityKind::Account, replay@.base.account)),
        final(registry)@ == (match replay@.base.exec_host {
            Some(host) => related(
                related(
                    related(
                        related(
                            old(registry)@,
                            job_key(replay@.base.job_id),
                            relation(
                                EntityKind::Account,
                                replay@.base.account,
                                Qualifier::SubmittedBy,
                            ),
                        ),
                        job_key(replay@.base.job_id),
                        relation(
                            EntityKind::Group,
                            replay@.base.group,
                            Qualifier::SubmittedByGroup,
                        ),
                    ),
                    job_key(replay@.base.job_id),
                    relation(
                        EntityKind::Partition,
                        replay@.base.partition,
                        Qualifier::SubmittedOn,
                    ),
                ),
                job_key(replay@.base.job_id),
                relation(EntityKind::Host, host, Qualifier::ExecutedOn),
            ),
            None => related(
                related(
                    related(
                        old(registry)@,
                        job_key(replay@.base.job_id),
                        relation(EntityKind::Account, replay@.base.account, Qualifier::SubmittedBy),
                    ),
                    job_key(replay@.base.job_id),
                    relation(EntityKind::Group, replay@.base.group, Qualifier::SubmittedByGroup),
                ),
                job_key(replay@.base.job_id),
                relation(EntityKind::Partition, replay@.base.partition, Qualifier::SubmittedOn),
            ),
        }),
{
    let base = &replay.base;
    let ghost account = object_key(EntityKind::Account, base@.account);
    registry.relate(slot, EntityKind::Account, &base.account, Qualifier::SubmittedBy);
    let ghost first = registry@;
    proof {
        lemma_intern_keeps_order(old(registry)@, account);
        let entered = intern(old(registry)@, account);
        lemma_with_relationship_keeps_order(
            entered,
            job_key(base@.job_id),
            relation(EntityKind::Account, base@.account, Qualifier::SubmittedBy),
        );
    }
    registry.relate(slot, EntityKind::Group, &base.group, Qualifier::SubmittedByGroup);
    registry.relate(slot, EntityKind::Partition, &base.partition, Qualifier::SubmittedOn);
    if let Some(host) = &base.exec_host {
        registry.relate(slot, EntityKind::Host, host, Qualifier::ExecutedOn);
    }
    proof {
        lemma_extends_keeps_objects(registry@, first, account);
    }
}

/// Takes up one changed field of a step of the job whose object is at
/// `slot`.
fn enroll_change_at(registry: &mut Registry, slot: usize, at: Timestamp, change: &FieldChange)
    requires
        old(registry).wf(),
        slot < old(registry)@.len(),
    ensures
        final(registry).wf(),
        extends(final(registry)@, old(registry)@),
        final(registry)@ == enroll_change(
            old(registry)@,
            old(registry)@[slot as int].id,
            at,
            change@,
        ),
{
    match change {
        Change::Command(v) => {
            registry.observe(slot, JobAttribute::Command, Value::Text(command_name(v)), at);
        },
        Change::WorkDir(v) => {
            registry.observe(slot, JobAttribute::WorkDir, Value::Text(v.clone()), at);
        },
        Change::Cpus(v) => {
            registry.observe(slot, JobAttribute::Cpus, Value::Integer(*v), at);
        },
        Change::MinMemory(v) => {
            registry.observe(slot, JobAttribute::MinMemory, Value::Text(v.clone()), at);
        },
        Change::State(v) => {
            registry.observe(slot, JobAttribute::State, Value::Text(state_label(v)), at);
        },
        Change::Account(v) => {
            registry.relate(slot, EntityKind::Account, v, Qualifier::SubmittedBy);
        },
        Change::Group(v) => {
            registry.relate(slot, EntityKind::Group, v, Qualifier::SubmittedByGroup);
        },
        Change::Partition(v) => {
            registry.relate(slot, EntityKind::Partition, v, Qualifier::SubmittedOn);
        },
        Change::ExecHost(Some(v)) => {
            registry.relate(slot, EntityKind::Host, v, Qualifier::ExecutedOn);
        },
        _ => {},
    }
}

/// Takes up a step of the job whose object is at `slot`.
fn enroll_step(registry: &mut Registry, slot: usize, step: &Step)
    requires
        old(registry).wf(),
        slot < old(registry)@.len(),
    ensures
        final(registry).wf(),
        extends(final(registry)@, old(registry)@),
        final(registry)@ == enroll_changes(
            old(registry)@,
            old(registry)@[slot as int].id,
            step@.time,
            step@.changed,
            step@.changed.len(),
        ),
{
    let ghost key = registry@[slot as int].id;
    let mut i: usize = 0;
    while i < step.changed.len()
        invariant
            i <= step.changed.len(),
            registry.wf(),
            extends(registry@, old(registry)@),
            slot < old(registry)@.len(),
            key == old(registry)@[slot as int].id,
            registry@ == enroll_changes(old(registry)@, key, step@.time, step@.changed, i as nat),
        decreases step.changed.len() - i,
    {
        enroll_change_at(registry, slot, step.time, &step.changed[i]);
        i = i + 1;
    }
}

/// Enters a replayed job and what it refers to.
pub fn enroll(registry: &mut Registry, replay: &Replay)
    requires
        old(registry).wf(),
    ensures
        final(registry).wf(),
        final(registry)@ == enrolled(old(registry)@, replay@),
        extends(final(registry)@, old(registry)@),
        has_object(final(registry)@, job_key(replay@.base.job_id)),
        has_object(final(registry)@, object_key(EntityKind::Account, replay@.base.account)),
{
    let ghost key = job_key(replay@.base.job_id);
    let ghost account = object_key(EntityKind::Account, replay@.base.account);
    let slot = registry.register(EntityKind::Job, &replay.base.job_id);
    let ghost entered = registry@;
    assert(extends(entered, old(registry)@));
    enroll_described(registry, slot, replay);
    enroll_related(registry, slot, replay);
    let ghost based = registry@;
    assert(based == enroll_base(old(registry)@, replay@.base, replay@.base_time));
    assert(extends(based, old(registry)@));
    let mut i: usize = 0;
    while i < replay.steps.len()
        invariant
            i <= replay.steps.len(),
            registry.wf(),
            extends(registry@, based),
            slot < based.len(),
            based[slot as int].id == key,
            key == job_key(replay@.base.job_id),
            registry@ == enroll_steps(based, key, replay@.steps, i as nat),
        decreases replay.steps.len() - i,
    {
        assert(replay@.steps[i as int] == replay.steps@[i as int]@);
        let ghost before = registry@;
        enroll_step(registry, slot, &replay.steps[i]);
        assert(extends(registry@, before));
        i = i + 1;
    }
    proof {
        assert(based[slot as int].id == key);
        assert(has_object(based, key));
        lemma_extends_keeps_objects(registry@, based, key);
        lemma_extends_keeps_objects(registry@, based, account);
    }
}

} // verus!
