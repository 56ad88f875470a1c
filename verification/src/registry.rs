//! The registry of the objects of one run.
//!
//! Whatever a job refers to (its account, group, partition and host, and
//! the job itself) is entered under its kind and name. An object is made
//! when it is first entered and stays for the rest of the run; entering it
//! again changes nothing. So no two objects of a registry have the same
//! identifier, and every relationship of an object leads to an object of the
//! registry.

use vstd::prelude::*;
use crate::instant::Timestamp;
use crate::model::{views, lemma_views_push, lemma_views_empty};
use crate::record::{
    EntityKind, Qualifier, ObjectKey, ObjectIdModel, ObjectRecord, ObjectModel, Relation,
    Relationship, RelationshipModel, JobAttribute, AttrValue, AttrValueModel, AttributeVersion,
    AttributeVersionModel, Version, relation, object_key,
};

verus! {

/// Some object of the list has the identifier.
pub open spec fn has_object(objects: Seq<ObjectModel>, key: ObjectIdModel) -> bool {
    exists|i: int| 0 <= i < objects.len() && (#[trigger] objects[i]).id == key
}

/// No two objects of the list have the same identifier.
pub open spec fn keys_distinct(objects: Seq<ObjectModel>) -> bool {
    forall|i: int, j: int|
        0 <= i < j < objects.len() ==> (#[trigger] objects[i]).id != (#[trigger] objects[j]).id
}

/// Every relationship of every object of the list leads to an object of
/// the list.
pub open spec fn targets_present(objects: Seq<ObjectModel>) -> bool {
    forall|i: int, k: int|
        0 <= i < objects.len() && 0 <= k < objects[i].relationships.len() ==> has_object(
            objects,
            (#[trigger] objects[i].relationships[k]).target,
        )
}

/// The object that has an identifier and nothing else.
pub open spec fn bare(key: ObjectIdModel) -> ObjectModel {
    ObjectModel { id: key, attributes: Seq::empty(), relationships: Seq::empty() }
}

/// The objects after one is entered: as before where an object has the
/// identifier, and else with a bare object of that identifier at the end.
pub open spec fn intern(objects: Seq<ObjectModel>, key: ObjectIdModel) -> Seq<ObjectModel> {
    if has_object(objects, key) {
        objects
    } else {
        objects.push(bare(key))
    }
}

/// The value of the newest version of an attribute, if there is a version.
pub open spec fn latest(
    attributes: Seq<AttributeVersionModel>,
    name: JobAttribute,
) -> Option<AttrValueModel>
    decreases attributes.len(),
{
    if attributes.len() == 0 {
        None
    } else if attributes.last().name == name {
        Some(attributes.last().value)
    } else {
        latest(attributes.drop_last(), name)
    }
}

/// The versions after a value was observed: a value that the attribute has
/// already keeps the instant at which it was first observed, and any other
/// becomes the newest version, with the instant of this observation.
pub open spec fn stamp(
    attributes: Seq<AttributeVersionModel>,
    version: AttributeVersionModel,
) -> Seq<AttributeVersionModel> {
    if latest(attributes, version.name) == Some(version.value) {
        attributes
    } else {
        attributes.push(version)
    }
}

/// The objects after a value of an attribute was observed on the object of
/// an identifier.
pub open spec fn with_attribute(
    objects: Seq<ObjectModel>,
    key: ObjectIdModel,
    version: AttributeVersionModel,
) -> Seq<ObjectModel> {
    Seq::new(
        objects.len(),
        |i: int|
            if objects[i].id == key {
                ObjectModel { attributes: stamp(objects[i].attributes, version), ..objects[i] }
            } else {
                objects[i]
            },
    )
}

/// The relationships with one more, unless it is among them already.
pub open spec fn joined(
    relationships: Seq<RelationshipModel>,
    relationship: RelationshipModel,
) -> Seq<RelationshipModel> {
    if relationships.contains(relationship) {
        relationships
    } else {
        relationships.push(relationship)
    }
}

/// The objects after the object of an identifier was given a relationship,
/// which it has once however often it is given.
pub open spec fn with_relationship(
    objects: Seq<ObjectModel>,
    key: ObjectIdModel,
    relationship: RelationshipModel,
) -> Seq<ObjectModel> {
    Seq::new(
        objects.len(),
        |i: int|
            if objects[i].id == key {
                ObjectModel {
                    relationships: joined(objects[i].relationships, relationship),
                    ..objects[i]
                }
            } else {
                objects[i]
            },
    )
}

/// The objects after the object of an identifier was related to another
/// object, which is entered first.
pub open spec fn related(
    objects: Seq<ObjectModel>,
    key: ObjectIdModel,
    relationship: RelationshipModel,
) -> Seq<ObjectModel> {
    with_relationship(intern(objects, relationship.target), key, relationship)
}

/// The registry of one run.
#[derive(Clone, Debug, PartialEq, Eq)]
pub struct Registry {
    objects: Vec<ObjectRecord>,
}

impl View for Registry {
    type V = Seq<ObjectModel>;

    closed spec fn view(&self) -> Seq<ObjectModel> {
        views(self.objects@)
    }
}

/// The value of the newest version of an attribute, if there is a version.
fn newest<'a>(attributes: &'a Vec<AttributeVersion>, name: JobAttribute) -> (value: Option<
    &'a AttrValue,
>)
    ensures
        match value {
            Some(found) => latest(views(attributes@), name) == Some(found@),
            None => latest(views(attributes@), name) is None,
        },
{
    let mut i: usize = attributes.len();
    assert(views(attributes@).take(i as int) =~= views(attributes@));
    while i > 0
        invariant
            i <= attributes.len(),
            latest(views(attributes@), name) == latest(views(attributes@).take(i as int), name),
        decreases i,
    {
        let ghost upto = views(attributes@).take(i as int);
        assert(upto.drop_last() =~= views(attributes@).take(i - 1));
        if attributes[i - 1].name == name {
            return Some(&attributes[i - 1].value);
        }
        i = i - 1;
    }
    None
}

impl Registry {
    /// No two objects have the same identifier, and every relationship
    /// leads to an object of the registry.
    pub open spec fn wf(&self) -> bool {
        keys_distinct(self@) && targets_present(self@)
    }

    /// A registry without objects.
    pub fn new() -> (registry: Registry)
        ensures
            registry.wf(),
            registry@ == Seq::<ObjectModel>::empty(),
    {
        proof {
            lemma_views_empty::<ObjectRecord>();
        }
        Registry { objects: Vec::new() }
    }

    /// The number of objects.
    pub fn len(&self) -> (count: usize)
        ensures
            count == self@.len(),
    {
        self.objects.len()
    }

    /// The objects, in the order in which they were first entered.
    pub fn objects(&self) -> (objects: &Vec<ObjectRecord>)
        ensures
            views(objects@) == self@,
    {
        &self.objects
    }

    /// Hands over the objects, in the order in which they were first
    /// entered.
    pub fn into_objects(self) -> (objects: Vec<ObjectRecord>)
        ensures
            views(objects@) == self@,
    {
        self.objects
    }

    /// Where the object of a kind and a name stands, if it was entered.
    pub fn find(&self, kind: EntityKind, name: &String) -> (slot: Option<usize>)
        ensures
            match slot {
                Some(i) => i < self@.len() && self@[i as int].id == object_key(kind, name@)
                    && forall|j: int| 0 <= j < i ==> (#[trigger] self@[j]).id != object_key(
                    kind,
                    name@,
                ),
                None => !has_object(self@, object_key(kind, name@)),
            },
    {
        let mut i: usize = 0;
        while i < self.objects.len()
            invariant
                i <= self.objects.len(),
                forall|j: int| 0 <= j < i ==> (#[trigger] self@[j]).id != object_key(kind, name@),
            decreases self.objects.len() - i,
        {
            if self.objects[i].id.names(kind, name) {
                return Some(i);
            }
            i = i + 1;
        }
        None
    }

    /// Enters the object of a kind and a name, and says where it stands.
    /// An object that was entered before is found again, unchanged, at the
    /// place it has had since.
    pub fn register(&mut self, kind: EntityKind, name: &String) -> (slot: usize)
        requires
            old(self).wf(),
        ensures
            final(self).wf(),
            final(self)@ == intern(old(self)@, object_key(kind, name@)),
            slot < final(self)@.len(),
            final(self)@[slot as int].id == object_key(kind, name@),
    {
        match self.find(kind, name) {
            Some(slot) => slot,
            None => {
                let object = ObjectRecord {
                    id: ObjectKey::new(kind, name),
                    attributes: Vec::new(),
                    relationships: Vec::new(),
                };
                proof {
                    lemma_views_empty::<AttributeVersion>();
                    lemma_views_empty::<Relation<String>>();
                    lemma_views_push(self.objects@, object);
                    lemma_intern_keeps_order(old(self)@, object_key(kind, name@));
                }
                self.objects.push(object);
                self.objects.len() - 1
            },
        }
    }

    /// Records a value of an attribute, observed at `at`, on the object at
    /// `slot`. A value that the attribute has already keeps the instant at
    /// which it was first observed; any other becomes the attribute's newest
    /// version.
    pub fn observe(&mut self, slot: usize, name: JobAttribute, value: AttrValue, at: Timestamp)
        requires
            old(self).wf(),
            slot < old(self)@.len(),
        ensures
            final(self).wf(),
            final(self)@ == with_attribute(
                old(self)@,
                old(self)@[slot as int].id,
                Version { name, value: value@, observed_at: at },
            ),
    {
        let ghost version = Version { name, value: value@, observed_at: at };
        let ghost key = self@[slot as int].id;
        let known = match newest(&self.objects[slot].attributes, name) {
            Some(found) => found.same(&value),
            None => false,
        };
        if !known {
            let entry = Version { name, value, observed_at: at };
            proof {
                lemma_views_push(self.objects@[slot as int].attributes@, entry);
            }
            self.objects[slot].attributes.push(entry);
        }
        proof {
            assert(self@ =~= with_attribute(old(self)@, key, version));
            lemma_with_attribute_keeps_order(old(self)@, key, version);
        }
    }

    /// Relates the object at `slot` to the object of a kind and a name,
    /// which is entered first. A relationship that the object has already
    /// is not added again.
    pub fn relate(&mut self, slot: usize, kind: EntityKind, name: &String, qualifier: Qualifier)
        requires
            old(self).wf(),
            slot < old(self)@.len(),
        ensures
            final(self).wf(),
            final(self)@ == related(
                old(self)@,
                old(self)@[slot as int].id,
                relation(kind, name@, qualifier),
            ),
    {
        let ghost key = self@[slot as int].id;
        self.register(kind, name);
        let ghost entered = self@;
        let relationship = Relation::new(kind, name, qualifier);
        if !has_relationship(&self.objects[slot].relationships, &relationship) {
            proof {
                lemma_views_push(self.objects@[slot as int].relationships@, relationship);
            }
            self.objects[slot].relationships.push(relationship);
        }
        proof {
            assert(self@ =~= with_relationship(entered, key, relationship@));
            lemma_with_relationship_keeps_order(entered, key, relationship@);
        }
    }
}

/// Whether a relationship is among some relationships.
pub fn has_relationship(relationships: &Vec<Relationship>, relationship: &Relationship) -> (found:
    bool)
    ensures
        found == views(relationships@).contains(relationship@),
{
    let mut k: usize = 0;
    while k < relationships.len()
        invariant
            k <= relationships.len(),
            forall|j: int| 0 <= j < k ==> (#[trigger] views(relationships@)[j]) != relationship@,
        decreases relationships.len() - k,
    {
        if relationships[k].target.same(&relationship.target) && relationships[k].qualifier
            == relationship.qualifier {
            assert(views(relationships@)[k as int] == relationship@);
            return true;
        }
        k = k + 1;
    }
    false
}

/// Entering an object keeps what holds of a registry, and the object is
/// there afterwards, as is every object that was there before.
pub proof fn lemma_intern_keeps_order(objects: Seq<ObjectModel>, key: ObjectIdModel)
    requires
        keys_distinct(objects),
        targets_present(objects),
    ensures
        keys_distinct(intern(objects, key)),
        targets_present(intern(objects, key)),
        has_object(intern(objects, key), key),
        forall|other: ObjectIdModel|
            has_object(objects, other) ==> has_object(intern(objects, key), other),
{
    let after = intern(objects, key);
    if !has_object(objects, key) {
        assert(after[objects.len() as int].id == key);
        assert forall|i: int, j: int| 0 <= i < j < after.len() implies (#[trigger] after[i]).id != (
        #[trigger] after[j]).id by {
            if j == objects.len() {
                assert(objects[i].id != key);
            }
        }
        assert forall|other: ObjectIdModel| has_object(objects, other) implies has_object(
            after,
            other,
        ) by {
            let i = choose|i: int| 0 <= i < objects.len() && (#[trigger] objects[i]).id == other;
            assert(after[i].id == other);
        }
        assert forall|i: int, k: int|
            0 <= i < after.len() && 0 <= k < after[i].relationships.len() implies has_object(
            after,
            (#[trigger] after[i].relationships[k]).target,
        ) by {
            assert(i < objects.len());
            assert(has_object(objects, objects[i].relationships[k].target));
        }
    }
}

/// Every object that is among some objects is among them whatever was
/// observed of an attribute.
pub proof fn lemma_with_attribute_keeps_order(
    objects: Seq<ObjectModel>,
    key: ObjectIdModel,
    version: AttributeVersionModel,
)
    requires
        keys_distinct(objects),
        targets_present(objects),
    ensures
        keys_distinct(with_attribute(objects, key, version)),
        targets_present(with_attribute(objects, key, version)),
        forall|other: ObjectIdModel|
            has_object(objects, other) <==> has_object(with_attribute(objects, key, version), other),
{
    let after = with_attribute(objects, key, version);
    assert forall|other: ObjectIdModel| has_object(objects, other) <==> has_object(
        after,
        other,
    ) by {
        if has_object(objects, other) {
            let i = choose|i: int| 0 <= i < objects.len() && (#[trigger] objects[i]).id == other;
            assert(after[i].id == other);
        }
        if has_object(after, other) {
            let i = choose|i: int| 0 <= i < after.len() && (#[trigger] after[i]).id == other;
            assert(objects[i].id == other);
        }
    }
    assert forall|i: int, k: int|
        0 <= i < after.len() && 0 <= k < after[i].relationships.len() implies has_object(
        after,
        (#[trigger] after[i].relationships[k]).target,
    ) by {
        assert(after[i].relationships == objects[i].relationships);
        assert(has_object(objects, objects[i].relationships[k].target));
    }
    assert forall|i: int, j: int| 0 <= i < j < after.len() implies (#[trigger] after[i]).id != (
    #[trigger] after[j]).id by {
        assert(objects[i].id != objects[j].id);
    }
}

/// A relationship to an object that is among some objects keeps what holds
/// of a registry.
pub proof fn lemma_with_relationship_keeps_order(
    objects: Seq<ObjectModel>,
    key: ObjectIdModel,
    relationship: RelationshipModel,
)
    requires
        keys_distinct(objects),
        targets_present(objects),
        has_object(objects, relationship.target),
    ensures
        keys_distinct(with_relationship(objects, key, relationship)),
        targets_present(with_relationship(objects, key, relationship)),
        forall|other: ObjectIdModel|
            has_object(objects, other) <==> has_object(
                with_relationship(objects, key, relationship),
                other,
            ),
{
    let after = with_relationship(objects, key, relationship);
    assert forall|other: ObjectIdModel| has_object(objects, other) <==> has_object(
        after,
        other,
    ) by {
        if has_object(objects, other) {
            let i = choose|i: int| 0 <= i < objects.len() && (#[trigger] objects[i]).id == other;
            assert(after[i].id == other);
        }
        if has_object(after, other) {
            let i = choose|i: int| 0 <= i < after.len() && (#[trigger] after[i]).id == other;
            assert(objects[i].id == other);
        }
    }
    assert forall|i: int, k: int|
        0 <= i < after.len() && 0 <= k < after[i].relationships.len() implies has_object(
        after,
        (#[trigger] after[i].relationships[k]).target,
    ) by {
        if k < objects[i].relationships.len() {
            assert(after[i].relationships[k] == objects[i].relationships[k]);
            assert(has_object(objects, objects[i].relationships[k].target));
        } else {
            assert(after[i].relationships[k] == relationship);
        }
        assert(has_object(objects, after[i].relationships[k].target));
    }
    assert forall|i: int, j: int| 0 <= i < j < after.len() implies (#[trigger] after[i]).id != (
    #[trigger] after[j]).id by {
        assert(objects[i].id != objects[j].id);
    }
}

/// Entering an object a second time changes nothing: the registry holds
/// exactly one object of that identifier, the one made at the first time.
pub proof fn lemma_intern_twice(objects: Seq<ObjectModel>, key: ObjectIdModel)
    requires
        keys_distinct(objects),
    ensures
        intern(intern(objects, key), key) == intern(objects, key),
        forall|i: int, j: int|
            0 <= i < intern(objects, key).len() && 0 <= j < intern(objects, key).len()
                && intern(objects, key)[i].id == key && intern(objects, key)[j].id == key ==> i
                == j,
{
    let once = intern(objects, key);
    if !has_object(objects, key) {
        assert(once[objects.len() as int].id == key);
        assert forall|i: int, j: int|
            0 <= i < once.len() && 0 <= j < once.len() && once[i].id == key && once[j].id
                == key implies i == j by {
            if i < objects.len() {
                assert(objects[i].id == key);
            }
            if j < objects.len() {
                assert(objects[j].id == key);
            }
        }
    }
}

} // verus!
