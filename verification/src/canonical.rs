//! Identifiers as text, for where a log is written out.
//!
//! An object's identifier is written as its kind, in short, an underscore,
//! and its name: `acc_physics`. An event's identifier is written as its job,
//! a hyphen, and its number among the events of the job in decimal:
//! `4711-2`. Identifiers that differ are written differently, so that what
//! is unique in a log stays unique in what is written.

use vstd::prelude::*;
use vstd::string::StringExecFns;
use crate::record::{
    EntityKind, ObjectKey, ObjectIdModel, ObjectModel, EventKey, EventIdModel, EventModel,
};
use crate::registry::keys_distinct;
use crate::assembly::event_ids_distinct;

verus! {

/// The digit for a number below ten.
pub open spec fn digit(value: nat) -> char {
    if value == 0 {
        '0'
    } else if value == 1 {
        '1'
    } else if value == 2 {
        '2'
    } else if value == 3 {
        '3'
    } else if value == 4 {
        '4'
    } else if value == 5 {
        '5'
    } else if value == 6 {
        '6'
    } else if value == 7 {
        '7'
    } else if value == 8 {
        '8'
    } else {
        '9'
    }
}

/// A number in decimal, without leading zeros.
pub open spec fn decimal(number: nat) -> Seq<char>
    decreases number,
{
    if number < 10 {
        seq![digit(number)]
    } else {
        decimal(number / 10).push(digit(number % 10))
    }
}

/// The short name of a kind of object, with the underscore that follows
/// it.
pub open spec fn kind_prefix(kind: EntityKind) -> Seq<char> {
    match kind {
        EntityKind::Job => "job_"@,
        EntityKind::Account => "acc_"@,
        EntityKind::Group => "group_"@,
        EntityKind::Host => "host_"@,
        EntityKind::Partition => "part_"@,
    }
}

/// An object's identifier as text.
pub open spec fn object_text(key: ObjectIdModel) -> Seq<char> {
    kind_prefix(key.kind) + key.name
}

/// An event's identifier as text.
pub open spec fn event_text(key: EventIdModel) -> Seq<char> {
    (key.job + seq!['-']) + decimal(key.ordinal as nat)
}

/// The digit for a number below ten, as a text.
fn digit_text(value: usize) -> (text: &'static str)
    requires
        value < 10,
    ensures
        text@ == seq![digit(value as nat)],
{
    proof {
        reveal_strlit("0");
        reveal_strlit("1");
        reveal_strlit("2");
        reveal_strlit("3");
        reveal_strlit("4");
        reveal_strlit("5");
        reveal_strlit("6");
        reveal_strlit("7");
        reveal_strlit("8");
        reveal_strlit("9");
    }
    let text = if value == 0 {
        "0"
    } else if value == 1 {
        "1"
    } else if value == 2 {
        "2"
    } else if value == 3 {
        "3"
    } else if value == 4 {
        "4"
    } else if value == 5 {
        "5"
    } else if value == 6 {
        "6"
    } else if value == 7 {
        "7"
    } else if value == 8 {
        "8"
    } else {
        "9"
    };
    text
}

/// A number in decimal, without leading zeros.
pub fn decimal_text(number: usize) -> (text: String)
    ensures
        text@ == decimal(number as nat),
    decreases number,
{
    if number < 10 {
        digit_text(number).to_owned()
    } else {
        let mut text = decimal_text(number / 10);
        text.append(digit_text(number % 10));
        text
    }
}

impl ObjectKey<String> {
    /// The identifier as text: the kind, in short, an underscore, and the
    /// name.
    pub fn text(&self) -> (text: String)
        ensures
            text@ == object_text(self@),
    {
        let prefix = match self.kind {
            EntityKind::Job => "job_",
            EntityKind::Account => "acc_",
            EntityKind::Group => "group_",
            EntityKind::Host => "host_",
            EntityKind::Partition => "part_",
        };
        let mut text = prefix.to_owned();
        text.append(self.name.as_str());
        text
    }
}

impl EventKey<String> {
    /// The identifier as text: the job, a hyphen, and the number of the
    /// event in decimal.
    pub fn text(&self) -> (text: String)
        ensures
            text@ == event_text(self@),
    {
        let mut text = self.job.clone();
        proof {
            reveal_strlit("-");
        }
        text.append("-");
        let number = decimal_text(self.ordinal);
        text.append(number.as_str());
        text
    }
}

/// A number in decimal is one digit or more, and nothing but digits: it
/// holds no hyphen.
pub proof fn lemma_decimal_is_digits(number: nat)
    ensures
        decimal(number).len() >= 1,
        forall|i: int| 0 <= i < decimal(number).len() ==> #[trigger] decimal(number)[i] != '-',
        number >= 10 ==> decimal(number).len() >= 2,
    decreases number,
{
    if number >= 10 {
        lemma_decimal_is_digits(number / 10);
    }
}

/// Numbers below ten that have the same digit are the same number.
proof fn lemma_digit_is_injective(one: nat, other: nat)
    requires
        one < 10,
        other < 10,
        digit(one) == digit(other),
    ensures
        one == other,
{
}

/// Numbers that are written the same in decimal are the same number.
pub proof fn lemma_decimal_is_injective(one: nat, other: nat)
    requires
        decimal(one) == decimal(other),
    ensures
        one == other,
    decreases one,
{
    lemma_decimal_is_digits(one);
    lemma_decimal_is_digits(other);
    if one < 10 || other < 10 {
        assert(decimal(one)[0] == digit(one));
        lemma_digit_is_injective(one, other);
    } else {
        let shorter = decimal(one / 10);
        let shorter_other = decimal(other / 10);
        assert(decimal(one).drop_last() =~= shorter);
        assert(decimal(other).drop_last() =~= shorter_other);
        assert(decimal(one).last() == digit(one % 10));
        lemma_decimal_is_injective(one / 10, other / 10);
        lemma_digit_is_injective(one % 10, other % 10);
    }
}

/// Objects whose identifiers are written the same have the same
/// identifier: no two kinds are written with the same first letter, and
/// what follows the kind is the name.
pub proof fn lemma_object_text_is_injective(one: ObjectIdModel, other: ObjectIdModel)
    requires
        object_text(one) == object_text(other),
    ensures
        one == other,
{
    reveal_strlit("job_");
    reveal_strlit("acc_");
    reveal_strlit("group_");
    reveal_strlit("host_");
    reveal_strlit("part_");
    let prefix = kind_prefix(one.kind);
    let prefix_other = kind_prefix(other.kind);
    assert(object_text(one)[0] == prefix[0]);
    assert(object_text(other)[0] == prefix_other[0]);
    assert(one.kind == other.kind);
    assert(object_text(one).skip(prefix.len() as int) =~= one.name);
    assert(object_text(other).skip(prefix.len() as int) =~= other.name);
}

/// Events whose identifiers are written the same have the same
/// identifier: the number holds no hyphen, so the last hyphen is the one
/// between the job and the number.
pub proof fn lemma_event_text_is_injective(one: EventIdModel, other: EventIdModel)
    requires
        event_text(one) == event_text(other),
    ensures
        one == other,
{
    let text = event_text(one);
    let number = decimal(one.ordinal as nat);
    let number_other = decimal(other.ordinal as nat);
    lemma_decimal_is_digits(one.ordinal as nat);
    lemma_decimal_is_digits(other.ordinal as nat);
    let hyphen = one.job.len() as int;
    let hyphen_other = other.job.len() as int;
    assert(text.len() == hyphen + 1 + number.len());
    assert(text.len() == hyphen_other + 1 + number_other.len());
    assert(text[hyphen] == '-');
    assert(event_text(other)[hyphen_other] == '-');
    if hyphen < hyphen_other {
        assert(text[hyphen_other] == number[hyphen_other - hyphen - 1]);
    } else if hyphen_other < hyphen {
        assert(event_text(other)[hyphen] == number_other[hyphen - hyphen_other - 1]);
    }
    assert(hyphen == hyphen_other);
    assert(text.take(hyphen) =~= one.job);
    assert(event_text(other).take(hyphen) =~= other.job);
    assert(text.skip(hyphen + 1) =~= number);
    assert(event_text(other).skip(hyphen + 1) =~= number_other);
    lemma_decimal_is_injective(one.ordinal as nat, other.ordinal as nat);
}

/// What is unique in a log is unique in what is written: where no two
/// objects and no two events have the same identifier, no two are written
/// the same.
pub proof fn lemma_written_identifiers_differ(objects: Seq<ObjectModel>, events: Seq<EventModel>)
    requires
        keys_distinct(objects),
        event_ids_distinct(events),
    ensures
        forall|i: int, j: int|
            0 <= i < j < objects.len() ==> object_text((#[trigger] objects[i]).id) != object_text(
                (#[trigger] objects[j]).id,
            ),
        forall|i: int, j: int|
            0 <= i < j < events.len() ==> event_text((#[trigger] events[i]).id) != event_text(
                (#[trigger] events[j]).id,
            ),
{
    assert forall|i: int, j: int| 0 <= i < j < objects.len() implies object_text(
        (#[trigger] objects[i]).id,
    ) != object_text((#[trigger] objects[j]).id) by {
        if object_text(objects[i].id) == object_text(objects[j].id) {
            lemma_object_text_is_injective(objects[i].id, objects[j].id);
        }
    }
    assert forall|i: int, j: int| 0 <= i < j < events.len() implies event_text(
        (#[trigger] events[i]).id,
    ) != event_text((#[trigger] events[j]).id) by {
        if event_text(events[i].id) == event_text(events[j].id) {
            lemma_event_text_is_injective(events[i].id, events[j].id);
        }
    }
}

} // verus!
