//! Reading the instant out of the stamp in a capture's file name.
//!
//! A stamp is an RFC 3339 date and time in which every `:` after the `T` is
//! written as `-`, since a file name cannot hold a colon:
//! `2025-01-04T00-55-04.789009695+00-00`. To read it, everything up to and
//! including the first `T` is kept, every `-` after it is turned back into
//! `:`, and the result is parsed as RFC 3339.

use vstd::prelude::*;
use vstd::string::StrSliceExecFns;
use vstd::string::StringExecFns;
use crate::instant::Timestamp;

verus! {

/// The first `count` characters of a text are all other than `T`.
pub open spec fn no_t_before(text: Seq<char>, count: int) -> bool {
    forall|i: int| 0 <= i < count ==> #[trigger] text[i] != 'T'
}

/// The position holds the first `T` of the text.
pub open spec fn first_t_at(text: Seq<char>, position: int) -> bool {
    0 <= position < text.len() && text[position] == 'T' && no_t_before(text, position)
}

/// The text with every `-` turned into `:`.
pub open spec fn colons_for_dashes(text: Seq<char>) -> Seq<char> {
    Seq::new(
        text.len(),
        |i: int|
            if text[i] == '-' {
                ':'
            } else {
                text[i]
            },
    )
}

/// The RFC 3339 text that a stamp with its first `T` at `position` stands
/// for.
pub open spec fn restored(stamp: Seq<char>, position: int) -> Seq<char> {
    stamp.take(position + 1) + colons_for_dashes(stamp.skip(position + 1))
}

/// The text is the RFC 3339 text that the stamp stands for.
pub open spec fn restores(stamp: Seq<char>, text: Seq<char>) -> bool {
    exists|position: int| first_t_at(stamp, position) && text == #[trigger] restored(stamp, position)
}

/// The instant that chrono's `DateTime::parse_from_rfc3339` reads out of a
/// text, as the seconds since 1970-01-01T00:00:00Z and the nanoseconds past
/// that second, or nothing where it does not accept the text.
pub uninterp spec fn rfc3339_instant(text: Seq<char>) -> Option<(i64, u32)>;

/// The instant of given seconds and nanoseconds, if they are given.
pub open spec fn timestamp_of(read: Option<(i64, u32)>) -> Option<Timestamp> {
    match read {
        Some((secs, nanos)) => Some(Timestamp { secs, nanos }),
        None => None,
    }
}

/// The instant that an RFC 3339 text stands for.
pub open spec fn instant_of(text: Seq<char>) -> Option<Timestamp> {
    timestamp_of(rfc3339_instant(text))
}

/// The instant is the one that the stamp stands for.
pub open spec fn stamp_reads(stamp: Seq<char>, instant: Timestamp) -> bool {
    exists|position: int|
        first_t_at(stamp, position) && instant_of(#[trigger] restored(stamp, position)) == Some(
            instant,
        )
}

/// The stamp stands for an instant.
pub open spec fn stamp_readable(stamp: Seq<char>) -> bool {
    exists|position: int|
        first_t_at(stamp, position) && instant_of(#[trigger] restored(stamp, position)) is Some
}

/// Where the first `T` of a text stands, if the text has one.
pub fn find_t(text: &str) -> (found: Option<usize>)
    ensures
        match found {
            Some(position) => first_t_at(text@, position as int),
            None => no_t_before(text@, text@.len() as int),
        },
{
    let length = text.unicode_len();
    let mut i: usize = 0;
    while i < length
        invariant
            i <= length,
            length == text@.len(),
            no_t_before(text@, i as int),
        decreases length - i,
    {
        if text.get_char(i) == 'T' {
            return Some(i);
        }
        i = i + 1;
    }
    None
}

/// The RFC 3339 text that a stamp stands for: the stamp as it is up to and
/// including its first `T`, and with `:` for every `-` after that. A stamp
/// without a `T` stands for none.
pub fn restore(stamp: &str) -> (text: Option<String>)
    ensures
        match text {
            Some(restored) => restores(stamp@, restored@),
            None => no_t_before(stamp@, stamp@.len() as int),
        },
{
    let position = match find_t(stamp) {
        Some(position) => position,
        None => {
            return None;
        },
    };
    let length = stamp.unicode_len();
    let mut text = stamp.substring_char(0, position + 1).to_owned();
    let ghost rest = stamp@.skip(position + 1);
    let mut i: usize = position + 1;
    while i < length
        invariant
            position < i <= length,
            length == stamp@.len(),
            rest == stamp@.skip(position + 1),
            text@ == stamp@.take(position + 1) + colons_for_dashes(rest).take(i - position - 1),
        decreases length - i,
    {
        if stamp.get_char(i) == '-' {
            proof {
                reveal_strlit(":");
            }
            text.append(":");
        } else {
            text.append(stamp.substring_char(i, i + 1));
        }
        i = i + 1;
    }
    assert(text@ == restored(stamp@, position as int));
    Some(text)
}

/// Calls chrono's `DateTime::parse_from_rfc3339` and hands back the instant
/// that it read, in UTC, as seconds since the epoch (`timestamp`) and
/// nanoseconds past the second (`timestamp_subsec_nanos`), or nothing where
/// chrono rejects the text. The contract claims only that this is the
/// instant named `rfc3339_instant` of the same text: the same text always
/// reads as the same instant.
#[verifier::external_body]
fn parse_rfc3339(text: &str) -> (instant: Option<Timestamp>)
    ensures
        instant == timestamp_of(rfc3339_instant(text@)),
{
    match chrono::DateTime::parse_from_rfc3339(text) {
        Ok(read) => Some(Timestamp { secs: read.timestamp(), nanos: read.timestamp_subsec_nanos() }),
        Err(_) => None,
    }
}

/// The first `T` of a text stands at one position only.
pub proof fn lemma_first_t_is_unique(text: Seq<char>, one: int, other: int)
    requires
        first_t_at(text, one),
        first_t_at(text, other),
    ensures
        one == other,
{
}

/// The instant that a stamp stands for.
pub fn extract_timestamp(s: &str) -> (instant: Timestamp)
    requires
        stamp_readable(s@),
    ensures
        stamp_reads(s@, instant),
{
    let ghost position = choose|position: int|
        first_t_at(s@, position) && instant_of(#[trigger] restored(s@, position)) is Some;
    match restore(s) {
        Some(text) => {
            proof {
                let found = choose|found: int|
                    first_t_at(s@, found) && text@ == #[trigger] restored(s@, found);
                lemma_first_t_is_unique(s@, position, found);
            }
            match parse_rfc3339(text.as_str()) {
                Some(instant) => instant,
                None => {
                    proof {
                        assert(false);
                    }
                    Timestamp { secs: 0, nanos: 0 }
                },
            }
        },
        None => {
            proof {
                assert(s@[position] == 'T');
                assert(false);
            }
            Timestamp { secs: 0, nanos: 0 }
        },
    }
}

/// The instant that a stamp stands for, or nothing where the stamp has no
/// `T` or what it stands for is not a date and time.
pub fn try_extract_timestamp(s: &str) -> (instant: Option<Timestamp>)
    ensures
        match instant {
            Some(read) => stamp_reads(s@, read),
            None => !stamp_readable(s@),
        },
{
    match restore(s) {
        Some(text) => {
            let ghost found = choose|found: int|
                first_t_at(s@, found) && text@ == #[trigger] restored(s@, found);
            match parse_rfc3339(text.as_str()) {
                Some(_) => Some(extract_timestamp(s)),
                None => {
                    proof {
                        if stamp_readable(s@) {
                            let position = choose|position: int|
                                first_t_at(s@, position) && instant_of(
                                    #[trigger] restored(s@, position),
                                ) is Some;
                            lemma_first_t_is_unique(s@, position, found);
                        }
                    }
                    None
                },
            }
        },
        None => {
            proof {
                if stamp_readable(s@) {
                    let position = choose|position: int|
                        first_t_at(s@, position) && instant_of(#[trigger] restored(s@, position))
                            is Some;
                    assert(s@[position] == 'T');
                }
            }
            None
        },
    }
}

} // verus!
