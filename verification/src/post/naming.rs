//! The naming conventions of the directories under a creator.

use super::date::{date_from_fields, parse_date, parsed_date, PostDate};
use crate::text::{chars_of, read_decimal, reading, Reading};
use vstd::prelude::*;
use vstd::string::*;

verus! {

/// Number of characters of a date prefix, `YYYY-MM-DD-`.
pub const DATE_PREFIX_LEN: usize = 11;

/// What the name of a directory under a creator stands for.
#[derive(Debug, PartialEq, Eq)]
pub enum DirectoryKind {
    /// The files of a support plan; the number is its price in yen.
    Plan(u32),
    /// One post, with the day it was published and its title.
    Post(PostDate, String),
    /// Nothing that the archive knows.
    Ignored,
}

/// The mathematical content of a [`DirectoryKind`].
pub enum DirectoryKindView {
    Plan(u32),
    Post(PostDate, Seq<char>),
    Ignored,
}

impl View for DirectoryKind {
    type V = DirectoryKindView;

    open spec fn view(&self) -> DirectoryKindView {
        match *self {
            DirectoryKind::Plan(price) => DirectoryKindView::Plan(price),
            DirectoryKind::Post(date, title) => DirectoryKindView::Post(date, title@),
            DirectoryKind::Ignored => DirectoryKindView::Ignored,
        }
    }
}

/// The name of a plan directory whose price does not fit in 32 bits.
#[derive(Debug, Clone, Copy, PartialEq, Eq, Structural)]
pub struct MalformedPlan;

/// `name` ends in `yen`.
pub open spec fn ends_in_yen(name: Seq<char>) -> bool {
    &&& name.len() >= 3
    &&& name[name.len() - 3] == 'y'
    &&& name[name.len() - 2] == 'e'
    &&& name[name.len() - 1] == 'n'
}

/// How `name` reads as a plan directory, `<digits>yen`.
pub open spec fn plan_reading(name: Seq<char>) -> Reading {
    if ends_in_yen(name) {
        reading(name.take(name.len() - 3))
    } else {
        Reading::NotANumber
    }
}

/// The date that the first characters of `name` write, if `name` is long
/// enough to hold a date prefix and the prefix parses.
pub open spec fn date_prefix(name: Seq<char>) -> Option<PostDate> {
    if name.len() >= DATE_PREFIX_LEN {
        date_from_fields(parsed_date(name.take(DATE_PREFIX_LEN as int)))
    } else {
        None
    }
}

/// The kind of the directory `name`, given the date that its prefix writes.
///
/// The plan pattern is tried first. A name that fits it never becomes a
/// post, even where it also begins with a date; a price that is too large
/// makes the name malformed. Any other name is a post if it is at least as
/// long as a date prefix and a date was read, with the rest of the name as
/// title; otherwise it is ignored.
pub open spec fn directory_kind(name: Seq<char>, date: Option<PostDate>) -> Result<
    DirectoryKindView,
    MalformedPlan,
> {
    match plan_reading(name) {
        Reading::Value(price) => Ok(DirectoryKindView::Plan(price)),
        Reading::TooLarge => Err(MalformedPlan),
        Reading::NotANumber => match date {
            Some(day) if name.len() >= DATE_PREFIX_LEN => Ok(
                DirectoryKindView::Post(day, name.skip(DATE_PREFIX_LEN as int)),
            ),
            _ => Ok(DirectoryKindView::Ignored),
        },
    }
}

/// Reads `name` as a plan directory.
pub fn read_plan(name: &str) -> (r: Reading)
    ensures
        r == plan_reading(name@),
{
    let chars = chars_of(name);
    let n = chars.len();
    if n >= 3 && chars[n - 3] == 'y' && chars[n - 2] == 'e' && chars[n - 1] == 'n' {
        read_decimal(&chars, n - 3)
    } else {
        Reading::NotANumber
    }
}

/// Classifies the directory `name`, given the date that was read from its
/// first [`DATE_PREFIX_LEN`] characters.
pub fn classify_with_date(name: &str, date: Option<PostDate>) -> (r: Result<
    DirectoryKind,
    MalformedPlan,
>)
    ensures
        r is Ok == directory_kind(name@, date) is Ok,
        r matches Ok(kind) ==> directory_kind(name@, date) == Ok::<_, MalformedPlan>(kind@),
{
    match read_plan(name) {
        Reading::Value(price) => Ok(DirectoryKind::Plan(price)),
        Reading::TooLarge => Err(MalformedPlan),
        Reading::NotANumber => {
            let n = name.unicode_len();
            match date {
                Some(day) if n >= DATE_PREFIX_LEN => {
                    let title = String::from_str(name.substring_char(DATE_PREFIX_LEN, n));
                    assert(name@.subrange(DATE_PREFIX_LEN as int, n as int) =~= name@.skip(
                        DATE_PREFIX_LEN as int,
                    ));
                    Ok(DirectoryKind::Post(day, title))
                },
                _ => Ok(DirectoryKind::Ignored),
            }
        },
    }
}

/// Reads the date prefix of `name`.
pub fn read_date_prefix(name: &str) -> (date: Option<PostDate>)
    ensures
        date == date_prefix(name@),
        date matches Some(d) ==> 1 <= d.month <= 12 && 1 <= d.day <= 31,
{
    let n = name.unicode_len();
    if n >= DATE_PREFIX_LEN {
        let prefix = name.substring_char(0, DATE_PREFIX_LEN);
        assert(name@.subrange(0, DATE_PREFIX_LEN as int) =~= name@.take(DATE_PREFIX_LEN as int));
        parse_date(prefix)
    } else {
        None
    }
}

/// Classifies the directory `name` by the naming conventions: `<digits>yen`
/// is a plan, a name that begins with a date `YYYY-MM-DD-` is a post, any
/// other name is ignored.
pub fn classify_directory(name: &str) -> (r: Result<DirectoryKind, MalformedPlan>)
    ensures
        r is Ok == directory_kind(name@, date_prefix(name@)) is Ok,
        r matches Ok(kind) ==> directory_kind(name@, date_prefix(name@)) == Ok::<_, MalformedPlan>(
            kind@,
        ),
{
    match read_plan(name) {
        Reading::NotANumber => {
            let date = read_date_prefix(name);
            classify_with_date(name, date)
        },
        _ => classify_with_date(name, None),
    }
}

} // verus!
