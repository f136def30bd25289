//! Clicks and keys whose meaning depends on what came shortly before.
use crate::date_input::{self, is_type_ahead_text};
use crate::text::{joined_text, same_text};
use vstd::prelude::*;

verus! {

/// Two clicks on one row within this time are a double click.
pub const DOUBLE_CLICK_MILLIS: u64 = 500;

/// At most half a second lies between two times.
pub open spec fn half_a_second(earlier: u64, later: u64) -> bool {
    2 * (later - earlier) <= 1000
}

/// The clicks on the rows of the table.
#[derive(Debug)]
pub struct RowClicks {
    pub last: Option<(i32, u64)>,
}

impl RowClicks {
    pub fn new() -> (r: Self)
        ensures
            r.last is None,
    {
        RowClicks { last: None }
    }

    /// Notes a click at a time in milliseconds; says whether it completes a
    /// double click.
    pub fn click(&mut self, index: i32, now: u64) -> (r: bool)
        ensures
            final(self).last == Some((index, now)),
            r == (old(self).last matches Some((i, t)) && i == index && now - t
                <= DOUBLE_CLICK_MILLIS),
            forall|t: u64|
                old(self).last == Some((index, t)) ==> r == #[trigger] half_a_second(t, now),
    {
        let double = match self.last {
            Some((i, t)) => i == index && (now <= t || now - t <= DOUBLE_CLICK_MILLIS),
            None => false,
        };
        self.last = Some((index, now));
        double
    }

    /// Forgets the clicks, once a double click opened a folder.
    pub fn forget(&mut self)
        ensures
            final(self).last is None,
    {
        self.last = None;
    }
}

/// Keys within this time are one search text.
pub const TYPE_AHEAD_MILLIS: u64 = 1_000;

/// The search text that is typed to find a file.
#[derive(Debug)]
pub struct TypeAhead {
    pub typed: String,
    pub last: Option<u64>,
}

/// The search text after one more key: a pause begins a new one, and the same
/// single key again stays one key.
pub open spec fn search_text(typed: Seq<char>, last: Option<u64>, key: Seq<char>, now: u64) -> Seq<
    char,
> {
    let kept = match last {
        Some(t) => if now - t > TYPE_AHEAD_MILLIS {
            Seq::empty()
        } else {
            typed
        },
        None => Seq::empty(),
    };
    if kept == key && key.len() == 1 {
        kept
    } else {
        kept + key
    }
}

impl TypeAhead {
    pub fn new() -> (r: Self)
        ensures
            r.typed@.len() == 0,
            r.last is None,
    {
        TypeAhead { typed: String::new(), last: None }
    }

    /// Takes a key at a time in milliseconds; gives the text to search for. No
    /// key ends the search, and a key without a character is not for it.
    pub fn key(&mut self, key: &str, now: u64) -> (r: Option<String>)
        ensures
            key@.len() == 0 ==> r is None && final(self).typed@.len() == 0 && final(self).last
                is None,
            key@.len() > 0 && !date_input::begins_search(key@) ==> r is None && *final(self)
                == *old(self),
            key@.len() > 0 && date_input::begins_search(key@) ==> {
                &&& r matches Some(t) && t@ == search_text(
                    old(self).typed@,
                    old(self).last,
                    key@,
                    now,
                )
                &&& final(self).typed@ == search_text(old(self).typed@, old(self).last, key@, now)
                &&& final(self).last == Some(now)
            },
    {
        if key.unicode_len() == 0 {
            self.typed = String::new();
            self.last = None;
            return None;
        }
        if !is_type_ahead_text(key) {
            return None;
        }
        let goes_on = match self.last {
            Some(t) => now <= t || now - t <= TYPE_AHEAD_MILLIS,
            None => false,
        };
        if !goes_on {
            self.typed = String::new();
        }
        if !(same_text(self.typed.as_str(), key) && key.unicode_len() == 1) {
            let text = joined_text(self.typed.as_str(), key);
            self.typed = text;
        }
        self.last = Some(now);
        Some(self.typed.clone())
    }
}

} // verus!
