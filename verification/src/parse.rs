//! Reading a tier or a sort direction from text, whatever the case of its
//! letters.

use crate::entry::{Priority, Sort};
use std::str::FromStr;
use vstd::prelude::*;
use vstd::string::*;

verus! {

/// The lower-case form of an ASCII capital letter; any other character is
/// left as it is.
pub open spec fn lower(c: char) -> char {
    if 'A' <= c && c <= 'Z' {
        ((c as u8 + 32) as u8) as char
    } else {
        c
    }
}

/// `text` with each ASCII capital letter replaced by its lower-case form.
pub open spec fn lowercase(text: Seq<char>) -> Seq<char> {
    Seq::new(text.len(), |i: int| lower(text[i]))
}

/// The tier that `text` names: `info`, `debug` or `error` in any mix of
/// upper and lower case.
pub open spec fn priority_named(text: Seq<char>) -> Option<Priority> {
    if lowercase(text) == "info"@ {
        Some(Priority::Info)
    } else if lowercase(text) == "debug"@ {
        Some(Priority::Debug)
    } else if lowercase(text) == "error"@ {
        Some(Priority::Error)
    } else {
        None
    }
}

/// The direction that `text` names: `asc` or `desc` in any mix of upper and
/// lower case.
pub open spec fn sort_named(text: Seq<char>) -> Option<Sort> {
    if lowercase(text) == "asc"@ {
        Some(Sort::Ascending)
    } else if lowercase(text) == "desc"@ {
        Some(Sort::Descending)
    } else {
        None
    }
}

/// The message of the error for a text that names no tier.
pub open spec fn unknown_priority(text: Seq<char>) -> Seq<char> {
    "could not recognize priority: "@ + text
}

/// The message of the error for a text that names no direction.
pub open spec fn unknown_sort(text: Seq<char>) -> Seq<char> {
    "could not recognize sort order: "@ + text
}

/// Each name of a tier, in any case, is read as that tier, and no other
/// text is read as one.
pub proof fn lemma_priority_names(text: Seq<char>)
    ensures
        priority_named(text) == Some(Priority::Info) <==> lowercase(text) == "info"@,
        priority_named(text) == Some(Priority::Debug) <==> lowercase(text) == "debug"@,
        priority_named(text) == Some(Priority::Error) <==> lowercase(text) == "error"@,
        priority_named(text) is None <==> lowercase(text) != "info"@ && lowercase(text)
            != "debug"@ && lowercase(text) != "error"@,
{
    reveal_strlit("info");
    reveal_strlit("debug");
    reveal_strlit("error");
    assert("info"@[0] != "error"@[0]);
    assert("debug"@[0] != "error"@[0]);
}

/// Each name of a direction, in any case, is read as that direction, and no
/// other text is read as one.
pub proof fn lemma_sort_names(text: Seq<char>)
    ensures
        sort_named(text) == Some(Sort::Ascending) <==> lowercase(text) == "asc"@,
        sort_named(text) == Some(Sort::Descending) <==> lowercase(text) == "desc"@,
        sort_named(text) is None <==> lowercase(text) != "asc"@ && lowercase(text) != "desc"@,
{
    reveal_strlit("asc");
    reveal_strlit("desc");
    assert("asc"@.len() != "desc"@.len());
}

/// The name under which a tier is written is read back as that tier.
pub proof fn lemma_priority_name_is_read_back(priority: Priority)
    ensures
        priority_named(priority.name()) == Some(priority),
{
    reveal_strlit("info");
    reveal_strlit("debug");
    reveal_strlit("error");
    reveal_strlit("Info");
    reveal_strlit("Debug");
    reveal_strlit("Error");
    lemma_priority_names(priority.name());
    match priority {
        Priority::Info => {
            assert(lowercase("Info"@) =~= "info"@);
        },
        Priority::Debug => {
            assert(lowercase("Debug"@) =~= "debug"@);
        },
        Priority::Error => {
            assert(lowercase("Error"@) =~= "error"@);
        },
    }
}

fn to_lower(c: char) -> (l: char)
    ensures
        l == lower(c),
{
    if 'A' <= c && c <= 'Z' {
        ((c as u8 + 32) as u8) as char
    } else {
        c
    }
}

/// Whether `text` is `word` once its capital letters are put in lower case.
pub fn is_word(text: &str, word: &str) -> (same: bool)
    ensures
        same == (lowercase(text@) == word@),
{
    let len = text.unicode_len();
    if len != word.unicode_len() {
        return false;
    }
    let mut i: usize = 0;
    while i < len
        invariant
            i <= len,
            len == text@.len(),
            len == word@.len(),
            forall|k: int| 0 <= k < i ==> lower(text@[k]) == word@[k],
        decreases len - i,
    {
        if to_lower(text.get_char(i)) != word.get_char(i) {
            assert(lowercase(text@)[i as int] != word@[i as int]);
            return false;
        }
        i += 1;
    }
    assert(lowercase(text@) =~= word@);
    true
}

impl Priority {
    /// Reads a tier from its name, in any mix of upper and lower case. Any
    /// other text is an error that names it.
    pub fn parse(text: &str) -> (parsed: Result<Priority, String>)
        ensures
            match parsed {
                Ok(priority) => priority_named(text@) == Some(priority),
                Err(message) => priority_named(text@) is None && message@ == unknown_priority(
                    text@,
                ),
            },
    {
        if is_word(text, "info") {
            Ok(Priority::Info)
        } else if is_word(text, "debug") {
            Ok(Priority::Debug)
        } else if is_word(text, "error") {
            Ok(Priority::Error)
        } else {
            Err("could not recognize priority: ".to_owned().concat(text))
        }
    }
}

impl Sort {
    /// Reads a direction from its name, in any mix of upper and lower case.
    /// Any other text is an error that names it.
    pub fn parse(text: &str) -> (parsed: Result<Sort, String>)
        ensures
            match parsed {
                Ok(order) => sort_named(text@) == Some(order),
                Err(message) => sort_named(text@) is None && message@ == unknown_sort(text@),
            },
    {
        if is_word(text, "asc") {
            Ok(Sort::Ascending)
        } else if is_word(text, "desc") {
            Ok(Sort::Descending)
        } else {
            Err("could not recognize sort order: ".to_owned().concat(text))
        }
    }
}

impl FromStr for Priority {
    type Err = String;

    /// Reads a tier from its name, as [`Priority::parse`] does.
    fn from_str(s: &str) -> (parsed: Result<Priority, String>)
        ensures
            match parsed {
                Ok(priority) => priority_named(s@) == Some(priority),
                Err(message) => priority_named(s@) is None && message@ == unknown_priority(s@),
            },
    {
        Priority::parse(s)
    }
}

impl FromStr for Sort {
    type Err = String;

    /// Reads a direction from its name, as [`Sort::parse`] does.
    fn from_str(s: &str) -> (parsed: Result<Sort, String>)
        ensures
            match parsed {
                Ok(order) => sort_named(s@) == Some(order),
                Err(message) => sort_named(s@) is None && message@ == unknown_sort(s@),
            },
    {
        Sort::parse(s)
    }
}

} // verus!
