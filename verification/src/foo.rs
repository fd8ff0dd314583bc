//! The validated record: a non-empty name together with a bounded age.

use crate::parse::ParseError;
use crate::parse::all_dec_digits;
use crate::parse::dec_val;
use crate::parse::digits_of;
use crate::parse::lemma_parse_u8_spec_ok;
use crate::parse::parse_u8;
use crate::parse::parse_u8_spec;
use vstd::prelude::*;

verus! {

/// Soft ceiling on an age: greater values are implausible for a person.
pub const AGE_MAX: u8 = 120;

/// The message rejecting an empty name.
pub open spec fn msg_blank_name() -> Seq<char> {
    "need non blank name"@
}

/// The message rejecting an empty age string.
pub open spec fn msg_blank_age() -> Seq<char> {
    "need non blank age"@
}

/// The message rejecting the hard limit: an age equal to `u8::MAX`.
pub open spec fn msg_invalid_age() -> Seq<char> {
    "invalid age"@
}

/// The message rejecting the soft limit: an age above `AGE_MAX`.
pub open spec fn msg_too_old() -> Seq<char> {
    "nobody's that old!"@
}

/// The first check that rejects the inputs, as the message it produces, or
/// `None` when every check passes. The order matters: an empty name wins
/// over an empty age string, which wins over a parse failure, which wins
/// over the hard limit (`u8::MAX`), which wins over the soft limit
/// (`AGE_MAX`).
pub open spec fn create_err(name: Seq<char>, age_str: Seq<char>) -> Option<Seq<char>> {
    if name.len() == 0 {
        Some(msg_blank_name())
    } else if age_str.len() == 0 {
        Some(msg_blank_age())
    } else {
        match parse_u8_spec(age_str) {
            Err(e) => Some(e.message_spec()),
            Ok(v) => if v == u8::MAX {
                Some(msg_invalid_age())
            } else if v > AGE_MAX {
                Some(msg_too_old())
            } else {
                None
            },
        }
    }
}

/// A validated record. Only the factory `Foo::new` builds one, so every
/// `Foo` in existence satisfies `wf`.
#[derive(Debug)]
pub struct Foo {
    /// Display label; never empty.
    pub name: String,
    age: u8,
}

impl Foo {
    /// The stored name, as contracts speak of it.
    pub closed spec fn name_spec(&self) -> Seq<char> {
        self.name@
    }

    /// The stored age, as contracts speak of it.
    pub closed spec fn age_spec(&self) -> u8 {
        self.age
    }

    /// What every successfully constructed record satisfies: a non-empty
    /// name, an age below the storage width's maximum (the hard limit),
    /// and an age no greater than `AGE_MAX` (the soft limit).
    pub open spec fn wf(&self) -> bool {
        &&& self.name_spec().len() > 0
        &&& self.age_spec() < u8::MAX
        &&& self.age_spec() <= AGE_MAX
    }

    /// The stored age.
    pub fn age(&self) -> (a: u8)
        ensures
            a == self.age_spec(),
    {
        self.age
    }

    /// Validating factory. Rejects an empty `name`, an empty `age_str`, an
    /// `age_str` that does not parse as a decimal `u8` (surfacing the
    /// parser's own message), a parsed age equal to `u8::MAX` (the hard
    /// limit), and a parsed age above `AGE_MAX` (the soft limit), in that
    /// order; otherwise returns a record owning a copy of `name` and the
    /// parsed age.
    pub fn new(name: &str, age_str: &str) -> (r: Result<Foo, String>)
        ensures
            match create_err(name@, age_str@) {
                Some(m) => r matches Err(e) && e@ == m,
                None => r matches Ok(f) && f.name_spec() == name@ && parse_u8_spec(age_str@)
                    == Ok::<u8, ParseError>(f.age_spec()) && f.wf(),
            },
    {
        if name.is_empty() {
            return Err("need non blank name".to_owned());
        }

        if age_str.is_empty() {
            return Err("need non blank age".to_owned());
        }

        let age = match parse_u8(age_str) {
            Ok(age) => age,
            Err(e) => {
                return Err(e.message());
            },
        };

        // Check hard limit
        if age == u8::MAX {
            return Err("invalid age".to_owned());
        }

        // Check soft limit
        if age > AGE_MAX {
            return Err("nobody's that old!".to_owned());
        }

        let name = name.to_owned();

        let foo = Foo { name, age };

        Ok(foo)
    }
}

/// A non-empty name together with an age string that parses to a value no
/// greater than `AGE_MAX` is always accepted: no check rejects such inputs,
/// so `Foo::new` returns a record whose fields equal them. (Such a value is
/// in particular below `u8::MAX`, so the hard limit never fires on it.)
pub proof fn lemma_create_accepts_valid_inputs(name: Seq<char>, age_str: Seq<char>)
    requires
        name.len() > 0,
        digits_of(age_str).len() > 0,
        all_dec_digits(digits_of(age_str)),
        dec_val(digits_of(age_str)) <= AGE_MAX,
    ensures
        create_err(name, age_str) is None,
{
    let v = dec_val(digits_of(age_str)) as u8;
    lemma_parse_u8_spec_ok(age_str, v);
    assert(parse_u8_spec(age_str) == Ok::<u8, ParseError>(v));
    assert(age_str.len() > 0);
}

} // verus!
