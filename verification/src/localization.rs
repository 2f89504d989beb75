//! Localized text: a message key plus named arguments.  The core only builds
//! and carries the request; turning it into display text is the localization
//! collaborator's work, outside this crate.

use vstd::prelude::*;

verus! {

broadcast use vstd::std_specs::vec::group_vec_axioms;

/// One argument of a localized message: a constant text or a number.
#[derive(Debug, Clone, PartialEq, Eq)]
pub enum LocalizedArg {
    Text(String),
    Integer(i64),
}

/// A message key with its arguments, in the order they were added.
#[derive(Debug)]
pub struct Localized {
    pub key: String,
    pub args: Vec<(String, LocalizedArg)>,
}

impl Localized {
    /// A message with no arguments yet.
    pub fn new(key: &str) -> (r: Localized)
        ensures
            r.key@ == key@,
            r.args@.len() == 0,
    {
        Localized { key: key.to_owned(), args: Vec::new() }
    }

    /// Adds a constant text argument.
    pub fn arg_const(self, name: &str, value: &str) -> (r: Localized)
        ensures
            r.key == self.key,
            r.args@.len() == self.args@.len() + 1,
            r.args@.take(self.args@.len() as int) == self.args@,
            r.args@.last().0@ == name@,
            r.args@.last().1 == LocalizedArg::Text(r.args@.last().1->Text_0),
            r.args@.last().1->Text_0@ == value@,
    {
        let mut args = self.args;
        args.push((name.to_owned(), LocalizedArg::Text(value.to_owned())));
        let r = Localized { key: self.key, args };
        proof {
            assert(r.args@.take(r.args@.len() - 1) =~= self.args@);
        }
        r
    }

    /// Adds a numeric argument.
    pub fn arg(self, name: &str, value: i64) -> (r: Localized)
        ensures
            r.key == self.key,
            r.args@.len() == self.args@.len() + 1,
            r.args@.take(self.args@.len() as int) == self.args@,
            r.args@.last().0@ == name@,
            r.args@.last().1 == LocalizedArg::Integer(value),
    {
        let mut args = self.args;
        args.push((name.to_owned(), LocalizedArg::Integer(value)));
        let r = Localized { key: self.key, args };
        proof {
            assert(r.args@.take(r.args@.len() - 1) =~= self.args@);
        }
        r
    }
}

} // verus!
