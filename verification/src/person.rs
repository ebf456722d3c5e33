//! A person with a name that all may read and a nickname that only the
//! person's own methods reach.

use vstd::prelude::*;

verus! {

/// A person.
#[derive(Debug, PartialEq, Eq)]
pub struct Person {
    pub name: String,
    nickname: String,
}

impl Person {
    /// The person's name.
    pub closed spec fn name_view(&self) -> Seq<char> {
        self.name@
    }

    /// The person's nickname.
    pub closed spec fn nickname_view(&self) -> Seq<char> {
        self.nickname@
    }

    /// A person of the given name, without a nickname.
    pub fn new(name: &str) -> (person: Person)
        ensures
            person.name_view() == name@,
            person.nickname_view() == Seq::<char>::empty(),
    {
        Person { name: name.to_owned(), nickname: String::new() }
    }

    /// Gives the person a nickname in place of the one before.
    pub fn set_nickname(&mut self, nickname: &str)
        ensures
            final(self).nickname_view() == nickname@,
            final(self).name_view() == old(self).name_view(),
    {
        self.nickname = nickname.to_owned();
    }

    /// The person's name.
    pub fn name(&self) -> (out: &String)
        ensures
            out@ == self.name_view(),
    {
        &self.name
    }

    /// The person's nickname.
    pub fn nickname(&self) -> (out: &String)
        ensures
            out@ == self.nickname_view(),
    {
        &self.nickname
    }
}

} // verus!
