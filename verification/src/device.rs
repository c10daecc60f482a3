//! Versioned device interface classes.

use vstd::prelude::*;

verus! {

#[derive(Clone, Copy, Debug, PartialEq, Eq, Structural)]
pub enum Class {
    Input,
    Display,
    Block,
    Network,
    Entropy,
}

#[derive(Clone, Copy, Debug, PartialEq, Eq, Structural)]
pub struct Interface {
    class: Class,
    version: u16,
}

impl Interface {
    pub closed spec fn spec_class(self) -> Class {
        self.class
    }

    pub closed spec fn spec_version(self) -> u16 {
        self.version
    }

    /// Version 1 of the interface for `class`.
    pub fn new(class: Class) -> (r: Self)
        ensures
            r.spec_class() == class,
            r.spec_version() == 1,
    {
        Interface { class, version: 1 }
    }

    pub fn class(self) -> (r: Class)
        ensures
            r == self.spec_class(),
    {
        self.class
    }

    /// Two interfaces interoperate when class and version agree.
    pub fn compatible(self, other: Self) -> (r: bool)
        ensures
            r == (self.spec_class() == other.spec_class() && self.spec_version()
                == other.spec_version()),
    {
        self.class == other.class && self.version == other.version
    }
}

/// Interfaces of one class are compatible, of different classes not.
pub fn self_check() -> (r: bool)
    ensures
        r,
{
    let input = Interface::new(Class::Input);
    let display = Interface::new(Class::Display);
    let block = Interface::new(Class::Block);
    let network = Interface::new(Class::Network);
    let entropy = Interface::new(Class::Entropy);
    input.compatible(input) && !input.compatible(display) && block.class() == Class::Block
        && network.class() == Class::Network && entropy.class() == Class::Entropy
}

} // verus!
