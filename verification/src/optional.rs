//! A two-variant container: a value of type `T`, or the absence of one.

use vstd::prelude::*;

verus! {

/// Either `Something(value)` or `Nothing`; there is no third state.
pub enum SomethingOrNothing<T> {
    Something(T),
    Nothing,
}

/// What `SomethingOrNothing::new` returns for a given native optional.
pub open spec fn from_option_spec<T>(o: Option<T>) -> SomethingOrNothing<T> {
    match o {
        Option::None => SomethingOrNothing::Nothing,
        Option::Some(t) => SomethingOrNothing::Something(t),
    }
}

/// What `SomethingOrNothing::to_option` returns for a given container.
pub open spec fn to_option_spec<T>(v: SomethingOrNothing<T>) -> Option<T> {
    match v {
        SomethingOrNothing::Nothing => Option::None,
        SomethingOrNothing::Something(t) => Option::Some(t),
    }
}

impl<T> SomethingOrNothing<T> {
    /// Converts a present/absent native optional into `Something`/`Nothing`.
    pub fn new(o: Option<T>) -> (r: Self)
        ensures
            r == from_option_spec(o),
    {
        match o {
            Option::None => SomethingOrNothing::Nothing,
            Option::Some(t) => SomethingOrNothing::Something(t),
        }
    }

    /// The inverse conversion; consumes the container.
    pub fn to_option(self) -> (r: Option<T>)
        ensures
            r == to_option_spec(self),
    {
        match self {
            SomethingOrNothing::Nothing => Option::None,
            SomethingOrNothing::Something(t) => Option::Some(t),
        }
    }
}

/// Constructs a `Something` directly from a value.
pub fn call_constructor(x: i32) -> (r: SomethingOrNothing<i32>)
    ensures
        r == SomethingOrNothing::Something(x),
{
    SomethingOrNothing::new(Option::Some(x))
}

/// Law: converting a native optional in and back out returns it unchanged.
pub proof fn lemma_option_round_trip<T>(o: Option<T>)
    ensures
        to_option_spec(from_option_spec(o)) == o,
{
}

/// Law: converting a container out and back in returns it unchanged.
pub proof fn lemma_container_round_trip<T>(v: SomethingOrNothing<T>)
    ensures
        from_option_spec(to_option_spec(v)) == v,
{
}

} // verus!
