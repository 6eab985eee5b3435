//! Small functions that the test suite exercises.

use vstd::prelude::*;
use vstd::string::StringExecFns;

verus! {

/// `a + 2`.
pub fn add_two(a: i32) -> (r: i32)
    requires
        a <= i32::MAX - 2,
    ensures
        r == a + 2,
{
    a + 2
}

/// `a + 3`: adds one too many, on purpose, as a failing-test example.
pub fn bad_add_two(a: i32) -> (r: i32)
    requires
        a <= i32::MAX - 3,
    ensures
        r == a + 3,
{
    a + 3
}

/// `"Hello <name>!"`.
pub fn greeting(name: &str) -> (r: String)
    ensures
        r@ == "Hello "@ + name@ + "!"@,
{
    let mut r = String::from_str("Hello ");
    r.append(name);
    r.append("!");
    r
}

/// A rectangle by its side lengths.
#[derive(Debug, Clone, Copy, PartialEq, Eq, Structural)]
pub struct Rectangle {
    pub width: u32,
    pub height: u32,
}

impl Rectangle {
    /// Whether `other` fits strictly inside this rectangle, unrotated.
    pub fn _can_hold(&self, other: &Rectangle) -> (r: bool)
        ensures
            r == (self.width > other.width && self.height > other.height),
    {
        self.width > other.width && self.height > other.height
    }
}

/// A guess between 1 and 100.
pub struct Guess {
    _value: i32,
}

impl Guess {
    /// The guess; what it holds.
    pub closed spec fn value(&self) -> i32 {
        self._value
    }

    /// Makes a guess of `_value`, which must lie in `1..=100`.
    pub fn new(_value: i32) -> (r: Guess)
        requires
            1 <= _value <= 100,
        ensures
            r.value() == _value,
    {
        Guess { _value }
    }
}

} // verus!
