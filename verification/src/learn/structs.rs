//! Structs: data with the functions that belong to it.

use vstd::prelude::*;
use vstd::string::StringExecFns;

verus! {

/// A rectangle.
#[derive(Debug)]
pub struct Rectangle {
    pub width: u32,
    pub height: u32,
}

/// A square.
#[derive(Debug)]
pub struct Square {
    pub side: u32,
}

impl Rectangle {
    /// The area.
    pub fn area(&self) -> (area: u32)
        requires
            self.width * self.height <= u32::MAX,
        ensures
            area == self.width * self.height,
    {
        self.width * self.height
    }

    /// The length of the four sides together.
    pub fn perimeter(&self) -> (length: u32)
        requires
            2 * (self.width + self.height) <= u32::MAX,
        ensures
            length == 2 * (self.width + self.height),
    {
        2 * (self.width + self.height)
    }

    /// Whether the other rectangle fits into this one with room to spare on
    /// every side.
    pub fn can_hold(&self, other: &Rectangle) -> (fits: bool)
        ensures
            fits == (self.width > other.width && self.height > other.height),
    {
        self.width > other.width && self.height > other.height
    }

    /// Makes both sides `factor` times as long.
    pub fn scale(&mut self, factor: u32)
        requires
            old(self).width * factor <= u32::MAX,
            old(self).height * factor <= u32::MAX,
        ensures
            final(self).width == old(self).width * factor,
            final(self).height == old(self).height * factor,
    {
        self.width = self.width * factor;
        self.height = self.height * factor;
    }

    /// The largest square that fits into the rectangle: its side is the
    /// shorter side of the rectangle.
    pub fn into_square(self) -> (square: Square)
        ensures
            square.side == if self.width <= self.height {
                self.width
            } else {
                self.height
            },
    {
        let side = if self.width <= self.height {
            self.width
        } else {
            self.height
        };
        Square { side }
    }

    /// A rectangle with these sides.
    pub fn new(width: u32, height: u32) -> (rectangle: Rectangle)
        ensures
            rectangle.width == width,
            rectangle.height == height,
    {
        Rectangle { width, height }
    }

    /// A rectangle whose sides are equal.
    pub fn square(size: u32) -> (rectangle: Rectangle)
        ensures
            rectangle.width == size,
            rectangle.height == size,
    {
        Rectangle { width: size, height: size }
    }
}

/// A person.
#[derive(Debug)]
pub struct Person {
    pub name: String,
    pub age: u32,
    pub email: Option<String>,
}

/// The digit that stands for a number below ten.
pub open spec fn digit_char(d: nat) -> char {
    if d == 0 {
        '0'
    } else if d == 1 {
        '1'
    } else if d == 2 {
        '2'
    } else if d == 3 {
        '3'
    } else if d == 4 {
        '4'
    } else if d == 5 {
        '5'
    } else if d == 6 {
        '6'
    } else if d == 7 {
        '7'
    } else if d == 8 {
        '8'
    } else {
        '9'
    }
}

/// A number in decimal digits, without leading zeros.
pub open spec fn decimal_text(n: nat) -> Seq<char>
    decreases n,
{
    if n < 10 {
        seq![digit_char(n)]
    } else {
        decimal_text(n / 10).push(digit_char(n % 10))
    }
}

/// How a person of this name and age greets.
pub open spec fn greeting_of(name: Seq<char>, age: u32) -> Seq<char> {
    "Hello, I'm "@ + name + " and I'm "@ + decimal_text(age as nat) + " years old"@
}

/// The digit that stands for a number below ten, as text.
pub fn digit_text(d: u32) -> (text: &'static str)
    requires
        d < 10,
    ensures
        text@ == seq![digit_char(d as nat)],
{
    proof {
        reveal_strlit("0");
        reveal_strlit("1");
        reveal_strlit("2");
        reveal_strlit("3");
        reveal_strlit("4");
        reveal_strlit("5");
        reveal_strlit("6");
        reveal_strlit("7");
        reveal_strlit("8");
        reveal_strlit("9");
    }
    let text = if d == 0 {
        "0"
    } else if d == 1 {
        "1"
    } else if d == 2 {
        "2"
    } else if d == 3 {
        "3"
    } else if d == 4 {
        "4"
    } else if d == 5 {
        "5"
    } else if d == 6 {
        "6"
    } else if d == 7 {
        "7"
    } else if d == 8 {
        "8"
    } else {
        "9"
    };
    assert(text@ =~= seq![digit_char(d as nat)]);
    text
}

/// Appends a number in decimal digits.
pub fn append_decimal(out: &mut String, n: u32)
    ensures
        final(out)@ == old(out)@ + decimal_text(n as nat),
    decreases n,
{
    if n < 10 {
        out.append(digit_text(n));
    } else {
        append_decimal(out, n / 10);
        out.append(digit_text(n % 10));
        assert(out@ =~= old(out)@ + decimal_text(n as nat / 10).push(
            digit_char(n as nat % 10),
        ));
    }
}

impl Person {
    /// A person of this name and age, without an address.
    pub fn new(name: String, age: u32) -> (person: Person)
        ensures
            person.name == name,
            person.age == age,
            person.email is None,
    {
        Person { name, age, email: None }
    }

    /// The same person, with this address.
    pub fn with_email(self, email: String) -> (person: Person)
        ensures
            person.name == self.name,
            person.age == self.age,
            person.email == Some(email),
    {
        let mut person = self;
        person.email = Some(email);
        person
    }

    /// The person's greeting: name and age in a sentence.
    pub fn greet(&self) -> (text: String)
        ensures
            text@ == greeting_of(self.name@, self.age),
    {
        let mut text = "Hello, I'm ".to_owned();
        text.append(self.name.as_str());
        text.append(" and I'm ");
        append_decimal(&mut text, self.age);
        text.append(" years old");
        assert(text@ =~= greeting_of(self.name@, self.age));
        text
    }

    /// Whether the person has an address.
    pub fn has_email(&self) -> (has: bool)
        ensures
            has == self.email is Some,
    {
        self.email.is_some()
    }
}

} // verus!
