use vstd::prelude::*;

verus! {

use vstd::string::StringExecFns;
use crate::colors::Rgb;

/// One log entry: human-readable text with its display color.
pub struct Message {
    pub text: String,
    pub color: Rgb,
}

pub ghost struct MessageView {
    pub text: Seq<char>,
    pub color: Rgb,
}

impl View for Message {
    type V = MessageView;

    open spec fn view(&self) -> MessageView {
        MessageView { text: self.text@, color: self.color }
    }
}

/// The message log. The core only ever appends to it; presentation is
/// left to the rendering layer.
pub struct Messages {
    messages: Vec<Message>,
}

impl View for Messages {
    type V = Seq<MessageView>;

    closed spec fn view(&self) -> Seq<MessageView> {
        self.messages@.map_values(|m: Message| m@)
    }
}

impl Messages {
    pub fn new() -> (r: Messages)
        ensures
            r@ == Seq::<MessageView>::empty(),
    {
        let r = Messages { messages: Vec::new() };
        proof {
            assert(r@ =~= Seq::<MessageView>::empty());
        }
        r
    }

    /// Append one entry to the log.
    pub fn add(&mut self, message: String, color: Rgb)
        ensures
            final(self)@ == old(self)@.push(MessageView { text: message@, color }),
    {
        let ghost prior = self@;
        let m = Message { text: message, color };
        let ghost mv = m@;
        self.messages.push(m);
        proof {
            assert(self@ =~= prior.push(mv));
        }
    }

    pub fn len(&self) -> (n: usize)
        ensures
            n == self@.len(),
    {
        self.messages.len()
    }

    pub fn get(&self, i: usize) -> (m: &Message)
        requires
            i < self@.len(),
        ensures
            m@ == self@[i as int],
    {
        &self.messages[i]
    }
}

/// The decimal digit characters in order, so that `spec_digit_char(d)`
/// is the character for digit `d`.
pub open spec fn spec_digit_char(d: int) -> char {
    seq!['0', '1', '2', '3', '4', '5', '6', '7', '8', '9'][d]
}

/// The decimal rendering of a natural number, most significant digit
/// first, with no leading zeros (except for zero itself).
pub open spec fn spec_nat_digits(n: nat) -> Seq<char>
    decreases n,
{
    if n < 10 {
        seq![spec_digit_char(n as int)]
    } else {
        spec_nat_digits(n / 10).push(spec_digit_char((n % 10) as int))
    }
}

/// The decimal rendering of an integer: a minus sign for negative
/// values, then the digits of its magnitude.
pub open spec fn spec_int_digits(n: int) -> Seq<char> {
    if n < 0 {
        seq!['-'] + spec_nat_digits((-n) as nat)
    } else {
        spec_nat_digits(n as nat)
    }
}

fn append_digit(s: &mut String, d: u64)
    requires
        d < 10,
    ensures
        final(s)@ == old(s)@ + seq![spec_digit_char(d as int)],
{
    let ghost prior = s@;
    match d {
        0 => s.append("0"),
        1 => s.append("1"),
        2 => s.append("2"),
        3 => s.append("3"),
        4 => s.append("4"),
        5 => s.append("5"),
        6 => s.append("6"),
        7 => s.append("7"),
        8 => s.append("8"),
        _ => s.append("9"),
    }
    proof {
        reveal_strlit("0");
        reveal_strlit("1");
        reveal_strlit("2");
        reveal_strlit("3");
        reveal_strlit("4");
        reveal_strlit("5");
        reveal_strlit("6");
        reveal_strlit("7");
        reveal_strlit("8");
        reveal_strlit("9");
        assert(s@ =~= prior + seq![spec_digit_char(d as int)]);
    }
}

fn append_u64(s: &mut String, n: u64)
    ensures
        final(s)@ == old(s)@ + spec_nat_digits(n as nat),
    decreases n,
{
    let ghost prior = s@;
    if n >= 10 {
        append_u64(s, n / 10);
        append_digit(s, n % 10);
        proof {
            assert(s@ =~= prior + spec_nat_digits(n as nat));
        }
    } else {
        append_digit(s, n);
    }
}

/// Render an integer in decimal, as the standard formatter would.
pub fn i32_to_string(n: i32) -> (s: String)
    ensures
        s@ == spec_int_digits(n as int),
{
    let mut s = String::new();
    if n < 0 {
        s.append("-");
        let m: i64 = -(n as i64);
        append_u64(&mut s, m as u64);
        proof {
            reveal_strlit("-");
            assert(s@ =~= spec_int_digits(n as int));
        }
    } else {
        append_u64(&mut s, n as u64);
    }
    s
}

} // verus!
