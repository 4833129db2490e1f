//! Java exceptions that the virtual machine raises itself, from violations it detects
//! while interpreting.

use vstd::prelude::*;
use vstd::string::StringExecFns;

verus! {

/// The decimal digit of `d`, for `d` below ten.
pub open spec fn digit_char(d: nat) -> char {
    if d == 0 {
        '0'
    } else if d == 1 {
        '1'
    } else if d == 2 {
        '2'
    } else if d == 3 {
        '3'
    } else if d == 4 {
        '4'
    } else if d == 5 {
        '5'
    } else if d == 6 {
        '6'
    } else if d == 7 {
        '7'
    } else if d == 8 {
        '8'
    } else {
        '9'
    }
}

/// The decimal notation of `n`, without leading zeros.
pub open spec fn decimal(n: nat) -> Seq<char>
    decreases n,
{
    if n < 10 {
        seq![digit_char(n)]
    } else {
        decimal(n / 10) + seq![digit_char(n % 10)]
    }
}

/// The one-character text of decimal digit `d`.
fn digit_text(d: u64) -> (r: &'static str)
    requires
        d < 10,
    ensures
        r@ == seq![digit_char(d as nat)],
{
    proof {
        reveal_strlit("0");
        reveal_strlit("1");
        reveal_strlit("2");
        reveal_strlit("3");
        reveal_strlit("4");
        reveal_strlit("5");
        reveal_strlit("6");
        reveal_strlit("7");
        reveal_strlit("8");
        reveal_strlit("9");
    }
    let r = if d == 0 {
        "0"
    } else if d == 1 {
        "1"
    } else if d == 2 {
        "2"
    } else if d == 3 {
        "3"
    } else if d == 4 {
        "4"
    } else if d == 5 {
        "5"
    } else if d == 6 {
        "6"
    } else if d == 7 {
        "7"
    } else if d == 8 {
        "8"
    } else {
        "9"
    };
    assert(r@ =~= seq![digit_char(d as nat)]);
    r
}

/// Appends the decimal notation of `n`.
pub fn push_decimal(out: &mut String, n: u64)
    ensures
        final(out)@ == old(out)@ + decimal(n as nat),
    decreases n,
{
    if n >= 10 {
        push_decimal(out, n / 10);
    }
    out.append(digit_text(n % 10));
    assert(out@ =~= old(out)@ + decimal(n as nat));
}

/// The decimal notation of a signed value: a `-` before a negative one.
pub open spec fn signed_decimal(v: int) -> Seq<char> {
    if v < 0 {
        seq!['-'] + decimal((-v) as nat)
    } else {
        decimal(v as nat)
    }
}

/// Appends the decimal notation of `v`, with a `-` where it is negative.
pub fn push_signed_decimal(out: &mut String, v: i64)
    ensures
        final(out)@ == old(out)@ + signed_decimal(v as int),
{
    proof {
        reveal_strlit("-");
    }
    if v < 0 {
        out.append("-");
        let magnitude: u64 = if v == i64::MIN {
            0x8000_0000_0000_0000u64
        } else {
            (-v) as u64
        };
        push_decimal(out, magnitude);
        assert(out@ =~= old(out)@ + signed_decimal(v as int));
    } else {
        push_decimal(out, v as u64);
    }
}

/// An exception that the interpreter throws into the running frame.
#[derive(Debug, Clone)]
pub enum JavaError {
    /// `java.lang.ArithmeticException`, with its message.
    ArithmeticException(String),
    /// `java.lang.ArrayIndexOutOfBoundsException`.
    ArrayIndexOutOfBoundsException { index: usize, length: usize },
    /// `java.lang.ClassCastException`.
    ClassCastException { source_class_name: String, target_class_name: String },
    /// `java.lang.NullPointerException`, with its message.
    NullPointerException(String),
}

impl JavaError {
    /// The internal name of the exception's class.
    pub open spec fn spec_class_name(&self) -> Seq<char> {
        match self {
            JavaError::ArrayIndexOutOfBoundsException { .. } => "java/lang/ArrayIndexOutOfBoundsException"@,
            JavaError::ArithmeticException(_) => "java/lang/ArithmeticException"@,
            JavaError::ClassCastException { .. } => "java/lang/ClassCastException"@,
            JavaError::NullPointerException(_) => "java/lang/NullPointerException"@,
        }
    }

    /// The exception's message.
    pub open spec fn spec_message(&self) -> Seq<char> {
        match self {
            JavaError::ArithmeticException(m) => m@,
            JavaError::ArrayIndexOutOfBoundsException { index, length } => "Index "@ + decimal(
                *index as nat,
            ) + " out of bounds for length "@ + decimal(*length as nat),
            JavaError::ClassCastException { source_class_name, target_class_name } => "class "@
                + source_class_name@ + " cannot be cast to class "@ + target_class_name@,
            JavaError::NullPointerException(m) => m@,
        }
    }

    /// The internal name of the exception's class, such as `java/lang/ArithmeticException`.
    pub fn class_name(&self) -> (r: &str)
        ensures
            r@ == self.spec_class_name(),
    {
        match self {
            JavaError::ArrayIndexOutOfBoundsException { .. } => "java/lang/ArrayIndexOutOfBoundsException",
            JavaError::ArithmeticException(_) => "java/lang/ArithmeticException",
            JavaError::ClassCastException { .. } => "java/lang/ClassCastException",
            JavaError::NullPointerException(_) => "java/lang/NullPointerException",
        }
    }

    /// The exception's message, as `Throwable.getMessage` would give it.
    pub fn message(&self) -> (r: String)
        ensures
            r@ == self.spec_message(),
    {
        match self {
            JavaError::ArithmeticException(m) => String::from_str(m.as_str()),
            JavaError::ArrayIndexOutOfBoundsException { index, length } => {
                let mut s = String::from_str("Index ");
                push_decimal(&mut s, *index as u64);
                s.append(" out of bounds for length ");
                push_decimal(&mut s, *length as u64);
                s
            },
            JavaError::ClassCastException { source_class_name, target_class_name } => {
                let mut s = String::from_str("class ");
                s.append(source_class_name.as_str());
                s.append(" cannot be cast to class ");
                s.append(target_class_name.as_str());
                s
            },
            JavaError::NullPointerException(m) => String::from_str(m.as_str()),
        }
    }
}

} // verus!
