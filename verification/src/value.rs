//! Primitive variable values and their textual form.  Widget trees consume
//! these values; the coordinator only stores and forwards them, so a small
//! closed set of kinds is enough here.

use vstd::prelude::*;

verus! {

use vstd::string::StringExecFns;

/// A current value of a named reactive variable.
#[derive(Debug, PartialEq, Eq, Clone)]
pub enum PrimitiveValue {
    Text(String),
    Num(i64),
    Bool(bool),
}

/// The character for a single decimal digit.
pub open spec fn digit_char(d: int) -> char {
    if d == 0 {
        '0'
    } else if d == 1 {
        '1'
    } else if d == 2 {
        '2'
    } else if d == 3 {
        '3'
    } else if d == 4 {
        '4'
    } else if d == 5 {
        '5'
    } else if d == 6 {
        '6'
    } else if d == 7 {
        '7'
    } else if d == 8 {
        '8'
    } else {
        '9'
    }
}

/// Decimal digits of a natural number, most significant first.
pub open spec fn dec_digits(n: nat) -> Seq<char>
    decreases n,
{
    if n < 10 {
        seq![digit_char(n as int)]
    } else {
        dec_digits(n / 10).push(digit_char((n % 10) as int))
    }
}

/// Decimal form of a signed number: a minus sign before the digits when
/// negative.
pub open spec fn dec_int(n: int) -> Seq<char> {
    if n < 0 {
        seq!['-'] + dec_digits((-n) as nat)
    } else {
        dec_digits(n as nat)
    }
}

fn digit_str(d: u64) -> (r: &'static str)
    requires
        d < 10,
    ensures
        r@ == seq![digit_char(d as int)],
{
    proof {
        reveal_strlit("0");
        reveal_strlit("1");
        reveal_strlit("2");
        reveal_strlit("3");
        reveal_strlit("4");
        reveal_strlit("5");
        reveal_strlit("6");
        reveal_strlit("7");
        reveal_strlit("8");
        reveal_strlit("9");
    }
    let r = if d == 0 {
        "0"
    } else if d == 1 {
        "1"
    } else if d == 2 {
        "2"
    } else if d == 3 {
        "3"
    } else if d == 4 {
        "4"
    } else if d == 5 {
        "5"
    } else if d == 6 {
        "6"
    } else if d == 7 {
        "7"
    } else if d == 8 {
        "8"
    } else {
        "9"
    };
    proof {
        assert(r@ =~= seq![digit_char(d as int)]);
    }
    r
}

/// The decimal digits of an unsigned number.
pub fn u64_to_string(n: u64) -> (r: String)
    ensures
        r@ == dec_digits(n as nat),
    decreases n,
{
    if n < 10 {
        digit_str(n).to_owned()
    } else {
        let prefix = u64_to_string(n / 10);
        let r = prefix.concat(digit_str(n % 10));
        proof {
            assert(r@ =~= dec_digits(n as nat));
        }
        r
    }
}

/// The decimal form of a signed number.
pub fn i64_to_string(n: i64) -> (r: String)
    ensures
        r@ == dec_int(n as int),
{
    if n >= 0 {
        u64_to_string(n as u64)
    } else {
        let m: u64 = if n == i64::MIN {
            9223372036854775808u64
        } else {
            (-n) as u64
        };
        proof {
            reveal_strlit("-");
        }
        let r = String::from_str("-").concat(u64_to_string(m).as_str());
        proof {
            assert("-"@ =~= seq!['-']);
            assert(r@ =~= dec_int(n as int));
        }
        r
    }
}

/// Clone a vector of strings, element by element.
pub fn clone_string_vec(v: &Vec<String>) -> (r: Vec<String>)
    ensures
        r@ == v@,
{
    let n = v.len();
    let mut out: Vec<String> = Vec::new();
    let mut i: usize = 0;
    while i < n
        invariant
            n == v@.len(),
            i <= n,
            out@.len() == i,
            forall|j: int| 0 <= j < i ==> out@[j] == v@[j],
        decreases n - i,
    {
        out.push(v[i].clone());
        i += 1;
    }
    proof {
        assert(out@ =~= v@);
    }
    out
}

impl PrimitiveValue {
    /// The text a value prints as.
    pub open spec fn display_spec(&self) -> Seq<char> {
        match self {
            PrimitiveValue::Text(s) => s@,
            PrimitiveValue::Num(n) => dec_int(*n as int),
            PrimitiveValue::Bool(b) => if *b {
                "true"@
            } else {
                "false"@
            },
        }
    }

    /// Render the value as text.
    pub fn display_string(&self) -> (r: String)
        ensures
            r@ == self.display_spec(),
    {
        match self {
            PrimitiveValue::Text(s) => s.clone(),
            PrimitiveValue::Num(n) => i64_to_string(*n),
            PrimitiveValue::Bool(b) => if *b {
                String::from_str("true")
            } else {
                String::from_str("false")
            },
        }
    }

    /// The placeholder a freshly referenced variable holds until its producer
    /// delivers a first value.
    pub fn uninitialized() -> (r: PrimitiveValue)
        ensures
            r matches PrimitiveValue::Text(s) && s@ == Seq::<char>::empty(),
    {
        PrimitiveValue::Text(String::new())
    }

    /// Copy of the value.
    pub fn duplicate(&self) -> (r: PrimitiveValue)
        ensures
            r == *self,
    {
        match self {
            PrimitiveValue::Text(s) => PrimitiveValue::Text(s.clone()),
            PrimitiveValue::Num(n) => PrimitiveValue::Num(*n),
            PrimitiveValue::Bool(b) => PrimitiveValue::Bool(*b),
        }
    }
}

} // verus!
