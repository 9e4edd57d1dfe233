//! The [`Origin`] structure: where in the program an event was set.

use vstd::prelude::*;

verus! {

/// A location in program code: module path, file name and line number.
///
/// Producers record the origin when they set an event, so that subscribers
/// can see where each event came from.
#[derive(Debug, Clone, PartialEq, Eq)]
pub struct Origin {
    /// Module path of the code location.
    pub module_name: String,
    /// File name of the code location.
    pub filename: String,
    /// Line number of the code location.
    pub line_nr: u32,
}

/// The decimal digit `d` as a character, for `d < 10`.
pub open spec fn digit_char(d: nat) -> char {
    if d == 0 {
        '0'
    } else if d == 1 {
        '1'
    } else if d == 2 {
        '2'
    } else if d == 3 {
        '3'
    } else if d == 4 {
        '4'
    } else if d == 5 {
        '5'
    } else if d == 6 {
        '6'
    } else if d == 7 {
        '7'
    } else if d == 8 {
        '8'
    } else {
        '9'
    }
}

/// The decimal digits of `n`, most significant first.
pub open spec fn dec_str(n: nat) -> Seq<char>
    decreases n,
{
    if n < 10 {
        seq![digit_char(n)]
    } else {
        dec_str(n / 10).push(digit_char(n % 10))
    }
}

/// The textual form of an origin:
/// `module="<module path>", file="<file name>", line=<line number>`.
pub open spec fn origin_text(o: Origin) -> Seq<char> {
    "module=\""@ + o.module_name@ + "\", file=\""@ + o.filename@ + "\", line="@ + dec_str(
        o.line_nr as nat,
    )
}

/// The decimal digits of `n` as a string.
fn u32_dec_str(n: u32) -> (r: String)
    ensures
        r@ == dec_str(n as nat),
    decreases n,
{
    let digit: &str = if n % 10 == 0 {
        "0"
    } else if n % 10 == 1 {
        "1"
    } else if n % 10 == 2 {
        "2"
    } else if n % 10 == 3 {
        "3"
    } else if n % 10 == 4 {
        "4"
    } else if n % 10 == 5 {
        "5"
    } else if n % 10 == 6 {
        "6"
    } else if n % 10 == 7 {
        "7"
    } else if n % 10 == 8 {
        "8"
    } else {
        "9"
    };
    proof {
        reveal_strlit("0");
        reveal_strlit("1");
        reveal_strlit("2");
        reveal_strlit("3");
        reveal_strlit("4");
        reveal_strlit("5");
        reveal_strlit("6");
        reveal_strlit("7");
        reveal_strlit("8");
        reveal_strlit("9");
        assert(digit@ == seq![digit_char((n % 10) as nat)]);
    }
    if n < 10 {
        String::from_str(digit)
    } else {
        let mut s = u32_dec_str(n / 10);
        s.append(digit);
        proof {
            assert(s@ =~= dec_str(n as nat));
        }
        s
    }
}

impl Origin {
    /// Create a new [`Origin`] from a module path, a file name and a line
    /// number.
    pub fn new(module_name: String, filename: String, line_nr: u32) -> (r: Origin)
        ensures
            r.module_name@ == module_name@,
            r.filename@ == filename@,
            r.line_nr == line_nr,
    {
        Origin { module_name, filename, line_nr }
    }

    /// An origin with empty location data, used for synthetic events that no
    /// producer site set.
    pub fn empty() -> (r: Origin)
        ensures
            r.module_name@ == Seq::<char>::empty(),
            r.filename@ == Seq::<char>::empty(),
            r.line_nr == 0,
    {
        Origin { module_name: String::new(), filename: String::new(), line_nr: 0 }
    }

    /// The textual form of this origin,
    /// `module="<module path>", file="<file name>", line=<line number>`.
    pub fn formatted(&self) -> (r: String)
        ensures
            r@ == origin_text(*self),
    {
        let mut s = String::from_str("module=\"");
        s.append(self.module_name.as_str());
        s.append("\", file=\"");
        s.append(self.filename.as_str());
        s.append("\", line=");
        let digits = u32_dec_str(self.line_nr);
        s.append(digits.as_str());
        proof {
            assert(s@ =~= origin_text(*self));
        }
        s
    }
}

} // verus!
