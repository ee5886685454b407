//! Debug rendering of a list of numbers: values from the head-side
//! terminal to the tail-side terminal, comma-separated and
//! bracket-delimited, the empty list rendering as `[]`.  Read-only;
//! rendering neither mutates nor consumes a list.

use vstd::prelude::*;

verus! {

use vstd::pervasive::unreached;
use vstd::string::StringExecFns;
use crate::unsafe_linked_list::UnsafeLinkedList;

/// The decimal digit character for `d`.
pub open spec fn digit_char(d: int) -> char {
    if d == 0 {
        '0'
    } else if d == 1 {
        '1'
    } else if d == 2 {
        '2'
    } else if d == 3 {
        '3'
    } else if d == 4 {
        '4'
    } else if d == 5 {
        '5'
    } else if d == 6 {
        '6'
    } else if d == 7 {
        '7'
    } else if d == 8 {
        '8'
    } else {
        '9'
    }
}

/// The decimal digits of `n`, most significant first, with no leading
/// zeros (a single `'0'` for zero).
pub open spec fn spec_digits(n: nat) -> Seq<char>
    decreases n,
{
    if n < 10 {
        seq![digit_char(n as int)]
    } else {
        spec_digits(n / 10).push(digit_char((n % 10) as int))
    }
}

/// The comma-separated rendering of the values of `s`, in order.
pub open spec fn spec_items(s: Seq<u64>) -> Seq<char>
    decreases s.len(),
{
    if s.len() == 0 {
        Seq::empty()
    } else if s.len() == 1 {
        spec_digits(s[0] as nat)
    } else {
        spec_items(s.drop_last()) + seq![',', ' '] + spec_digits(s.last() as nat)
    }
}

/// The full rendering of `s`: its values in order, comma-separated,
/// between square brackets.
pub open spec fn spec_render(s: Seq<u64>) -> Seq<char> {
    seq!['['] + spec_items(s) + seq![']']
}

/// The one-character string for the decimal digit `d`.
fn digit_str(d: u64) -> (r: &'static str)
    requires
        d < 10,
    ensures
        r@ == seq![digit_char(d as int)],
{
    let r: &'static str = if d == 0 {
        "0"
    } else if d == 1 {
        "1"
    } else if d == 2 {
        "2"
    } else if d == 3 {
        "3"
    } else if d == 4 {
        "4"
    } else if d == 5 {
        "5"
    } else if d == 6 {
        "6"
    } else if d == 7 {
        "7"
    } else if d == 8 {
        "8"
    } else {
        "9"
    };
    proof {
        reveal_strlit("0");
        reveal_strlit("1");
        reveal_strlit("2");
        reveal_strlit("3");
        reveal_strlit("4");
        reveal_strlit("5");
        reveal_strlit("6");
        reveal_strlit("7");
        reveal_strlit("8");
        reveal_strlit("9");
        assert(r@ =~= seq![digit_char(d as int)]);
    }
    r
}

/// Appends the decimal digits of `n` to `out`.
pub fn push_digits(out: &mut String, n: u64)
    ensures
        final(out)@ == old(out)@ + spec_digits(n as nat),
    decreases n,
{
    if n >= 10 {
        push_digits(out, n / 10);
        out.append(digit_str(n % 10));
        proof {
            assert(old(out)@ + spec_digits(n as nat) =~= (old(out)@ + spec_digits(
                (n / 10) as nat,
            )) + seq![digit_char((n % 10) as int)]);
        }
    } else {
        out.append(digit_str(n));
        proof {
            assert(old(out)@ + spec_digits(n as nat) =~= old(out)@ + seq![
                digit_char(n as int),
            ]);
        }
    }
}

impl UnsafeLinkedList<u64> {
    /// Renders the list's values from the head-side terminal to the
    /// tail-side terminal, comma-separated and bracket-delimited.
    pub fn render(&self) -> (r: String)
        requires
            self.wf(),
        ensures
            r@ == spec_render(self@),
    {
        let mut out = String::from_str("[");
        proof {
            reveal_strlit("[");
            assert(out@ =~= seq!['[']);
            assert(self@.subrange(0, 0) =~= Seq::<u64>::empty());
        }
        let n = self.len();
        let mut i: usize = 0;
        while i < n
            invariant
                self.wf(),
                n == self@.len(),
                i <= n,
                out@ == seq!['['] + spec_items(self@.subrange(0, i as int)),
            decreases n - i,
        {
            if i > 0 {
                out.append(", ");
            }
            let v: u64 = match self.nth(i) {
                Some(v) => v,
                None => unreached(),
            };
            push_digits(&mut out, v);
            proof {
                reveal_strlit(", ");
                let s = self@;
                let p1 = s.subrange(0, i as int + 1);
                assert(p1.drop_last() =~= s.subrange(0, i as int));
                assert(out@ =~= seq!['['] + spec_items(p1));
            }
            i = i + 1;
        }
        out.append("]");
        proof {
            reveal_strlit("]");
            assert(self@.subrange(0, n as int) =~= self@);
            assert(out@ =~= spec_render(self@));
        }
        out
    }
}

} // verus!
