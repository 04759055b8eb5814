//! Unsigned integers of unbounded magnitude and their exact decimal form.

use vstd::prelude::*;
use vstd::slice::slice_to_vec;
use vstd::string::StringExecFns;
use vstd::arithmetic::div_mod::lemma_fundamental_div_mod_converse;

verus! {

/// An unsigned integer of unbounded magnitude.
#[derive(Debug, PartialEq, Eq)]
pub enum Atom {
    /// A value held in one machine word.
    Direct(u64),
    /// A value of any size, held as little-endian bytes.
    Indirect(Vec<u8>),
}

/// The number that the little-endian bytes `b` hold.
pub open spec fn le_value(b: Seq<u8>) -> nat
    decreases b.len(),
{
    if b.len() == 0 {
        0
    } else {
        (b[0] + 256 * le_value(b.drop_first())) as nat
    }
}

/// The character for the decimal digit `d`.
pub open spec fn digit_char(d: u8) -> char {
    if d == 0 {
        '0'
    } else if d == 1 {
        '1'
    } else if d == 2 {
        '2'
    } else if d == 3 {
        '3'
    } else if d == 4 {
        '4'
    } else if d == 5 {
        '5'
    } else if d == 6 {
        '6'
    } else if d == 7 {
        '7'
    } else if d == 8 {
        '8'
    } else {
        '9'
    }
}

/// The decimal digits of `n`, most significant first, with no leading zero.
pub open spec fn decimal_digits(n: nat) -> Seq<u8>
    decreases n,
{
    if n < 10 {
        seq![n as u8]
    } else {
        decimal_digits(n / 10).push((n % 10) as u8)
    }
}

/// The decimal form of `n`.
pub open spec fn decimal(n: nat) -> Seq<char> {
    decimal_digits(n).map_values(|d: u8| digit_char(d))
}

/// `ds` read from its last element to its first.
pub open spec fn reversed(ds: Seq<u8>) -> Seq<u8>
    decreases ds.len(),
{
    if ds.len() == 0 {
        Seq::empty()
    } else {
        seq![ds.last()] + reversed(ds.drop_last())
    }
}

impl Atom {
    /// The number this atom stands for.
    pub open spec fn value(&self) -> nat {
        match self {
            Atom::Direct(v) => *v as nat,
            Atom::Indirect(b) => le_value(b@),
        }
    }

    /// The exact decimal form of the atom, however large.
    pub fn to_decimal(&self) -> (r: String)
        ensures
            r@ == decimal(self.value()),
    {
        let ds = match self {
            Atom::Direct(v) => u64_digits(*v),
            Atom::Indirect(b) => bytes_digits(b.as_slice()),
        };
        digits_to_string(&ds)
    }
}

/// The decimal form of a machine word.
pub fn u64_decimal(v: u64) -> (r: String)
    ensures
        r@ == decimal(v as nat),
{
    let ds = u64_digits(v);
    digits_to_string(&ds)
}

/// A one-character string holding the digit `d`.
fn digit_str(d: u8) -> (r: &'static str)
    ensures
        r@ == seq![digit_char(d)],
{
    if d == 0 {
        proof { reveal_strlit("0"); }
        "0"
    } else if d == 1 {
        proof { reveal_strlit("1"); }
        "1"
    } else if d == 2 {
        proof { reveal_strlit("2"); }
        "2"
    } else if d == 3 {
        proof { reveal_strlit("3"); }
        "3"
    } else if d == 4 {
        proof { reveal_strlit("4"); }
        "4"
    } else if d == 5 {
        proof { reveal_strlit("5"); }
        "5"
    } else if d == 6 {
        proof { reveal_strlit("6"); }
        "6"
    } else if d == 7 {
        proof { reveal_strlit("7"); }
        "7"
    } else if d == 8 {
        proof { reveal_strlit("8"); }
        "8"
    } else {
        proof { reveal_strlit("9"); }
        "9"
    }
}

/// Writes digits held least significant first as a string, most
/// significant first.
fn digits_to_string(ds: &Vec<u8>) -> (s: String)
    ensures
        s@ == reversed(ds@).map_values(|d: u8| digit_char(d)),
{
    let mut s = String::new();
    let ghost mut done: Seq<u8> = Seq::empty();
    let mut k: usize = ds.len();
    assert(ds@.take(k as int) =~= ds@);
    assert(done + reversed(ds@) =~= reversed(ds@));
    while k > 0
        invariant
            k <= ds@.len(),
            reversed(ds@) == done + reversed(ds@.take(k as int)),
            s@ == done.map_values(|d: u8| digit_char(d)),
        decreases k,
    {
        k = k - 1;
        let d = ds[k];
        proof {
            let t = ds@.take(k + 1);
            assert(t.drop_last() =~= ds@.take(k as int));
            assert(reversed(t) == seq![d] + reversed(ds@.take(k as int)));
            assert(done + reversed(t) =~= done.push(d) + reversed(ds@.take(k as int)));
        }
        s.append(digit_str(d));
        proof {
            done = done.push(d);
        }
        assert(s@ =~= done.map_values(|d: u8| digit_char(d)));
    }
    assert(ds@.take(0) =~= Seq::<u8>::empty());
    assert(done + Seq::<u8>::empty() =~= done);
    s
}

/// The decimal digits of a machine word, least significant first.
fn u64_digits(v: u64) -> (ds: Vec<u8>)
    ensures
        reversed(ds@) == decimal_digits(v as nat),
{
    let mut ds: Vec<u8> = Vec::new();
    let mut x: u64 = v;
    loop
        invariant_except_break
            decimal_digits(v as nat) == decimal_digits(x as nat) + reversed(ds@),
        ensures
            reversed(ds@) == decimal_digits(v as nat),
        decreases x,
    {
        let d = (x % 10) as u8;
        let ghost old_ds = ds@;
        ds.push(d);
        assert(ds@.drop_last() =~= old_ds);
        assert(reversed(ds@) == seq![d] + reversed(old_ds));
        if x < 10 {
            assert(decimal_digits(x as nat) + reversed(old_ds) =~= reversed(ds@));
            break;
        }
        assert(decimal_digits(x as nat) + reversed(old_ds) =~= decimal_digits((x / 10) as nat)
            + reversed(ds@));
        x = x / 10;
    }
    ds
}

/// The value of the bytes of `b` from `i` on, split at `i`.
proof fn lemma_le_skip(b: Seq<u8>, i: int)
    requires
        0 <= i < b.len(),
    ensures
        le_value(b.skip(i)) == b[i] + 256 * le_value(b.skip(i + 1)),
{
    assert(b.skip(i).drop_first() =~= b.skip(i + 1));
}

/// Bytes that hold a positive number from `i` on hold a positive number.
proof fn lemma_le_positive(b: Seq<u8>, i: int)
    requires
        0 <= i <= b.len(),
        le_value(b.skip(i)) > 0,
    ensures
        le_value(b) > 0,
    decreases i,
{
    if i > 0 {
        lemma_le_skip(b, i - 1);
        lemma_le_positive(b, i - 1);
    } else {
        assert(b.skip(0) =~= b);
    }
}

/// Whether little-endian bytes hold zero.
fn is_zero(b: &Vec<u8>) -> (r: bool)
    ensures
        r == (le_value(b@) == 0),
{
    let mut i: usize = b.len();
    while i > 0
        invariant
            i <= b@.len(),
            le_value(b@.skip(i as int)) == 0,
        decreases i,
    {
        proof {
            lemma_le_skip(b@, i - 1);
        }
        if b[i - 1] != 0 {
            proof {
                lemma_le_positive(b@, i - 1);
            }
            return false;
        }
        i = i - 1;
    }
    assert(b@.skip(0) =~= b@);
    true
}

/// Divides little-endian bytes by ten: the quotient, as many bytes long, and
/// the remainder.
fn div_rem_10(b: &Vec<u8>) -> (r: (Vec<u8>, u8))
    ensures
        r.0@.len() == b@.len(),
        r.1 < 10,
        le_value(b@) == 10 * le_value(r.0@) + r.1,
{
    let n = b.len();
    let mut q: Vec<u8> = Vec::new();
    while q.len() < n
        invariant
            q@.len() <= n,
        decreases n - q@.len(),
    {
        q.push(0);
    }
    let mut rem: u8 = 0;
    let mut i: usize = n;
    while i > 0
        invariant
            i <= n,
            n == b@.len(),
            q@.len() == n,
            rem < 10,
            le_value(b@.skip(i as int)) == 10 * le_value(q@.skip(i as int)) + rem,
        decreases i,
    {
        i = i - 1;
        let cur: u32 = rem as u32 * 256 + b[i] as u32;
        let ghost q_old = q@;
        q.set(i, (cur / 10) as u8);
        proof {
            lemma_le_skip(b@, i as int);
            lemma_le_skip(q@, i as int);
            assert(q@.skip(i + 1) =~= q_old.skip(i + 1));
        }
        rem = (cur % 10) as u8;
    }
    assert(b@.skip(0) =~= b@);
    assert(q@.skip(0) =~= q@);
    (q, rem)
}

/// The decimal digits of the number that little-endian bytes hold, least
/// significant first.
fn bytes_digits(b: &[u8]) -> (ds: Vec<u8>)
    ensures
        reversed(ds@) == decimal_digits(le_value(b@)),
{
    let mut x: Vec<u8> = slice_to_vec(b);
    let mut ds: Vec<u8> = Vec::new();
    loop
        invariant_except_break
            decimal_digits(le_value(b@)) == decimal_digits(le_value(x@)) + reversed(ds@),
        ensures
            reversed(ds@) == decimal_digits(le_value(b@)),
        decreases le_value(x@),
    {
        let (q, d) = div_rem_10(&x);
        let ghost old_ds = ds@;
        ds.push(d);
        assert(ds@.drop_last() =~= old_ds);
        assert(reversed(ds@) == seq![d] + reversed(old_ds));
        proof {
            lemma_fundamental_div_mod_converse(
                le_value(x@) as int,
                10,
                le_value(q@) as int,
                d as int,
            );
        }
        if is_zero(&q) {
            assert(decimal_digits(le_value(x@)) + reversed(old_ds) =~= reversed(ds@));
            break;
        }
        assert(decimal_digits(le_value(x@)) + reversed(old_ds) =~= decimal_digits(le_value(q@))
            + reversed(ds@));
        x = q;
    }
    ds
}

} // verus!
