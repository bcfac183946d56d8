use vstd::prelude::*;

use crate::pos::Pos;
use crate::state::Move;

verus! {

/// The decimal digit character for `d` in `0..10`.
pub open spec fn digit_char(d: int) -> char {
    if d == 0 {
        '0'
    } else if d == 1 {
        '1'
    } else if d == 2 {
        '2'
    } else if d == 3 {
        '3'
    } else if d == 4 {
        '4'
    } else if d == 5 {
        '5'
    } else if d == 6 {
        '6'
    } else if d == 7 {
        '7'
    } else if d == 8 {
        '8'
    } else {
        '9'
    }
}

/// The column letter for `x` in `0..10`, counted from 'a'.
pub open spec fn col_char(x: int) -> char {
    if x == 0 {
        'a'
    } else if x == 1 {
        'b'
    } else if x == 2 {
        'c'
    } else if x == 3 {
        'd'
    } else if x == 4 {
        'e'
    } else if x == 5 {
        'f'
    } else if x == 6 {
        'g'
    } else if x == 7 {
        'h'
    } else if x == 8 {
        'i'
    } else {
        'j'
    }
}

/// The decimal rendering of `n`, most significant digit first.
pub open spec fn dec_chars(n: nat) -> Seq<char>
    decreases n,
{
    if n < 10 {
        seq![digit_char(n as int)]
    } else {
        dec_chars(n / 10) + seq![digit_char((n % 10) as int)]
    }
}

/// The textual form of a square: column letter, then row digit.
pub open spec fn pos_chars(p: Pos) -> Seq<char> {
    seq![col_char(p.x as int), digit_char(p.y as int)]
}

/// The textual form of a move: its three squares separated by slashes.
pub open spec fn move_chars(m: Move) -> Seq<char> {
    pos_chars(m.from) + seq!['/'] + pos_chars(m.to) + seq!['/'] + pos_chars(m.arrow)
}

fn digit_str(d: u8) -> (r: &'static str)
    requires
        d < 10,
    ensures
        r@ == seq![digit_char(d as int)],
{
    proof {
        reveal_strlit("0");
        reveal_strlit("1");
        reveal_strlit("2");
        reveal_strlit("3");
        reveal_strlit("4");
        reveal_strlit("5");
        reveal_strlit("6");
        reveal_strlit("7");
        reveal_strlit("8");
        reveal_strlit("9");
    }
    match d {
        0 => "0",
        1 => "1",
        2 => "2",
        3 => "3",
        4 => "4",
        5 => "5",
        6 => "6",
        7 => "7",
        8 => "8",
        _ => "9",
    }
}

fn col_str(x: u8) -> (r: &'static str)
    requires
        x < 10,
    ensures
        r@ == seq![col_char(x as int)],
{
    proof {
        reveal_strlit("a");
        reveal_strlit("b");
        reveal_strlit("c");
        reveal_strlit("d");
        reveal_strlit("e");
        reveal_strlit("f");
        reveal_strlit("g");
        reveal_strlit("h");
        reveal_strlit("i");
        reveal_strlit("j");
    }
    match x {
        0 => "a",
        1 => "b",
        2 => "c",
        3 => "d",
        4 => "e",
        5 => "f",
        6 => "g",
        7 => "h",
        8 => "i",
        _ => "j",
    }
}

/// The characters of the digits of `ds` read back to front.
spec fn chars_of_rev(ds: Seq<u8>) -> Seq<char>
    decreases ds.len(),
{
    if ds.len() == 0 {
        Seq::empty()
    } else {
        seq![digit_char(ds.last() as int)] + chars_of_rev(ds.drop_last())
    }
}

proof fn lemma_chars_of_rev_prepend(d: u8, t: Seq<u8>)
    ensures
        chars_of_rev(seq![d] + t) =~= chars_of_rev(t) + seq![digit_char(d as int)],
    decreases t.len(),
{
    let s = seq![d] + t;
    if t.len() == 0 {
        assert(s.last() == d);
        assert(s.drop_last() =~= Seq::<u8>::empty());
        assert(chars_of_rev(Seq::<u8>::empty()) =~= Seq::<char>::empty());
        assert(chars_of_rev(s) =~= seq![digit_char(d as int)]);
    } else {
        assert(s.last() == t.last());
        assert(s.drop_last() =~= seq![d] + t.drop_last());
        lemma_chars_of_rev_prepend(d, t.drop_last());
    }
}

/// Render `n` in decimal.
pub fn usize_to_string(n: usize) -> (r: String)
    ensures
        r@ == dec_chars(n as nat),
{
    let mut digits: Vec<u8> = Vec::new();
    let mut m = n;
    let mut first = true;
    while m > 0 || first
        invariant
            forall|i: int| 0 <= i < digits@.len() ==> #[trigger] digits@[i] < 10,
            first ==> m == n && digits@.len() == 0,
            !first ==> dec_chars(n as nat) == if m > 0 {
                dec_chars(m as nat) + chars_of_rev(digits@)
            } else {
                chars_of_rev(digits@)
            },
            !first ==> digits@.len() >= 1,
        decreases m, (if first {
            1int
        } else {
            0int
        }),
    {
        let d = (m % 10) as u8;
        let ghost prev = digits@;
        let ghost m0 = m as nat;
        digits.push(d);
        m = m / 10;
        proof {
            assert(digits@ =~= prev + seq![d]);
            assert(chars_of_rev(digits@) =~= seq![digit_char(d as int)] + chars_of_rev(prev)) by {
                assert(digits@.drop_last() =~= prev);
            }
            if m0 >= 10 {
                assert(dec_chars(m0) == dec_chars(m0 / 10) + seq![digit_char((m0 % 10) as int)]);
            } else {
                assert(dec_chars(m0) == seq![digit_char(m0 as int)]);
            }
            assert(dec_chars(n as nat) =~= if m > 0 {
                dec_chars(m as nat) + chars_of_rev(digits@)
            } else {
                chars_of_rev(digits@)
            });
        }
        first = false;
    }
    let mut s = String::new();
    let mut i = digits.len();
    while i > 0
        invariant
            forall|k: int| 0 <= k < digits@.len() ==> #[trigger] digits@[k] < 10,
            i <= digits@.len(),
            s@ == chars_of_rev(digits@.skip(i as int)),
        decreases i,
    {
        i = i - 1;
        let ghost before = digits@.skip(i + 1);
        s.append(digit_str(digits[i]));
        proof {
            assert(digits@.skip(i as int) =~= seq![digits@[i as int]] + before);
            lemma_chars_of_rev_prepend(digits@[i as int], before);
        }
    }
    proof {
        assert(digits@.skip(0) =~= digits@);
    }
    s
}

impl Pos {
    /// The square in letter-digit notation, e.g. `d3`.
    pub fn to_text(&self) -> (r: String)
        requires
            self.wf(),
        ensures
            r@ == pos_chars(*self),
    {
        let mut s = String::new();
        s.append(col_str(self.x));
        s.append(digit_str(self.y));
        proof {
            assert(s@ =~= pos_chars(*self));
        }
        s
    }
}

impl Move {
    /// The move in slash notation, e.g. `d3/d6/a6`.
    pub fn to_text(&self) -> (r: String)
        requires
            self.wf(),
        ensures
            r@ == move_chars(*self),
    {
        proof {
            reveal_strlit("/");
        }
        let mut s = self.from.to_text();
        s.append("/");
        let t = self.to.to_text();
        s.append(t.as_str());
        s.append("/");
        let a = self.arrow.to_text();
        s.append(a.as_str());
        proof {
            assert(s@ =~= move_chars(*self));
        }
        s
    }
}

} // verus!
