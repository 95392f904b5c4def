//! Numbers as the sink shows them: in decimal digits, without sign, padding
//! or grouping.

use vstd::prelude::*;
use vstd::string::*;

verus! {

/// The character that writes a digit below ten.
pub open spec fn digit_char(d: nat) -> char {
    seq!['0', '1', '2', '3', '4', '5', '6', '7', '8', '9'][d as int]
}

/// A number in decimal digits, most significant digit first.
pub open spec fn decimal(n: nat) -> Seq<char>
    decreases n,
{
    if n < 10 {
        seq![digit_char(n)]
    } else {
        decimal(n / 10).push(digit_char(n % 10))
    }
}

/// The digits of `low`, which holds the least significant digit first, in
/// the order in which they are written.
pub open spec fn written(low: Seq<u8>) -> Seq<char> {
    Seq::new(low.len(), |i: int| digit_char(low[low.len() - 1 - i] as nat))
}

fn digit_text(d: u8) -> (text: &'static str)
    requires
        d < 10,
    ensures
        text@ == seq![digit_char(d as nat)],
{
    proof {
        reveal_strlit("0");
        reveal_strlit("1");
        reveal_strlit("2");
        reveal_strlit("3");
        reveal_strlit("4");
        reveal_strlit("5");
        reveal_strlit("6");
        reveal_strlit("7");
        reveal_strlit("8");
        reveal_strlit("9");
    }
    let text = if d == 0 {
        "0"
    } else if d == 1 {
        "1"
    } else if d == 2 {
        "2"
    } else if d == 3 {
        "3"
    } else if d == 4 {
        "4"
    } else if d == 5 {
        "5"
    } else if d == 6 {
        "6"
    } else if d == 7 {
        "7"
    } else if d == 8 {
        "8"
    } else {
        "9"
    };
    assert(text@ =~= seq![digit_char(d as nat)]);
    text
}

/// Appends `n` in decimal digits to `out`.
pub fn push_decimal(out: &mut String, n: usize)
    ensures
        final(out)@ == old(out)@ + decimal(n as nat),
{
    let mut low: Vec<u8> = Vec::new();
    let mut rest: usize = n;
    while rest >= 10
        invariant
            decimal(n as nat) == decimal(rest as nat) + written(low@),
            forall|i: int| 0 <= i < low.len() ==> low[i] < 10,
        decreases rest,
    {
        let d: u8 = (rest % 10) as u8;
        proof {
            let next = low@.push(d);
            assert(decimal(rest as nat) == decimal((rest / 10) as nat).push(digit_char(d as nat)));
            assert(written(next) =~= seq![digit_char(d as nat)] + written(low@));
            assert(decimal((rest / 10) as nat).push(digit_char(d as nat)) + written(low@)
                =~= decimal((rest / 10) as nat) + written(next));
        }
        low.push(d);
        rest = rest / 10;
    }
    let d: u8 = rest as u8;
    proof {
        assert(written(low@.push(d)) =~= seq![digit_char(d as nat)] + written(low@));
    }
    low.push(d);
    let mut i: usize = low.len();
    while i > 0
        invariant
            0 <= i <= low.len(),
            forall|j: int| 0 <= j < low.len() ==> low[j] < 10,
            out@ == old(out)@ + written(low@).take(low.len() - i),
            decimal(n as nat) == written(low@),
        decreases i,
    {
        i = i - 1;
        out.append(digit_text(low[i]));
        proof {
            let k = low.len() - 1 - i;
            assert(written(low@).take(k + 1) =~= written(low@).take(k).push(
                digit_char(low[i as int] as nat),
            ));
            assert(out@ =~= old(out)@ + written(low@).take(k + 1));
        }
    }
    assert(written(low@).take(low.len() as int) =~= written(low@));
}

/// A list of numbers as one line: each in decimal digits, one space between
/// two of them, and nothing for an empty list.
pub open spec fn line_of(list: Seq<usize>) -> Seq<char>
    decreases list.len(),
{
    if list.len() == 0 {
        Seq::empty()
    } else if list.len() == 1 {
        decimal(list[0] as nat)
    } else {
        line_of(list.drop_last()) + seq![' '] + decimal(list.last() as nat)
    }
}

/// Writes a list of numbers as one line.
pub fn render_line(list: &Vec<usize>) -> (line: String)
    ensures
        line@ == line_of(list@),
{
    let mut line = String::new();
    let mut i: usize = 0;
    while i < list.len()
        invariant
            0 <= i <= list.len(),
            line@ == line_of(list@.take(i as int)),
        decreases list.len() - i,
    {
        let ghost before = line@;
        if i > 0 {
            proof {
                reveal_strlit(" ");
            }
            line.append(" ");
            assert(line@ =~= before + seq![' ']);
        }
        push_decimal(&mut line, list[i]);
        proof {
            let next = list@.take(i + 1);
            assert(next.drop_last() =~= list@.take(i as int));
            assert(next.last() == list@[i as int]);
            if i == 0 {
                assert(line@ =~= decimal(list@[0] as nat));
            } else {
                assert(line@ =~= line_of(next.drop_last()) + seq![' '] + decimal(
                    next.last() as nat,
                ));
            }
        }
        i = i + 1;
    }
    assert(list@.take(list.len() as int) =~= list@);
    line
}

} // verus!
