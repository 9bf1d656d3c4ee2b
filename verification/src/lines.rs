//! Lists of amounts as text, for sinks that take lines.

use vstd::prelude::*;
use vstd::string::StringExecFns;
use bitcoin::amount::{Amount, Denomination};

verus! {

/// The ten digits.
pub open spec fn digits() -> Seq<char> {
    seq!['0', '1', '2', '3', '4', '5', '6', '7', '8', '9']
}

/// The decimal notation of `value`, without leading zeros.
pub open spec fn decimal(value: nat) -> Seq<char>
    decreases value,
{
    if value < 10 {
        seq![digits()[value as int]]
    } else {
        decimal(value / 10).push(digits()[(value % 10) as int])
    }
}

/// The decimal notations of `values`, with a comma between any two.
pub open spec fn joined(values: Seq<u64>) -> Seq<char>
    decreases values.len(),
{
    if values.len() == 0 {
        Seq::empty()
    } else if values.len() == 1 {
        decimal(values[0] as nat)
    } else {
        joined(values.drop_last()) + seq![','] + decimal(values.last() as nat)
    }
}

/// Calls `Amount::from_sat` and `Amount::to_string_in` of `bitcoin` with the
/// denomination satoshi, in which an amount is written as the decimal
/// notation of its number of satoshi.
#[verifier::external_body]
fn amount_text(value: u64) -> (text: String)
    ensures
        text@ == decimal(value as nat),
{
    Amount::from_sat(value).to_string_in(Denomination::Satoshi)
}

/// The amounts `values` on one line: each in satoshi, with a comma between
/// any two.
pub fn values_line(values: &Vec<u64>) -> (line: String)
    ensures
        line@ == joined(values@),
{
    let mut line = String::new();
    let mut i: usize = 0;
    while i < values.len()
        invariant
            i <= values.len(),
            line@ == joined(values@.take(i as int)),
        decreases values.len() - i,
    {
        let ghost before = line@;
        if i > 0 {
            proof {
                reveal_strlit(",");
            }
            line.append(",");
            assert(line@ =~= before + seq![',']);
        }
        let text = amount_text(values[i]);
        line.append(text.as_str());
        proof {
            let longer = values@.take(i + 1);
            assert(longer.drop_last() =~= values@.take(i as int));
            assert(longer.last() == values@[i as int]);
            if i == 0 {
                assert(before =~= Seq::<char>::empty());
                assert(line@ =~= decimal(values@[0] as nat));
                assert(longer[0] == values@[0]);
            }
        }
        i = i + 1;
    }
    assert(values@.take(i as int) =~= values@);
    line
}

} // verus!
