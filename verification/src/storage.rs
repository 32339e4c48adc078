//! The balance file: one line per client, `ID BALANCE`, named after the day
//! and the number of the cut.

use vstd::prelude::*;

use crate::amount::{amount_text, amount_to_text, Amount, AmountValue};
use crate::service::cut_view;
use crate::text::{nat_text, push_u64};

verus! {

/// The line of one client: its id, a space, its balance, a line feed.
pub open spec fn balance_line(id: u64, balance: AmountValue) -> Seq<char> {
    nat_text(id as nat) + seq![' '] + amount_text(balance) + seq!['\n']
}

/// The text of a balance file: the lines of the entries, in order.
pub open spec fn balances_text(balances: Seq<(u64, AmountValue)>) -> Seq<char>
    decreases balances.len(),
{
    if balances.len() == 0 {
        Seq::empty()
    } else {
        balances_text(balances.drop_last()) + balance_line(
            balances.last().0,
            balances.last().1,
        )
    }
}

/// The name of a balance file: the day, an underscore, the number of the
/// cut, and `.DAT`.
pub open spec fn balance_file_name_text(day: Seq<char>, file_number: u64) -> Seq<char> {
    day + seq!['_'] + nat_text(file_number as nat) + seq!['.', 'D', 'A', 'T']
}

/// The text of the balance file for a cut. Ids are written as they are,
/// balances with the scale they were stored with; no clients give an empty
/// text.
pub fn generate_balances_text(balances: Vec<(u64, Amount)>) -> (r: String)
    ensures
        r@ == balances_text(cut_view(balances@)),
{
    let ghost cv = cut_view(balances@);
    let mut text = String::new();
    let n = balances.len();
    let mut i: usize = 0;
    assert(cv.take(0) =~= Seq::<(u64, AmountValue)>::empty());
    while i < n
        invariant
            n == balances@.len(),
            cv == cut_view(balances@),
            0 <= i <= n,
            text@ == balances_text(cv.take(i as int)),
        decreases n - i,
    {
        let (client_id, balance) = balances[i];
        let ghost before = text@;
        push_u64(&mut text, client_id);
        text.append(" ");
        let balance_text = amount_to_text(&balance);
        text.append(balance_text.as_str());
        text.append("\n");
        proof {
            assert(cv.take(i + 1).drop_last() =~= cv.take(i as int));
            assert(cv.take(i + 1).last() == (client_id, balance@));
            reveal_strlit(" ");
            reveal_strlit("\n");
            assert(" "@ == seq![' ']);
            assert("\n"@ == seq!['\n']);
            assert(text@ =~= before + balance_line(client_id, balance@));
            assert(balances_text(cv.take(i + 1)) == balances_text(cv.take(i as int)) + balance_line(client_id, balance@));
        }
        i = i + 1;
    }
    assert(cv.take(n as int) =~= cv);
    text
}

/// The name of the balance file of a cut made on `day` (written `DDMMYYYY`).
pub fn balance_file_name(day: &str, file_number: u64) -> (r: String)
    ensures
        r@ == balance_file_name_text(day@, file_number),
{
    let mut name = String::from_str(day);
    proof { reveal_strlit("_"); reveal_strlit(".DAT"); }
    name.append("_");
    push_u64(&mut name, file_number);
    name.append(".DAT");
    assert(name@ =~= balance_file_name_text(day@, file_number));
    name
}

} // verus!
