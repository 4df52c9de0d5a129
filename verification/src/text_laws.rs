use vstd::prelude::*;

use crate::suggest::edit_distance;
use crate::text::{int_to_decimal, nat_to_decimal};

verus! {

/// Whether `c` is one of the characters `0` to `9`.
pub open spec fn is_digit(c: char) -> bool {
    '0' <= c <= '9'
}

/// The number a string of decimal digits denotes, most significant first.
pub open spec fn decimal_value(s: Seq<char>) -> int
    decreases s.len(),
{
    if s.len() == 0 {
        0
    } else {
        decimal_value(s.drop_last()) * 10 + (s.last() as int - '0' as int)
    }
}

/// The decimal spelling of a natural number is made of digits only, has no
/// leading zero (but for zero itself), and denotes that number.
pub proof fn law_decimal_spelling(n: nat)
    ensures
        nat_to_decimal(n).len() > 0,
        forall|i: int| 0 <= i < nat_to_decimal(n).len() ==> is_digit(#[trigger] nat_to_decimal(n)[i]),
        decimal_value(nat_to_decimal(n)) == n,
        n > 0 ==> nat_to_decimal(n)[0] != '0',
    decreases n,
{
    let s = nat_to_decimal(n);
    let d = n % 10;
    assert(crate::text::digit_char(d) as int == 48 + d);
    assert('0' as int == 48);
    if n < 10 {
        assert(s.drop_last() =~= Seq::<char>::empty());
        assert(s.last() == crate::text::digit_char(n));
        assert(n % 10 == n);
        assert(decimal_value(s.drop_last()) == 0);
        assert(decimal_value(s) == decimal_value(s.drop_last()) * 10 + (s.last() as int - '0' as int));
    } else {
        law_decimal_spelling(n / 10);
        let p = nat_to_decimal(n / 10);
        assert(s == p.push(crate::text::digit_char(n % 10)));
        assert(s.drop_last() =~= p);
        assert(forall|i: int| 0 <= i < p.len() ==> s[i] == p[i]);
        assert(s.last() == crate::text::digit_char(d));
        assert(n / 10 * 10 + n % 10 == n);
        assert(decimal_value(s) == decimal_value(s.drop_last()) * 10 + (s.last() as int - '0' as int));
        assert(decimal_value(p) == n / 10);
    }
}

/// The decimal spelling of an integer is that of its absolute value, with a
/// `-` in front exactly when it is negative.
pub proof fn law_signed_decimal_spelling(i: int)
    ensures
        i < 0 ==> int_to_decimal(i)[0] == '-' && int_to_decimal(i).drop_first() == nat_to_decimal(
            (-i) as nat,
        ),
        i >= 0 ==> int_to_decimal(i) == nat_to_decimal(i as nat) && int_to_decimal(i)[0] != '-',
{
    if i < 0 {
        assert(int_to_decimal(i).drop_first() =~= nat_to_decimal((-i) as nat));
    } else {
        law_decimal_spelling(i as nat);
    }
}

/// A sequence is at distance zero from itself.
pub proof fn law_edit_distance_to_itself(a: Seq<char>)
    ensures
        edit_distance(a, a) == 0,
    decreases a.len(),
{
    if a.len() > 0 {
        law_edit_distance_to_itself(a.drop_last());
    }
}

/// The edit distance does not depend on the order of its arguments, and the
/// distance to the empty sequence is the length.
pub proof fn law_edit_distance_symmetric(a: Seq<char>, b: Seq<char>)
    ensures
        edit_distance(a, b) == edit_distance(b, a),
        edit_distance(a, Seq::empty()) == a.len(),
        edit_distance(Seq::empty(), b) == b.len(),
    decreases a.len() + b.len(),
{
    if a.len() > 0 && b.len() > 0 {
        law_edit_distance_symmetric(a.drop_last(), b);
        law_edit_distance_symmetric(a, b.drop_last());
        law_edit_distance_symmetric(a.drop_last(), b.drop_last());
    }
}

/// Two single characters are at distance zero when equal and one otherwise.
pub proof fn law_edit_distance_one_character(x: char, y: char)
    ensures
        edit_distance(seq![x], seq![y]) == (if x == y { 0nat } else { 1nat }),
{
    assert(seq![x].drop_last() =~= Seq::<char>::empty());
    assert(seq![y].drop_last() =~= Seq::<char>::empty());
    assert(edit_distance(Seq::<char>::empty(), seq![y]) == 1);
    assert(edit_distance(seq![x], Seq::<char>::empty()) == 1);
    assert(edit_distance(Seq::<char>::empty(), Seq::<char>::empty()) == 0);
    assert(seq![x].last() == x && seq![y].last() == y);
    assert(seq![x].len() == 1 && seq![y].len() == 1);
}

} // verus!
