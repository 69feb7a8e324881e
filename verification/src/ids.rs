//! Order ids: the time of the k-line an order was placed on, then its counter in
//! decimal within brackets (`2024/01/01 08:00:00 [17]`). The counter alone tells two
//! ids apart, whatever the time text holds.
use crate::util::{last_index_of, lemma_last_index_of};
use vstd::prelude::*;
use vstd::string::*;

verus! {

/// The character of a decimal digit.
pub open spec fn digit_char(d: nat) -> char {
    if d == 0 {
        '0'
    } else if d == 1 {
        '1'
    } else if d == 2 {
        '2'
    } else if d == 3 {
        '3'
    } else if d == 4 {
        '4'
    } else if d == 5 {
        '5'
    } else if d == 6 {
        '6'
    } else if d == 7 {
        '7'
    } else if d == 8 {
        '8'
    } else {
        '9'
    }
}

/// `n` in decimal, most significant digit first, without leading zeros.
pub open spec fn decimal_digits(n: nat) -> Seq<char>
    decreases n,
{
    if n < 10 {
        seq![digit_char(n)]
    } else {
        decimal_digits(n / 10).push(digit_char(n % 10))
    }
}

/// The id of the order placed with counter `n` on a k-line whose time reads `time_text`.
pub open spec fn order_id_text(time_text: Seq<char>, n: nat) -> Seq<char> {
    time_text + seq![' ', '['] + decimal_digits(n) + seq![']']
}

/// `k` is an order id whose counter is below `c`.
pub open spec fn id_below(k: Seq<char>, c: int) -> bool {
    exists|t: Seq<char>, n: nat| n < c && k == #[trigger] order_id_text(t, n)
}

pub proof fn lemma_digits_shape(n: nat)
    ensures
        decimal_digits(n).len() >= 1,
        n >= 10 ==> decimal_digits(n).len() >= 2,
        forall|i: int| 0 <= i < decimal_digits(n).len() ==> #[trigger] decimal_digits(n)[i] != '[' && decimal_digits(n)[i] != ']',
    decreases n,
{
    if n >= 10 {
        lemma_digits_shape(n / 10);
    }
}

pub proof fn lemma_digits_injective(a: nat, b: nat)
    requires
        decimal_digits(a) == decimal_digits(b),
    ensures
        a == b,
    decreases a,
{
    lemma_digits_shape(a);
    lemma_digits_shape(b);
    let da = decimal_digits(a);
    if a < 10 && b < 10 {
        assert(da[0] == digit_char(a) && da[0] == digit_char(b));
    } else if a >= 10 && b >= 10 {
        let pa = decimal_digits(a / 10);
        let pb = decimal_digits(b / 10);
        assert(da == pa.push(digit_char(a % 10)));
        assert(da == pb.push(digit_char(b % 10)));
        assert(da[da.len() - 1] == digit_char(a % 10) && da[da.len() - 1] == digit_char(b % 10));
        assert(a % 10 == b % 10);
        assert(pa =~= da.drop_last());
        assert(pb =~= da.drop_last());
        lemma_digits_injective(a / 10, b / 10);
    }
}

/// The bracket before the counter is the last `[` of an id.
pub proof fn lemma_id_last_bracket(t: Seq<char>, n: nat)
    ensures
        last_index_of(order_id_text(t, n), '[', order_id_text(t, n).len() as int) == t.len() + 1,
{
    let s = order_id_text(t, n);
    let d = decimal_digits(n);
    lemma_digits_shape(n);
    lemma_last_index_of(s, '[', s.len() as int);
    let li = last_index_of(s, '[', s.len() as int);
    let p: int = t.len() as int + 1;
    assert(s[p] == '[');
    assert forall|j: int| p < j < s.len() implies s[j] != '[' by {
        if j < s.len() - 1 {
            assert(s[j] == d[j - p - 1]);
        } else {
            assert(s[j] == ']');
        }
    }
    if li < p {
        assert(s[p] != '[');
    }
}

/// Two ids with different counters differ.
pub proof fn lemma_id_counter_injective(t1: Seq<char>, n1: nat, t2: Seq<char>, n2: nat)
    requires
        order_id_text(t1, n1) == order_id_text(t2, n2),
    ensures
        n1 == n2,
{
    let s = order_id_text(t1, n1);
    lemma_id_last_bracket(t1, n1);
    lemma_id_last_bracket(t2, n2);
    let p: int = t1.len() as int + 1;
    assert(p == t2.len() + 1);
    let tail1 = decimal_digits(n1) + seq![']'];
    let tail2 = decimal_digits(n2) + seq![']'];
    assert(s.subrange(p + 1, s.len() as int) =~= tail1);
    assert(order_id_text(t2, n2).subrange(p + 1, s.len() as int) =~= tail2);
    assert(tail1.drop_last() =~= decimal_digits(n1));
    assert(tail2.drop_last() =~= decimal_digits(n2));
    lemma_digits_injective(n1, n2);
}

/// An id made with counter `c` is not among ids whose counters are below `c`.
pub proof fn lemma_fresh_id(k: Seq<char>, t: Seq<char>, c: nat)
    requires
        id_below(k, c as int),
    ensures
        k != order_id_text(t, c),
{
    let (t1, n1) = choose|t1: Seq<char>, n1: nat| n1 < c && k == #[trigger] order_id_text(t1, n1);
    if k == order_id_text(t, c) {
        lemma_id_counter_injective(t1, n1, t, c);
    }
}

/// The one-character text of a digit.
fn digit_text(d: u64) -> (r: &'static str)
    requires
        d < 10,
    ensures
        r@ == seq![digit_char(d as nat)],
{
    proof {
        reveal_strlit("0");
        reveal_strlit("1");
        reveal_strlit("2");
        reveal_strlit("3");
        reveal_strlit("4");
        reveal_strlit("5");
        reveal_strlit("6");
        reveal_strlit("7");
        reveal_strlit("8");
        reveal_strlit("9");
    }
    if d == 0 {
        "0"
    } else if d == 1 {
        "1"
    } else if d == 2 {
        "2"
    } else if d == 3 {
        "3"
    } else if d == 4 {
        "4"
    } else if d == 5 {
        "5"
    } else if d == 6 {
        "6"
    } else if d == 7 {
        "7"
    } else if d == 8 {
        "8"
    } else {
        "9"
    }
}

/// `n` in decimal (as `u64::to_string` writes it).
pub fn decimal_text(n: u64) -> (r: String)
    ensures
        r@ == decimal_digits(n as nat),
    decreases n,
{
    if n < 10 {
        String::from_str(digit_text(n))
    } else {
        let head = decimal_text(n / 10);
        head.concat(digit_text(n % 10))
    }
}

/// The id of the order placed with counter `n` on a k-line whose time reads
/// `time_text`.
pub fn order_id(time_text: String, n: u64) -> (r: String)
    ensures
        r@ == order_id_text(time_text@, n as nat),
{
    proof {
        reveal_strlit(" [");
        reveal_strlit("]");
    }
    let r = time_text.concat(" [").concat(decimal_text(n).as_str()).concat("]");
    proof {
        assert(r@ =~= order_id_text(time_text@, n as nat));
    }
    r
}

} // verus!
