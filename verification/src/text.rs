//! Text: comparing strings, ordering them, and writing numbers in decimal.

use vstd::prelude::*;
use vstd::relations::*;
use vstd::seq_lib::*;

verus! {

/// `str`'s equality. Two string slices are equal exactly when they hold the same characters in the
/// same order.
pub assume_specification[ <str as PartialEq>::eq ](a: &str, b: &str) -> (res: bool)
    ensures
        res == (a@ == b@),
;

/// The characters of each string of a list.
pub open spec fn texts(list: Seq<String>) -> Seq<Seq<char>> {
    list.map_values(|s: String| s@)
}

/// The characters of an optional string.
pub open spec fn opt_text(text: Option<String>) -> Option<Seq<char>> {
    match text {
        Some(s) => Some(s@),
        None => None,
    }
}

/// Whether `a` comes no later than `b` when texts are ordered by their first differing character,
/// a text coming before every longer text that begins with it.
pub open spec fn text_le(a: Seq<char>, b: Seq<char>) -> bool
    decreases a.len(),
{
    if a.len() == 0 {
        true
    } else if b.len() == 0 {
        false
    } else if a[0] != b[0] {
        (a[0] as int) < (b[0] as int)
    } else {
        text_le(a.drop_first(), b.drop_first())
    }
}

/// `text_le` as a relation.
pub open spec fn text_order() -> spec_fn(Seq<char>, Seq<char>) -> bool {
    |a: Seq<char>, b: Seq<char>| text_le(a, b)
}

/// The decimal digit `d`.
pub open spec fn digit(d: nat) -> char {
    (48 + d) as char
}

/// `n` in decimal, without leading zeros.
pub open spec fn decimal(n: nat) -> Seq<char>
    decreases n,
{
    if n < 10 {
        seq![digit(n)]
    } else {
        decimal(n / 10).push(digit(n % 10))
    }
}

/// `n` in decimal, with leading zeros up to at least `width` digits.
pub open spec fn padded(n: nat, width: nat) -> Seq<char> {
    let digits = decimal(n);
    if digits.len() >= width {
        digits
    } else {
        Seq::new((width - digits.len()) as nat, |i: int| '0') + digits
    }
}

proof fn lemma_text_le_reflexive(a: Seq<char>)
    ensures
        text_le(a, a),
    decreases a.len(),
{
    if a.len() > 0 {
        lemma_text_le_reflexive(a.drop_first());
    }
}

proof fn lemma_text_le_antisymmetric(a: Seq<char>, b: Seq<char>)
    requires
        text_le(a, b),
        text_le(b, a),
    ensures
        a == b,
    decreases a.len(),
{
    if a.len() > 0 && b.len() > 0 {
        lemma_text_le_antisymmetric(a.drop_first(), b.drop_first());
        assert(a =~= seq![a[0]] + a.drop_first());
        assert(b =~= seq![b[0]] + b.drop_first());
    } else {
        assert(a =~= b);
    }
}

proof fn lemma_text_le_transitive(a: Seq<char>, b: Seq<char>, c: Seq<char>)
    requires
        text_le(a, b),
        text_le(b, c),
    ensures
        text_le(a, c),
    decreases a.len(),
{
    if a.len() > 0 && b.len() > 0 && c.len() > 0 && a[0] == b[0] && b[0] == c[0] {
        lemma_text_le_transitive(a.drop_first(), b.drop_first(), c.drop_first());
    }
}

proof fn lemma_text_le_connected(a: Seq<char>, b: Seq<char>)
    ensures
        text_le(a, b) || text_le(b, a),
    decreases a.len(),
{
    if a.len() > 0 && b.len() > 0 && a[0] == b[0] {
        lemma_text_le_connected(a.drop_first(), b.drop_first());
    }
}

/// The order on texts is total: every two texts compare, and only equal texts compare both ways.
pub proof fn text_order_is_total()
    ensures
        total_ordering(text_order()),
{
    assert forall|a: Seq<char>| #[trigger] text_order()(a, a) by {
        lemma_text_le_reflexive(a);
    }
    assert forall|a: Seq<char>, b: Seq<char>| #[trigger]
        text_order()(a, b) && #[trigger] text_order()(b, a) implies a == b by {
        lemma_text_le_antisymmetric(a, b);
    }
    assert forall|a: Seq<char>, b: Seq<char>, c: Seq<char>| #[trigger]
        text_order()(a, b) && #[trigger] text_order()(b, c) implies text_order()(a, c) by {
        lemma_text_le_transitive(a, b, c);
    }
    assert forall|a: Seq<char>, b: Seq<char>| #[trigger] text_order()(a, b) || #[trigger] text_order()(
        b,
        a,
    ) by {
        lemma_text_le_connected(a, b);
    }
}

/// The last `width` decimal digits of `n`.
pub open spec fn last_digits(n: nat, width: nat) -> Seq<char>
    decreases width,
{
    if width == 0 {
        Seq::empty()
    } else {
        last_digits(n / 10, (width - 1) as nat).push(digit(n % 10))
    }
}

/// A number of up to four digits, padded to four digits, shows its last four digits.
pub proof fn lemma_padded_four(n: nat)
    requires
        n < 10000,
    ensures
        padded(n, 4) == last_digits(n, 4),
{
    reveal_with_fuel(decimal, 4);
    reveal_with_fuel(last_digits, 5);
    assert(padded(n, 4) =~= last_digits(n, 4));
}

/// A number of up to two digits, padded to two digits, shows its last two digits.
pub proof fn lemma_padded_two(n: nat)
    requires
        n < 100,
    ensures
        padded(n, 2) == last_digits(n, 2),
{
    reveal_with_fuel(decimal, 2);
    reveal_with_fuel(last_digits, 3);
    assert(padded(n, 2) =~= last_digits(n, 2));
}

/// A common beginning does not matter to the order of two texts.
pub proof fn lemma_common_prefix(prefix: Seq<char>, a: Seq<char>, b: Seq<char>)
    ensures
        text_le(prefix + a, prefix + b) == text_le(a, b),
    decreases prefix.len(),
{
    if prefix.len() == 0 {
        assert(prefix + a =~= a);
        assert(prefix + b =~= b);
    } else {
        lemma_common_prefix(prefix.drop_first(), a, b);
        assert((prefix + a).drop_first() =~= prefix.drop_first() + a);
        assert((prefix + b).drop_first() =~= prefix.drop_first() + b);
    }
}

/// Of two numbers written with the same number of digits, the smaller one comes first, whatever
/// follows it.
pub proof fn lemma_digits_in_order(m: nat, n: nat, width: nat, a: Seq<char>, b: Seq<char>)
    requires
        m < n,
        n < vstd::arithmetic::power::pow(10, width),
    ensures
        text_le(last_digits(m, width) + a, last_digits(n, width) + b),
        !text_le(last_digits(n, width) + b, last_digits(m, width) + a),
    decreases width,
{
    reveal(vstd::arithmetic::power::pow);
    if width > 0 {
        let tail_m = seq![digit(m % 10)] + a;
        let tail_n = seq![digit(n % 10)] + b;
        let head_m = last_digits(m / 10, (width - 1) as nat);
        let head_n = last_digits(n / 10, (width - 1) as nat);
        assert(last_digits(m, width) + a =~= head_m + tail_m);
        assert(last_digits(n, width) + b =~= head_n + tail_n);
        if m / 10 < n / 10 {
            lemma_digits_in_order(m / 10, n / 10, (width - 1) as nat, tail_m, tail_n);
        } else {
            lemma_common_prefix(head_m, tail_m, tail_n);
            lemma_common_prefix(head_m, tail_n, tail_m);
        }
    }
}

/// `Vec::<String>::sort`. Afterwards the list holds the same texts, each as often as before, and
/// they stand in the order of `text_le`: strings are ordered byte by byte, which for UTF-8 is the
/// order of their characters.
#[verifier::external_body]
fn sort_strings(list: &mut Vec<String>)
    ensures
        texts(final(list)@).to_multiset() == texts(old(list)@).to_multiset(),
        sorted_by(texts(final(list)@), text_order()),
{
    list.sort();
}

/// Puts a list of strings in order.
pub fn sort_texts(list: &mut Vec<String>)
    ensures
        texts(final(list)@) == texts(old(list)@).sort_by(text_order()),
        sorted_by(texts(final(list)@), text_order()),
{
    let ghost before = texts(list@);
    sort_strings(list);
    proof {
        text_order_is_total();
        before.lemma_sort_by_ensures(text_order());
        lemma_sorted_unique(texts(list@), before.sort_by(text_order()), text_order());
    }
}

/// Whether a list of strings holds the given text.
pub fn contains_text(list: &Vec<String>, text: &str) -> (res: bool)
    ensures
        res == texts(list@).contains(text@),
{
    for i in 0..list.len()
        invariant
            forall|j: int| 0 <= j < i ==> texts(list@)[j] != text@,
    {
        if *list[i].as_str() == *text {
            assert(texts(list@)[i as int] == text@);
            return true;
        }
    }
    false
}

fn digit_str(d: u32) -> (res: &'static str)
    requires
        d < 10,
    ensures
        res@ == seq![digit(d as nat)],
{
    proof {
        reveal_strlit("0");
        reveal_strlit("1");
        reveal_strlit("2");
        reveal_strlit("3");
        reveal_strlit("4");
        reveal_strlit("5");
        reveal_strlit("6");
        reveal_strlit("7");
        reveal_strlit("8");
        reveal_strlit("9");
    }
    let res = match d {
        0 => "0",
        1 => "1",
        2 => "2",
        3 => "3",
        4 => "4",
        5 => "5",
        6 => "6",
        7 => "7",
        8 => "8",
        _ => "9",
    };
    assert(res@ =~= seq![digit(d as nat)]);
    res
}

/// Writes a number in decimal.
pub fn decimal_string(n: u32) -> (res: String)
    ensures
        res@ == decimal(n as nat),
    decreases n,
{
    if n < 10 {
        digit_str(n).to_owned()
    } else {
        let mut res = decimal_string(n / 10);
        res.append(digit_str(n % 10));
        assert(res@ =~= decimal(n as nat));
        res
    }
}

/// Of two texts, the one comes no later that the other one begins with, or that has the smaller
/// character where they differ first.
pub proof fn texts_are_ordered_by_their_first_difference(a: Seq<char>, b: Seq<char>)
    ensures
        text_le(a, b) <==> a.is_prefix_of(b) || exists|i: int|
            0 <= i < a.len() && i < b.len() && a.take(i) == b.take(i) && (#[trigger] a[i] as int) < (
            #[trigger] b[i] as int),
    decreases a.len(),
{
    if a.len() > 0 && b.len() > 0 {
        assert(a.take(0) =~= b.take(0));
        let ra = a.drop_first();
        let rb = b.drop_first();
        if a[0] == b[0] {
            texts_are_ordered_by_their_first_difference(ra, rb);
            if ra.is_prefix_of(rb) {
                assert(a =~= b.subrange(0, a.len() as int)) by {
                    assert(ra =~= rb.subrange(0, ra.len() as int));
                    assert forall|k: int| 0 <= k < a.len() implies a[k] == b[k] by {
                        if k > 0 {
                            assert(ra[k - 1] == rb.subrange(0, ra.len() as int)[k - 1]);
                        }
                    }
                }
            }
            if a.is_prefix_of(b) {
                assert forall|k: int| 0 <= k < ra.len() implies ra[k] == rb[k] by {
                    assert(a[k + 1] == b.subrange(0, a.len() as int)[k + 1]);
                }
                assert(ra =~= rb.subrange(0, ra.len() as int));
            }
            if exists|i: int|
                0 <= i < ra.len() && i < rb.len() && ra.take(i) == rb.take(i) && (#[trigger] ra[i] as int) < (
                #[trigger] rb[i] as int) {
                let i = choose|i: int|
                    0 <= i < ra.len() && i < rb.len() && ra.take(i) == rb.take(i) && (#[trigger] ra[i] as int) < (
                    #[trigger] rb[i] as int);
                assert forall|k: int| 0 <= k < i + 1 implies a[k] == b[k] by {
                    if k > 0 {
                        assert(ra.take(i)[k - 1] == rb.take(i)[k - 1]);
                    }
                }
                assert(a.take(i + 1) =~= b.take(i + 1));
                assert((a[i + 1] as int) < (b[i + 1] as int));
            }
            if exists|i: int|
                0 <= i < a.len() && i < b.len() && a.take(i) == b.take(i) && (#[trigger] a[i] as int) < (
                #[trigger] b[i] as int) {
                let i = choose|i: int|
                    0 <= i < a.len() && i < b.len() && a.take(i) == b.take(i) && (#[trigger] a[i] as int) < (
                    #[trigger] b[i] as int);
                assert forall|k: int| 0 <= k < i - 1 implies ra[k] == rb[k] by {
                    assert(a.take(i)[k + 1] == b.take(i)[k + 1]);
                }
                assert(ra.take(i - 1) =~= rb.take(i - 1));
                assert((ra[i - 1] as int) < (rb[i - 1] as int));
            }
        } else {
            if a.is_prefix_of(b) {
                assert(a[0] == b.subrange(0, a.len() as int)[0]);
            }
            if exists|i: int|
                0 <= i < a.len() && i < b.len() && a.take(i) == b.take(i) && (#[trigger] a[i] as int) < (
                #[trigger] b[i] as int) {
                let i = choose|i: int|
                    0 <= i < a.len() && i < b.len() && a.take(i) == b.take(i) && (#[trigger] a[i] as int) < (
                    #[trigger] b[i] as int);
                if i > 0 {
                    assert(a.take(i)[0] == b.take(i)[0]);
                }
            }
        }
    } else if a.len() == 0 {
        assert(a =~= b.subrange(0, 0));
    }
}

/// The number that a row of decimal digits stands for.
pub open spec fn read_number(digits: Seq<char>) -> int
    decreases digits.len(),
{
    if digits.len() == 0 {
        0
    } else {
        10 * read_number(digits.drop_last()) + (digits.last() as int - '0' as int)
    }
}

/// A number in decimal is a row of digits that stands for the number, and begins with a zero only
/// where the number is zero.
pub proof fn decimal_stands_for_the_number(n: nat)
    ensures
        read_number(decimal(n)) == n,
        decimal(n).len() > 0,
        forall|i: int| 0 <= i < decimal(n).len() ==> '0' <= #[trigger] decimal(n)[i] <= '9',
        n > 0 ==> decimal(n)[0] != '0',
        n == 0 ==> decimal(n).len() == 1,
    decreases n,
{
    reveal_with_fuel(read_number, 2);
    if n >= 10 {
        decimal_stands_for_the_number(n / 10);
        assert(decimal(n).drop_last() =~= decimal(n / 10));
        assert forall|i: int| 0 <= i < decimal(n).len() implies '0' <= #[trigger] decimal(n)[i] <= '9' by {
            if i < decimal(n / 10).len() {
                assert(decimal(n)[i] == decimal(n / 10)[i]);
            }
        }
        assert(decimal(n)[0] == decimal(n / 10)[0]);
    } else {
        assert(decimal(n).drop_last() =~= Seq::<char>::empty());
    }
}

proof fn lemma_read_zeros(zeros: nat, digits: Seq<char>)
    ensures
        read_number(Seq::new(zeros, |i: int| '0') + digits) == read_number(digits),
    decreases digits.len() + zeros,
{
    let all = Seq::new(zeros, |i: int| '0') + digits;
    if digits.len() > 0 {
        lemma_read_zeros(zeros, digits.drop_last());
        assert(all.drop_last() =~= Seq::new(zeros, |i: int| '0') + digits.drop_last());
    } else if zeros > 0 {
        lemma_read_zeros((zeros - 1) as nat, digits);
        assert(all.drop_last() =~= Seq::new((zeros - 1) as nat, |i: int| '0') + digits);
    }
}

/// A padded number is a row of digits that stands for the number. It has at least the width that is
/// asked for, and more digits only where the number needs them.
pub proof fn padded_stands_for_the_number(n: nat, width: nat)
    ensures
        read_number(padded(n, width)) == n,
        padded(n, width).len() >= width,
        padded(n, width).len() > width && width > 0 ==> padded(n, width)[0] != '0',
        forall|i: int| 0 <= i < padded(n, width).len() ==> '0' <= #[trigger] padded(n, width)[i] <= '9',
{
    decimal_stands_for_the_number(n);
    let digits = decimal(n);
    if digits.len() < width {
        lemma_read_zeros((width - digits.len()) as nat, digits);
        assert forall|i: int| 0 <= i < padded(n, width).len() implies '0' <= #[trigger] padded(n, width)[i] <= '9' by {
            if i >= width - digits.len() {
                assert(padded(n, width)[i] == digits[i - (width - digits.len())]);
            }
        }
    }
}

/// A list of strings and an optional string stand for the characters that they hold.
pub proof fn text_views_show_the_characters(list: Seq<String>, text: String)
    ensures
        texts(list).len() == list.len(),
        forall|i: int| 0 <= i < list.len() ==> #[trigger] texts(list)[i] == list[i]@,
        opt_text(Some(text)) == Some(text@),
        opt_text(None) is None,
{
}

} // verus!
