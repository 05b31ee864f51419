//! Numbers and lists of numbers as text.
use vstd::prelude::*;
use vstd::string::*;

verus! {

/// The character of a decimal digit.
pub open spec fn digit(d: nat) -> char {
    seq!['0', '1', '2', '3', '4', '5', '6', '7', '8', '9'][d as int]
}

/// A number in decimal notation.
pub open spec fn decimal(n: nat) -> Seq<char>
    decreases n,
{
    if n < 10 {
        seq![digit(n)]
    } else {
        decimal(n / 10).push(digit(n % 10))
    }
}

/// The numbers in decimal notation, with a comma and a space between them.
pub open spec fn enumeration(v: Seq<usize>) -> Seq<char>
    decreases v.len(),
{
    if v.len() == 0 {
        seq![]
    } else if v.len() == 1 {
        decimal(v[0] as nat)
    } else {
        enumeration(v.drop_last()) + ", "@ + decimal(v.last() as nat)
    }
}

/// The numbers in square brackets.
pub open spec fn bracketed(v: Seq<usize>) -> Seq<char> {
    "["@ + enumeration(v) + "]"@
}

/// The text of one digit.
fn digit_text(d: usize) -> (r: &'static str)
    requires
        d < 10,
    ensures
        r@ == seq![digit(d as nat)],
{
    proof {
        reveal_strlit("0");
        reveal_strlit("1");
        reveal_strlit("2");
        reveal_strlit("3");
        reveal_strlit("4");
        reveal_strlit("5");
        reveal_strlit("6");
        reveal_strlit("7");
        reveal_strlit("8");
        reveal_strlit("9");
    }
    match d {
        0 => "0",
        1 => "1",
        2 => "2",
        3 => "3",
        4 => "4",
        5 => "5",
        6 => "6",
        7 => "7",
        8 => "8",
        _ => "9",
    }
}

/// The decimal text of a number.
pub fn decimal_text(n: usize) -> (r: String)
    ensures
        r@ == decimal(n as nat),
    decreases n,
{
    if n < 10 {
        digit_text(n).to_string()
    } else {
        let mut text: String = decimal_text(n / 10);
        text.append(digit_text(n % 10));
        assert(text@ =~= decimal(n as nat));
        text
    }
}

/// The text of a list of numbers.
pub fn bracketed_text(v: &Vec<usize>) -> (r: String)
    ensures
        r@ == bracketed(v@),
{
    let mut text: String = "[".to_string();
    let mut k: usize = 0;
    while k < v.len()
        invariant
            k <= v.len(),
            text@ == "["@ + enumeration(v@.take(k as int)),
        decreases v.len() - k,
    {
        let ghost before = text@;
        if k > 0 {
            text.append(", ");
        }
        let number: String = decimal_text(v[k]);
        text.append(number.as_str());
        proof {
            let longer = v@.take(k + 1);
            assert(longer.drop_last() =~= v@.take(k as int));
            assert(longer.last() == v@[k as int]);
            if k == 0 {
                assert(v@.take(0) =~= Seq::<usize>::empty());
                assert(longer[0] == v@[0]);
            }
            assert(text@ =~= "["@ + enumeration(longer));
        }
        k = k + 1;
    }
    assert(v@.take(v@.len() as int) =~= v@);
    text.append("]");
    text
}

/// The name of the place that holds a layer.
pub open spec fn layer_name(index: nat) -> Seq<char> {
    "layers."@ + decimal(index)
}

/// The name of the place that holds a layer.
pub fn layer_name_text(index: usize) -> (r: String)
    ensures
        r@ == layer_name(index as nat),
{
    let mut text: String = "layers.".to_string();
    let number: String = decimal_text(index);
    text.append(number.as_str());
    text
}

/// No two layers have the same name.
pub proof fn law_layer_names_differ(a: nat, b: nat)
    requires
        layer_name(a) == layer_name(b),
    ensures
        a == b,
{
    let prefix = "layers."@.len() as int;
    assert(layer_name(a).skip(prefix) =~= decimal(a));
    assert(layer_name(b).skip(prefix) =~= decimal(b));
    lemma_decimal_is_injective(a, b);
}

/// Two numbers with the same decimal text are the same number.
pub proof fn lemma_decimal_is_injective(a: nat, b: nat)
    requires
        decimal(a) == decimal(b),
    ensures
        a == b,
    decreases a,
{
    lemma_decimal_len(a);
    lemma_decimal_len(b);
    if a < 10 && b < 10 {
        assert(decimal(a)[0] == digit(a));
        assert(decimal(b)[0] == digit(b));
    } else if a >= 10 && b >= 10 {
        assert(decimal(a).drop_last() =~= decimal(a / 10));
        assert(decimal(b).drop_last() =~= decimal(b / 10));
        assert(decimal(a).last() == digit(a % 10));
        assert(decimal(b).last() == digit(b % 10));
        lemma_decimal_is_injective(a / 10, b / 10);
    }
}

proof fn lemma_decimal_len(n: nat)
    ensures
        decimal(n).len() >= 1,
        n >= 10 ==> decimal(n).len() >= 2,
    decreases n,
{
    if n >= 10 {
        lemma_decimal_len(n / 10);
    }
}

/// The number that a text of decimal digits stands for.
pub open spec fn value_of(text: Seq<char>) -> int
    decreases text.len(),
{
    if text.len() == 0 {
        0
    } else {
        10 * value_of(text.drop_last()) + (text.last() as int - '0' as int)
    }
}

/// The text is made of decimal digits, and starts with a zero only if there is nothing else.
pub open spec fn is_numeral(text: Seq<char>) -> bool {
    &&& text.len() > 0
    &&& forall|k: int| 0 <= k < text.len() ==> '0' <= #[trigger] text[k] <= '9'
    &&& text[0] == '0' ==> text.len() == 1
}

proof fn lemma_value(n: nat)
    ensures
        value_of(decimal(n)) == n,
        is_numeral(decimal(n)),
        decimal(n)[0] == '0' ==> n == 0,
    decreases n,
{
    let text = decimal(n);
    if n < 10 {
        assert(text.drop_last() =~= Seq::<char>::empty());
        assert(text.last() == digit(n));
        assert(value_of(text.drop_last()) == 0);
    } else {
        lemma_value(n / 10);
        let before = decimal(n / 10);
        assert(text.drop_last() =~= before);
        assert(text.last() == digit(n % 10));
        assert(value_of(text) == 10 * value_of(before) + (digit(n % 10) as int - '0' as int));
        assert forall|k: int| 0 <= k < text.len() implies '0' <= #[trigger] text[k] <= '9' by {
            if k < before.len() {
                assert(text[k] == before[k]);
            }
        }
        assert(text[0] == before[0]);
    }
}

/// The text of a number is a numeral that stands for the number.
pub proof fn law_text_of_a_number_stands_for_it(n: usize, text: String)
    requires
        call_ensures(decimal_text, (n,), text),
    ensures
        is_numeral(text@),
        value_of(text@) == n,
{
    lemma_value(n as nat);
}

/// The name of a layer ends in the numeral of its index.
pub proof fn law_name_of_a_layer_ends_in_its_index(index: usize, name: String)
    requires
        call_ensures(layer_name_text, (index,), name),
    ensures
        name@.len() > 7,
        name@.take(7) == seq!['l', 'a', 'y', 'e', 'r', 's', '.'],
        is_numeral(name@.skip(7)),
        value_of(name@.skip(7)) == index,
{
    reveal_strlit("layers.");
    assert("layers."@ =~= seq!['l', 'a', 'y', 'e', 'r', 's', '.']);
    lemma_value(index as nat);
    assert(name@.skip(7) =~= decimal(index as nat));
    assert(name@.take(7) =~= "layers."@);
}

/// The text of a list stands in brackets, a longer list continues a shorter one, and a comma and a
/// space stand between two numbers.
pub proof fn law_text_of_a_list_continues_that_of_a_shorter_one(
    v: Vec<usize>,
    w: Vec<usize>,
    text: String,
    longer: String,
    number: String,
)
    requires
        w@.len() > 0,
        v@ == w@.drop_last(),
        call_ensures(bracketed_text, (&v,), text),
        call_ensures(bracketed_text, (&w,), longer),
        call_ensures(decimal_text, (w@.last(),), number),
    ensures
        v@.len() == 0 ==> text@ == seq!['[', ']'],
        longer@ == text@.drop_last() + (if v@.len() == 0 {
            seq![]
        } else {
            seq![',', ' ']
        }) + number@ + seq![']'],
{
    reveal_strlit("[");
    reveal_strlit("]");
    reveal_strlit(", ");
    assert("["@ =~= seq!['['] && "]"@ =~= seq![']'] && ", "@ =~= seq![',', ' ']);
    assert(text@.drop_last() =~= seq!['['] + enumeration(v@));
    if v@.len() == 0 {
        assert(text@ =~= seq!['[', ']']);
        assert(w@[0] == w@.last());
        assert(longer@ =~= seq!['['] + number@ + seq![']']);
    } else {
        assert(longer@ =~= seq!['['] + enumeration(v@) + seq![',', ' '] + number@ + seq![']']);
    }
}

} // verus!
