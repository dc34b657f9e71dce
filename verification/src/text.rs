//! Text of reports and errors.
use vstd::prelude::*;

verus! {

/// The character of a decimal or hexadecimal digit, in lower case.
pub open spec fn digit(d: int) -> char {
    if d < 10 {
        (48 + d) as char
    } else {
        (87 + d) as char
    }
}

/// A number in decimal notation.
pub open spec fn decimal(n: nat) -> Seq<char>
    decreases n,
{
    if n < 10 {
        seq![digit(n as int)]
    } else {
        decimal(n / 10).push(digit((n % 10) as int))
    }
}

/// A byte string in hexadecimal notation: two lower-case digits per byte, the
/// high one first.
pub open spec fn hexadecimal(bytes: Seq<u8>) -> Seq<char> {
    Seq::new(
        2 * bytes.len(),
        |i: int|
            if i % 2 == 0 {
                digit(bytes[i / 2] as int / 16)
            } else {
                digit(bytes[i / 2] as int % 16)
            },
    )
}

/// The parts of a list, one after another, with a separator between them.
pub open spec fn joined(parts: Seq<Seq<char>>, separator: Seq<char>) -> Seq<char>
    decreases parts.len(),
{
    if parts.len() == 0 {
        seq![]
    } else if parts.len() == 1 {
        parts[0]
    } else {
        joined(parts.drop_last(), separator) + separator + parts.last()
    }
}

/// The characters of each text of a list.
pub open spec fn texts(list: Seq<String>) -> Seq<Seq<char>> {
    Seq::new(list.len(), |i: int| list[i]@)
}

/// `hex::encode`: two lower-case hexadecimal digits for each byte, in order.
#[verifier::external_body]
pub(crate) fn hex_encode(bytes: &[u8]) -> (text: String)
    ensures
        text@ == hexadecimal(bytes@),
{
    hex::encode(bytes)
}

/// The text of a single decimal digit.
fn digit_text(d: u64) -> (text: &'static str)
    requires
        d < 10,
    ensures
        text@ == seq![digit(d as int)],
{
    proof {
        reveal_strlit("0");
        reveal_strlit("1");
        reveal_strlit("2");
        reveal_strlit("3");
        reveal_strlit("4");
        reveal_strlit("5");
        reveal_strlit("6");
        reveal_strlit("7");
        reveal_strlit("8");
        reveal_strlit("9");
    }
    let text = match d {
        0 => "0",
        1 => "1",
        2 => "2",
        3 => "3",
        4 => "4",
        5 => "5",
        6 => "6",
        7 => "7",
        8 => "8",
        _ => "9",
    };
    assert(text@ =~= seq![digit(d as int)]);
    text
}

/// A number in decimal notation.
pub(crate) fn decimal_text(n: u64) -> (text: String)
    ensures
        text@ == decimal(n as nat),
    decreases n,
{
    if n < 10 {
        digit_text(n).to_owned()
    } else {
        let mut text = decimal_text(n / 10);
        let ghost head = text@;
        text.append(digit_text(n % 10));
        assert(text@ =~= head.push(digit((n % 10) as int)));
        text
    }
}

/// The texts of a list, with a separator between them.
pub(crate) fn join_texts(list: &[String], separator: &str) -> (text: String)
    ensures
        text@ == joined(texts(list@), separator@),
{
    let mut text = String::new();
    let mut i: usize = 0;
    assert(texts(list@).take(0) =~= Seq::<Seq<char>>::empty());
    assert(text@ =~= joined(texts(list@).take(0), separator@));
    while i < list.len()
        invariant
            i <= list@.len(),
            text@ == joined(texts(list@).take(i as int), separator@),
        decreases list@.len() - i,
    {
        let ghost before = texts(list@).take(i as int);
        let ghost after = texts(list@).take(i + 1);
        assert(after.drop_last() =~= before);
        assert(after.last() == list@[i as int]@);
        if i > 0 {
            text.append(separator);
        }
        text.append(list[i].as_str());
        assert(text@ =~= joined(after, separator@));
        i = i + 1;
    }
    assert(texts(list@).take(i as int) =~= texts(list@));
    text
}

/// The number that a text of decimal digits stands for.
pub open spec fn number_in(text: Seq<char>) -> int
    decreases text.len(),
{
    if text.len() == 0 {
        0
    } else {
        10 * number_in(text.drop_last()) + (text.last() as int - '0' as int)
    }
}

/// Decimal notation is made of digits, does not start with a zero unless it is
/// the number zero, and stands for the number that was written.
pub proof fn decimal_is_read_back(n: nat)
    ensures
        number_in(decimal(n)) == n,
        decimal(n).len() > 0,
        forall|i: int| 0 <= i < decimal(n).len() ==> '0' <= #[trigger] decimal(n)[i] <= '9',
        decimal(n)[0] == '0' ==> n == 0,
    decreases n,
{
    let text = decimal(n);
    if n < 10 {
        assert(text.drop_last() =~= Seq::<char>::empty());
        assert(number_in(text.drop_last()) == 0);
    } else {
        decimal_is_read_back(n / 10);
        assert(text.drop_last() =~= decimal(n / 10));
        assert(text[0] == decimal(n / 10)[0]);
        assert forall|i: int| 0 <= i < text.len() implies '0' <= #[trigger] text[i] <= '9' by {
            if i < text.len() - 1 {
                assert(text[i] == decimal(n / 10)[i]);
            }
        }
    }
}

/// The value of a hexadecimal digit in lower case.
pub open spec fn digit_value(c: char) -> int {
    if '0' <= c <= '9' {
        c as int - '0' as int
    } else {
        10 + (c as int - 'a' as int)
    }
}

/// Hexadecimal notation has two digits for each byte, in lower case, which
/// together stand for the byte.
pub proof fn hexadecimal_is_read_back(bytes: Seq<u8>, i: int)
    requires
        0 <= i < bytes.len(),
    ensures
        hexadecimal(bytes).len() == 2 * bytes.len(),
        16 * digit_value(hexadecimal(bytes)[2 * i]) + digit_value(hexadecimal(bytes)[2 * i + 1])
            == bytes[i],
        forall|j: int|
            0 <= j < 2 * bytes.len() ==> {
                ||| '0' <= #[trigger] hexadecimal(bytes)[j] <= '9'
                ||| 'a' <= hexadecimal(bytes)[j] <= 'f'
            },
{
    let text = hexadecimal(bytes);
    assert(text[2 * i] == digit(bytes[i] as int / 16));
    assert(text[2 * i + 1] == digit(bytes[i] as int % 16));
}

/// The texts of a list are those of its elements.
pub proof fn texts_are_those_of_the_elements(list: Seq<String>)
    ensures
        texts(list).len() == list.len(),
        forall|i: int| 0 <= i < list.len() ==> #[trigger] texts(list)[i] == list[i]@,
{
}

/// Joining no text gives none, joining one gives that text, and joining two
/// lists puts the separator between what joining each of them gives.
pub proof fn joining_lists_joins_their_texts(
    a: Seq<Seq<char>>,
    b: Seq<Seq<char>>,
    text: Seq<char>,
    separator: Seq<char>,
)
    ensures
        joined(seq![], separator) == Seq::<char>::empty(),
        joined(seq![text], separator) == text,
        a.len() > 0 && b.len() > 0 ==> joined(a + b, separator) == joined(a, separator) + separator
            + joined(b, separator),
    decreases b.len(),
{
    if a.len() > 0 && b.len() > 0 {
        let front = b.drop_last();
        assert((a + b).drop_last() =~= a + front);
        assert((a + b).last() == b.last());
        if b.len() == 1 {
            assert(a + front =~= a);
        } else {
            joining_lists_joins_their_texts(a, front, text, separator);
        }
        assert(joined(a + b, separator) =~= joined(a, separator) + separator + joined(
            b,
            separator,
        ));
    }
}

} // verus!
