//! The names under which frames are stored.
//!
//! A frame is stored as `frame_`, its index in decimal with zeros in front up
//! to six digits, and `.png`. Up to a million frames all names are equally
//! long, so a listing by name is a listing by index.

use vstd::prelude::*;
use vstd::string::StringExecFns;

verus! {

/// The number of digits to which a frame index is padded.
pub const INDEX_DIGITS: usize = 6;

/// The pattern that stands for all frame names, as encoders take it.
pub const FRAME_PATTERN: &'static str = "frame_%06d.png";

/// The character of the decimal digit `digit`.
pub open spec fn digit_char(digit: int) -> char
    recommends
        0 <= digit <= 9,
{
    if digit == 0 {
        '0'
    } else if digit == 1 {
        '1'
    } else if digit == 2 {
        '2'
    } else if digit == 3 {
        '3'
    } else if digit == 4 {
        '4'
    } else if digit == 5 {
        '5'
    } else if digit == 6 {
        '6'
    } else if digit == 7 {
        '7'
    } else if digit == 8 {
        '8'
    } else {
        '9'
    }
}

/// `number` in decimal, without zeros in front.
pub open spec fn decimal(number: nat) -> Seq<char>
    decreases number,
{
    if number < 10 {
        seq![digit_char(number as int)]
    } else {
        decimal(number / 10).push(digit_char((number % 10) as int))
    }
}

/// `number` in decimal, with zeros in front where it has fewer than `width`
/// digits.
pub open spec fn zero_padded(number: nat, width: nat) -> Seq<char> {
    let digits = decimal(number);
    if digits.len() >= width {
        digits
    } else {
        Seq::new((width - digits.len()) as nat, |i: int| '0') + digits
    }
}

/// The name of the frame with index `index`.
pub open spec fn frame_name(index: nat) -> Seq<char> {
    "frame_"@ + zero_padded(index, INDEX_DIGITS as nat) + ".png"@
}

/// The six digits of a frame index below a million, the first digit first.
pub open spec fn six_digits(index: nat) -> Seq<char> {
    seq![
        digit_char((index / 100_000 % 10) as int),
        digit_char((index / 10_000 % 10) as int),
        digit_char((index / 1_000 % 10) as int),
        digit_char((index / 100 % 10) as int),
        digit_char((index / 10 % 10) as int),
        digit_char((index % 10) as int),
    ]
}

/// `first` comes before `second` where texts of the same length are listed
/// by character: `first` has the lesser character at the first place at which
/// the two differ.
pub open spec fn lists_before(first: Seq<char>, second: Seq<char>) -> bool {
    exists|at: int|
        {
            &&& 0 <= at < first.len()
            &&& at < second.len()
            &&& #[trigger] first.take(at) == second.take(at)
            &&& first[at] < second[at]
        }
}

/// The last `width` digits of `number`, with zeros in front where it has
/// fewer.
spec fn last_digits(number: nat, width: nat) -> Seq<char>
    decreases width,
{
    if width == 0 {
        Seq::empty()
    } else {
        last_digits(number / 10, (width - 1) as nat).push(digit_char((number % 10) as int))
    }
}

/// Ten to the power of `exponent`.
spec fn ten_to(exponent: nat) -> nat
    decreases exponent,
{
    if exponent == 0 {
        1
    } else {
        10 * ten_to((exponent - 1) as nat)
    }
}

/// The last digits of zero are zeros.
proof fn lemma_last_digits_of_zero(width: nat)
    ensures
        last_digits(0, width) == Seq::new(width, |i: int| '0'),
    decreases width,
{
    if width > 0 {
        lemma_last_digits_of_zero((width - 1) as nat);
        assert(last_digits(0, width) =~= Seq::new(width, |i: int| '0'));
    } else {
        assert(last_digits(0, width) =~= Seq::new(width, |i: int| '0'));
    }
}

/// A number with at most `width` digits, padded to `width`, is its last
/// `width` digits.
proof fn lemma_padded_is_last_digits(number: nat, width: nat)
    requires
        width >= 1,
        number < ten_to(width),
    ensures
        decimal(number).len() <= width,
        last_digits(number, width).len() == width,
        zero_padded(number, width) == last_digits(number, width),
    decreases width,
{
    let last = digit_char((number % 10) as int);
    if number < 10 {
        lemma_last_digits_of_zero((width - 1) as nat);
        assert(number / 10 == 0);
        assert(zero_padded(number, width) =~= last_digits(number, width));
    } else {
        assert(ten_to(1) == 10) by {
            reveal_with_fuel(ten_to, 2);
        }
        assert(width >= 2);
        lemma_padded_is_last_digits(number / 10, (width - 1) as nat);
        let front = decimal(number / 10);
        assert(decimal(number) == front.push(last));
        assert(zero_padded(number, width) =~= zero_padded(number / 10, (width - 1) as nat).push(
            last,
        ));
    }
}

/// Below a million a frame index is written with exactly six digits, so all
/// names are sixteen characters long.
pub proof fn lemma_frame_name_has_six_digits(index: nat)
    requires
        index < 1_000_000,
    ensures
        zero_padded(index, INDEX_DIGITS as nat) == six_digits(index),
        frame_name(index) == "frame_"@ + six_digits(index) + ".png"@,
        frame_name(index).len() == 16,
{
    assert(ten_to(6) == 1_000_000) by {
        reveal_with_fuel(ten_to, 7);
    }
    lemma_padded_is_last_digits(index, 6);
    assert(last_digits(index, 6) =~= six_digits(index)) by {
        reveal_with_fuel(last_digits, 7);
    }
    reveal_strlit("frame_");
    reveal_strlit(".png");
}

/// A lesser digit has the lesser character.
proof fn lemma_digit_chars_rise(lesser: int, greater: int)
    requires
        0 <= lesser < greater <= 9,
    ensures
        digit_char(lesser) < digit_char(greater),
{
}

/// Of two numbers with at most `width` digits the lesser has the digits
/// that are listed first: at the place that is returned it has the lesser
/// digit, and before that the two have the same.
proof fn lemma_last_digits_list_in_order(first: nat, second: nat, width: nat) -> (place: int)
    requires
        first < second < ten_to(width),
    ensures
        0 <= place < width,
        last_digits(first, width).len() == width,
        last_digits(second, width).len() == width,
        last_digits(first, width).take(place) == last_digits(second, width).take(place),
        last_digits(first, width)[place] < last_digits(second, width)[place],
    decreases width,
{
    assert(width >= 1) by {
        reveal_with_fuel(ten_to, 1);
    }
    let shorter = (width - 1) as nat;
    let a = last_digits(first, width);
    let b = last_digits(second, width);
    let front_a = last_digits(first / 10, shorter);
    let front_b = last_digits(second / 10, shorter);
    lemma_last_digits_len(first / 10, shorter);
    lemma_last_digits_len(second / 10, shorter);
    if first / 10 == second / 10 {
        lemma_digit_chars_rise((first % 10) as int, (second % 10) as int);
        assert(a.take(width - 1) =~= front_a);
        assert(b.take(width - 1) =~= front_b);
        width - 1
    } else {
        let place = lemma_last_digits_list_in_order(first / 10, second / 10, shorter);
        assert(a.take(place) =~= front_a.take(place));
        assert(b.take(place) =~= front_b.take(place));
        place
    }
}

/// There are `width` last digits.
proof fn lemma_last_digits_len(number: nat, width: nat)
    ensures
        last_digits(number, width).len() == width,
    decreases width,
{
    if width > 0 {
        lemma_last_digits_len(number / 10, (width - 1) as nat);
    }
}

/// Below a million, frames that differ in their index differ in their name,
/// and the frame with the lower index has the name that is listed first: a
/// listing by name is a listing by index.
pub proof fn lemma_frame_names_list_in_frame_order(first: nat, second: nat)
    requires
        first < second < 1_000_000,
    ensures
        frame_name(first) != frame_name(second),
        frame_name(first).len() == frame_name(second).len(),
        lists_before(frame_name(first), frame_name(second)),
{
    assert(ten_to(6) == 1_000_000) by {
        reveal_with_fuel(ten_to, 7);
    }
    lemma_padded_is_last_digits(first, 6);
    lemma_padded_is_last_digits(second, 6);
    let place = lemma_last_digits_list_in_order(first, second, 6);
    let head = "frame_"@;
    assert(head.len() == 6) by {
        reveal_strlit("frame_");
    }
    let a = frame_name(first);
    let b = frame_name(second);
    let at = 6 + place;
    assert(a.take(at) =~= head + last_digits(first, 6).take(place));
    assert(b.take(at) =~= head + last_digits(second, 6).take(place));
    assert(a[at] == last_digits(first, 6)[place]);
    assert(b[at] == last_digits(second, 6)[place]);
}

/// The digits in `digits`, last to first, as characters.
spec fn digits_backwards(digits: Seq<u8>) -> Seq<char> {
    Seq::new(digits.len(), |i: int| digit_char(digits[digits.len() - 1 - i] as int))
}

/// The text of one decimal digit.
fn digit_text(digit: u8) -> (text: &'static str)
    requires
        digit <= 9,
    ensures
        text@ == seq![digit_char(digit as int)],
{
    proof {
        reveal_strlit("0");
        reveal_strlit("1");
        reveal_strlit("2");
        reveal_strlit("3");
        reveal_strlit("4");
        reveal_strlit("5");
        reveal_strlit("6");
        reveal_strlit("7");
        reveal_strlit("8");
        reveal_strlit("9");
    }
    let text = if digit == 0 {
        "0"
    } else if digit == 1 {
        "1"
    } else if digit == 2 {
        "2"
    } else if digit == 3 {
        "3"
    } else if digit == 4 {
        "4"
    } else if digit == 5 {
        "5"
    } else if digit == 6 {
        "6"
    } else if digit == 7 {
        "7"
    } else if digit == 8 {
        "8"
    } else {
        "9"
    };
    assert(text@ =~= seq![digit_char(digit as int)]);
    text
}

/// Appends `number` in decimal to `text`, with zeros in front where it has
/// fewer than `width` digits.
pub fn append_padded(text: &mut String, number: usize, width: usize)
    ensures
        final(text)@ == old(text)@ + zero_padded(number as nat, width as nat),
{
    let mut digits: Vec<u8> = Vec::new();
    let mut rest: usize = number;
    while rest >= 10
        invariant
            decimal(number as nat) == decimal(rest as nat) + digits_backwards(digits@),
            forall|i: int| 0 <= i < digits@.len() ==> digits@[i] <= 9,
        decreases rest,
    {
        let ghost before = digits@;
        digits.push((rest % 10) as u8);
        proof {
            let digit = digit_char((rest % 10) as int);
            assert(digits_backwards(digits@) =~= seq![digit] + digits_backwards(before));
            assert(decimal(rest as nat) == decimal((rest / 10) as nat).push(digit));
            assert(decimal((rest / 10) as nat).push(digit) + digits_backwards(before) =~= decimal(
                (rest / 10) as nat,
            ) + digits_backwards(digits@));
        }
        rest = rest / 10;
    }
    let ghost before = digits@;
    digits.push(rest as u8);
    proof {
        assert(digits_backwards(digits@) =~= seq![digit_char(rest as int)] + digits_backwards(
            before,
        ));
        assert(decimal(number as nat) =~= digits_backwards(digits@));
    }
    let ghost head = text@;
    let mut padding: usize = digits.len();
    while padding < width
        invariant
            digits@.len() <= padding,
            digits@.len() < width ==> padding <= width,
            digits@.len() >= width ==> padding == digits@.len(),
            text@ == head + Seq::new((padding - digits@.len()) as nat, |i: int| '0'),
        decreases width - padding,
    {
        text.append(digit_text(0));
        padding += 1;
        assert(text@ =~= head + Seq::new((padding - digits@.len()) as nat, |i: int| '0'));
    }
    let ghost padded = text@;
    let ghost zeros = Seq::new((padding - digits@.len()) as nat, |i: int| '0');
    assert(zero_padded(number as nat, width as nat) =~= zeros + digits_backwards(digits@));
    let mut left: usize = digits.len();
    while left > 0
        invariant
            left <= digits@.len(),
            forall|i: int| 0 <= i < digits@.len() ==> digits@[i] <= 9,
            text@ == padded + digits_backwards(digits@).take(digits@.len() - left),
        decreases left,
    {
        left -= 1;
        text.append(digit_text(digits[left]));
        assert(text@ =~= padded + digits_backwards(digits@).take(digits@.len() - left));
    }
    assert(digits_backwards(digits@).take(digits@.len() as int) =~= digits_backwards(digits@));
    assert(text@ =~= head + (zeros + digits_backwards(digits@)));
}

/// Makes the name under which the frame with index `index` is stored.
pub fn frame_file_name(index: usize) -> (name: String)
    ensures
        name@ == frame_name(index as nat),
{
    let mut name = String::from_str("frame_");
    append_padded(&mut name, index, INDEX_DIGITS);
    name.append(".png");
    name
}

} // verus!
