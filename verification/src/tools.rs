//! What the outside tools of a run report back: the length of the track from
//! the probe, and success or failure from the probe and the encoder.
//!
//! The probe prints the length in seconds as a decimal number. It is read
//! exactly, as a whole number of microseconds: digits after the sixth
//! decimal place are dropped.

use vstd::prelude::*;

verus! {

/// What a tool left behind when it ended.
pub struct ToolOutput {
    /// Whether the tool reported success.
    pub success: bool,
    /// What it printed.
    pub stdout: Vec<u8>,
    /// What it printed as diagnostics.
    pub stderr: Vec<u8>,
}

/// The failure of an outside tool. It ends the run.
#[derive(Debug, PartialEq, Eq)]
pub enum ExternalToolError {
    /// The probe reported failure. With its diagnostics.
    ProbeFailed { diagnostic: Vec<u8> },
    /// The probe printed no length that can be read. With what it printed.
    UnreadableDuration { output: Vec<u8> },
    /// The encoder reported failure. With its diagnostics.
    EncoderFailed { diagnostic: Vec<u8> },
}

/// The byte of the decimal point.
pub const POINT: u8 = 46;

/// The byte of the digit zero. The other digits follow it in their order.
pub const ZERO: u8 = 48;

/// The byte is a blank: a space, a tab, a line feed, a vertical tab, a form
/// feed or a carriage return.
pub open spec fn is_blank(byte: u8) -> bool {
    byte == 32 || 9 <= byte <= 13
}

/// The byte is a decimal digit.
pub open spec fn is_digit(byte: u8) -> bool {
    ZERO <= byte <= ZERO + 9
}

/// Every byte of `text` is a decimal digit.
pub open spec fn all_digits(text: Seq<u8>) -> bool {
    forall|i: int| 0 <= i < text.len() ==> is_digit(#[trigger] text[i])
}

/// The number that the digits in `text` write in decimal; zero for no digit.
pub open spec fn digits_value(text: Seq<u8>) -> nat
    decreases text.len(),
{
    if text.len() == 0 {
        0
    } else {
        digits_value(text.drop_last()) * 10 + (text.last() - ZERO) as nat
    }
}

/// The number of blanks at the start of `text`.
pub open spec fn leading_blanks(text: Seq<u8>) -> nat
    decreases text.len(),
{
    if text.len() == 0 || !is_blank(text[0]) {
        0
    } else {
        1 + leading_blanks(text.drop_first())
    }
}

/// The number of blanks at the end of `text`.
pub open spec fn trailing_blanks(text: Seq<u8>) -> nat
    decreases text.len(),
{
    if text.len() == 0 || !is_blank(text.last()) {
        0
    } else {
        1 + trailing_blanks(text.drop_last())
    }
}

/// `text` without the blanks at its start and end.
pub open spec fn trimmed(text: Seq<u8>) -> Seq<u8> {
    if leading_blanks(text) == text.len() {
        Seq::empty()
    } else {
        text.subrange(leading_blanks(text) as int, text.len() - trailing_blanks(text))
    }
}

/// The place of the first decimal point in `text`, or the length of `text`
/// where it has none.
pub open spec fn point_index(text: Seq<u8>) -> nat
    decreases text.len(),
{
    if text.len() == 0 || text[0] == POINT {
        0
    } else {
        1 + point_index(text.drop_first())
    }
}

/// Ten to the power of `exponent`.
pub open spec fn power_of_ten(exponent: nat) -> nat
    decreases exponent,
{
    if exponent == 0 {
        1
    } else {
        10 * power_of_ten((exponent - 1) as nat)
    }
}

/// The digits of `number` before its decimal point.
pub open spec fn whole_part(number: Seq<u8>) -> Seq<u8> {
    number.take(point_index(number) as int)
}

/// The digits of `number` after its decimal point.
pub open spec fn fraction_part(number: Seq<u8>) -> Seq<u8> {
    if point_index(number) < number.len() {
        number.skip(point_index(number) as int + 1)
    } else {
        Seq::empty()
    }
}

/// `number` is a decimal number: digits, with at most one decimal point
/// among, before or after them.
pub open spec fn is_decimal_number(number: Seq<u8>) -> bool {
    &&& all_digits(whole_part(number))
    &&& all_digits(fraction_part(number))
    &&& whole_part(number).len() + fraction_part(number).len() > 0
}

/// The millionths in the digits after a decimal point: the first six count,
/// the rest is dropped.
pub open spec fn fraction_micros(fraction: Seq<u8>) -> nat {
    let counted = if fraction.len() < 6 {
        fraction
    } else {
        fraction.take(6)
    };
    digits_value(counted) * power_of_ten((6 - counted.len()) as nat)
}

/// The decimal number `number` in millionths, rounded down.
pub open spec fn decimal_micros(number: Seq<u8>) -> nat {
    digits_value(whole_part(number)) * 1_000_000 + fraction_micros(fraction_part(number))
}

/// The length in microseconds that `text` gives in seconds, if it gives one
/// that fits 64 bits: `text` is a decimal number with nothing but blanks
/// around it.
pub open spec fn duration_micros(text: Seq<u8>) -> Option<u64> {
    let number = trimmed(text);
    if is_decimal_number(number) && decimal_micros(number) <= u64::MAX {
        Some(decimal_micros(number) as u64)
    } else {
        None
    }
}

/// Where the first `count` bytes of `text` are blanks and the next is not,
/// `count` is the number of blanks at the start.
proof fn lemma_leading_blanks(text: Seq<u8>, count: int)
    requires
        0 <= count <= text.len(),
        forall|i: int| 0 <= i < count ==> is_blank(#[trigger] text[i]),
        count < text.len() ==> !is_blank(text[count]),
    ensures
        leading_blanks(text) == count,
    decreases count,
{
    if count > 0 {
        lemma_leading_blanks(text.drop_first(), count - 1);
    }
}

/// Where the last `count` bytes of `text` are blanks and the one before is
/// not, `count` is the number of blanks at the end.
proof fn lemma_trailing_blanks(text: Seq<u8>, count: int)
    requires
        0 <= count <= text.len(),
        forall|i: int| text.len() - count <= i < text.len() ==> is_blank(#[trigger] text[i]),
        count < text.len() ==> !is_blank(text[text.len() - count - 1]),
    ensures
        trailing_blanks(text) == count,
    decreases count,
{
    if count > 0 {
        lemma_trailing_blanks(text.drop_last(), count - 1);
    }
}

/// Where none of the first `index` bytes of `text` is a decimal point and
/// the next is one, or `text` ends there, the first decimal point is at
/// `index`.
proof fn lemma_point_index(text: Seq<u8>, index: int)
    requires
        0 <= index <= text.len(),
        forall|i: int| 0 <= i < index ==> #[trigger] text[i] != POINT,
        index < text.len() ==> text[index] == POINT,
    ensures
        point_index(text) == index,
    decreases index,
{
    if index > 0 {
        lemma_point_index(text.drop_first(), index - 1);
    }
}

/// Says whether the byte is a blank.
fn blank(byte: u8) -> (b: bool)
    ensures
        b == is_blank(byte),
{
    byte == 32 || (9 <= byte && byte <= 13)
}

/// Says whether the byte is a decimal digit.
fn digit(byte: u8) -> (b: bool)
    ensures
        b == is_digit(byte),
{
    ZERO <= byte && byte <= ZERO + 9
}

/// `value`, or one more than 64 bits hold where `value` is larger: numbers
/// are kept apart up to there while digits are read.
spec fn capped(value: nat) -> nat {
    if value > 0x1_0000_0000_0000_0000 {
        0x1_0000_0000_0000_0000
    } else {
        value
    }
}

/// Reads the length of a track from what the probe printed: a decimal
/// number of seconds with nothing but blanks around it. The length is given
/// in microseconds. Nothing is returned for any other text, or for a length
/// that does not fit 64 bits.
pub fn parse_duration_micros(text: &[u8]) -> (r: Option<u64>)
    ensures
        r == duration_micros(text@),
{
    let len = text.len();
    let mut start: usize = 0;
    while start < len && blank(text[start])
        invariant
            start <= len,
            len == text@.len(),
            forall|i: int| 0 <= i < start ==> is_blank(#[trigger] text@[i]),
        decreases len - start,
    {
        start += 1;
    }
    proof {
        lemma_leading_blanks(text@, start as int);
    }
    if start == len {
        assert(trimmed(text@) =~= Seq::<u8>::empty());
        assert(whole_part(trimmed(text@)) =~= Seq::<u8>::empty());
        assert(fraction_part(trimmed(text@)) =~= Seq::<u8>::empty());
        return None;
    }
    let mut end: usize = len;
    while end > start + 1 && blank(text[end - 1])
        invariant
            start < end <= len,
            len == text@.len(),
            forall|i: int| end <= i < len ==> is_blank(#[trigger] text@[i]),
        decreases end,
    {
        end -= 1;
    }
    proof {
        lemma_trailing_blanks(text@, len - end);
    }
    let ghost number = text@.subrange(start as int, end as int);
    assert(number == trimmed(text@));
    let mut at: usize = start;
    let mut whole: u128 = 0;
    while at < end && digit(text[at])
        invariant
            start <= at <= end <= len,
            len == text@.len(),
            number == text@.subrange(start as int, end as int),
            all_digits(number.take(at - start)),
            whole == capped(digits_value(number.take(at - start))),
        decreases end - at,
    {
        proof {
            let read = number.take(at - start + 1);
            assert(read.drop_last() =~= number.take(at - start));
            assert(read.last() == text@[at as int]);
        }
        let next: u128 = whole * 10 + ((text[at] - ZERO) as u128);
        whole = if next > 0x1_0000_0000_0000_0000 {
            0x1_0000_0000_0000_0000
        } else {
            next
        };
        at += 1;
    }
    let whole_len: usize = at - start;
    let ghost point = at - start;
    let mut fraction: u64 = 0;
    let mut counted: usize = 0;
    let mut fraction_len: usize = 0;
    if at < end && text[at] == POINT {
        proof {
            assert forall|i: int| 0 <= i < point implies #[trigger] number[i] != POINT by {
                assert(number.take(point)[i] == number[i]);
            }
            lemma_point_index(number, point);
        }
        at += 1;
        while at < end && digit(text[at])
            invariant
                start <= at <= end <= len,
                len == text@.len(),
                number == text@.subrange(start as int, end as int),
                point_index(number) == point,
                point < number.len(),
                fraction_len == at - start - point - 1,
                counted <= 6,
                counted == if fraction_len < 6 {
                    fraction_len
                } else {
                    6
                },
                all_digits(number.subrange(point + 1, at - start)),
                fraction == digits_value(number.subrange(point + 1, point + 1 + counted)),
                fraction < power_of_ten(counted as nat),
            decreases end - at,
        {
            proof {
                let read = number.subrange(point + 1, at - start + 1);
                assert forall|i: int| 0 <= i < read.len() implies is_digit(#[trigger] read[i]) by {
                    if i < read.len() - 1 {
                        assert(number.subrange(point + 1, at - start)[i] == read[i]);
                    }
                }
                reveal_with_fuel(power_of_ten, 8);
            }
            if counted < 6 {
                proof {
                    let longer = number.subrange(point + 1, point + 1 + counted + 1);
                    assert(longer.drop_last() =~= number.subrange(
                        point + 1,
                        point + 1 + counted,
                    ));
                }
                fraction = fraction * 10 + ((text[at] - ZERO) as u64);
                counted += 1;
            }
            fraction_len += 1;
            at += 1;
        }
    } else {
        proof {
            if at < end {
                assert forall|i: int| 0 <= i < point + 1 implies #[trigger] number[i] != POINT by {
                    if i < point {
                        assert(number.take(point)[i] == number[i]);
                    }
                }
                lemma_point_not_before(number, point + 1);
                lemma_point_found(number);
                assert(whole_part(number)[point] == number[point]);
                assert(!all_digits(whole_part(number)));
            } else {
                assert forall|i: int| 0 <= i < point implies #[trigger] number[i] != POINT by {
                    assert(number.take(point)[i] == number[i]);
                }
                lemma_point_index(number, point);
            }
        }
    }
    if at < end {
        proof {
            let stray = at - start;
            assert(!is_digit(number[stray]));
            if stray > point {
                assert(fraction_part(number)[stray - point - 1] == number[stray]);
                assert(!all_digits(fraction_part(number)));
            }
        }
        return None;
    }
    if whole_len + fraction_len == 0 {
        proof {
            assert(whole_part(number).len() + fraction_part(number).len() == 0);
        }
        return None;
    }
    proof {
        assert(whole_part(number) =~= number.take(point));
        if point < number.len() {
            assert(fraction_part(number) =~= number.subrange(point + 1, at - start));
            let tail = fraction_part(number);
            if tail.len() < 6 {
                assert(tail =~= number.subrange(point + 1, point + 1 + counted));
            } else {
                assert(tail.take(6) =~= number.subrange(point + 1, point + 1 + counted));
            }
        } else {
            assert(fraction_part(number) =~= Seq::<u8>::empty());
        }
        reveal_with_fuel(power_of_ten, 8);
    }
    let mut scale: u64 = 1;
    let mut padded: usize = counted;
    while padded < 6
        invariant
            counted <= padded <= 6,
            scale == power_of_ten((padded - counted) as nat),
            fraction < power_of_ten(counted as nat),
            scale <= 1_000_000,
        decreases 6 - padded,
    {
        proof {
            reveal_with_fuel(power_of_ten, 8);
        }
        scale = scale * 10;
        padded += 1;
    }
    proof {
        reveal_with_fuel(power_of_ten, 8);
        assert(fraction * scale < 1_000_000 * 1_000_000) by (nonlinear_arith)
            requires
                fraction < 1_000_000,
                scale <= 1_000_000,
        ;
        assert(whole * 1_000_000 <= 0x1_0000_0000_0000_0000 * 1_000_000) by (nonlinear_arith)
            requires
                whole <= 0x1_0000_0000_0000_0000,
        ;
        if digits_value(whole_part(number)) > 0x1_0000_0000_0000_0000 {
            assert(digits_value(whole_part(number)) * 1_000_000 > 0x1_0000_0000_0000_0000)
                by (nonlinear_arith)
                requires
                    digits_value(whole_part(number)) > 0x1_0000_0000_0000_0000,
            ;
        }
    }
    let micros: u128 = whole * 1_000_000 + (fraction as u128) * (scale as u128);
    if micros > u64::MAX as u128 {
        None
    } else {
        Some(micros as u64)
    }
}

/// Where none of the first `count` bytes of `text` is a decimal point, the
/// first decimal point is not among them.
proof fn lemma_point_not_before(text: Seq<u8>, count: int)
    requires
        0 <= count <= text.len(),
        forall|i: int| 0 <= i < count ==> #[trigger] text[i] != POINT,
    ensures
        point_index(text) >= count,
    decreases count,
{
    if count > 0 {
        lemma_point_not_before(text.drop_first(), count - 1);
    }
}

/// Where `text` has a decimal point, `point_index` finds one; at any rate it
/// does not point beyond the end.
proof fn lemma_point_found(text: Seq<u8>)
    ensures
        point_index(text) <= text.len(),
        point_index(text) < text.len() ==> text[point_index(text) as int] == POINT,
    decreases text.len(),
{
    if text.len() > 0 && text[0] != POINT {
        lemma_point_found(text.drop_first());
    }
}

/// Reads what the probe left behind: the length of the track in
/// microseconds where the probe succeeded and printed one, and the failure
/// otherwise, with the text that shows it.
pub fn read_probe_result(output: ToolOutput) -> (r: Result<u64, ExternalToolError>)
    ensures
        r matches Ok(micros) ==> output.success && duration_micros(output.stdout@) == Some(
            micros,
        ),
        r matches Err(e) ==> {
            if !output.success {
                e == (ExternalToolError::ProbeFailed { diagnostic: output.stderr })
            } else {
                &&& duration_micros(output.stdout@) is None
                &&& e == (ExternalToolError::UnreadableDuration { output: output.stdout })
            }
        },
{
    if !output.success {
        return Err(ExternalToolError::ProbeFailed { diagnostic: output.stderr });
    }
    match parse_duration_micros(output.stdout.as_slice()) {
        Some(micros) => Ok(micros),
        None => Err(ExternalToolError::UnreadableDuration { output: output.stdout }),
    }
}

/// Reads what the encoder left behind: its failure is the failure of the
/// run, with the encoder's diagnostics.
pub fn read_encoder_result(output: ToolOutput) -> (r: Result<(), ExternalToolError>)
    ensures
        output.success ==> r is Ok,
        !output.success ==> r == Err::<(), ExternalToolError>(
            ExternalToolError::EncoderFailed { diagnostic: output.stderr },
        ),
{
    if output.success {
        Ok(())
    } else {
        Err(ExternalToolError::EncoderFailed { diagnostic: output.stderr })
    }
}

} // verus!
