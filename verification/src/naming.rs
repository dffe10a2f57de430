//! The search parameters that a template's file name carries.
//!
//! A template file is named `<label>_<tolerance>_<percentage>.png`. A name
//! with fewer than three fields is a label as a whole and stands for the
//! default parameters, and a field that is no number of its range stands
//! for its default.

use vstd::prelude::*;
use vstd::string::StringExecFns;
use vstd::string::StrSliceExecFns;

verus! {

/// The tolerance of a template whose name gives none.
pub const TOLERANCE: u8 = 30;

/// The percentage of a template whose name gives none.
pub const PERCENTAGE: usize = 25;

/// The parameters that a template's name stands for.
#[derive(Debug)]
pub struct TemplateParams {
    pub label: String,
    pub tolerance: u8,
    pub percentage: usize,
}

/// The text starts with `.png`.
pub open spec fn starts_with_png(text: Seq<char>) -> bool {
    text.len() >= 4 && text[0] == '.' && text[1] == 'p' && text[2] == 'n' && text[3] == 'g'
}

/// The text without its occurrences of `.png`, found from the left.
pub open spec fn without_png(text: Seq<char>) -> Seq<char>
    decreases text.len(),
{
    if text.len() == 0 {
        text
    } else if starts_with_png(text) {
        without_png(text.skip(4))
    } else {
        seq![text[0]] + without_png(text.skip(1))
    }
}

/// Where the field that starts at `start` ends: at the next `_`, or at
/// the end of the name.
pub open spec fn field_end(name: Seq<char>, start: int) -> int
    decreases name.len() - start,
{
    if start >= name.len() {
        name.len() as int
    } else if name[start] == '_' {
        start
    } else {
        field_end(name, start + 1)
    }
}

/// Where the field of the given index starts, the fields being what `_`
/// separates.
pub open spec fn field_start(name: Seq<char>, index: nat) -> int
    decreases index,
{
    if index == 0 {
        0
    } else {
        field_end(name, field_start(name, (index - 1) as nat)) + 1
    }
}

/// The field of the given index.
pub open spec fn field(name: Seq<char>, index: nat) -> Seq<char> {
    name.subrange(field_start(name, index), field_end(name, field_start(name, index)))
}

/// The name has at least three fields.
pub open spec fn has_three_fields(name: Seq<char>) -> bool {
    field_start(name, 2) <= name.len()
}

pub open spec fn is_digit(c: char) -> bool {
    '0' <= c && c <= '9'
}

/// The number that a run of decimal digits denotes.
pub open spec fn digits_value(digits: Seq<char>) -> nat
    decreases digits.len(),
{
    if digits.len() == 0 {
        0
    } else {
        digits_value(digits.drop_last()) * 10 + (digits.last() as nat - '0' as nat) as nat
    }
}

/// The text behind its `+` sign, if it has one.
pub open spec fn unsigned_digits(text: Seq<char>) -> Seq<char> {
    if text.len() > 0 && text[0] == '+' {
        text.skip(1)
    } else {
        text
    }
}

/// The number that a field denotes: an optional `+`, then one decimal
/// digit or more, the number being no larger than `max`.
pub open spec fn parse_unsigned(text: Seq<char>, max: nat) -> Option<nat> {
    let digits = unsigned_digits(text);
    if digits.len() > 0 && (forall|i: int| 0 <= i < digits.len() ==> is_digit(digits[i]))
        && digits_value(digits) <= max {
        Some(digits_value(digits))
    } else {
        None
    }
}

/// The label that a name stands for: its first field, or the whole name
/// where it has fewer than three fields.
pub open spec fn name_label(name: Seq<char>) -> Seq<char> {
    if has_three_fields(name) {
        field(name, 0)
    } else {
        name
    }
}

/// The tolerance that a name stands for.
pub open spec fn name_tolerance(name: Seq<char>) -> u8 {
    if has_three_fields(name) {
        match parse_unsigned(field(name, 1), u8::MAX as nat) {
            Some(value) => value as u8,
            None => TOLERANCE,
        }
    } else {
        TOLERANCE
    }
}

/// The percentage that a name stands for.
pub open spec fn name_percentage(name: Seq<char>) -> usize {
    if has_three_fields(name) {
        match parse_unsigned(field(name, 2), usize::MAX as nat) {
            Some(value) => value as usize,
            None => PERCENTAGE,
        }
    } else {
        PERCENTAGE
    }
}

/// A run of digits denotes no less than any of its prefixes.
pub proof fn lemma_digits_value_grows(digits: Seq<char>, shorter: int)
    requires
        0 <= shorter <= digits.len(),
        forall|i: int| 0 <= i < digits.len() ==> is_digit(digits[i]),
    ensures
        digits_value(digits.take(shorter)) <= digits_value(digits),
    decreases digits.len(),
{
    if shorter == digits.len() {
        assert(digits.take(shorter) =~= digits);
    } else {
        lemma_digits_value_grows(digits.drop_last(), shorter);
        assert(digits.drop_last().take(shorter) =~= digits.take(shorter));
    }
}

fn field_end_of(name: &str, len: usize, start: usize) -> (end: usize)
    requires
        len == name@.len(),
        start <= len,
    ensures
        end == field_end(name@, start as int),
        start <= end <= len,
{
    let mut i: usize = start;
    while i < len
        invariant
            len == name@.len(),
            start <= i <= len,
            field_end(name@, i as int) == field_end(name@, start as int),
        decreases len - i,
    {
        if name.get_char(i) == '_' {
            return i;
        }
        i = i + 1;
    }
    i
}

fn parse_unsigned_of(name: &str, from: usize, to: usize, max: u64) -> (value: Option<u64>)
    requires
        from <= to <= name@.len(),
    ensures
        value == match parse_unsigned(name@.subrange(from as int, to as int), max as nat) {
            Some(number) => Some(number as u64),
            None => None,
        },
{
    let ghost text = name@.subrange(from as int, to as int);
    let start: usize = if from < to && name.get_char(from) == '+' {
        from + 1
    } else {
        from
    };
    let ghost digits = unsigned_digits(text);
    assert(digits =~= name@.subrange(start as int, to as int));
    if start == to {
        return None;
    }
    let mut number: u64 = 0;
    let mut i: usize = start;
    while i < to
        invariant
            from <= start <= i <= to <= name@.len(),
            digits == unsigned_digits(name@.subrange(from as int, to as int)),
            digits == name@.subrange(start as int, to as int),
            forall|k: int| 0 <= k < i - start ==> is_digit(digits[k]),
            number == digits_value(digits.take(i - start)),
            number <= max,
        decreases to - i,
    {
        let c: char = name.get_char(i);
        assert(c == digits[i - start]);
        if !('0' <= c && c <= '9') {
            assert(!is_digit(digits[i - start]));
            return None;
        }
        let digit: u32 = c as u32 - '0' as u32;
        let next: u128 = number as u128 * 10 + digit as u128;
        proof {
            assert(digits.take(i - start + 1).drop_last() =~= digits.take(i - start));
            assert(next == digits_value(digits.take(i - start + 1)));
        }
        if next > max as u128 {
            proof {
                if forall|k: int| 0 <= k < digits.len() ==> is_digit(digits[k]) {
                    lemma_digits_value_grows(digits, i - start + 1);
                }
            }
            return None;
        }
        number = next as u64;
        i = i + 1;
    }
    proof {
        assert(digits.take(i - start) =~= digits);
    }
    Some(number)
}

/// Takes the occurrences of `.png` out of a file name.
pub fn strip_png(file_name: &str) -> (name: String)
    ensures
        name@ == without_png(file_name@),
{
    let len: usize = file_name.unicode_len();
    let mut name = String::new();
    let mut i: usize = 0;
    assert(name@ + without_png(file_name@.skip(0)) =~= without_png(file_name@)) by {
        assert(file_name@.skip(0) =~= file_name@);
    }
    while i < len
        invariant
            len == file_name@.len(),
            i <= len,
            name@ + without_png(file_name@.skip(i as int)) == without_png(file_name@),
        decreases len - i,
    {
        let ghost rest = file_name@.skip(i as int);
        if len - i >= 4 && file_name.get_char(i) == '.' && file_name.get_char(i + 1) == 'p'
            && file_name.get_char(i + 2) == 'n' && file_name.get_char(i + 3) == 'g' {
            assert(starts_with_png(rest));
            assert(rest.skip(4) =~= file_name@.skip(i + 4));
            i = i + 4;
        } else {
            assert(!starts_with_png(rest));
            assert(rest.skip(1) =~= file_name@.skip(i + 1));
            let ghost before = name@;
            name.append(file_name.substring_char(i, i + 1));
            assert(name@ =~= before + seq![rest[0]]);
            assert(name@ + without_png(rest.skip(1)) =~= before + without_png(rest));
            i = i + 1;
        }
    }
    assert(without_png(file_name@.skip(len as int)) =~= Seq::<char>::empty());
    assert(name@ + Seq::<char>::empty() =~= name@);
    name
}

/// Reads the parameters that a template's name stands for.
pub fn parse_template_name(name: &str) -> (params: TemplateParams)
    ensures
        params.label@ == name_label(name@),
        params.tolerance == name_tolerance(name@),
        params.percentage == name_percentage(name@),
{
    let len: usize = name.unicode_len();
    proof {
        reveal_with_fuel(field_start, 3);
    }
    let first_end = field_end_of(name, len, 0);
    if first_end >= len {
        return TemplateParams { label: name.to_owned(), tolerance: TOLERANCE, percentage: PERCENTAGE };
    }
    let second_end = field_end_of(name, len, first_end + 1);
    if second_end >= len {
        return TemplateParams { label: name.to_owned(), tolerance: TOLERANCE, percentage: PERCENTAGE };
    }
    let third_end = field_end_of(name, len, second_end + 1);
    let label = name.substring_char(0, first_end).to_owned();
    let tolerance: u8 = match parse_unsigned_of(name, first_end + 1, second_end, u8::MAX as u64) {
        Some(value) => value as u8,
        None => TOLERANCE,
    };
    let percentage: usize = match parse_unsigned_of(
        name,
        second_end + 1,
        third_end,
        usize::MAX as u64,
    ) {
        Some(value) => value as usize,
        None => PERCENTAGE,
    };
    TemplateParams { label, tolerance, percentage }
}

} // verus!
