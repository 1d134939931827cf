//! Lines of text as sequences of characters: prefixes, trimming and
//! unsigned decimal numbers.

use vstd::prelude::*;

verus! {

/// Whether `char::is_whitespace` holds of a character: whether it has the
/// Unicode property White_Space.
pub uninterp spec fn is_whitespace(c: char) -> bool;

/// The whitespace among the first 128 characters: the blank and the five
/// control characters from the tabulator to the carriage return.
pub open spec fn ascii_whitespace(c: char) -> bool {
    c == ' ' || '\t' <= c <= '\r'
}

/// `char::is_whitespace` of std. Its answer depends on the character alone,
/// and among the first 128 characters the property list of Unicode, by
/// which std defines it, gives the property to the blank and to the
/// characters from the tabulator to the carriage return only.
#[verifier::external_body]
pub(crate) fn char_is_whitespace(c: char) -> (white: bool)
    ensures
        white == is_whitespace(c),
        c <= '\x7f' ==> white == ascii_whitespace(c),
{
    c.is_whitespace()
}

/// The characters of a string, in order.
pub fn chars_of(text: &str) -> (chars: Vec<char>)
    ensures
        chars@ == text@,
{
    broadcast use vstd::string::group_string_axioms;

    let mut chars: Vec<char> = Vec::new();
    for c in it: text.chars()
        invariant
            it.seq() == text@,
            chars@ == it.history(),
    {
        chars.push(c);
    }
    chars
}

/// Whether `text` begins with `prefix`.
pub open spec fn starts_with(text: Seq<char>, prefix: Seq<char>) -> bool {
    prefix.len() <= text.len() && text.subrange(0, prefix.len() as int) == prefix
}

/// Whether the characters begin with those of `prefix`.
pub fn has_prefix(chars: &Vec<char>, prefix: &str) -> (found: bool)
    ensures
        found == starts_with(chars@, prefix@),
{
    let wanted: Vec<char> = chars_of(prefix);
    if wanted.len() > chars.len() {
        return false;
    }
    let mut i: usize = 0;
    while i < wanted.len()
        invariant
            i <= wanted@.len() <= chars@.len(),
            wanted@ == prefix@,
            chars@.subrange(0, i as int) == wanted@.subrange(0, i as int),
        decreases wanted@.len() - i,
    {
        if chars[i] != wanted[i] {
            return false;
        }
        i += 1;
    }
    assert(wanted@.subrange(0, i as int) =~= wanted@);
    true
}

/// The text without the whitespace at its start.
pub open spec fn trim_start(text: Seq<char>) -> Seq<char>
    decreases text.len(),
{
    if text.len() > 0 && is_whitespace(text.first()) {
        trim_start(text.drop_first())
    } else {
        text
    }
}

/// The text without the whitespace at its end.
pub open spec fn trim_end(text: Seq<char>) -> Seq<char>
    decreases text.len(),
{
    if text.len() > 0 && is_whitespace(text.last()) {
        trim_end(text.drop_last())
    } else {
        text
    }
}

/// The text without the whitespace at its start and at its end.
pub open spec fn trim(text: Seq<char>) -> Seq<char> {
    trim_end(trim_start(text))
}

/// For each character of the text, whether it is whitespace.
pub open spec fn whitespace_of(text: Seq<char>) -> Seq<bool> {
    Seq::new(text.len(), |i: int| is_whitespace(text[i]))
}

/// Asks of each character whether it is whitespace.
pub fn whitespace_flags(chars: &Vec<char>) -> (white: Vec<bool>)
    ensures
        white@ == whitespace_of(chars@),
        forall|i: int|
            0 <= i < chars@.len() && chars@[i] <= '\x7f' ==> #[trigger] white@[i]
                == ascii_whitespace(chars@[i]),
{
    let mut white: Vec<bool> = Vec::with_capacity(chars.len());
    let mut i: usize = 0;
    while i < chars.len()
        invariant
            i <= chars@.len(),
            white@.len() == i,
            forall|k: int| 0 <= k < i ==> white@[k] == is_whitespace(chars@[k]),
            forall|k: int|
                0 <= k < i && chars@[k] <= '\x7f' ==> #[trigger] white@[k] == ascii_whitespace(
                    chars@[k],
                ),
        decreases chars@.len() - i,
    {
        white.push(char_is_whitespace(chars[i]));
        i += 1;
    }
    white
}

/// The first position from `from` on that is not flagged, or `to` if every
/// position before `to` is.
pub open spec fn skip_flagged(flags: Seq<bool>, from: int, to: int) -> int
    decreases to - from,
{
    if from < to && flags[from] {
        skip_flagged(flags, from + 1, to)
    } else {
        from
    }
}

/// The position behind the last one before `to` that is not flagged, or
/// `from` if every position from `from` on is.
pub open spec fn drop_flagged(flags: Seq<bool>, from: int, to: int) -> int
    decreases to - from,
{
    if from < to && flags[to - 1] {
        drop_flagged(flags, from, to - 1)
    } else {
        to
    }
}

/// The bounds of what is left of the positions `from..to` once the flagged
/// positions at both ends are taken away.
pub open spec fn trim_range(flags: Seq<bool>, from: int, to: int) -> (int, int) {
    let first = skip_flagged(flags, from, to);
    (first, drop_flagged(flags, first, to))
}

/// The bounds of what is left of the positions `from..to` once the flagged
/// positions at both ends are taken away.
pub fn trim_bounds(flags: &Vec<bool>, from: usize, to: usize) -> (bounds: (usize, usize))
    requires
        from <= to <= flags@.len(),
    ensures
        from <= bounds.0 <= bounds.1 <= to,
        bounds.0 == trim_range(flags@, from as int, to as int).0,
        bounds.1 == trim_range(flags@, from as int, to as int).1,
{
    let mut first: usize = from;
    while first < to && flags[first]
        invariant
            from <= first <= to <= flags@.len(),
            skip_flagged(flags@, from as int, to as int) == skip_flagged(
                flags@,
                first as int,
                to as int,
            ),
        decreases to - first,
    {
        first += 1;
    }
    let mut last: usize = to;
    while first < last && flags[last - 1]
        invariant
            first <= last <= to <= flags@.len(),
            drop_flagged(flags@, first as int, to as int) == drop_flagged(
                flags@,
                first as int,
                last as int,
            ),
        decreases last - first,
    {
        last -= 1;
    }
    (first, last)
}

/// Taking the whitespace away from the start of `text[from..to]` leaves
/// what begins at the first position that holds none.
proof fn lemma_trim_start_range(text: Seq<char>, from: int, to: int)
    requires
        0 <= from <= to <= text.len(),
    ensures
        from <= skip_flagged(whitespace_of(text), from, to) <= to,
        trim_start(text.subrange(from, to)) == text.subrange(
            skip_flagged(whitespace_of(text), from, to),
            to,
        ),
    decreases to - from,
{
    let part = text.subrange(from, to);
    if from < to && whitespace_of(text)[from] {
        assert(part.drop_first() =~= text.subrange(from + 1, to));
        lemma_trim_start_range(text, from + 1, to);
    }
}

/// Taking the whitespace away from the end of `text[from..to]` leaves what
/// ends behind the last position that holds none.
proof fn lemma_trim_end_range(text: Seq<char>, from: int, to: int)
    requires
        0 <= from <= to <= text.len(),
    ensures
        from <= drop_flagged(whitespace_of(text), from, to) <= to,
        trim_end(text.subrange(from, to)) == text.subrange(
            from,
            drop_flagged(whitespace_of(text), from, to),
        ),
    decreases to - from,
{
    let part = text.subrange(from, to);
    if from < to && whitespace_of(text)[to - 1] {
        assert(part.drop_last() =~= text.subrange(from, to - 1));
        lemma_trim_end_range(text, from, to - 1);
    }
}

/// The bounds that the flags of a text give for a part of it hold the
/// trimmed part.
pub proof fn lemma_trim_range(text: Seq<char>, from: int, to: int)
    requires
        0 <= from <= to <= text.len(),
    ensures
        from <= trim_range(whitespace_of(text), from, to).0 <= trim_range(
            whitespace_of(text),
            from,
            to,
        ).1 <= to,
        text.subrange(
            trim_range(whitespace_of(text), from, to).0,
            trim_range(whitespace_of(text), from, to).1,
        ) == trim(text.subrange(from, to)),
{
    lemma_trim_start_range(text, from, to);
    lemma_trim_end_range(text, skip_flagged(whitespace_of(text), from, to), to);
}

/// Whether the character is one of the decimal digits `0` to `9`.
pub open spec fn is_digit(c: char) -> bool {
    '0' <= c <= '9'
}

/// Whether every character of the text is a decimal digit.
pub open spec fn all_digits(text: Seq<char>) -> bool {
    forall|i: int| 0 <= i < text.len() ==> is_digit(#[trigger] text[i])
}

/// The number that a text of decimal digits denotes.
pub open spec fn decimal_value(digits: Seq<char>) -> nat
    decreases digits.len(),
{
    if digits.len() == 0 {
        0
    } else {
        (decimal_value(digits.drop_last()) * 10 + (digits.last() as u32 - '0' as u32)) as nat
    }
}

/// The number that the text denotes if it is made of at least one digit
/// and nothing else, and the number fits the machine word.
pub open spec fn digits_number(digits: Seq<char>) -> Option<usize> {
    if digits.len() > 0 && all_digits(digits) && decimal_value(digits) <= usize::MAX {
        Some(decimal_value(digits) as usize)
    } else {
        None
    }
}

/// The number that the text denotes if it is an unsigned decimal number
/// that fits the machine word: an optional `+`, then at least one digit and
/// nothing else.
pub open spec fn unsigned_of(text: Seq<char>) -> Option<usize> {
    if text.len() > 0 && text[0] == '+' {
        digits_number(text.drop_first())
    } else {
        digits_number(text)
    }
}

/// A longer text of digits denotes no smaller number than its beginning.
pub proof fn lemma_decimal_value_grows(digits: Seq<char>, count: int)
    requires
        all_digits(digits),
        0 <= count <= digits.len(),
    ensures
        decimal_value(digits.take(count)) <= decimal_value(digits),
    decreases digits.len(),
{
    if count == digits.len() {
        assert(digits.take(count) =~= digits);
    } else {
        assert(digits.drop_last().take(count) =~= digits.take(count));
        lemma_decimal_value_grows(digits.drop_last(), count);
    }
}

/// Reads `chars[from..to]` as an unsigned decimal number.
pub fn parse_unsigned(chars: &Vec<char>, from: usize, to: usize) -> (number: Option<usize>)
    requires
        from <= to <= chars@.len(),
    ensures
        number == unsigned_of(chars@.subrange(from as int, to as int)),
{
    let ghost text = chars@.subrange(from as int, to as int);
    let start: usize = if from < to && chars[from] == '+' {
        from + 1
    } else {
        from
    };
    let ghost digits = chars@.subrange(start as int, to as int);
    assert(digits =~= if text.len() > 0 && text[0] == '+' {
        text.drop_first()
    } else {
        text
    });
    if start == to {
        return None;
    }
    let mut value: usize = 0;
    let mut i: usize = start;
    while i < to
        invariant
            start <= i <= to <= chars@.len(),
            digits == chars@.subrange(start as int, to as int),
            start < to,
            unsigned_of(chars@.subrange(from as int, to as int)) == digits_number(digits),
            all_digits(digits.take(i - start)),
            value == decimal_value(digits.take(i - start)),
        decreases to - i,
    {
        let c: char = chars[i];
        let ghost longer = digits.take(i - start + 1);
        assert(longer.drop_last() =~= digits.take(i - start));
        if c < '0' || c > '9' {
            assert(!is_digit(digits[i - start]));
            return None;
        }
        let digit: usize = (c as u32 - '0' as u32) as usize;
        let next: Option<usize> = match value.checked_mul(10) {
            Some(tens) => tens.checked_add(digit),
            None => None,
        };
        match next {
            Some(sum) => {
                value = sum;
            },
            None => {
                proof {
                    if all_digits(digits) {
                        lemma_decimal_value_grows(digits, i - start + 1);
                    }
                }
                return None;
            },
        }
        i += 1;
    }
    assert(digits.take(to - start) =~= digits);
    Some(value)
}

/// The fields of a text that `separator` divides: a separator ends one
/// field and starts the next, so a text without one is a single field.
pub open spec fn split(text: Seq<char>, separator: char) -> Seq<Seq<char>>
    decreases text.len(),
{
    if text.len() == 0 {
        seq![Seq::<char>::empty()]
    } else {
        let fields = split(text.drop_last(), separator);
        if text.last() == separator {
            fields.push(Seq::<char>::empty())
        } else {
            fields.drop_last().push(fields.last().push(text.last()))
        }
    }
}

/// A text has at least one field.
pub proof fn lemma_split_is_not_empty(text: Seq<char>, separator: char)
    ensures
        split(text, separator).len() >= 1,
    decreases text.len(),
{
    if text.len() > 0 {
        lemma_split_is_not_empty(text.drop_last(), separator);
    }
}

/// The fields put together again, with the separator between them.
pub open spec fn join(fields: Seq<Seq<char>>, separator: char) -> Seq<char>
    decreases fields.len(),
{
    if fields.len() == 0 {
        Seq::<char>::empty()
    } else if fields.len() == 1 {
        fields[0]
    } else {
        join(fields.drop_last(), separator).push(separator) + fields.last()
    }
}

/// Splitting loses nothing: the fields of a text, joined by the separator,
/// are the text again.
pub proof fn lemma_split_joins_back(text: Seq<char>, separator: char)
    ensures
        join(split(text, separator), separator) == text,
    decreases text.len(),
{
    if text.len() > 0 {
        let fields = split(text.drop_last(), separator);
        lemma_split_joins_back(text.drop_last(), separator);
        lemma_split_is_not_empty(text.drop_last(), separator);
        if text.last() == separator {
            assert(fields.push(Seq::<char>::empty()).drop_last() =~= fields);
        } else {
            let longer = fields.last().push(text.last());
            let now = fields.drop_last().push(longer);
            assert(now.drop_last() =~= fields.drop_last());
        }
        assert(text.drop_last().push(text.last()) =~= text);
    }
}

/// No field holds the separator.
pub proof fn lemma_split_fields_hold_no_separator(text: Seq<char>, separator: char)
    ensures
        forall|k: int, i: int|
            0 <= k < split(text, separator).len() && 0 <= i < split(text, separator)[k].len()
                ==> #[trigger] split(text, separator)[k][i] != separator,
    decreases text.len(),
{
    if text.len() > 0 {
        lemma_split_fields_hold_no_separator(text.drop_last(), separator);
        lemma_split_is_not_empty(text.drop_last(), separator);
    }
}

/// The bounds of the fields of `text[from..to]` that `separator` divides,
/// as positions in `text`.
pub open spec fn split_ranges(text: Seq<char>, separator: char, from: int, to: int) -> Seq<
    (int, int),
>
    decreases to - from,
{
    if to <= from {
        seq![(from, from)]
    } else {
        let ranges = split_ranges(text, separator, from, to - 1);
        if text[to - 1] == separator {
            ranges.push((to, to))
        } else {
            ranges.drop_last().push((ranges.last().0, to))
        }
    }
}

/// The bounds of the fields hold the fields.
pub proof fn lemma_split_ranges(text: Seq<char>, separator: char, from: int, to: int)
    requires
        0 <= from <= to <= text.len(),
    ensures
        split_ranges(text, separator, from, to).len() == split(
            text.subrange(from, to),
            separator,
        ).len(),
        split_ranges(text, separator, from, to).len() >= 1,
        split_ranges(text, separator, from, to).last().1 == to,
        forall|k: int|
            0 <= k < split_ranges(text, separator, from, to).len() ==> {
                let range = #[trigger] split_ranges(text, separator, from, to)[k];
                &&& from <= range.0 <= range.1 <= to
                &&& text.subrange(range.0, range.1) == split(text.subrange(from, to), separator)[k]
            },
    decreases to - from,
{
    let part = text.subrange(from, to);
    if to > from {
        let now = split_ranges(text, separator, from, to);
        lemma_split_ranges(text, separator, from, to - 1);
        assert(part.drop_last() =~= text.subrange(from, to - 1));
        assert forall|k: int| 0 <= k < now.len() implies {
            let range = #[trigger] now[k];
            &&& from <= range.0 <= range.1 <= to
            &&& text.subrange(range.0, range.1) == split(part, separator)[k]
        } by {}
    }
}

/// The bounds as mathematical pairs.
pub open spec fn ranges_view(bounds: Seq<(usize, usize)>) -> Seq<(int, int)> {
    Seq::new(bounds.len(), |k: int| (bounds[k].0 as int, bounds[k].1 as int))
}

/// The bounds of the fields of `chars[from..to]` that `separator` divides.
pub fn split_bounds(chars: &Vec<char>, from: usize, to: usize, separator: char) -> (fields: Vec<
    (usize, usize),
>)
    requires
        from <= to <= chars@.len(),
    ensures
        ranges_view(fields@) == split_ranges(chars@, separator, from as int, to as int),
        fields@.len() == split(chars@.subrange(from as int, to as int), separator).len(),
        forall|k: int|
            0 <= k < fields@.len() ==> from <= (#[trigger] fields@[k]).0 <= fields@[k].1 <= to
                && chars@.subrange(fields@[k].0 as int, fields@[k].1 as int) == split(
                chars@.subrange(from as int, to as int),
                separator,
            )[k],
{
    let mut fields: Vec<(usize, usize)> = Vec::new();
    let mut start: usize = from;
    let mut i: usize = from;
    while i < to
        invariant
            from <= start <= i <= to <= chars@.len(),
            ranges_view(fields@).push((start as int, i as int)) == split_ranges(
                chars@,
                separator,
                from as int,
                i as int,
            ),
        decreases to - i,
    {
        if chars[i] == separator {
            fields.push((start, i));
            start = i + 1;
        }
        i += 1;
    }
    fields.push((start, to));
    proof {
        lemma_split_ranges(chars@, separator, from as int, to as int);
        assert forall|k: int| 0 <= k < fields@.len() implies from <= (#[trigger] fields@[k]).0
            <= fields@[k].1 <= to && chars@.subrange(fields@[k].0 as int, fields@[k].1 as int)
            == split(chars@.subrange(from as int, to as int), separator)[k] by {
            assert(ranges_view(fields@)[k] == split_ranges(
                chars@,
                separator,
                from as int,
                to as int,
            )[k]);
        }
    }
    fields
}

} // verus!
