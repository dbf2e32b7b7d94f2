//! Brace ranges, `{1..10..2}` and `{a..e}`, and the sequences they stand for.

use crate::byte_classes::{CLOSE_BRACE, DIGIT_ZERO, DOT, MINUS, OPEN_BRACE};
use crate::decimal::{decimal_text, decimal_value, format_padded, lemma_padded_decimal_injective,
    magnitude, padded_decimal, parse_decimal};
use crate::shell_structures::ShellToken;
use vstd::prelude::*;

verus! {

/// The most elements that a range may stand for.
pub const RANGE_ELEMENT_LIMIT: i64 = 2147483645;

/// A range of integers. `step` is at least 1; the direction of the range
/// is not stored but read off `start` and `end`.
#[derive(Clone, Copy, Debug, PartialEq, Eq)]
pub struct ShellIntRange {
    pub(crate) start: i64,
    pub(crate) end: i64,
    pub(crate) step: i64,
    pub(crate) alignment: usize,
}

/// A range of single bytes. `step` is kept as written and is never 0; the
/// range is walked by its absolute value.
#[derive(Clone, Copy, Debug, PartialEq, Eq)]
pub struct ShellCharRange {
    pub(crate) start: u8,
    pub(crate) end: u8,
    pub(crate) step: i64,
}

#[derive(Clone, Copy, Debug, PartialEq, Eq)]
pub enum ShellRange {
    Int(ShellIntRange),
    Char(ShellCharRange),
}

/// A constructor of ranges, held as a value: which kind of range to build
/// from the texts of start, end and step.
#[derive(Clone, Copy, Debug, PartialEq, Eq, Structural)]
pub enum RangeCreateFunc {
    Int,
    Char,
}

/// How many numbers lie between `low` and `high`, ends included, when
/// every `step`-th one is taken starting at `low`.
pub open spec fn span_count(low: int, high: int, step: int) -> int {
    (high - low) / step + 1
}

/// Whether a bound is written with leading zeros: after an optional `-`,
/// a `0` with more bytes behind it.
pub open spec fn is_zero_padded(text: Seq<u8>) -> bool {
    if text.len() > 0 && text[0] == MINUS {
        text.len() >= 3 && text[1] == DIGIT_ZERO
    } else {
        text.len() >= 2 && text[0] == DIGIT_ZERO
    }
}

/// The width that a bound asks for: its own length, sign included, if it is
/// written with leading zeros, else 0.
pub open spec fn zero_pad_width(text: Seq<u8>) -> nat {
    if is_zero_padded(text) {
        text.len()
    } else {
        0
    }
}

/// The larger of two widths.
pub open spec fn wider(a: nat, b: nat) -> nat {
    if a >= b {
        a
    } else {
        b
    }
}

/// The integer range that three texts denote. There is none if a text is no
/// 64-bit decimal number, if the step is 0 or has no absolute value in 64
/// bits, or if the range would stand for more than `RANGE_ELEMENT_LIMIT`
/// elements.
pub open(crate) spec fn validated_int_range(start: Seq<u8>, end: Seq<u8>, step: Seq<u8>) -> Option<
    ShellRange,
> {
    match (decimal_value(start), decimal_value(end), decimal_value(step)) {
        (Some(first), Some(last), Some(stride)) => {
            let low = if first <= last {
                first
            } else {
                last
            };
            let high = if first <= last {
                last
            } else {
                first
            };
            if stride != 0 && stride != i64::MIN && span_count(low, high, magnitude(stride) as int)
                <= RANGE_ELEMENT_LIMIT {
                Some(
                    ShellRange::Int(
                        ShellIntRange {
                            start: first as i64,
                            end: last as i64,
                            step: magnitude(stride) as i64,
                            alignment: wider(zero_pad_width(start), zero_pad_width(end)) as usize,
                        },
                    ),
                )
            } else {
                None
            }
        },
        _ => None,
    }
}

/// The character range that three texts denote: the first byte of each
/// bound, and the step as written. There is none if a bound is empty or the
/// step is no 64-bit decimal number or is 0.
pub open(crate) spec fn validated_char_range(start: Seq<u8>, end: Seq<u8>, step: Seq<u8>) -> Option<
    ShellRange,
> {
    match decimal_value(step) {
        Some(stride) => if start.len() > 0 && end.len() > 0 && stride != 0 {
            Some(ShellRange::Char(ShellCharRange { start: start[0], end: end[0], step: stride as i64 }))
        } else {
            None
        },
        None => None,
    }
}

impl ShellIntRange {
    /// What holds of every integer range that exists: a positive step, and
    /// no more elements than the limit.
    #[verifier::type_invariant]
    pub open(crate) spec fn valid(&self) -> bool {
        &&& self.step >= 1
        &&& span_count(self.low(), self.high(), self.step as int) <= RANGE_ELEMENT_LIMIT
    }

    /// The smaller bound.
    pub open(crate) spec fn low(&self) -> int {
        if self.start <= self.end {
            self.start as int
        } else {
            self.end as int
        }
    }

    /// The larger bound.
    pub open(crate) spec fn high(&self) -> int {
        if self.start <= self.end {
            self.end as int
        } else {
            self.start as int
        }
    }

    /// The number of elements.
    pub open(crate) spec fn count(&self) -> int {
        span_count(self.low(), self.high(), self.step as int)
    }

    /// The number at index `i` of the expansion.
    pub open(crate) spec fn number(&self, i: int) -> int {
        self.low() + i * self.step
    }

    /// The element at index `i` of the expansion: its number, padded to the
    /// range's alignment.
    pub open(crate) spec fn element(&self, i: int) -> Seq<u8> {
        padded_decimal(self.number(i), self.alignment as nat)
    }

    /// `{start..end}`: neither the step nor the padding is written back.
    pub open(crate) spec fn text(&self) -> Seq<u8> {
        seq![OPEN_BRACE] + decimal_text(self.start as int) + seq![DOT, DOT] + decimal_text(
            self.end as int,
        ) + seq![CLOSE_BRACE]
    }

    /// The bound that was written first.
    pub open(crate) spec fn spec_start(&self) -> i64 {
        self.start
    }

    /// The bound that was written second.
    pub open(crate) spec fn spec_end(&self) -> i64 {
        self.end
    }

    /// The distance between two elements.
    pub open(crate) spec fn spec_step(&self) -> i64 {
        self.step
    }

    /// The width to which every element is padded; 0 for none.
    pub open(crate) spec fn spec_alignment(&self) -> usize {
        self.alignment
    }

    #[verifier::when_used_as_spec(spec_start)]
    pub fn start(&self) -> (v: i64)
        ensures
            v == self.spec_start(),
    {
        self.start
    }

    #[verifier::when_used_as_spec(spec_end)]
    pub fn end(&self) -> (v: i64)
        ensures
            v == self.spec_end(),
    {
        self.end
    }

    #[verifier::when_used_as_spec(spec_step)]
    pub fn step(&self) -> (v: i64)
        ensures
            v == self.spec_step(),
            v >= 1,
    {
        proof {
            use_type_invariant(self);
        }
        self.step
    }

    #[verifier::when_used_as_spec(spec_alignment)]
    pub fn alignment(&self) -> (v: usize)
        ensures
            v == self.spec_alignment(),
    {
        self.alignment
    }

    /// The width that a bound written as `num` asks for.
    pub fn count_int_align(num: &Vec<u8>) -> (width: usize)
        ensures
            width == zero_pad_width(num@),
    {
        let n: usize = num.len();
        let padded: bool = if n > 0 && num[0] == MINUS {
            n >= 3 && num[1] == DIGIT_ZERO
        } else {
            n >= 2 && num[0] == DIGIT_ZERO
        };
        if padded {
            n
        } else {
            0
        }
    }

    /// Builds the integer range that the three texts denote, if there is one.
    pub fn create_validated(start: &Vec<u8>, end: &Vec<u8>, step: &Vec<u8>) -> (range: Option<
        ShellRange,
    >)
        ensures
            range == validated_int_range(start@, end@, step@),
    {
        let first_width: usize = Self::count_int_align(start);
        let last_width: usize = Self::count_int_align(end);
        let alignment: usize = if first_width >= last_width {
            first_width
        } else {
            last_width
        };
        let first: i64 = match parse_decimal(start.as_slice()) {
            Some(v) => v,
            None => { return None; },
        };
        let last: i64 = match parse_decimal(end.as_slice()) {
            Some(v) => v,
            None => { return None; },
        };
        let stride: i64 = match parse_decimal(step.as_slice()) {
            Some(v) => v,
            None => { return None; },
        };
        if stride == 0 || stride == i64::MIN {
            return None;
        }
        let step_size: i64 = if stride < 0 {
            -stride
        } else {
            stride
        };
        let low: i128 = if first <= last {
            first as i128
        } else {
            last as i128
        };
        let high: i128 = if first <= last {
            last as i128
        } else {
            first as i128
        };
        if (high - low) / (step_size as i128) + 1 > (RANGE_ELEMENT_LIMIT as i128) {
            None
        } else {
            Some(ShellRange::Int(Self { start: first, end: last, step: step_size, alignment }))
        }
    }

    /// The elements of the range, from the smaller bound upwards.
    pub fn expand(&self) -> (elements: Vec<Vec<u8>>)
        ensures
            elements@.len() == self.count(),
            forall|i: int| 0 <= i < elements@.len() ==> (#[trigger] elements@[i])@ == self.element(i),
    {
        proof {
            use_type_invariant(self);
        }
        let low: i128 = if self.start <= self.end {
            self.start as i128
        } else {
            self.end as i128
        };
        let high: i128 = if self.start <= self.end {
            self.end as i128
        } else {
            self.start as i128
        };
        let step: i128 = self.step as i128;
        let last_index: i128 = (high - low) / step;
        proof {
            lemma_span(low as int, high as int, step as int);
        }
        let mut elements: Vec<Vec<u8>> = Vec::new();
        let mut index: i128 = 0;
        while index <= last_index
            invariant
                0 <= index <= last_index + 1,
                low == self.low(),
                high == self.high(),
                step == self.step,
                step >= 1,
                last_index == (high - low) / (step as int),
                0 <= last_index < RANGE_ELEMENT_LIMIT,
                last_index * step <= high - low,
                i64::MIN <= low <= high <= i64::MAX,
                elements@.len() == index,
                forall|i: int| 0 <= i < index ==> (#[trigger] elements@[i])@ == self.element(i),
            decreases last_index + 1 - index,
        {
            assert(0 <= index * step <= last_index * step) by (nonlinear_arith)
                requires
                    0 <= index <= last_index,
                    step >= 1,
            ;
            assert(last_index * step <= 0x7fff_ffff * 0x7fff_ffff_ffff_ffff) by (nonlinear_arith)
                requires
                    0 <= last_index <= 0x7fff_ffff,
                    1 <= step <= 0x7fff_ffff_ffff_ffff,
            ;
            let number: i128 = low + index * step;
            elements.push(format_padded(number as i64, self.alignment));
            index += 1;
        }
        elements
    }
}

impl ShellCharRange {
    /// What holds of every character range that exists: a step other than 0.
    #[verifier::type_invariant]
    pub open(crate) spec fn valid(&self) -> bool {
        self.step != 0
    }

    /// The bound that was written first.
    pub open(crate) spec fn spec_start(&self) -> u8 {
        self.start
    }

    /// The bound that was written second.
    pub open(crate) spec fn spec_end(&self) -> u8 {
        self.end
    }

    /// The step as it was written.
    pub open(crate) spec fn spec_step(&self) -> i64 {
        self.step
    }

    /// The smaller bound.
    pub open(crate) spec fn low(&self) -> int {
        if self.start <= self.end {
            self.start as int
        } else {
            self.end as int
        }
    }

    /// The larger bound.
    pub open(crate) spec fn high(&self) -> int {
        if self.start <= self.end {
            self.end as int
        } else {
            self.start as int
        }
    }

    /// The distance between two elements: the absolute value of the step.
    pub open(crate) spec fn stride(&self) -> int {
        magnitude(self.step as int) as int
    }

    /// The number of elements.
    pub open(crate) spec fn count(&self) -> int {
        span_count(self.low(), self.high(), self.stride())
    }

    /// The element at index `i` of the expansion: one byte.
    pub open(crate) spec fn element(&self, i: int) -> Seq<u8> {
        seq![(self.low() + i * self.stride()) as u8]
    }

    /// `{start..end}`: the step is not written back.
    pub open(crate) spec fn text(&self) -> Seq<u8> {
        seq![OPEN_BRACE, self.start, DOT, DOT, self.end, CLOSE_BRACE]
    }

    #[verifier::when_used_as_spec(spec_start)]
    pub fn start(&self) -> (v: u8)
        ensures
            v == self.spec_start(),
    {
        self.start
    }

    #[verifier::when_used_as_spec(spec_end)]
    pub fn end(&self) -> (v: u8)
        ensures
            v == self.spec_end(),
    {
        self.end
    }

    #[verifier::when_used_as_spec(spec_step)]
    pub fn step(&self) -> (v: i64)
        ensures
            v == self.spec_step(),
            v != 0,
    {
        proof {
            use_type_invariant(self);
        }
        self.step
    }

    /// Builds the character range that the three texts denote, if there is
    /// one.
    pub fn create_validated(start: &Vec<u8>, end: &Vec<u8>, step: &Vec<u8>) -> (range: Option<
        ShellRange,
    >)
        ensures
            range == validated_char_range(start@, end@, step@),
    {
        let stride: i64 = match parse_decimal(step.as_slice()) {
            Some(v) => v,
            None => { return None; },
        };
        if start.len() == 0 || end.len() == 0 || stride == 0 {
            return None;
        }
        Some(ShellRange::Char(Self { start: start[0], end: end[0], step: stride }))
    }

    /// The elements of the range, from the smaller bound upwards.
    pub fn expand(&self) -> (elements: Vec<Vec<u8>>)
        ensures
            elements@.len() == self.count(),
            forall|i: int| 0 <= i < elements@.len() ==> (#[trigger] elements@[i])@ == self.element(i),
    {
        proof {
            use_type_invariant(self);
        }
        let low: i128 = if self.start <= self.end {
            self.start as i128
        } else {
            self.end as i128
        };
        let high: i128 = if self.start <= self.end {
            self.end as i128
        } else {
            self.start as i128
        };
        let step: i128 = if self.step < 0 {
            -(self.step as i128)
        } else {
            self.step as i128
        };
        let last_index: i128 = (high - low) / step;
        proof {
            lemma_span(low as int, high as int, step as int);
            assert(last_index <= high - low) by (nonlinear_arith)
                requires
                    last_index * step <= high - low,
                    step >= 1,
                    last_index >= 0,
            ;
        }
        let mut elements: Vec<Vec<u8>> = Vec::new();
        let mut index: i128 = 0;
        while index <= last_index
            invariant
                0 <= index <= last_index + 1,
                low == self.low(),
                high == self.high(),
                step == self.stride(),
                step >= 1,
                last_index == (high - low) / (step as int),
                0 <= last_index <= 255,
                last_index * step <= high - low,
                0 <= low <= high <= 255,
                elements@.len() == index,
                forall|i: int| 0 <= i < index ==> (#[trigger] elements@[i])@ == self.element(i),
            decreases last_index + 1 - index,
        {
            assert(0 <= index * step <= last_index * step) by (nonlinear_arith)
                requires
                    0 <= index <= last_index,
                    step >= 1,
            ;
            let value: i128 = low + index * step;
            let mut element: Vec<u8> = Vec::new();
            element.push(value as u8);
            assert(element@ =~= self.element(index as int));
            elements.push(element);
            index += 1;
        }
        elements
    }
}

impl ShellRange {
    /// The number of elements that the range stands for.
    pub open(crate) spec fn count(&self) -> int {
        match *self {
            ShellRange::Int(range) => range.count(),
            ShellRange::Char(range) => range.count(),
        }
    }

    /// The element at index `i` of the expansion.
    pub open(crate) spec fn element(&self, i: int) -> Seq<u8> {
        match *self {
            ShellRange::Int(range) => range.element(i),
            ShellRange::Char(range) => range.element(i),
        }
    }

    /// The range written back as `{start..end}`.
    pub open(crate) spec fn text(&self) -> Seq<u8> {
        match *self {
            ShellRange::Int(range) => range.text(),
            ShellRange::Char(range) => range.text(),
        }
    }

    /// The constructor of integer ranges.
    pub fn get_int_create_func() -> (create: RangeCreateFunc)
        ensures
            create == RangeCreateFunc::Int,
    {
        RangeCreateFunc::Int
    }

    /// The constructor of character ranges.
    pub fn get_char_create_func() -> (create: RangeCreateFunc)
        ensures
            create == RangeCreateFunc::Char,
    {
        RangeCreateFunc::Char
    }

    /// The elements of the range, from the smaller bound upwards.
    pub fn expand(&self) -> (elements: Vec<Vec<u8>>)
        ensures
            elements@.len() == self.count(),
            forall|i: int| 0 <= i < elements@.len() ==> (#[trigger] elements@[i])@ == self.element(i),
    {
        match self {
            ShellRange::Int(range) => range.expand(),
            ShellRange::Char(range) => range.expand(),
        }
    }
}

impl RangeCreateFunc {
    /// The range that the constructor builds from three texts, if there is
    /// one.
    pub open spec fn created(&self, start: Seq<u8>, end: Seq<u8>, step: Seq<u8>) -> Option<
        ShellRange,
    > {
        match *self {
            RangeCreateFunc::Int => validated_int_range(start, end, step),
            RangeCreateFunc::Char => validated_char_range(start, end, step),
        }
    }

    /// Builds the range that the three texts denote, if there is one.
    pub fn call(&self, start: &Vec<u8>, end: &Vec<u8>, step: &Vec<u8>) -> (range: Option<
        ShellRange,
    >)
        ensures
            range == self.created(start@, end@, step@),
    {
        match self {
            RangeCreateFunc::Int => ShellIntRange::create_validated(start, end, step),
            RangeCreateFunc::Char => ShellCharRange::create_validated(start, end, step),
        }
    }
}

impl View for ShellRange {
    type V = ShellRange;

    open spec fn view(&self) -> ShellRange {
        *self
    }
}

impl ShellToken for ShellRange {
    open spec fn original(&self) -> Seq<u8> {
        self.text()
    }

    fn restore_original(&self) -> (bytes: Vec<u8>) {
        let mut bytes: Vec<u8> = Vec::new();
        bytes.push(OPEN_BRACE);
        match self {
            ShellRange::Int(range) => {
                let mut first = format_padded(range.start, 0);
                let mut last = format_padded(range.end, 0);
                bytes.append(&mut first);
                bytes.push(DOT);
                bytes.push(DOT);
                bytes.append(&mut last);
            },
            ShellRange::Char(range) => {
                bytes.push(range.start);
                bytes.push(DOT);
                bytes.push(DOT);
                bytes.push(range.end);
            },
        }
        bytes.push(CLOSE_BRACE);
        assert(bytes@ =~= self.text());
        bytes
    }
}

/// For a positive step, the last index of a span times the step stays
/// within the span, and there is at least one element.
pub proof fn lemma_span(low: int, high: int, step: int)
    requires
        low <= high,
        step >= 1,
    ensures
        0 <= (high - low) / step,
        ((high - low) / step) * step <= high - low,
        high - low < ((high - low) / step + 1) * step,
        span_count(low, high, step) >= 1,
{
    let d = high - low;
    assert(0 <= d / step && (d / step) * step <= d && d < (d / step + 1) * step)
        by (nonlinear_arith)
        requires
            d >= 0,
            step >= 1,
    ;
}


/// Every number of an integer range lies between its bounds, and a later
/// index holds a larger number.
pub proof fn lemma_int_range_numbers(range: ShellIntRange, i: int, j: int)
    requires
        range.valid(),
        0 <= i <= j < range.count(),
    ensures
        range.low() <= range.number(i) <= range.number(j) <= range.high(),
        i < j ==> range.number(i) < range.number(j),
{
    let step = range.step as int;
    let span = range.high() - range.low();
    lemma_span(range.low(), range.high(), step);
    assert(0 <= i * step <= j * step <= (span / step) * step && (i < j ==> i * step < j * step))
        by (nonlinear_arith)
        requires
            0 <= i <= j <= span / step,
            step >= 1,
    ;
}

/// An integer range whose start is not above its end has
/// `(end - start) / step + 1` elements. In every integer range the numbers
/// ascend strictly, and no two elements are the same bytes.
pub proof fn lemma_int_expansion_ascending(range: ShellIntRange)
    requires
        range.valid(),
    ensures
        range.start() <= range.end() ==> range.count() == (range.end() - range.start())
            / (range.step() as int) + 1,
        range.count() >= 1,
        forall|i: int, j: int|
            0 <= i < j < range.count() ==> #[trigger] range.number(i) < #[trigger] range.number(j),
        forall|i: int, j: int|
            0 <= i < j < range.count() ==> #[trigger] range.element(i) != #[trigger] range.element(
                j,
            ),
{
    lemma_span(range.low(), range.high(), range.step as int);
    assert forall|i: int, j: int| 0 <= i < j < range.count() implies #[trigger] range.number(i)
        < #[trigger] range.number(j) by {
        lemma_int_range_numbers(range, i, j);
    }
    assert forall|i: int, j: int| 0 <= i < j < range.count() implies #[trigger] range.element(i)
        != #[trigger] range.element(j) by {
        lemma_int_range_numbers(range, i, j);
        if range.element(i) == range.element(j) {
            lemma_padded_decimal_injective(
                range.number(i),
                range.number(j),
                range.alignment as nat,
            );
        }
    }
}

/// A character range has `|end - start| / |step| + 1` elements, at most
/// 256, and each is one byte.
pub proof fn lemma_char_expansion(range: ShellCharRange)
    requires
        range.valid(),
    ensures
        range.count() == magnitude(range.end() - range.start()) / magnitude(range.step() as int)
            + 1,
        1 <= range.count() <= 256,
        forall|i: int| 0 <= i < range.count() ==> (#[trigger] range.element(i)).len() == 1,
{
    let span = range.high() - range.low();
    let step = range.stride();
    lemma_span(range.low(), range.high(), step);
    assert(span / step <= span) by (nonlinear_arith)
        requires
            (span / step) * step <= span,
            0 <= span / step,
            step >= 1,
    ;
}

/// Texts that denote a range of more than `RANGE_ELEMENT_LIMIT` elements
/// give no range.
pub proof fn lemma_oversized_int_range_rejected(start: Seq<u8>, end: Seq<u8>, step: Seq<u8>)
    requires
        decimal_value(start) is Some,
        decimal_value(end) is Some,
        decimal_value(step) is Some,
        decimal_value(step)->0 != 0,
        magnitude(decimal_value(end)->0 - decimal_value(start)->0) / magnitude(
            decimal_value(step)->0,
        ) + 1 > RANGE_ELEMENT_LIMIT,
    ensures
        validated_int_range(start, end, step) is None,
{
}

/// A range that was built from texts meets the invariant of its type.
pub proof fn lemma_validated_ranges_are_valid(start: Seq<u8>, end: Seq<u8>, step: Seq<u8>)
    ensures
        validated_int_range(start, end, step) matches Some(ShellRange::Int(range))
            ==> range.valid(),
        validated_int_range(start, end, step) is Some ==> validated_int_range(
            start,
            end,
            step,
        )->0 is Int,
        validated_char_range(start, end, step) matches Some(ShellRange::Char(range))
            ==> range.valid(),
        validated_char_range(start, end, step) is Some ==> validated_char_range(
            start,
            end,
            step,
        )->0 is Char,
{
}

} // verus!
