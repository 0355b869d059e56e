use vstd::prelude::*;
use crate::mesh::Face;

verus! {

/// The byte that ends a line.
pub const NEWLINE: u8 = 10;

/// The byte that may stand before the one that ends a line.
pub const CARRIAGE_RETURN: u8 = 13;

/// The byte that separates the fields of a line.
pub const SPACE: u8 = 32;

/// The byte that separates the parts of a face corner.
pub const SLASH: u8 = 47;

/// The byte that may stand before the digits of an index.
pub const PLUS: u8 = 43;

/// The byte that may stand before a number in place of a plus sign.
pub const MINUS: u8 = 45;

/// The byte between the whole part and the fraction of a number.
pub const POINT: u8 = 46;

/// The letter before the exponent of a number, in lower case.
pub const LOWER_E: u8 = 101;

/// The first field of a vertex line.
pub const VERTEX_TAG: u8 = 118;

/// The first field of a face line.
pub const FACE_TAG: u8 = 102;

/// The fields of `text`: the pieces between the occurrences of `sep`, in
/// order. There is always one field more than there are separators, so a
/// separator at either end, or two in a row, give an empty field.
pub open spec fn fields_of(text: Seq<u8>, sep: u8) -> Seq<Seq<u8>>
    decreases text.len(),
{
    if text.len() == 0 {
        seq![Seq::<u8>::empty()]
    } else {
        let before = fields_of(text.drop_last(), sep);
        if text.last() == sep {
            before.push(Seq::<u8>::empty())
        } else {
            before.drop_last().push(before.last().push(text.last()))
        }
    }
}

/// `line` without the carriage return at its end, if it has one.
pub open spec fn strip_cr(line: Seq<u8>) -> Seq<u8> {
    if line.len() > 0 && line.last() == CARRIAGE_RETURN {
        line.drop_last()
    } else {
        line
    }
}

/// The lines of `text`. A line ends with a newline, before which one carriage
/// return is dropped; what follows the last newline is a line too unless it is
/// empty.
pub open spec fn lines_of(text: Seq<u8>) -> Seq<Seq<u8>> {
    let pieces = fields_of(text, NEWLINE);
    let ended = Seq::new((pieces.len() - 1) as nat, |k: int| strip_cr(pieces[k]));
    if pieces.last().len() == 0 {
        ended
    } else {
        ended.push(pieces.last())
    }
}

/// `b` is a decimal digit.
pub open spec fn is_digit(b: u8) -> bool {
    48 <= b <= 57
}

/// The number that a row of decimal digits writes.
pub open spec fn decimal(digits: Seq<u8>) -> nat
    decreases digits.len(),
{
    if digits.len() == 0 {
        0
    } else {
        decimal(digits.drop_last()) * 10 + (digits.last() - 48) as nat
    }
}

/// The digits of an index field: the field without a leading plus sign.
pub open spec fn digits_of(field: Seq<u8>) -> Seq<u8> {
    if field.len() > 0 && field[0] == PLUS {
        field.skip(1)
    } else {
        field
    }
}

/// The number that `field` writes: an optional plus sign, then at least one
/// decimal digit and nothing else. There is none where the field is not of
/// that form or the number does not fit a `usize`.
pub open spec fn unsigned_of(field: Seq<u8>) -> Option<usize> {
    let digits = digits_of(field);
    if digits.len() > 0 && (forall|i: int| 0 <= i < digits.len() ==> is_digit(#[trigger] digits[i]))
        && decimal(digits) <= usize::MAX {
        Some(decimal(digits) as usize)
    } else {
        None
    }
}

/// `b` is a plus or a minus sign.
pub open spec fn is_sign(b: u8) -> bool {
    b == PLUS || b == MINUS
}

/// The lower-case form of a capital letter; every other byte as it is.
pub open spec fn lowered(b: u8) -> u8 {
    if 65 <= b <= 90 {
        (b + 32) as u8
    } else {
        b
    }
}

/// The place after the decimal digits that stand in `text` from `from` on:
/// `from` itself where none stands there.
pub open spec fn digits_end(text: Seq<u8>, from: int) -> int
    decreases text.len() - from,
{
    if 0 <= from < text.len() && is_digit(text[from]) {
        digits_end(text, from + 1)
    } else {
        from
    }
}

/// `text` is `word` but for the case of its letters. `word` is in lower case.
pub open spec fn spells(text: Seq<u8>, word: Seq<u8>) -> bool {
    &&& text.len() == word.len()
    &&& forall|i: int| 0 <= i < text.len() ==> lowered(#[trigger] text[i]) == word[i]
}

/// The word for a number beyond all numbers.
pub open spec fn word_inf() -> Seq<u8> {
    seq![105u8, 110u8, 102u8]
}

/// The same word, written out.
pub open spec fn word_infinity() -> Seq<u8> {
    seq![105u8, 110u8, 102u8, 105u8, 110u8, 105u8, 116u8, 121u8]
}

/// The word for what is no number.
pub open spec fn word_nan() -> Seq<u8> {
    seq![110u8, 97u8, 110u8]
}

/// From `at` to its end `text` is an exponent: the letter e, then a sign or
/// none, then at least one digit and nothing else.
pub open spec fn is_exponent_at(text: Seq<u8>, at: int) -> bool {
    let digits = if at + 1 < text.len() && is_sign(text[at + 1]) {
        at + 2
    } else {
        at + 1
    };
    &&& lowered(text[at]) == LOWER_E
    &&& digits < text.len()
    &&& digits_end(text, digits) == text.len()
}

/// `text` is a decimal number without a sign: digits, then a point and
/// digits or neither, with at least one digit among them all, then an
/// exponent or nothing.
pub open spec fn is_decimal(text: Seq<u8>) -> bool {
    let whole_end = digits_end(text, 0);
    let pointed = whole_end < text.len() && text[whole_end] == POINT;
    let end = if pointed {
        digits_end(text, whole_end + 1)
    } else {
        whole_end
    };
    let digits = if pointed {
        end - 1
    } else {
        end
    };
    digits >= 1 && (end == text.len() || is_exponent_at(text, end))
}

/// What follows the sign of a number, or the whole field where it has none.
pub open spec fn unsigned_part(field: Seq<u8>) -> Seq<u8> {
    if field.len() > 0 && is_sign(field[0]) {
        field.skip(1)
    } else {
        field
    }
}

/// `field` writes a number as the standard library reads one: a sign or
/// none, then a decimal number or one of the words `inf`, `infinity` and
/// `nan` in letters of either case.
pub open spec fn is_number(field: Seq<u8>) -> bool {
    let body = unsigned_part(field);
    ||| is_decimal(body)
    ||| spells(body, word_inf())
    ||| spells(body, word_infinity())
    ||| spells(body, word_nan())
}

/// Why a text is not accepted.
#[derive(Clone, Copy, Debug, PartialEq, Eq, Structural)]
pub enum ObjErrorKind {
    /// A vertex or face line has fewer than three fields after its tag.
    MissingField,
    /// One of the three coordinates of a vertex does not write a number.
    BadCoordinate,
    /// A face corner does not begin with a number that fits a `usize`.
    BadIndex,
    /// A face corner names vertex 0; the first vertex is vertex 1.
    ZeroIndex,
}

/// The first line that is not accepted, counted from 0, and why.
#[derive(Clone, Copy, Debug, PartialEq, Eq, Structural)]
pub struct ObjError {
    pub line: usize,
    pub kind: ObjErrorKind,
}

/// The vertex that a face corner names, counted from 0. A corner is a number,
/// which may be followed by a slash and more; the number counts from 1.
pub open spec fn corner_of(field: Seq<u8>) -> Result<usize, ObjErrorKind> {
    match unsigned_of(fields_of(field, SLASH)[0]) {
        None => Err(ObjErrorKind::BadIndex),
        Some(n) => if n == 0 {
            Err(ObjErrorKind::ZeroIndex)
        } else {
            Ok((n - 1) as usize)
        },
    }
}

/// The three coordinates of a vertex, as the text writes them. In a vertex
/// that was read from a text each of them writes a number.
pub struct VertexText {
    pub x: Vec<u8>,
    pub y: Vec<u8>,
    pub z: Vec<u8>,
}

/// What a [`VertexText`] holds.
pub struct VertexFields {
    pub x: Seq<u8>,
    pub y: Seq<u8>,
    pub z: Seq<u8>,
}

impl View for VertexText {
    type V = VertexFields;

    open spec fn view(&self) -> VertexFields {
        VertexFields { x: self.x@, y: self.y@, z: self.z@ }
    }
}

/// What one line of the text says.
pub enum ObjLine {
    /// Nothing that is read: the line is neither a vertex nor a face.
    Skip,
    /// A vertex.
    Vertex(VertexText),
    /// A face of three corners.
    Triangle(Face),
    /// A face of four corners, cut into the triangle of its first three
    /// corners and the triangle of its first, third and fourth.
    Quad(Face, Face),
}

/// What an [`ObjLine`] holds.
pub enum LineContent {
    Skip,
    Vertex(VertexFields),
    Triangle(Face),
    Quad(Face, Face),
}

impl View for ObjLine {
    type V = LineContent;

    open spec fn view(&self) -> LineContent {
        match self {
            ObjLine::Skip => LineContent::Skip,
            ObjLine::Vertex(v) => LineContent::Vertex(v@),
            ObjLine::Triangle(f) => LineContent::Triangle(*f),
            ObjLine::Quad(f, g) => LineContent::Quad(*f, *g),
        }
    }
}

/// What a face line with the given fields says. The fields after the tag are
/// read in order, and the first that is not a corner decides the error. A
/// fourth corner is read only when the line has exactly five fields.
pub open spec fn face_of(fields: Seq<Seq<u8>>) -> Result<LineContent, ObjErrorKind> {
    if fields.len() < 4 {
        Err(ObjErrorKind::MissingField)
    } else {
        match corner_of(fields[1]) {
            Err(e) => Err(e),
            Ok(a) => match corner_of(fields[2]) {
                Err(e) => Err(e),
                Ok(b) => match corner_of(fields[3]) {
                    Err(e) => Err(e),
                    Ok(c) => if fields.len() == 5 {
                        match corner_of(fields[4]) {
                            Err(e) => Err(e),
                            Ok(d) => Ok(
                                LineContent::Quad(
                                    Face { v0: a, v1: b, v2: c },
                                    Face { v0: a, v1: c, v2: d },
                                ),
                            ),
                        }
                    } else {
                        Ok(LineContent::Triangle(Face { v0: a, v1: b, v2: c }))
                    },
                },
            },
        }
    }
}

/// What `line` says. Its fields are separated by single spaces. The first
/// field tells a vertex line from a face line; every other line is skipped.
/// The three fields after the tag of a vertex line each write a number.
pub open spec fn line_of(line: Seq<u8>) -> Result<LineContent, ObjErrorKind> {
    let fields = fields_of(line, SPACE);
    if fields[0] == seq![VERTEX_TAG] {
        if fields.len() < 4 {
            Err(ObjErrorKind::MissingField)
        } else if !(is_number(fields[1]) && is_number(fields[2]) && is_number(fields[3])) {
            Err(ObjErrorKind::BadCoordinate)
        } else {
            Ok(LineContent::Vertex(VertexFields { x: fields[1], y: fields[2], z: fields[3] }))
        }
    } else if fields[0] == seq![FACE_TAG] {
        face_of(fields)
    } else {
        Ok(LineContent::Skip)
    }
}

/// The vertices that `lines` declare, in order. Lines that are not accepted
/// declare none.
pub open spec fn vertexes_of(lines: Seq<Seq<u8>>) -> Seq<VertexFields>
    decreases lines.len(),
{
    if lines.len() == 0 {
        Seq::empty()
    } else {
        let before = vertexes_of(lines.drop_last());
        match line_of(lines.last()) {
            Ok(LineContent::Vertex(v)) => before.push(v),
            _ => before,
        }
    }
}

/// The triangles that `lines` declare, in order. Lines that are not accepted
/// declare none.
pub open spec fn faces_of(lines: Seq<Seq<u8>>) -> Seq<Face>
    decreases lines.len(),
{
    if lines.len() == 0 {
        Seq::empty()
    } else {
        let before = faces_of(lines.drop_last());
        match line_of(lines.last()) {
            Ok(LineContent::Triangle(f)) => before.push(f),
            Ok(LineContent::Quad(f, g)) => before.push(f).push(g),
            _ => before,
        }
    }
}

/// What the vertices of a list hold.
pub open spec fn texts(list: Seq<VertexText>) -> Seq<VertexFields> {
    Seq::new(list.len(), |i: int| list[i]@)
}

/// The vertices and triangles read from a text.
pub struct ObjModel {
    pub vertexes: Vec<VertexText>,
    pub faces: Vec<Face>,
}

/// The pieces of `text` that `ranges` mark, each range giving the position of
/// the first byte of a piece and the position after its last.
pub open spec fn cut(text: Seq<u8>, ranges: Seq<(usize, usize)>) -> Seq<Seq<u8>> {
    Seq::new(ranges.len(), |k: int| text.subrange(ranges[k].0 as int, ranges[k].1 as int))
}

/// Every range lies between `from` and `to`, its ends in order.
pub open spec fn ranges_within(ranges: Seq<(usize, usize)>, from: int, to: int) -> bool {
    forall|k: int|
        0 <= k < ranges.len() ==> from <= (#[trigger] ranges[k]).0 <= ranges[k].1 <= to
}

/// The fields put together again, with `sep` between each two.
pub open spec fn joined(fields: Seq<Seq<u8>>, sep: u8) -> Seq<u8>
    decreases fields.len(),
{
    if fields.len() == 0 {
        Seq::empty()
    } else if fields.len() == 1 {
        fields[0]
    } else {
        joined(fields.drop_last(), sep).push(sep) + fields.last()
    }
}

/// The fields of a text are what the text says they are: no field holds the
/// separator, and the fields put together with the separator between them
/// give the text back.
pub proof fn lemma_fields_partition(text: Seq<u8>, sep: u8)
    ensures
        fields_of(text, sep).len() >= 1,
        forall|k: int, i: int|
            0 <= k < fields_of(text, sep).len() && 0 <= i < fields_of(text, sep)[k].len()
                ==> #[trigger] fields_of(text, sep)[k][i] != sep,
        joined(fields_of(text, sep), sep) == text,
    decreases text.len(),
{
    let fields = fields_of(text, sep);
    if text.len() == 0 {
        assert(joined(fields, sep) =~= text);
    } else {
        let front = text.drop_last();
        let before = fields_of(front, sep);
        lemma_fields_partition(front, sep);
        assert(text =~= front.push(text.last()));
        if text.last() == sep {
            assert(fields.drop_last() =~= before);
            assert(joined(fields, sep) =~= joined(before, sep).push(sep));
        } else {
            let grown = before.last().push(text.last());
            assert(fields.last() == grown);
            if before.len() == 1 {
                assert(joined(fields, sep) =~= joined(before, sep).push(text.last()));
            } else {
                assert(fields.drop_last() =~= before.drop_last());
                assert(joined(fields, sep) =~= (joined(before.drop_last(), sep).push(sep)
                    + before.last()).push(text.last()));
            }
            assert forall|k: int, i: int|
                0 <= k < fields.len() && 0 <= i < fields[k].len() implies #[trigger] fields[k][i]
                != sep by {
                if k < fields.len() - 1 {
                    assert(fields[k] == before[k]);
                } else if i < before.last().len() {
                    assert(fields[k][i] == before[k][i]);
                }
            }
        }
    }
}

/// Marks the fields of the part of `text` between `from` and `to`.
pub fn split_ranges(text: &[u8], from: usize, to: usize, sep: u8) -> (ranges: Vec<(usize, usize)>)
    requires
        from <= to <= text@.len(),
    ensures
        cut(text@, ranges@) == fields_of(text@.subrange(from as int, to as int), sep),
        ranges_within(ranges@, from as int, to as int),
        ranges@.len() >= 1,
{
    let mut ranges: Vec<(usize, usize)> = Vec::new();
    let mut start: usize = from;
    let mut i: usize = from;
    proof {
        assert(text@.subrange(from as int, from as int) =~= Seq::<u8>::empty());
        assert(cut(text@, ranges@).push(text@.subrange(start as int, i as int)) =~= fields_of(
            text@.subrange(from as int, i as int),
            sep,
        ));
    }
    while i < to
        invariant
            from <= start <= i <= to <= text@.len(),
            ranges_within(ranges@, from as int, to as int),
            cut(text@, ranges@).push(text@.subrange(start as int, i as int)) == fields_of(
                text@.subrange(from as int, i as int),
                sep,
            ),
        decreases to - i,
    {
        let ghost seen = text@.subrange(from as int, i as int);
        let ghost next = text@.subrange(from as int, i + 1);
        let ghost old_cut = cut(text@, ranges@);
        proof {
            assert(next.drop_last() =~= seen);
            assert(next.last() == text@[i as int]);
        }
        if text[i] == sep {
            ranges.push((start, i));
            proof {
                assert(cut(text@, ranges@) =~= old_cut.push(
                    text@.subrange(start as int, i as int),
                ));
                assert(text@.subrange(i + 1, i + 1) =~= Seq::<u8>::empty());
            }
            start = i + 1;
        } else {
            proof {
                let before = fields_of(seen, sep);
                assert(before.drop_last() =~= old_cut);
                assert(before.last() == text@.subrange(start as int, i as int));
                assert(text@.subrange(start as int, i + 1) =~= before.last().push(
                    text@[i as int],
                ));
            }
        }
        i += 1;
    }
    let ghost old_cut = cut(text@, ranges@);
    ranges.push((start, to));
    proof {
        assert(cut(text@, ranges@) =~= old_cut.push(text@.subrange(start as int, to as int)));
    }
    ranges
}

/// Copies the part of `text` between `from` and `to`.
pub fn copy_range(text: &[u8], from: usize, to: usize) -> (copy: Vec<u8>)
    requires
        from <= to <= text@.len(),
    ensures
        copy@ == text@.subrange(from as int, to as int),
{
    let mut copy: Vec<u8> = Vec::new();
    let mut i: usize = from;
    while i < to
        invariant
            from <= i <= to <= text@.len(),
            copy@ == text@.subrange(from as int, i as int),
        decreases to - i,
    {
        copy.push(text[i]);
        proof {
            assert(copy@ =~= text@.subrange(from as int, i + 1));
        }
        i += 1;
    }
    copy
}

/// A row of digits writes no smaller a number than any of its beginnings.
pub proof fn lemma_decimal_grows(digits: Seq<u8>, n: int)
    requires
        0 <= n <= digits.len(),
        forall|i: int| 0 <= i < digits.len() ==> is_digit(#[trigger] digits[i]),
    ensures
        decimal(digits.subrange(0, n)) <= decimal(digits),
    decreases digits.len() - n,
{
    if n == digits.len() {
        assert(digits.subrange(0, n) =~= digits);
    } else {
        let longer = digits.subrange(0, n + 1);
        assert(longer.drop_last() =~= digits.subrange(0, n));
        assert(is_digit(digits[n]));
        assert(longer.last() == digits[n]);
        lemma_decimal_grows(digits, n + 1);
    }
}

/// Reads the number that the part of `text` between `from` and `to` writes.
pub fn parse_unsigned(text: &[u8], from: usize, to: usize) -> (n: Option<usize>)
    requires
        from <= to <= text@.len(),
    ensures
        n == unsigned_of(text@.subrange(from as int, to as int)),
{
    let ghost field = text@.subrange(from as int, to as int);
    let first: usize = if from < to && text[from] == PLUS {
        from + 1
    } else {
        from
    };
    let ghost digits = text@.subrange(first as int, to as int);
    proof {
        if from < to {
            assert(field[0] == text@[from as int]);
        }
        assert(digits_of(field) =~= digits);
    }
    if first == to {
        return None;
    }
    let mut value: usize = 0;
    let mut i: usize = first;
    proof {
        assert(digits.subrange(0, 0) =~= Seq::<u8>::empty());
    }
    while i < to
        invariant
            first <= i <= to <= text@.len(),
            digits == text@.subrange(first as int, to as int),
            digits == digits_of(text@.subrange(from as int, to as int)),
            forall|k: int| 0 <= k < i - first ==> is_digit(#[trigger] digits[k]),
            value == decimal(digits.subrange(0, i - first)),
        decreases to - i,
    {
        let b: u8 = text[i];
        assert(b == digits[i - first]);
        if b < 48 || b > 57 {
            assert(!is_digit(digits[i - first]));
            return None;
        }
        let ghost longer = digits.subrange(0, i - first + 1);
        proof {
            assert(longer.drop_last() =~= digits.subrange(0, i - first));
            assert(longer.last() == b);
        }
        let d: usize = (b - 48) as usize;
        let tens = value.checked_mul(10);
        let sum = match tens {
            Some(t) => t.checked_add(d),
            None => None,
        };
        match sum {
            Some(v) => {
                value = v;
            },
            None => {
                proof {
                    assert(decimal(longer) > usize::MAX);
                    if forall|k: int| 0 <= k < digits.len() ==> is_digit(#[trigger] digits[k]) {
                        lemma_decimal_grows(digits, i - first + 1);
                    }
                }
                return None;
            },
        }
        i += 1;
    }
    proof {
        assert(digits.subrange(0, to - first) =~= digits);
    }
    Some(value)
}

/// Goes over the digits that stand from `at` on in the part of `text`
/// between `base` and `to`.
fn skip_digits(text: &[u8], base: usize, at: usize, to: usize) -> (end: usize)
    requires
        base <= at <= to <= text@.len(),
    ensures
        at <= end <= to,
        end - base == digits_end(text@.subrange(base as int, to as int), at - base),
{
    let ghost part = text@.subrange(base as int, to as int);
    let mut end: usize = at;
    while end < to && text[end] >= 48 && text[end] <= 57
        invariant
            at <= end <= to <= text@.len(),
            base <= at,
            part == text@.subrange(base as int, to as int),
            digits_end(part, at - base) == digits_end(part, end - base),
        decreases to - end,
    {
        assert(part[end - base] == text@[end as int]);
        end += 1;
    }
    proof {
        if end < to {
            assert(part[end - base] == text@[end as int]);
        }
    }
    end
}

/// Whether the part of `text` between `from` and `to` is `word` but for the
/// case of its letters.
fn spells_word(text: &[u8], from: usize, to: usize, word: &Vec<u8>) -> (same: bool)
    requires
        from <= to <= text@.len(),
    ensures
        same == spells(text@.subrange(from as int, to as int), word@),
{
    let ghost part = text@.subrange(from as int, to as int);
    if to - from != word.len() {
        return false;
    }
    let mut i: usize = 0;
    while i < word.len()
        invariant
            i <= word@.len(),
            from <= to <= text@.len(),
            to - from == word@.len(),
            part == text@.subrange(from as int, to as int),
            forall|k: int| 0 <= k < i ==> lowered(#[trigger] part[k]) == word@[k],
        decreases word@.len() - i,
    {
        let b: u8 = text[from + i];
        let lower: u8 = if b >= 65 && b <= 90 {
            b + 32
        } else {
            b
        };
        assert(part[i as int] == b);
        if lower != word[i] {
            return false;
        }
        i += 1;
    }
    true
}

/// Whether the part of `text` between `from` and `to` is a decimal number
/// without a sign.
fn is_decimal_at(text: &[u8], from: usize, to: usize) -> (decimal: bool)
    requires
        from <= to <= text@.len(),
    ensures
        decimal == is_decimal(text@.subrange(from as int, to as int)),
{
    let ghost part = text@.subrange(from as int, to as int);
    let whole_end = skip_digits(text, from, from, to);
    let pointed = whole_end < to && text[whole_end] == POINT;
    proof {
        if whole_end < to {
            assert(part[whole_end - from] == text@[whole_end as int]);
        }
    }
    let end = if pointed {
        skip_digits(text, from, whole_end + 1, to)
    } else {
        whole_end
    };
    let digits = if pointed {
        end - from - 1
    } else {
        end - from
    };
    if digits < 1 {
        return false;
    }
    if end == to {
        return true;
    }
    let letter: u8 = text[end];
    let lower: u8 = if letter >= 65 && letter <= 90 {
        letter + 32
    } else {
        letter
    };
    proof {
        assert(part[end - from] == letter);
        if end + 1 < to {
            assert(part[end + 1 - from] == text@[end + 1]);
        }
    }
    if lower != LOWER_E {
        return false;
    }
    let first = if end + 1 < to && (text[end + 1] == PLUS || text[end + 1] == MINUS) {
        end + 2
    } else {
        end + 1
    };
    if first >= to {
        return false;
    }
    skip_digits(text, from, first, to) == to
}

/// Whether the part of `text` between `from` and `to` writes a number.
pub fn is_number_at(text: &[u8], from: usize, to: usize) -> (number: bool)
    requires
        from <= to <= text@.len(),
    ensures
        number == is_number(text@.subrange(from as int, to as int)),
{
    let ghost field = text@.subrange(from as int, to as int);
    let start = if from < to && (text[from] == PLUS || text[from] == MINUS) {
        from + 1
    } else {
        from
    };
    proof {
        if from < to {
            assert(field[0] == text@[from as int]);
        }
        assert(unsigned_part(field) =~= text@.subrange(start as int, to as int));
    }
    if is_decimal_at(text, start, to) {
        return true;
    }
    let inf: Vec<u8> = vec![105u8, 110u8, 102u8];
    let infinity: Vec<u8> = vec![105u8, 110u8, 102u8, 105u8, 110u8, 105u8, 116u8, 121u8];
    let nan: Vec<u8> = vec![110u8, 97u8, 110u8];
    proof {
        assert(inf@ =~= word_inf());
        assert(infinity@ =~= word_infinity());
        assert(nan@ =~= word_nan());
    }
    spells_word(text, start, to, &inf) || spells_word(text, start, to, &infinity) || spells_word(
        text,
        start,
        to,
        &nan,
    )
}

/// Reads the face corner that the part of `text` between `from` and `to`
/// writes.
pub fn parse_corner(text: &[u8], from: usize, to: usize) -> (corner: Result<usize, ObjErrorKind>)
    requires
        from <= to <= text@.len(),
    ensures
        corner == corner_of(text@.subrange(from as int, to as int)),
{
    let parts = split_ranges(text, from, to, SLASH);
    let (a, b) = parts[0];
    proof {
        let field = text@.subrange(from as int, to as int);
        assert(cut(text@, parts@)[0] == text@.subrange(a as int, b as int));
        assert(fields_of(field, SLASH)[0] == text@.subrange(a as int, b as int));
    }
    match parse_unsigned(text, a, b) {
        None => Err(ObjErrorKind::BadIndex),
        Some(n) => if n == 0 {
            Err(ObjErrorKind::ZeroIndex)
        } else {
            Ok(n - 1)
        },
    }
}

/// Whether the part of `text` between `from` and `to` is the one byte `tag`.
fn is_tag(text: &[u8], from: usize, to: usize, tag: u8) -> (same: bool)
    requires
        from <= to <= text@.len(),
    ensures
        same == (text@.subrange(from as int, to as int) == seq![tag]),
{
    if to - from == 1 && text[from] == tag {
        assert(text@.subrange(from as int, to as int) =~= seq![tag]);
        true
    } else {
        proof {
            let piece = text@.subrange(from as int, to as int);
            if piece == seq![tag] {
                assert(piece.len() == 1);
                assert(piece[0] == tag);
            }
        }
        false
    }
}

/// Reads a face line from its fields.
fn parse_face(text: &[u8], fields: &Vec<(usize, usize)>) -> (line: Result<ObjLine, ObjErrorKind>)
    requires
        ranges_within(fields@, 0, text@.len() as int),
    ensures
        match line {
            Ok(l) => face_of(cut(text@, fields@)) == Ok::<LineContent, ObjErrorKind>(l@),
            Err(e) => face_of(cut(text@, fields@)) == Err::<LineContent, ObjErrorKind>(e),
        },
{
    if fields.len() < 4 {
        return Err(ObjErrorKind::MissingField);
    }
    let ghost pieces = cut(text@, fields@);
    assert(pieces[1] == text@.subrange(fields@[1].0 as int, fields@[1].1 as int));
    assert(pieces[2] == text@.subrange(fields@[2].0 as int, fields@[2].1 as int));
    assert(pieces[3] == text@.subrange(fields@[3].0 as int, fields@[3].1 as int));
    let a = match parse_corner(text, fields[1].0, fields[1].1) {
        Err(e) => {
            return Err(e);
        },
        Ok(a) => a,
    };
    let b = match parse_corner(text, fields[2].0, fields[2].1) {
        Err(e) => {
            return Err(e);
        },
        Ok(b) => b,
    };
    let c = match parse_corner(text, fields[3].0, fields[3].1) {
        Err(e) => {
            return Err(e);
        },
        Ok(c) => c,
    };
    if fields.len() == 5 {
        assert(pieces[4] == text@.subrange(fields@[4].0 as int, fields@[4].1 as int));
        match parse_corner(text, fields[4].0, fields[4].1) {
            Err(e) => Err(e),
            Ok(d) => Ok(ObjLine::Quad(Face { v0: a, v1: b, v2: c }, Face { v0: a, v1: c, v2: d })),
        }
    } else {
        Ok(ObjLine::Triangle(Face { v0: a, v1: b, v2: c }))
    }
}

/// Reads the line that stands in `text` between `from` and `to`.
pub fn parse_line_at(text: &[u8], from: usize, to: usize) -> (line: Result<ObjLine, ObjErrorKind>)
    requires
        from <= to <= text@.len(),
    ensures
        match line {
            Ok(l) => line_of(text@.subrange(from as int, to as int)) == Ok::<
                LineContent,
                ObjErrorKind,
            >(l@),
            Err(e) => line_of(text@.subrange(from as int, to as int)) == Err::<
                LineContent,
                ObjErrorKind,
            >(e),
        },
{
    let fields = split_ranges(text, from, to, SPACE);
    let ghost pieces = cut(text@, fields@);
    assert(pieces[0] == text@.subrange(fields@[0].0 as int, fields@[0].1 as int));
    if is_tag(text, fields[0].0, fields[0].1, VERTEX_TAG) {
        if fields.len() < 4 {
            return Err(ObjErrorKind::MissingField);
        }
        assert(pieces[1] == text@.subrange(fields@[1].0 as int, fields@[1].1 as int));
        assert(pieces[2] == text@.subrange(fields@[2].0 as int, fields@[2].1 as int));
        assert(pieces[3] == text@.subrange(fields@[3].0 as int, fields@[3].1 as int));
        let numbers = is_number_at(text, fields[1].0, fields[1].1) && is_number_at(
            text,
            fields[2].0,
            fields[2].1,
        ) && is_number_at(text, fields[3].0, fields[3].1);
        if !numbers {
            return Err(ObjErrorKind::BadCoordinate);
        }
        let x = copy_range(text, fields[1].0, fields[1].1);
        let y = copy_range(text, fields[2].0, fields[2].1);
        let z = copy_range(text, fields[3].0, fields[3].1);
        Ok(ObjLine::Vertex(VertexText { x, y, z }))
    } else if is_tag(text, fields[0].0, fields[0].1, FACE_TAG) {
        parse_face(text, &fields)
    } else {
        Ok(ObjLine::Skip)
    }
}

/// Marks the lines of `text`.
pub fn line_ranges(text: &[u8]) -> (lines: Vec<(usize, usize)>)
    ensures
        cut(text@, lines@) == lines_of(text@),
        ranges_within(lines@, 0, text@.len() as int),
{
    let pieces = split_ranges(text, 0, text.len(), NEWLINE);
    let ghost whole = fields_of(text@, NEWLINE);
    proof {
        assert(text@.subrange(0, text@.len() as int) =~= text@);
    }
    let last: usize = pieces.len() - 1;
    let mut lines: Vec<(usize, usize)> = Vec::new();
    let mut k: usize = 0;
    while k < last
        invariant
            k <= last,
            last + 1 == pieces@.len(),
            cut(text@, pieces@) == whole,
            ranges_within(pieces@, 0, text@.len() as int),
            ranges_within(lines@, 0, text@.len() as int),
            cut(text@, lines@) == Seq::new(k as nat, |j: int| strip_cr(whole[j])),
        decreases last - k,
    {
        let (a, b) = pieces[k];
        let ghost old_cut = cut(text@, lines@);
        proof {
            assert(whole[k as int] == text@.subrange(a as int, b as int));
        }
        let end: usize = if b > a && text[b - 1] == CARRIAGE_RETURN {
            b - 1
        } else {
            b
        };
        proof {
            assert(text@.subrange(a as int, end as int) =~= strip_cr(whole[k as int]));
        }
        lines.push((a, end));
        proof {
            assert(cut(text@, lines@) =~= old_cut.push(strip_cr(whole[k as int])));
            assert(cut(text@, lines@) =~= Seq::new((k + 1) as nat, |j: int| strip_cr(whole[j])));
        }
        k += 1;
    }
    let (a, b) = pieces[last];
    proof {
        assert(whole[last as int] == text@.subrange(a as int, b as int));
        assert(whole.last() == whole[last as int]);
    }
    if b > a {
        let ghost old_cut = cut(text@, lines@);
        lines.push((a, b));
        proof {
            assert(cut(text@, lines@) =~= old_cut.push(whole.last()));
        }
    }
    lines
}

/// No line of `lines` before line `count` is refused.
pub open spec fn accepted(lines: Seq<Seq<u8>>, count: int) -> bool {
    forall|j: int| 0 <= j < count ==> (#[trigger] line_of(lines[j])) is Ok
}

/// Reader of triangle meshes written as text: one vertex or one face per line.
pub struct ObjLoader;

impl ObjLoader {
    /// Reads one line.
    pub fn parse_line(line: &[u8]) -> (content: Result<ObjLine, ObjErrorKind>)
        ensures
            match content {
                Ok(l) => line_of(line@) == Ok::<LineContent, ObjErrorKind>(l@),
                Err(e) => line_of(line@) == Err::<LineContent, ObjErrorKind>(e),
            },
    {
        proof {
            assert(line@.subrange(0, line@.len() as int) =~= line@);
        }
        parse_line_at(line, 0, line.len())
    }

    /// Reads a whole text.
    ///
    /// The text is accepted when each of its lines is; the model then holds
    /// the vertices and the triangles of all lines, in their order. Otherwise
    /// the error names the first line that is refused.
    pub fn load(text: &[u8]) -> (model: Result<ObjModel, ObjError>)
        ensures
            match model {
                Ok(m) => {
                    &&& accepted(lines_of(text@), lines_of(text@).len() as int)
                    &&& texts(m.vertexes@) == vertexes_of(lines_of(text@))
                    &&& m.faces@ == faces_of(lines_of(text@))
                },
                Err(e) => {
                    &&& e.line < lines_of(text@).len()
                    &&& accepted(lines_of(text@), e.line as int)
                    &&& line_of(lines_of(text@)[e.line as int]) == Err::<
                        LineContent,
                        ObjErrorKind,
                    >(e.kind)
                },
            },
    {
        let ranges = line_ranges(text);
        let ghost lines = lines_of(text@);
        let mut vertexes: Vec<VertexText> = Vec::new();
        let mut faces: Vec<Face> = Vec::new();
        let mut k: usize = 0;
        proof {
            assert(lines.subrange(0, 0) =~= Seq::<Seq<u8>>::empty());
            assert(texts(vertexes@) =~= vertexes_of(lines.subrange(0, 0)));
        }
        while k < ranges.len()
            invariant
                k <= ranges@.len(),
                lines == lines_of(text@),
                cut(text@, ranges@) == lines,
                ranges_within(ranges@, 0, text@.len() as int),
                accepted(lines, k as int),
                texts(vertexes@) == vertexes_of(lines.subrange(0, k as int)),
                faces@ == faces_of(lines.subrange(0, k as int)),
            decreases ranges@.len() - k,
        {
            let (a, b) = ranges[k];
            let ghost seen = lines.subrange(0, k as int);
            let ghost next = lines.subrange(0, k + 1);
            let ghost old_texts = texts(vertexes@);
            proof {
                assert(lines[k as int] == text@.subrange(a as int, b as int));
                assert(next.drop_last() =~= seen);
                assert(next.last() == lines[k as int]);
            }
            match parse_line_at(text, a, b) {
                Err(kind) => {
                    return Err(ObjError { line: k, kind });
                },
                Ok(ObjLine::Skip) => {},
                Ok(ObjLine::Vertex(v)) => {
                    let ghost fields = v@;
                    vertexes.push(v);
                    proof {
                        assert(texts(vertexes@) =~= old_texts.push(fields));
                    }
                },
                Ok(ObjLine::Triangle(f)) => {
                    faces.push(f);
                },
                Ok(ObjLine::Quad(f, g)) => {
                    faces.push(f);
                    faces.push(g);
                },
            }
            k += 1;
        }
        proof {
            assert(lines.subrange(0, k as int) =~= lines);
        }
        Ok(ObjModel { vertexes, faces })
    }
}

} // verus!
